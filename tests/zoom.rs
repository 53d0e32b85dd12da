use cap_zoom::bounds::SegmentBounds;
use cap_zoom::easing::Easing;
use cap_zoom::fixed::{UNIT, XY};
use cap_zoom::segment::{SegmentsCursor, ZoomMode, ZoomSegment};
use cap_zoom::zoom::{InterpolatedZoom, ZoomCurves, ZOOM_DURATION};

fn fx(v: f64) -> i64 {
    (v * UNIT as f64).round() as i64
}

fn zoom_duration() -> f64 {
    ZOOM_DURATION as f64 / UNIT as f64
}

fn manual(start: f64, end: f64, amount: f64, x: f64, y: f64) -> ZoomSegment {
    ZoomSegment {
        start: fx(start),
        end: fx(end),
        amount: fx(amount),
        mode: ZoomMode::Manual { x: fx(x), y: fx(y) },
    }
}

struct Expected {
    t: f64,
    top_left: (f64, f64),
    bottom_right: (f64, f64),
}

fn expect(t: f64, top_left: (f64, f64), bottom_right: (f64, f64)) -> Expected {
    Expected { t, top_left, bottom_right }
}

fn whole(t: f64) -> Expected {
    expect(t, (0.0, 0.0), (1.0, 1.0))
}

fn near(actual: i64, expected: f64, label: &str) {
    let a = actual as f64 / UNIT as f64;
    assert!((a - expected).abs() < 1e-6, "{}: left {:?}, right {:?}", label, a, expected);
}

fn interp(time: f64, segments: &[ZoomSegment]) -> InterpolatedZoom {
    let linear = Easing::linear();
    InterpolatedZoom::new_with_easing(SegmentsCursor::new(fx(time), segments), None, &linear, &linear)
}

fn test_interp((time, segments): (f64, &[ZoomSegment]), expected: Expected) {
    let actual = interp(time, segments);
    near(actual.t, expected.t, "t");
    let a = &actual.bounds;
    near(a.top_left.x, expected.top_left.0, "bounds.top_left.x");
    near(a.top_left.y, expected.top_left.1, "bounds.top_left.y");
    near(a.bottom_right.x, expected.bottom_right.0, "bounds.bottom_right.x");
    near(a.bottom_right.y, expected.bottom_right.1, "bounds.bottom_right.y");
}

#[test]
fn one_segment() {
    let d = zoom_duration();
    let segments = vec![manual(2.0, 4.0, 2.0, 0.5, 0.5)];

    test_interp((0.0, &segments), whole(0.0));
    test_interp((2.0, &segments), whole(0.0));
    test_interp((2.0 + d * 0.1, &segments), expect(0.1, (-0.05, -0.05), (1.05, 1.05)));
    test_interp((2.0 + d * 0.9, &segments), expect(0.9, (-0.45, -0.45), (1.45, 1.45)));
    test_interp((2.0 + d, &segments), expect(1.0, (-0.5, -0.5), (1.5, 1.5)));
    test_interp((4.0, &segments), expect(1.0, (-0.5, -0.5), (1.5, 1.5)));
    test_interp((4.0 + d * 0.2, &segments), expect(0.8, (-0.4, -0.4), (1.4, 1.4)));
    test_interp((4.0 + d * 0.8, &segments), expect(0.2, (-0.1, -0.1), (1.1, 1.1)));
    test_interp((4.0 + d, &segments), expect(0.0, (0.0, 0.0), (1.0, 1.0)));
}

#[test]
fn two_segments_no_gap() {
    let d = zoom_duration();
    let segments = vec![manual(2.0, 4.0, 2.0, 0.0, 0.0), manual(4.0, 6.0, 4.0, 0.5, 0.5)];

    test_interp((4.0, &segments), expect(1.0, (0.0, 0.0), (2.0, 2.0)));
    test_interp((4.0 + d * 0.2, &segments), expect(1.0, (-0.3, -0.3), (2.1, 2.1)));
    test_interp((4.0 + d * 0.8, &segments), expect(1.0, (-1.2, -1.2), (2.4, 2.4)));
    test_interp((4.0 + d, &segments), expect(1.0, (-1.5, -1.5), (2.5, 2.5)));
}

#[test]
fn two_segments_small_gap() {
    let d = zoom_duration();
    let segments = vec![
        manual(2.0, 4.0, 2.0, 0.5, 0.5),
        manual(4.0 + d * 0.75, 6.0, 4.0, 0.5, 0.5),
    ];

    test_interp((4.0, &segments), expect(1.0, (-0.5, -0.5), (1.5, 1.5)));
    test_interp((4.0 + d * 0.5, &segments), expect(0.5, (-0.25, -0.25), (1.25, 1.25)));
    test_interp((4.0 + d * 0.75, &segments), expect(0.25, (-0.125, -0.125), (1.125, 1.125)));
    test_interp(
        (4.0 + d * (0.75 + 0.5), &segments),
        expect(0.625, (-0.8125, -0.8125), (1.8125, 1.8125)),
    );
    test_interp((4.0 + d * (0.75 + 1.0), &segments), expect(1.0, (-1.5, -1.5), (2.5, 2.5)));
}

#[test]
fn two_segments_large_gap() {
    let d = zoom_duration();
    let segments = vec![manual(2.0, 4.0, 2.0, 0.5, 0.5), manual(7.0, 9.0, 4.0, 0.0, 0.0)];

    test_interp((4.0, &segments), expect(1.0, (-0.5, -0.5), (1.5, 1.5)));
    test_interp((4.0 + d * 0.5, &segments), expect(0.5, (-0.25, -0.25), (1.25, 1.25)));
    test_interp((4.0 + d, &segments), expect(0.0, (0.0, 0.0), (1.0, 1.0)));
    test_interp((7.0, &segments), expect(0.0, (0.0, 0.0), (1.0, 1.0)));
    test_interp((7.0 + d * 0.5, &segments), expect(0.5, (0.0, 0.0), (2.5, 2.5)));
    test_interp((7.0 + d * 1.0, &segments), expect(1.0, (0.0, 0.0), (4.0, 4.0)));
}

#[test]
fn before_any_segment_shows_whole_frame() {
    let segments = vec![manual(2.0, 4.0, 3.0, 0.2, 0.7), manual(5.0, 6.0, 2.0, 0.5, 0.5)];
    for time in [-1.0, 0.0, 1.0, 1.999, 2.0] {
        test_interp((time, &segments), whole(0.0));
    }
}

#[test]
fn empty_segment_list_shows_whole_frame() {
    test_interp((3.0, &[]), whole(0.0));
}

#[test]
fn segment_end_shows_segment_bounds() {
    let segments = vec![manual(1.0, 3.0, 3.0, 0.2, 0.6)];
    let r = interp(3.0, &segments);
    assert_eq!(r.t, UNIT);
    assert_eq!(r.bounds, SegmentBounds::from_segment(&segments[0], fx(3.0), None));
}

#[test]
fn short_segment_end_is_partial() {
    let segments = vec![manual(1.0, 1.5, 2.0, 0.5, 0.5)];
    test_interp((1.5, &segments), expect(0.5, (-0.25, -0.25), (1.25, 1.25)));
}

#[test]
fn one_duration_after_last_segment_resets() {
    let d = zoom_duration();
    let segments = vec![manual(1.0, 2.0, 2.0, 0.5, 0.5), manual(3.0, 5.0, 3.0, 0.1, 0.9)];
    test_interp((5.0 + d, &segments), whole(0.0));
    test_interp((9.0, &segments), whole(0.0));
}

#[test]
fn touching_segments_never_dip() {
    let segments = vec![manual(2.0, 4.0, 2.0, 0.0, 0.0), manual(4.0, 6.0, 4.0, 0.5, 0.5)];
    for time in [4.001, 4.3, 4.999, 5.5, 6.0] {
        assert_eq!(interp(time, &segments).t, UNIT);
    }
    assert_eq!(interp(3.5, &segments).t, UNIT);
}

#[test]
fn large_gap_matches_isolated_segment() {
    let pair = vec![manual(2.0, 4.0, 2.0, 0.5, 0.5), manual(7.0, 9.0, 4.0, 0.0, 0.0)];
    let alone = vec![manual(7.0, 9.0, 4.0, 0.0, 0.0)];
    for time in [7.0, 7.25, 7.5, 8.0, 9.0] {
        assert_eq!(interp(time, &pair), interp(time, &alone));
    }
}

#[test]
fn repeated_calls_agree() {
    let segments = vec![manual(2.0, 4.0, 2.0, 0.5, 0.5), manual(4.75, 6.0, 4.0, 0.3, 0.5)];
    for time in [1.0, 4.2, 5.25, 6.5] {
        assert_eq!(interp(time, &segments), interp(time, &segments));
    }
}

#[test]
fn chained_short_gaps() {
    let segments = vec![
        manual(1.0, 2.0, 2.0, 0.5, 0.5),
        manual(2.5, 3.0, 2.0, 0.5, 0.5),
        manual(3.5, 5.0, 2.0, 0.5, 0.5),
    ];
    // A zoom-out runs from the bounds of the segment that ended, whatever
    // state that segment had reached.
    test_interp((3.5, &segments), expect(0.5, (-0.25, -0.25), (1.25, 1.25)));
    test_interp((3.75, &segments), expect(0.625, (-0.3125, -0.3125), (1.3125, 1.3125)));
}

#[test]
fn curves_are_applied() {
    let ease_in = Easing::from_samples(vec![0, UNIT / 4, UNIT]).unwrap();
    let ease_out = Easing::linear();
    let curves = ZoomCurves { ease_in, ease_out };
    let segments = vec![manual(2.0, 4.0, 2.0, 0.5, 0.5)];
    let r = InterpolatedZoom::new(SegmentsCursor::new(fx(2.5), &segments), None, &curves);
    near(r.t, 0.25, "t");
    near(r.bounds.top_left.x, -0.125, "top_left.x");
    let r = InterpolatedZoom::new(SegmentsCursor::new(fx(4.5), &segments), None, &curves);
    near(r.t, 0.5, "t");
}

#[test]
fn display_amount_is_width() {
    let segments = vec![manual(2.0, 4.0, 2.0, 0.5, 0.5)];
    near(interp(3.5, &segments).display_amount(), 2.0, "amount");
    near(interp(2.5, &segments).display_amount(), 1.5, "amount");
    let z = InterpolatedZoom {
        t: 0,
        bounds: SegmentBounds::new(XY::new(-3, 0), XY::new(7, 10)),
    };
    assert_eq!(z.display_amount(), 10);
}
