use cap_zoom::bounds::SegmentBounds;
use cap_zoom::cursor::{
    get_smoothed_cursor_position, CursorEvents, CursorMoveEvent, KnownPosition, CURSOR_SMOOTHING_WINDOW,
};
use cap_zoom::easing::Easing;
use cap_zoom::fixed::{lerp, UNIT, XY};
use cap_zoom::flags::Flags;
use cap_zoom::segment::{SegmentsCursor, ZoomMode, ZoomSegment};

fn seg(start: i64, end: i64) -> ZoomSegment {
    ZoomSegment { start, end, amount: 2 * UNIT, mode: ZoomMode::Manual { x: 0, y: 0 } }
}

fn mv(time: i64, x: i64, y: i64) -> CursorMoveEvent {
    CursorMoveEvent { time, x, y }
}

#[test]
fn locator_excludes_start_includes_end() {
    let segs = vec![seg(10, 20), seg(30, 40)];
    let c = SegmentsCursor::new(10, &segs);
    assert_eq!((c.segment, c.prev_segment), (None, None));
    let c = SegmentsCursor::new(20, &segs);
    assert_eq!((c.segment, c.prev_segment), (Some(0), None));
    let c = SegmentsCursor::new(30, &segs);
    assert_eq!((c.segment, c.prev_segment), (None, Some(0)));
    let c = SegmentsCursor::new(31, &segs);
    assert_eq!((c.segment, c.prev_segment), (Some(1), Some(0)));
    let c = SegmentsCursor::new(100, &segs);
    assert_eq!((c.segment, c.prev_segment), (None, Some(1)));
}

#[test]
fn locator_previous_is_latest_end_when_idle() {
    let segs = vec![seg(10, 50), seg(20, 30)];
    let c = SegmentsCursor::new(60, &segs);
    assert_eq!((c.segment, c.prev_segment), (None, Some(0)));
    let segs = vec![seg(10, 30), seg(20, 30)];
    let c = SegmentsCursor::new(60, &segs);
    assert_eq!(c.prev_segment, Some(1));
}

#[test]
fn manual_bounds_keep_focus_fixed() {
    let s = ZoomSegment { start: 0, end: 10, amount: 2 * UNIT, mode: ZoomMode::Manual { x: 250_000, y: 750_000 } };
    let b = SegmentBounds::from_segment(&s, 5, None);
    assert_eq!(b.top_left, XY::new(-250_000, -750_000));
    assert_eq!(b.bottom_right, XY::new(1_750_000, 1_250_000));
}

#[test]
fn auto_bounds_without_cursor_use_centre() {
    let s = ZoomSegment { start: 0, end: 10, amount: 3 * UNIT, mode: ZoomMode::Auto };
    let b = SegmentBounds::from_segment(&s, 5, None);
    assert_eq!(b, SegmentBounds::new(XY::new(-UNIT, -UNIT), XY::new(2 * UNIT, 2 * UNIT)));
    let empty = CursorEvents { moves: vec![], known: vec![] };
    assert_eq!(SegmentBounds::from_segment(&s, 5, Some(&empty)), b);
}

#[test]
fn auto_bounds_follow_cursor() {
    let s = ZoomSegment { start: 0, end: 10_000_000, amount: 2 * UNIT, mode: ZoomMode::Auto };
    let events = CursorEvents { moves: vec![mv(1_000_000, 0, 0)], known: vec![] };
    let b = SegmentBounds::from_segment(&s, 2_000_000, Some(&events));
    assert_eq!(b, SegmentBounds::new(XY::new(0, 0), XY::new(2 * UNIT, 2 * UNIT)));
}

#[test]
fn default_bounds_are_whole_frame() {
    assert_eq!(SegmentBounds::default(), SegmentBounds::new(XY::new(0, 0), XY::new(UNIT, UNIT)));
}

#[test]
fn smoothing_weights_samples_in_window() {
    let events = CursorEvents {
        moves: vec![mv(1_000_000, 100_000, 200_000), mv(1_025_000, 400_000, 800_000), mv(2_000_000, UNIT, UNIT)],
        known: vec![KnownPosition { time: 1_000_000, position: XY::new(900_000, 900_000) }],
    };
    // Weights: 1 at the query time, 2/3 at 25 ms of a 75 ms half-window.
    let p = get_smoothed_cursor_position(&events, 1_000_000, CURSOR_SMOOTHING_WINDOW).unwrap();
    assert_eq!(p, XY::new(220_000, 440_000));
}

#[test]
fn smoothing_falls_back_to_known_position() {
    let events = CursorEvents {
        moves: vec![mv(5_000_000, 100_000, 100_000)],
        known: vec![KnownPosition { time: 1_000_000, position: XY::new(300_000, 600_000) }],
    };
    let p = get_smoothed_cursor_position(&events, 1_000_000, CURSOR_SMOOTHING_WINDOW);
    assert_eq!(p, Some(XY::new(300_000, 600_000)));
}

#[test]
fn neighbours_are_interpolated() {
    let events = CursorEvents { moves: vec![mv(1_000_000, 0, UNIT), mv(2_000_000, UNIT, 0)], known: vec![] };
    let p = get_smoothed_cursor_position(&events, 1_250_000, CURSOR_SMOOTHING_WINDOW);
    assert_eq!(p, Some(XY::new(250_000, 750_000)));
}

#[test]
fn single_neighbour_is_used() {
    let events = CursorEvents { moves: vec![mv(3_000_000, 400_000, 500_000)], known: vec![] };
    assert_eq!(get_smoothed_cursor_position(&events, 1_000_000, CURSOR_SMOOTHING_WINDOW), Some(XY::new(400_000, 500_000)));
    assert_eq!(get_smoothed_cursor_position(&events, 5_000_000, CURSOR_SMOOTHING_WINDOW), Some(XY::new(400_000, 500_000)));
}

#[test]
fn no_samples_no_position() {
    let events = CursorEvents { moves: vec![], known: vec![] };
    assert_eq!(get_smoothed_cursor_position(&events, 1_000_000, CURSOR_SMOOTHING_WINDOW), None);
}

#[test]
fn easing_rejects_bad_samples() {
    assert!(Easing::from_samples(vec![0]).is_none());
    assert!(Easing::from_samples(vec![0, UNIT + 1]).is_none());
    assert!(Easing::from_samples(vec![-1, UNIT]).is_none());
    assert!(Easing::from_samples(vec![0, 600_000, 500_000, UNIT]).is_none());
    assert!(Easing::from_samples(vec![0, 500_000, UNIT]).is_some());
}

#[test]
fn easing_interpolates_samples() {
    let e = Easing::from_samples(vec![0, 200_000, UNIT]).unwrap();
    assert_eq!(e.apply(0), 0);
    assert_eq!(e.apply(250_000), 100_000);
    assert_eq!(e.apply(500_000), 200_000);
    assert_eq!(e.apply(750_000), 600_000);
    assert_eq!(e.apply(UNIT), UNIT);
    assert_eq!(Easing::linear().apply(123_456), 123_456);
}

#[test]
fn lerp_rounds_down() {
    assert_eq!(lerp(0, 10, 500_000), 5);
    assert_eq!(lerp(0, -3, 500_000), -2);
    assert_eq!(lerp(7, 7, 300_000), 7);
}

#[test]
fn shipped_flags() {
    let f = Flags::shipped();
    assert!(f.record_mouse_state);
    assert!(!f.split);
}
