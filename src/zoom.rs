//! The zoom interpolator: progress and crop rectangle at a playback time.

use vstd::prelude::*;
use crate::bounds::{bounds_for_spec, lemma_lerp_bounds, lerp_bounds, lerp_bounds_spec, SegmentBounds};
use crate::cursor::CursorEvents;
use crate::easing::{ease_spec, lemma_ease_full, samples_wf, Easing};
use crate::fixed::{clamp_unit, clamp_unit_spec, floor_div, UNIT};
use crate::segment::{
    all_wf, current_index, lemma_current_is, lemma_first_active_props, latest_ended, lemma_latest_ended_props,
    lemma_previous_is, previous_index, sorted_disjoint, SegmentsCursor, ZoomSegment,
};

verus! {

/// Length of every zoom transition: one second, in microseconds.
pub const ZOOM_DURATION: i64 = 1_000_000;

/// The zoom state at one time.
#[derive(Debug, Clone, Copy, PartialEq, Eq, Structural)]
pub struct InterpolatedZoom {
    /// Progress of the current transition towards its own magnification,
    /// in `[0, UNIT]`.
    pub t: i64,
    pub bounds: SegmentBounds,
}

/// The easing curves used when zooming in and when zooming out.
#[derive(Debug, Clone)]
pub struct ZoomCurves {
    pub ease_in: Easing,
    pub ease_out: Easing,
}

impl ZoomCurves {
    pub open spec fn wf(&self) -> bool {
        self.ease_in.wf() && self.ease_out.wf()
    }
}

/// Linear progress of a transition that began at `from`, clamped to `[0, UNIT]`.
pub open spec fn progress_spec(time: int, from: int) -> int {
    clamp_unit_spec((time - from) * UNIT / (ZOOM_DURATION as int))
}

/// `m + (UNIT - m) * z`: progress resumed from `m` by the fraction `z`.
pub open spec fn resume_spec(m: int, z: int) -> int {
    m * (UNIT - z) / (UNIT as int) + z
}

/// The zoom state at `time` for `segs`, with the easing samples `ein` and `eout`.
///
/// - Nothing before and nothing running: the whole frame, progress zero.
/// - Only a segment that has ended: zooming out from its bounds.
/// - Only a running segment: zooming in from the whole frame.
/// - Both: when they touch, blending the two bounds at full progress; when
///   the gap is shorter than a transition, zooming in from the state that the
///   interrupted zoom-out had reached when the segment began; else as if
///   nothing came before.
pub open spec fn interpolate_spec(
    time: i64,
    segs: Seq<ZoomSegment>,
    track: Option<&CursorEvents>,
    ein: Seq<i64>,
    eout: Seq<i64>,
) -> InterpolatedZoom
    decreases time - i64::MIN,
{
    let default = SegmentBounds::default_spec();
    match (previous_index(segs, time as int), current_index(segs, time as int)) {
        (Some(p), None) => {
            let z = ease_spec(eout, progress_spec(time as int, segs[p].end as int));
            InterpolatedZoom {
                t: (UNIT - z) as i64,
                bounds: lerp_bounds_spec(bounds_for_spec(segs[p], time as int, track), default, z),
            }
        },
        (None, Some(c)) => {
            let z = ease_spec(ein, progress_spec(time as int, segs[c].start as int));
            InterpolatedZoom {
                t: z as i64,
                bounds: lerp_bounds_spec(default, bounds_for_spec(segs[c], time as int, track), z),
            }
        },
        (Some(p), Some(c)) => {
            let z = ease_spec(ein, progress_spec(time as int, segs[c].start as int));
            let cur = bounds_for_spec(segs[c], time as int, track);
            if segs[c].start == segs[p].end {
                InterpolatedZoom {
                    t: UNIT,
                    bounds: lerp_bounds_spec(bounds_for_spec(segs[p], time as int, track), cur, z),
                }
            } else if segs[c].start - segs[p].end < ZOOM_DURATION {
                proof {
                    lemma_first_active_props(segs, time as int, 0);
                }
                let m = interpolate_spec(segs[c].start, segs, track, ein, eout);
                InterpolatedZoom {
                    t: resume_spec(m.t as int, z) as i64,
                    bounds: lerp_bounds_spec(m.bounds, cur, z),
                }
            } else {
                InterpolatedZoom { t: z as i64, bounds: lerp_bounds_spec(default, cur, z) }
            }
        },
        (None, None) => InterpolatedZoom { t: 0, bounds: default },
    }
}

/// An easing curve that ends at full progress.
pub open spec fn reaches_full(s: Seq<i64>) -> bool {
    samples_wf(s) && s[s.len() - 1] == UNIT
}

/// Before any segment has started, the frame is shown whole at zero progress.
pub proof fn lemma_before_all_segments(
    time: i64,
    segs: Seq<ZoomSegment>,
    track: Option<&CursorEvents>,
    ein: Seq<i64>,
    eout: Seq<i64>,
)
    requires
        all_wf(segs),
        forall|i: int| 0 <= i < segs.len() ==> time <= (#[trigger] segs[i]).start,
    ensures
        interpolate_spec(time, segs, track, ein, eout) == (InterpolatedZoom {
            t: 0,
            bounds: SegmentBounds::default_spec(),
        }),
{
    lemma_first_active_props(segs, time as int, 0);
    lemma_latest_ended_props(segs, time as int, segs.len() as int);
    if let Some(k) = current_index(segs, time as int) {
        assert(segs[k].start < time);
    }
    if let Some(k) = latest_ended(segs, time as int, segs.len() as int) {
        assert(segs[k].start < segs[k].end);
    }
}

/// At the end of a segment at least one transition long, the zoom is complete:
/// full progress and exactly that segment's bounds.
pub proof fn lemma_complete_at_segment_end(
    segs: Seq<ZoomSegment>,
    i: int,
    track: Option<&CursorEvents>,
    ein: Seq<i64>,
    eout: Seq<i64>,
)
    requires
        all_wf(segs),
        sorted_disjoint(segs),
        0 <= i < segs.len(),
        segs[i].end - segs[i].start >= ZOOM_DURATION,
        reaches_full(ein),
    ensures
        ({
            let r = interpolate_spec(segs[i].end, segs, track, ein, eout);
            r.t == UNIT && r.bounds == bounds_for_spec(segs[i], segs[i].end as int, track)
        }),
{
    let time = segs[i].end;
    lemma_current_is(segs, i, time as int);
    assert(progress_spec(time as int, segs[i].start as int) == UNIT);
    lemma_ease_full(ein);
    let cur = bounds_for_spec(segs[i], time as int, track);
    lemma_lerp_bounds(SegmentBounds::default_spec(), cur, UNIT as int);
    if i > 0 {
        let prev = bounds_for_spec(segs[i - 1], time as int, track);
        lemma_lerp_bounds(prev, cur, UNIT as int);
        if segs[i].start != segs[i - 1].end && segs[i].start - segs[i - 1].end < ZOOM_DURATION {
            let m = interpolate_spec(segs[i].start, segs, track, ein, eout);
            lemma_lerp_bounds(m.bounds, cur, UNIT as int);
            assert(resume_spec(m.t as int, UNIT as int) == UNIT);
        }
    }
}

/// One transition after the last segment ends, the frame is shown whole at
/// zero progress.
pub proof fn lemma_reset_after_last_segment(
    segs: Seq<ZoomSegment>,
    track: Option<&CursorEvents>,
    ein: Seq<i64>,
    eout: Seq<i64>,
)
    requires
        all_wf(segs),
        sorted_disjoint(segs),
        segs.len() > 0,
        segs[segs.len() - 1].end + ZOOM_DURATION <= i64::MAX,
        reaches_full(eout),
    ensures
        interpolate_spec((segs[segs.len() - 1].end + ZOOM_DURATION) as i64, segs, track, ein, eout) == (InterpolatedZoom {
            t: 0,
            bounds: SegmentBounds::default_spec(),
        }),
{
    let last = segs.len() - 1;
    let time = (segs[last].end + ZOOM_DURATION) as i64;
    assert forall|j: int| 0 <= j < segs.len() implies !(#[trigger] segs[j]).active_at(time as int) by {
        if j < last {
            assert(segs[j].end <= segs[last].start);
        }
    }
    lemma_previous_is(segs, last, time as int);
    assert(progress_spec(time as int, segs[last].end as int) == UNIT);
    lemma_ease_full(eout);
    lemma_lerp_bounds(bounds_for_spec(segs[last], time as int, track), SegmentBounds::default_spec(), UNIT as int);
}

/// Across two touching segments the progress never dips: it is full
/// throughout the second one.
pub proof fn lemma_no_dip_between_touching(
    time: i64,
    segs: Seq<ZoomSegment>,
    i: int,
    track: Option<&CursorEvents>,
    ein: Seq<i64>,
    eout: Seq<i64>,
)
    requires
        all_wf(segs),
        sorted_disjoint(segs),
        0 <= i,
        i + 1 < segs.len(),
        segs[i].end == segs[i + 1].start,
        segs[i + 1].active_at(time as int),
    ensures
        interpolate_spec(time, segs, track, ein, eout).t == UNIT,
{
    lemma_current_is(segs, i + 1, time as int);
}

/// Segments a full transition apart are independent: when the next one
/// starts the frame is whole again at zero progress, and while it runs it
/// zooms in from the whole frame as if nothing came before.
pub proof fn lemma_separate_segments_independent(
    time: i64,
    segs: Seq<ZoomSegment>,
    i: int,
    track: Option<&CursorEvents>,
    ein: Seq<i64>,
    eout: Seq<i64>,
)
    requires
        all_wf(segs),
        sorted_disjoint(segs),
        0 <= i,
        i + 1 < segs.len(),
        segs[i + 1].start - segs[i].end >= ZOOM_DURATION,
        reaches_full(eout),
        segs[i + 1].active_at(time as int),
    ensures
        interpolate_spec(segs[i + 1].start, segs, track, ein, eout) == (InterpolatedZoom {
            t: 0,
            bounds: SegmentBounds::default_spec(),
        }),
        ({
            let z = ease_spec(ein, progress_spec(time as int, segs[i + 1].start as int));
            interpolate_spec(time, segs, track, ein, eout) == (InterpolatedZoom {
                t: z as i64,
                bounds: lerp_bounds_spec(
                    SegmentBounds::default_spec(),
                    bounds_for_spec(segs[i + 1], time as int, track),
                    z,
                ),
            })
        }),
{
    let s = segs[i + 1].start;
    assert forall|j: int| 0 <= j < segs.len() implies !(#[trigger] segs[j]).active_at(s as int) by {
        if j <= i {
            assert(segs[j].end <= segs[i + 1].start);
        }
        if j > i + 1 {
            assert(segs[i + 1].end <= segs[j].start);
        }
    }
    lemma_previous_is(segs, i, s as int);
    assert(progress_spec(s as int, segs[i].end as int) == UNIT);
    lemma_ease_full(eout);
    lemma_lerp_bounds(bounds_for_spec(segs[i], s as int, track), SegmentBounds::default_spec(), UNIT as int);
    lemma_current_is(segs, i + 1, time as int);
}

/// The engine holds no state: equal inputs give equal results.
pub proof fn lemma_deterministic(
    time: i64,
    segs: Seq<ZoomSegment>,
    track: Option<&CursorEvents>,
    ein: Seq<i64>,
    eout: Seq<i64>,
    r1: InterpolatedZoom,
    r2: InterpolatedZoom,
)
    requires
        r1 == interpolate_spec(time, segs, track, ein, eout),
        r2 == interpolate_spec(time, segs, track, ein, eout),
    ensures
        r1 == r2,
{
}

/// Linear progress of a transition that began at `from`.
fn progress(time: i64, from: i64) -> (r: i64)
    ensures
        r == progress_spec(time as int, from as int),
        0 <= r <= UNIT,
{
    let d = time as i128 - from as i128;
    assert(-0x1_0000_0000_0000_0000 * UNIT <= d * UNIT <= 0x1_0000_0000_0000_0000 * UNIT) by (nonlinear_arith)
        requires
            -0x1_0000_0000_0000_0000 <= d <= 0x1_0000_0000_0000_0000,
    ;
    clamp_unit(floor_div(d * UNIT as i128, ZOOM_DURATION as i128))
}

impl InterpolatedZoom {
    /// The zoom state for `cursor` with the given curves.
    pub fn new(cursor: SegmentsCursor, cursor_events: Option<&CursorEvents>, curves: &ZoomCurves) -> (r: Self)
        requires
            cursor.wf(),
            all_wf(cursor.segments@),
            cursor_events matches Some(e) ==> e.wf(),
            curves.wf(),
        ensures
            r == interpolate_spec(
                cursor.time,
                cursor.segments@,
                cursor_events,
                curves.ease_in.samples@,
                curves.ease_out.samples@,
            ),
            0 <= r.t <= UNIT,
            r.bounds.bounded(),
    {
        Self::new_with_easing(cursor, cursor_events, &curves.ease_in, &curves.ease_out)
    }

    /// The magnification shown: the width of the crop rectangle.
    pub fn display_amount(&self) -> (r: i64)
        requires
            self.bounds.bounded(),
        ensures
            r == self.bounds.bottom_right.x - self.bounds.top_left.x,
    {
        self.bounds.bottom_right.x - self.bounds.top_left.x
    }

    /// The zoom state for `cursor`, easing in with `ease_in` and out with `ease_out`.
    pub fn new_with_easing(
        cursor: SegmentsCursor,
        cursor_events: Option<&CursorEvents>,
        ease_in: &Easing,
        ease_out: &Easing,
    ) -> (r: InterpolatedZoom)
        requires
            cursor.wf(),
            all_wf(cursor.segments@),
            cursor_events matches Some(e) ==> e.wf(),
            ease_in.wf(),
            ease_out.wf(),
        ensures
            r == interpolate_spec(cursor.time, cursor.segments@, cursor_events, ease_in.samples@, ease_out.samples@),
            0 <= r.t <= UNIT,
            r.bounds.bounded(),
        decreases cursor.time - i64::MIN,
    {
        let ghost segs = cursor.segments@;
        let time = cursor.time;
        proof {
            lemma_first_active_props(segs, time as int, 0);
            lemma_latest_ended_props(segs, time as int, segs.len() as int);
        }
        let default = SegmentBounds::default();
        match (cursor.prev_segment, cursor.segment) {
            (Some(p), None) => {
                let prev = &cursor.segments[p];
                let zoom_t = ease_out.apply(progress(time, prev.end));
                let prev_bounds = SegmentBounds::from_segment(prev, time, cursor_events);
                proof {
                    lemma_lerp_bounds(prev_bounds, default, zoom_t as int);
                }
                InterpolatedZoom { t: UNIT - zoom_t, bounds: lerp_bounds(&prev_bounds, &default, zoom_t) }
            },
            (None, Some(c)) => {
                let seg = &cursor.segments[c];
                let zoom_t = ease_in.apply(progress(time, seg.start));
                let seg_bounds = SegmentBounds::from_segment(seg, time, cursor_events);
                proof {
                    lemma_lerp_bounds(default, seg_bounds, zoom_t as int);
                }
                InterpolatedZoom { t: zoom_t, bounds: lerp_bounds(&default, &seg_bounds, zoom_t) }
            },
            (Some(p), Some(c)) => {
                let prev = &cursor.segments[p];
                let seg = &cursor.segments[c];
                let prev_bounds = SegmentBounds::from_segment(prev, time, cursor_events);
                let seg_bounds = SegmentBounds::from_segment(seg, time, cursor_events);
                let zoom_t = ease_in.apply(progress(time, seg.start));
                if seg.start == prev.end {
                    proof {
                        lemma_lerp_bounds(prev_bounds, seg_bounds, zoom_t as int);
                    }
                    InterpolatedZoom { t: UNIT, bounds: lerp_bounds(&prev_bounds, &seg_bounds, zoom_t) }
                } else if (seg.start as i128) - (prev.end as i128) < ZOOM_DURATION as i128 {
                    let min = InterpolatedZoom::new_with_easing(
                        SegmentsCursor::new(seg.start, cursor.segments),
                        cursor_events,
                        ease_in,
                        ease_out,
                    );
                    proof {
                        lemma_lerp_bounds(min.bounds, seg_bounds, zoom_t as int);
                        assert(0 <= min.t * (UNIT - zoom_t) / (UNIT as int) <= UNIT - zoom_t) by (nonlinear_arith)
                            requires
                                0 <= min.t <= UNIT,
                                0 <= zoom_t <= UNIT,
                        ;
                    }
                    let kept = floor_div(min.t as i128 * (UNIT - zoom_t) as i128, UNIT as i128) as i64;
                    InterpolatedZoom { t: kept + zoom_t, bounds: lerp_bounds(&min.bounds, &seg_bounds, zoom_t) }
                } else {
                    proof {
                        lemma_lerp_bounds(default, seg_bounds, zoom_t as int);
                    }
                    InterpolatedZoom { t: zoom_t, bounds: lerp_bounds(&default, &seg_bounds, zoom_t) }
                }
            },
            (None, None) => InterpolatedZoom { t: 0, bounds: default },
        }
    }
}

} // verus!
