//! Crop rectangles and the bounds of a single segment.

use vstd::prelude::*;
use crate::fixed::{floor_div, lerp, lerp_spec, lemma_lerp_between, UNIT, XY};
use crate::cursor::{get_smoothed_cursor_position, smoothed_spec, CursorEvents, CURSOR_SMOOTHING_WINDOW};
use crate::segment::{ZoomMode, ZoomSegment, MAX_AMOUNT};

verus! {

/// Largest coordinate magnitude a rectangle of the engine reaches.
pub const COORD_LIMIT: i64 = MAX_AMOUNT + UNIT;

/// A crop window in fixed-point frame coordinates.
#[derive(Debug, Clone, Copy, PartialEq, Eq, Structural)]
pub struct SegmentBounds {
    pub top_left: XY,
    pub bottom_right: XY,
}

pub open spec fn coord_ok(v: i64) -> bool {
    -COORD_LIMIT <= v <= COORD_LIMIT
}

impl SegmentBounds {
    /// Every corner coordinate lies within `COORD_LIMIT`.
    pub open spec fn bounded(&self) -> bool {
        coord_ok(self.top_left.x) && coord_ok(self.top_left.y) && coord_ok(self.bottom_right.x)
            && coord_ok(self.bottom_right.y)
    }

    pub open spec fn default_spec() -> SegmentBounds {
        SegmentBounds { top_left: XY { x: 0, y: 0 }, bottom_right: XY { x: UNIT, y: UNIT } }
    }

    pub fn new(top_left: XY, bottom_right: XY) -> (r: Self)
        ensures
            r.top_left == top_left,
            r.bottom_right == bottom_right,
    {
        Self { top_left, bottom_right }
    }

    /// The whole frame: `(0, 0)` to `(1, 1)`.
    pub fn default() -> (r: Self)
        ensures
            r == Self::default_spec(),
            r.bounded(),
    {
        SegmentBounds::new(XY::new(0, 0), XY::new(UNIT, UNIT))
    }

    /// The bounds of `segment` at `time`, focused as its mode says.
    pub fn from_segment(segment: &ZoomSegment, current_time: i64, cursor_events: Option<&CursorEvents>) -> (r: Self)
        requires
            segment.wf(),
            cursor_events matches Some(e) ==> e.wf(),
        ensures
            r == bounds_for_spec(*segment, current_time as int, cursor_events),
            r.bounded(),
            r.bottom_right.x - r.top_left.x == segment.amount,
            r.bottom_right.y - r.top_left.y == segment.amount,
    {
        let position = match segment.mode {
            ZoomMode::Auto => match cursor_events {
                Some(events) => match get_smoothed_cursor_position(events, current_time, CURSOR_SMOOTHING_WINDOW) {
                    Some(pos) => pos,
                    None => XY::new(UNIT / 2, UNIT / 2),
                },
                None => XY::new(UNIT / 2, UNIT / 2),
            },
            ZoomMode::Manual { x, y } => XY::new(x, y),
        };
        let a = segment.amount;
        proof {
            lemma_scaled_range(position.x as int, a as int);
            lemma_scaled_range(position.y as int, a as int);
        }
        let sx = floor_div(position.x as i128 * a as i128, UNIT as i128) as i64;
        let sy = floor_div(position.y as i128 * a as i128, UNIT as i128) as i64;
        let dx = sx - position.x;
        let dy = sy - position.y;
        SegmentBounds::new(XY::new(0 - dx, 0 - dy), XY::new(a - dx, a - dy))
    }
}

/// The focus of `seg` at `t`: its fixed point, or the smoothed cursor, or the
/// frame centre when there is no cursor data.
pub open spec fn focus_spec(seg: ZoomSegment, t: int, track: Option<&CursorEvents>) -> XY {
    let center = XY { x: (UNIT / 2) as i64, y: (UNIT / 2) as i64 };
    match seg.mode {
        ZoomMode::Manual { x, y } => XY { x, y },
        ZoomMode::Auto => match track {
            Some(e) => match smoothed_spec(*e, t, CURSOR_SMOOTHING_WINDOW as int) {
                Some(p) => p,
                None => center,
            },
            None => center,
        },
    }
}

/// The rectangle that magnifies by `amount` while keeping `focus` in place:
/// with `d = focus * amount - focus`, it spans `-d` to `amount - d`.
pub open spec fn anchored_rect(focus: XY, amount: int) -> SegmentBounds {
    let dx = focus.x * amount / (UNIT as int) - focus.x;
    let dy = focus.y * amount / (UNIT as int) - focus.y;
    SegmentBounds {
        top_left: XY { x: (0 - dx) as i64, y: (0 - dy) as i64 },
        bottom_right: XY { x: (amount - dx) as i64, y: (amount - dy) as i64 },
    }
}

pub open spec fn bounds_for_spec(seg: ZoomSegment, t: int, track: Option<&CursorEvents>) -> SegmentBounds {
    anchored_rect(focus_spec(seg, t, track), seg.amount as int)
}

proof fn lemma_scaled_range(f: int, a: int)
    requires
        0 <= f <= UNIT,
        UNIT <= a <= MAX_AMOUNT,
    ensures
        0 <= f * a / (UNIT as int) <= a,
{
    assert(0 <= f * a / (UNIT as int) <= a) by (nonlinear_arith)
        requires
            0 <= f <= UNIT,
            UNIT <= a,
    ;
}

/// Corner-wise blend of two rectangles by the fraction `f`.
pub open spec fn lerp_bounds_spec(a: SegmentBounds, b: SegmentBounds, f: int) -> SegmentBounds {
    SegmentBounds {
        top_left: XY {
            x: lerp_spec(a.top_left.x as int, b.top_left.x as int, f) as i64,
            y: lerp_spec(a.top_left.y as int, b.top_left.y as int, f) as i64,
        },
        bottom_right: XY {
            x: lerp_spec(a.bottom_right.x as int, b.bottom_right.x as int, f) as i64,
            y: lerp_spec(a.bottom_right.y as int, b.bottom_right.y as int, f) as i64,
        },
    }
}

/// Blending two rectangles within the limits stays within them, and the ends
/// of the blend are the rectangles themselves.
pub proof fn lemma_lerp_bounds(a: SegmentBounds, b: SegmentBounds, f: int)
    requires
        0 <= f <= UNIT,
    ensures
        a.bounded() && b.bounded() ==> lerp_bounds_spec(a, b, f).bounded(),
        f == 0 ==> lerp_bounds_spec(a, b, f) == a,
        f == UNIT ==> lerp_bounds_spec(a, b, f) == b,
{
    lemma_lerp_between(a.top_left.x as int, b.top_left.x as int, f);
    lemma_lerp_between(a.top_left.y as int, b.top_left.y as int, f);
    lemma_lerp_between(a.bottom_right.x as int, b.bottom_right.x as int, f);
    lemma_lerp_between(a.bottom_right.y as int, b.bottom_right.y as int, f);
}

/// Blends `a` towards `b` corner by corner.
pub fn lerp_bounds(a: &SegmentBounds, b: &SegmentBounds, f: i64) -> (r: SegmentBounds)
    requires
        0 <= f <= UNIT,
    ensures
        r == lerp_bounds_spec(*a, *b, f as int),
{
    SegmentBounds::new(
        XY::new(lerp(a.top_left.x, b.top_left.x, f), lerp(a.top_left.y, b.top_left.y, f)),
        XY::new(lerp(a.bottom_right.x, b.bottom_right.x, f), lerp(a.bottom_right.y, b.bottom_right.y, f)),
    )
}

} // verus!
