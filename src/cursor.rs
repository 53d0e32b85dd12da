//! Smoothed cursor focus from a recorded cursor track.

use vstd::prelude::*;
use crate::fixed::{floor_div, UNIT, XY};

verus! {

/// Default width of the smoothing window: 150 ms.
pub const CURSOR_SMOOTHING_WINDOW: i64 = 150_000;

/// One recorded cursor sample.
#[derive(Debug, Clone, Copy, PartialEq, Eq, Structural)]
pub struct CursorMoveEvent {
    /// Microseconds since the recording started.
    pub time: i64,
    pub x: i64,
    pub y: i64,
}

/// A position that the cursor-capture component reports for an exact time.
#[derive(Debug, Clone, Copy, PartialEq, Eq, Structural)]
pub struct KnownPosition {
    pub time: i64,
    pub position: XY,
}

/// A recorded cursor track: its samples, and the positions that the capture
/// component's own lookup gave for the times it was asked about.
#[derive(Debug, Clone)]
pub struct CursorEvents {
    pub moves: Vec<CursorMoveEvent>,
    pub known: Vec<KnownPosition>,
}

impl CursorEvents {
    /// All sample and reported coordinates lie in the frame.
    pub open spec fn wf(&self) -> bool {
        &&& forall|i: int| 0 <= i < self.moves@.len() ==> {
            let m = #[trigger] self.moves@[i];
            0 <= m.x <= UNIT && 0 <= m.y <= UNIT
        }
        &&& forall|i: int| 0 <= i < self.known@.len() ==> (#[trigger] self.known@[i]).position.in_frame()
    }
}

/// The first reported position for exactly time `t`, looking from index `i`.
pub open spec fn known_at(known: Seq<KnownPosition>, t: int, i: int) -> Option<XY>
    decreases known.len() - i,
{
    if i < 0 || i >= known.len() {
        None
    } else if known[i].time == t {
        Some(known[i].position)
    } else {
        known_at(known, t, i + 1)
    }
}

pub open spec fn abs_int(x: int) -> int {
    if x < 0 {
        -x
    } else {
        x
    }
}

/// The sample lies within `half` of `t`.
pub open spec fn in_window(m: CursorMoveEvent, t: int, half: int) -> bool {
    t - half <= m.time <= t + half
}

/// Triangular kernel: `UNIT` at `t`, falling to zero at distance `half`.
pub open spec fn weight(m: CursorMoveEvent, t: int, half: int) -> int {
    let q = abs_int(t - m.time) * UNIT / half;
    UNIT - (if q < UNIT {
        q
    } else {
        UNIT as int
    })
}

/// Over the first `n` samples in the window: their count, the sum of their
/// weights, and the weighted sums of their coordinates.
pub open spec fn window_sums(m: Seq<CursorMoveEvent>, t: int, half: int, n: int) -> (int, int, int, int)
    decreases n,
{
    if n <= 0 {
        (0, 0, 0, 0)
    } else {
        let (c, w, wx, wy) = window_sums(m, t, half, n - 1);
        let e = m[n - 1];
        if in_window(e, t, half) {
            let k = weight(e, t, half);
            (c + 1, w + k, wx + e.x * k, wy + e.y * k)
        } else {
            (c, w, wx, wy)
        }
    }
}

/// Among the first `n` samples, the latest one strictly before `t` (the
/// first of equal times).
pub open spec fn nearest_before(m: Seq<CursorMoveEvent>, t: int, n: int) -> Option<int>
    decreases n,
{
    if n <= 0 {
        None
    } else {
        let r = nearest_before(m, t, n - 1);
        if m[n - 1].time < t && (r is None || m[n - 1].time > m[r->0].time) {
            Some(n - 1)
        } else {
            r
        }
    }
}

/// Among the first `n` samples, the earliest one strictly after `t` (the
/// first of equal times).
pub open spec fn nearest_after(m: Seq<CursorMoveEvent>, t: int, n: int) -> Option<int>
    decreases n,
{
    if n <= 0 {
        None
    } else {
        let r = nearest_after(m, t, n - 1);
        if m[n - 1].time > t && (r is None || m[n - 1].time < m[r->0].time) {
            Some(n - 1)
        } else {
            r
        }
    }
}

/// Linear interpolation between two samples by elapsed time.
pub open spec fn between_spec(a: CursorMoveEvent, b: CursorMoveEvent, t: int) -> XY {
    let d = b.time - a.time;
    if d > 0 {
        XY {
            x: (a.x + (b.x - a.x) * (t - a.time) / d) as i64,
            y: (a.y + (b.y - a.y) * (t - a.time) / d) as i64,
        }
    } else {
        XY { x: a.x, y: a.y }
    }
}

/// Position from the samples around `t` when the capture component reports none.
pub open spec fn neighbour_position(m: Seq<CursorMoveEvent>, t: int) -> Option<XY> {
    let b = nearest_before(m, t, m.len() as int);
    let a = nearest_after(m, t, m.len() as int);
    match (b, a) {
        (Some(i), Some(j)) => Some(between_spec(m[i], m[j], t)),
        (Some(i), None) => Some(XY { x: m[i].x, y: m[i].y }),
        (None, Some(j)) => Some(XY { x: m[j].x, y: m[j].y }),
        (None, None) => None,
    }
}

/// The smoothed focus at `t` for a window of `window` microseconds.
pub open spec fn smoothed_spec(track: CursorEvents, t: int, window: int) -> Option<XY> {
    match known_at(track.known@, t, 0) {
        Some(p) => {
            let half = window / 2;
            let (c, w, wx, wy) = window_sums(track.moves@, t, half, track.moves@.len() as int);
            if c > 0 && w > 0 {
                Some(XY { x: (wx / w) as i64, y: (wy / w) as i64 })
            } else {
                Some(p)
            }
        },
        None => neighbour_position(track.moves@, t),
    }
}

proof fn lemma_weight_range(e: CursorMoveEvent, t: int, half: int)
    requires
        half > 0,
    ensures
        0 <= weight(e, t, half) <= UNIT,
{
    let q = abs_int(t - e.time) * UNIT / half;
    assert(q >= 0) by (nonlinear_arith)
        requires
            q == abs_int(t - e.time) * UNIT / half,
            abs_int(t - e.time) >= 0,
            half > 0,
    ;
}

proof fn lemma_window_sums_bounds(m: Seq<CursorMoveEvent>, t: int, half: int, n: int)
    requires
        half > 0,
        0 <= n <= m.len(),
        forall|i: int| 0 <= i < m.len() ==> {
            let e = #[trigger] m[i];
            0 <= e.x <= UNIT && 0 <= e.y <= UNIT
        },
    ensures
        ({
            let (c, w, wx, wy) = window_sums(m, t, half, n);
            &&& 0 <= c <= n
            &&& 0 <= w <= n * UNIT
            &&& 0 <= wx <= UNIT * w
            &&& 0 <= wy <= UNIT * w
        }),
    decreases n,
{
    if n > 0 {
        lemma_window_sums_bounds(m, t, half, n - 1);
        let (c, w, wx, wy) = window_sums(m, t, half, n - 1);
        let e = m[n - 1];
        if in_window(e, t, half) {
            let k = weight(e, t, half);
            lemma_weight_range(e, t, half);
            assert(0 <= e.x * k <= UNIT * k) by (nonlinear_arith)
                requires
                    0 <= e.x <= UNIT,
                    0 <= k,
            ;
            assert(0 <= e.y * k <= UNIT * k) by (nonlinear_arith)
                requires
                    0 <= e.y <= UNIT,
                    0 <= k,
            ;
            assert(UNIT * w + UNIT * k == UNIT * (w + k)) by (nonlinear_arith);
        }
    }
}

proof fn lemma_nearest_props(m: Seq<CursorMoveEvent>, t: int, n: int)
    requires
        0 <= n <= m.len(),
    ensures
        nearest_before(m, t, n) matches Some(k) ==> 0 <= k < n && m[k].time < t,
        nearest_after(m, t, n) matches Some(k) ==> 0 <= k < n && m[k].time > t,
    decreases n,
{
    if n > 0 {
        lemma_nearest_props(m, t, n - 1);
    }
}

proof fn lemma_known_at_in_frame(known: Seq<KnownPosition>, t: int, i: int)
    requires
        0 <= i,
        forall|j: int| 0 <= j < known.len() ==> (#[trigger] known[j]).position.in_frame(),
    ensures
        known_at(known, t, i) matches Some(p) ==> p.in_frame(),
    decreases known.len() - i,
{
    if i < known.len() && known[i].time != t {
        lemma_known_at_in_frame(known, t, i + 1);
    }
}

/// The position that the capture component reported for exactly `time`.
pub fn known_position_at(known: &Vec<KnownPosition>, time: i64) -> (r: Option<XY>)
    ensures
        r == known_at(known@, time as int, 0),
{
    let mut i: usize = 0;
    while i < known.len()
        invariant
            i <= known@.len(),
            known_at(known@, time as int, 0) == known_at(known@, time as int, i as int),
        decreases known@.len() - i,
    {
        if known[i].time == time {
            return Some(known[i].position);
        }
        i = i + 1;
    }
    None
}

/// Weighted average of the samples within `window / 2` of `time`, or `None`
/// when no sample there carries weight.
pub fn window_average(moves: &Vec<CursorMoveEvent>, time: i64, window: i64) -> (r: Option<XY>)
    requires
        window >= 2,
        forall|i: int| 0 <= i < moves@.len() ==> {
            let e = #[trigger] moves@[i];
            0 <= e.x <= UNIT && 0 <= e.y <= UNIT
        },
    ensures
        ({
            let (c, w, wx, wy) = window_sums(moves@, time as int, window / 2, moves@.len() as int);
            if c > 0 && w > 0 {
                r == Some(XY { x: (wx / w) as i64, y: (wy / w) as i64 })
            } else {
                r is None
            }
        }),
        r matches Some(p) ==> p.in_frame(),
{
    let half = window / 2;
    let ghost m = moves@;
    let mut count: u64 = 0;
    let mut sw: i128 = 0;
    let mut swx: i128 = 0;
    let mut swy: i128 = 0;
    let mut i: usize = 0;
    while i < moves.len()
        invariant
            i <= m.len(),
            m == moves@,
            half == window / 2,
            half > 0,
            forall|j: int| 0 <= j < m.len() ==> {
                let e = #[trigger] m[j];
                0 <= e.x <= UNIT && 0 <= e.y <= UNIT
            },
            window_sums(m, time as int, half as int, i as int) == (count as int, sw as int, swx as int, swy as int),
        decreases m.len() - i,
    {
        proof {
            lemma_window_sums_bounds(m, time as int, half as int, i as int);
            lemma_window_sums_bounds(m, time as int, half as int, i as int + 1);
            assert(i as int * UNIT <= 0x1_0000_0000_0000_0000 * UNIT) by (nonlinear_arith)
                requires
                    i < 0x1_0000_0000_0000_0000,
            ;
            assert(UNIT * ((i + 1) * UNIT) <= UNIT * (0x1_0000_0000_0000_0000 * UNIT)) by (nonlinear_arith)
                requires
                    i < 0x1_0000_0000_0000_0000,
            ;
        }
        let e = moves[i];
        let t = time as i128;
        let et = e.time as i128;
        if t - (half as i128) <= et && et <= t + (half as i128) {
            let dt: i128 = if t >= et {
                t - et
            } else {
                et - t
            };
            let q = floor_div(dt * (UNIT as i128), half as i128);
            let k: i128 = UNIT as i128 - (if q < UNIT as i128 {
                q
            } else {
                UNIT as i128
            });
            proof {
                lemma_weight_range(e, time as int, half as int);
                assert(0 <= e.x * k <= UNIT * UNIT) by (nonlinear_arith)
                    requires
                        0 <= e.x <= UNIT,
                        0 <= k <= UNIT,
                ;
                assert(0 <= e.y * k <= UNIT * UNIT) by (nonlinear_arith)
                    requires
                        0 <= e.y <= UNIT,
                        0 <= k <= UNIT,
                ;
            }
            count = count + 1;
            sw = sw + k;
            swx = swx + (e.x as i128) * k;
            swy = swy + (e.y as i128) * k;
        }
        i = i + 1;
    }
    proof {
        lemma_window_sums_bounds(m, time as int, half as int, m.len() as int);
    }
    if count > 0 && sw > 0 {
        proof {
            assert(0 <= swx / sw <= UNIT) by (nonlinear_arith)
                requires
                    0 <= swx <= UNIT * sw,
                    sw > 0,
            ;
            assert(0 <= swy / sw <= UNIT) by (nonlinear_arith)
                requires
                    0 <= swy <= UNIT * sw,
                    sw > 0,
            ;
        }
        Some(XY { x: (swx / sw) as i64, y: (swy / sw) as i64 })
    } else {
        None
    }
}

proof fn lemma_between_in_frame(a: CursorMoveEvent, b: CursorMoveEvent, t: int)
    requires
        0 <= a.x <= UNIT,
        0 <= a.y <= UNIT,
        0 <= b.x <= UNIT,
        0 <= b.y <= UNIT,
        a.time <= t <= b.time,
    ensures
        between_spec(a, b, t).in_frame(),
        b.time - a.time > 0 ==> 0 <= a.x + (b.x - a.x) * (t - a.time) / (b.time - a.time) <= UNIT,
        b.time - a.time > 0 ==> 0 <= a.y + (b.y - a.y) * (t - a.time) / (b.time - a.time) <= UNIT,
{
    let d = b.time - a.time;
    if d > 0 {
        let f = t - a.time;
        assert(0 <= a.x + (b.x - a.x) * f / d <= UNIT) by (nonlinear_arith)
            requires
                0 <= a.x <= UNIT,
                0 <= b.x <= UNIT,
                0 <= f <= d,
                d > 0,
        ;
        assert(0 <= a.y + (b.y - a.y) * f / d <= UNIT) by (nonlinear_arith)
            requires
                0 <= a.y <= UNIT,
                0 <= b.y <= UNIT,
                0 <= f <= d,
                d > 0,
        ;
    }
}

/// Interpolates the samples around `time`, or takes the one that exists.
pub fn neighbour_interpolation(moves: &Vec<CursorMoveEvent>, time: i64) -> (r: Option<XY>)
    requires
        forall|i: int| 0 <= i < moves@.len() ==> {
            let e = #[trigger] moves@[i];
            0 <= e.x <= UNIT && 0 <= e.y <= UNIT
        },
    ensures
        r == neighbour_position(moves@, time as int),
        r matches Some(p) ==> p.in_frame(),
{
    let ghost m = moves@;
    let mut before: Option<usize> = None;
    let mut after: Option<usize> = None;
    let mut i: usize = 0;
    while i < moves.len()
        invariant
            i <= m.len(),
            m == moves@,
            before == (match nearest_before(m, time as int, i as int) {
                Some(k) => Some(k as usize),
                None => None::<usize>,
            }),
            after == (match nearest_after(m, time as int, i as int) {
                Some(k) => Some(k as usize),
                None => None::<usize>,
            }),
        decreases m.len() - i,
    {
        proof {
            lemma_nearest_props(m, time as int, i as int);
        }
        let et = moves[i].time;
        if et < time {
            let take = match before {
                None => true,
                Some(b) => et > moves[b].time,
            };
            if take {
                before = Some(i);
            }
        } else if et > time {
            let take = match after {
                None => true,
                Some(a) => et < moves[a].time,
            };
            if take {
                after = Some(i);
            }
        }
        i = i + 1;
    }
    proof {
        lemma_nearest_props(m, time as int, m.len() as int);
    }
    match (before, after) {
        (Some(b), Some(a)) => {
            let p = moves[b];
            let q = moves[a];
            proof {
                lemma_between_in_frame(p, q, time as int);
            }
            let d = q.time as i128 - p.time as i128;
            if d > 0 {
                let f = time as i128 - p.time as i128;
                proof {
                    assert(-0x1_0000_0000_0000_0000 * UNIT <= (q.x - p.x) * f <= 0x1_0000_0000_0000_0000 * UNIT) by (nonlinear_arith)
                        requires
                            -UNIT <= q.x - p.x <= UNIT,
                            0 <= f <= 0x1_0000_0000_0000_0000,
                    ;
                    assert(-0x1_0000_0000_0000_0000 * UNIT <= (q.y - p.y) * f <= 0x1_0000_0000_0000_0000 * UNIT) by (nonlinear_arith)
                        requires
                            -UNIT <= q.y - p.y <= UNIT,
                            0 <= f <= 0x1_0000_0000_0000_0000,
                    ;
                }
                let x = p.x as i128 + floor_div((q.x as i128 - p.x as i128) * f, d);
                let y = p.y as i128 + floor_div((q.y as i128 - p.y as i128) * f, d);
                Some(XY { x: x as i64, y: y as i64 })
            } else {
                Some(XY { x: p.x, y: p.y })
            }
        },
        (Some(b), None) => Some(XY { x: moves[b].x, y: moves[b].y }),
        (None, Some(a)) => Some(XY { x: moves[a].x, y: moves[a].y }),
        (None, None) => None,
    }
}

/// The cursor focus at `time`: the weighted average of the samples within
/// half a window when the capture component reports a position there (that
/// position when no sample carries weight), else the samples around `time`.
pub fn get_smoothed_cursor_position(events: &CursorEvents, time: i64, window: i64) -> (r: Option<XY>)
    requires
        events.wf(),
        window >= 2,
    ensures
        r == smoothed_spec(*events, time as int, window as int),
        r matches Some(p) ==> p.in_frame(),
{
    proof {
        lemma_known_at_in_frame(events.known@, time as int, 0);
    }
    match known_position_at(&events.known, time) {
        Some(pos) => match window_average(&events.moves, time, window) {
            Some(avg) => Some(avg),
            None => Some(pos),
        },
        None => neighbour_interpolation(&events.moves, time),
    }
}

} // verus!
