//! Zoom segments and the locator that finds the segments relevant at a time.

use vstd::prelude::*;
use crate::fixed::UNIT;

verus! {

/// Largest magnification accepted: a million-fold zoom.
pub const MAX_AMOUNT: i64 = 1_000_000_000_000;

/// Where a segment zooms towards.
#[derive(Debug, Clone, Copy, PartialEq, Eq, Structural)]
pub enum ZoomMode {
    /// Follow the recorded cursor.
    Auto,
    /// A fixed focus point, in millionths of the frame.
    Manual { x: i64, y: i64 },
}

/// A timeline interval with a magnification and a focus mode.
#[derive(Debug, Clone, Copy, PartialEq, Eq, Structural)]
pub struct ZoomSegment {
    /// Start time in microseconds.
    pub start: i64,
    /// End time in microseconds.
    pub end: i64,
    /// Magnification in millionths (`UNIT` is no zoom).
    pub amount: i64,
    pub mode: ZoomMode,
}

impl ZoomSegment {
    /// A segment the engine accepts: it ends after it starts, magnifies by a
    /// factor in `[1, MAX_AMOUNT / UNIT]`, and a fixed focus lies in the frame.
    pub open spec fn wf(&self) -> bool {
        &&& self.start < self.end
        &&& UNIT <= self.amount <= MAX_AMOUNT
        &&& match self.mode {
            ZoomMode::Auto => true,
            ZoomMode::Manual { x, y } => 0 <= x <= UNIT && 0 <= y <= UNIT,
        }
    }

    /// The segment is running at `t`: its start is excluded, its end included.
    pub open spec fn active_at(&self, t: int) -> bool {
        self.start < t <= self.end
    }
}

/// Every segment of the list is well formed.
pub open spec fn all_wf(segs: Seq<ZoomSegment>) -> bool {
    forall|i: int| 0 <= i < segs.len() ==> (#[trigger] segs[i]).wf()
}

/// The first index at or after `i` whose segment is running at `t`.
pub open spec fn first_active_from(segs: Seq<ZoomSegment>, t: int, i: int) -> Option<int>
    decreases segs.len() - i,
{
    if i < 0 || i >= segs.len() {
        None
    } else if segs[i].active_at(t) {
        Some(i)
    } else {
        first_active_from(segs, t, i + 1)
    }
}

/// Among the first `n` segments, the one that has ended by `t` with the
/// greatest end time (the later index on equal end times).
pub open spec fn latest_ended(segs: Seq<ZoomSegment>, t: int, n: int) -> Option<int>
    decreases n,
{
    if n <= 0 {
        None
    } else {
        let r = latest_ended(segs, t, n - 1);
        if segs[n - 1].end <= t && (r is None || segs[r->0].end <= segs[n - 1].end) {
            Some(n - 1)
        } else {
            r
        }
    }
}

/// The running segment at `t`, if any.
pub open spec fn current_index(segs: Seq<ZoomSegment>, t: int) -> Option<int> {
    first_active_from(segs, t, 0)
}

/// The segment before the running one (by position in the list), or, when
/// none is running, the most recently ended one.
pub open spec fn previous_index(segs: Seq<ZoomSegment>, t: int) -> Option<int> {
    match current_index(segs, t) {
        Some(i) => if i > 0 {
            Some(i - 1)
        } else {
            None
        },
        None => latest_ended(segs, t, segs.len() as int),
    }
}

pub proof fn lemma_first_active_props(segs: Seq<ZoomSegment>, t: int, i: int)
    requires
        0 <= i,
    ensures
        first_active_from(segs, t, i) matches Some(k) ==> i <= k < segs.len() && segs[k].active_at(t)
            && forall|j: int| i <= j < k ==> !(#[trigger] segs[j]).active_at(t),
        first_active_from(segs, t, i) is None ==> forall|j: int|
            i <= j < segs.len() ==> !(#[trigger] segs[j]).active_at(t),
    decreases segs.len() - i,
{
    if i < segs.len() && !segs[i].active_at(t) {
        lemma_first_active_props(segs, t, i + 1);
    }
}

pub proof fn lemma_latest_ended_props(segs: Seq<ZoomSegment>, t: int, n: int)
    requires
        0 <= n <= segs.len(),
    ensures
        latest_ended(segs, t, n) matches Some(k) ==> 0 <= k < n && segs[k].end <= t
            && forall|j: int| 0 <= j < n && (#[trigger] segs[j]).end <= t ==> segs[j].end <= segs[k].end,
        latest_ended(segs, t, n) is None ==> forall|j: int| 0 <= j < n ==> (#[trigger] segs[j]).end > t,
    decreases n,
{
    if n > 0 {
        lemma_latest_ended_props(segs, t, n - 1);
    }
}

/// Each segment ends no later than any later segment starts.
pub open spec fn sorted_disjoint(segs: Seq<ZoomSegment>) -> bool {
    forall|i: int, j: int| 0 <= i < j < segs.len() ==> (#[trigger] segs[i]).end <= (#[trigger] segs[j]).start
}

/// In a sorted list, a segment running at `t` is the one the locator finds.
pub proof fn lemma_current_is(segs: Seq<ZoomSegment>, i: int, t: int)
    requires
        all_wf(segs),
        sorted_disjoint(segs),
        0 <= i < segs.len(),
        segs[i].active_at(t),
    ensures
        current_index(segs, t) == Some(i),
{
    lemma_first_active_props(segs, t, 0);
    if let Some(k) = current_index(segs, t) {
        if k < i {
            assert(segs[k].end <= segs[i].start);
        }
    }
}

/// In a sorted list, when nothing runs at `t`, segment `i` has ended by `t`
/// and the next one (if any) has not started, the locator's previous segment is `i`.
pub proof fn lemma_previous_is(segs: Seq<ZoomSegment>, i: int, t: int)
    requires
        all_wf(segs),
        sorted_disjoint(segs),
        0 <= i < segs.len(),
        segs[i].end <= t,
        i + 1 < segs.len() ==> t <= segs[i + 1].start,
        forall|j: int| 0 <= j < segs.len() ==> !(#[trigger] segs[j]).active_at(t),
    ensures
        current_index(segs, t) is None,
        previous_index(segs, t) == Some(i),
{
    lemma_first_active_props(segs, t, 0);
    if let Some(k) = current_index(segs, t) {
        assert(segs[k].active_at(t));
    }
    lemma_latest_ended_props(segs, t, segs.len() as int);
    let r = latest_ended(segs, t, segs.len() as int);
    assert(segs[i].end <= t);
    if let Some(k) = r {
        if k < i {
            assert(segs[k].end <= segs[i].start);
            assert(segs[i].start < segs[i].end);
        } else if k > i + 1 {
            assert(segs[i + 1].end <= segs[k].start);
            assert(segs[i + 1].start < segs[i + 1].end);
            assert(segs[k].start < segs[k].end);
        } else if k == i + 1 {
            assert(segs[k].start < segs[k].end);
        }
    }
}

/// The segments relevant to one playback time.
#[derive(Debug, Clone, Copy)]
pub struct SegmentsCursor<'a> {
    pub time: i64,
    /// Index of the segment running at `time`.
    pub segment: Option<usize>,
    /// Index of the segment that precedes it, or that ended last.
    pub prev_segment: Option<usize>,
    pub segments: &'a [ZoomSegment],
}

impl<'a> SegmentsCursor<'a> {
    /// The indices agree with the locator's definition.
    pub open spec fn wf(&self) -> bool {
        &&& self.segment == (match current_index(self.segments@, self.time as int) {
            Some(i) => Some(i as usize),
            None => None::<usize>,
        })
        &&& self.prev_segment == (match previous_index(self.segments@, self.time as int) {
            Some(i) => Some(i as usize),
            None => None::<usize>,
        })
    }

    /// Locates the running and the previous segment at `time`.
    pub fn new(time: i64, segments: &'a [ZoomSegment]) -> (r: Self)
        ensures
            r.time == time,
            r.segments@ == segments@,
            r.wf(),
            r.segment matches Some(i) ==> i < segments@.len(),
            r.segment matches Some(i) ==> segments@[i as int].active_at(time as int),
            r.segment matches Some(i) ==> forall|j: int| 0 <= j < i ==> !(#[trigger] segments@[j]).active_at(time as int),
            r.segment is None ==> forall|j: int|
                0 <= j < segments@.len() ==> !(#[trigger] segments@[j]).active_at(time as int),
            r.segment matches Some(i) ==> r.prev_segment == (if i > 0 {
                Some((i - 1) as usize)
            } else {
                None
            }),
            r.segment is None ==> (r.prev_segment matches Some(k) ==> k < segments@.len()
                && segments@[k as int].end <= time && forall|j: int|
                0 <= j < segments@.len() && (#[trigger] segments@[j]).end <= time ==> segments@[j].end
                <= segments@[k as int].end),
            r.segment is None && r.prev_segment is None ==> forall|j: int|
                0 <= j < segments@.len() ==> (#[trigger] segments@[j]).end > time,
    {
        proof {
            lemma_first_active_props(segments@, time as int, 0);
            lemma_latest_ended_props(segments@, time as int, segments@.len() as int);
        }
        let ghost s = segments@;
        let mut i: usize = 0;
        while i < segments.len()
            invariant
                i <= segments@.len(),
                s == segments@,
                first_active_from(s, time as int, 0) == first_active_from(s, time as int, i as int),
            decreases segments@.len() - i,
        {
            let seg = &segments[i];
            if time > seg.start && time <= seg.end {
                proof {
                    lemma_first_active_props(s, time as int, 0);
                }
                let prev = if i > 0 {
                    Some(i - 1)
                } else {
                    None
                };
                return SegmentsCursor { time, segment: Some(i), prev_segment: prev, segments };
            }
            i = i + 1;
        }
        let mut best: Option<usize> = None;
        let mut j: usize = 0;
        while j < segments.len()
            invariant
                j <= segments@.len(),
                s == segments@,
                first_active_from(s, time as int, 0) is None,
                best == (match latest_ended(s, time as int, j as int) {
                    Some(k) => Some(k as usize),
                    None => None::<usize>,
                }),
                latest_ended(s, time as int, j as int) matches Some(k) ==> 0 <= k < j,
            decreases segments@.len() - j,
        {
            proof {
                lemma_latest_ended_props(s, time as int, j as int);
            }
            let seg = &segments[j];
            let take = match best {
                None => seg.end <= time,
                Some(b) => seg.end <= time && segments[b].end <= seg.end,
            };
            if take {
                best = Some(j);
            }
            j = j + 1;
        }
        SegmentsCursor { time, segment: None, prev_segment: best, segments }
    }
}

} // verus!
