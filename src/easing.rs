//! Easing curves: monotonic maps of linear progress onto eased progress.

use vstd::prelude::*;
use crate::fixed::{lerp, lerp_spec, lemma_lerp_between, UNIT};

verus! {

/// A piecewise-linear easing curve through evenly spaced samples: sample `k`
/// of `n + 1` is the eased value at progress `k / n`.
#[derive(Debug, Clone)]
pub struct Easing {
    pub samples: Vec<i64>,
}

/// At least two samples, each in `[0, UNIT]`, never decreasing.
pub open spec fn samples_wf(s: Seq<i64>) -> bool {
    &&& s.len() >= 2
    &&& forall|i: int| 0 <= i < s.len() ==> 0 <= #[trigger] s[i] <= UNIT
    &&& forall|i: int| 0 <= i < s.len() - 1 ==> #[trigger] s[i] <= s[i + 1]
}

/// The curve's value at progress `p` in `[0, UNIT]`.
pub open spec fn ease_spec(s: Seq<i64>, p: int) -> int {
    let n = s.len() - 1;
    let pos = p * n;
    let i = pos / (UNIT as int);
    if i >= n {
        s[n] as int
    } else {
        lerp_spec(s[i] as int, s[i + 1] as int, pos % (UNIT as int))
    }
}

/// At full progress the curve gives its last sample.
pub proof fn lemma_ease_full(s: Seq<i64>)
    requires
        s.len() >= 2,
    ensures
        ease_spec(s, UNIT as int) == s[s.len() - 1] as int,
{
    let n = s.len() - 1;
    assert((UNIT as int) * n / (UNIT as int) == n) by (nonlinear_arith)
        requires
            n >= 1,
    ;
}

impl Easing {
    pub open spec fn wf(&self) -> bool {
        samples_wf(self.samples@)
    }

    /// The identity curve.
    pub fn linear() -> (r: Easing)
        ensures
            r.wf(),
            forall|p: int| 0 <= p <= UNIT ==> ease_spec(r.samples@, p) == p,
    {
        let r = Easing { samples: vec![0, UNIT] };
        assert forall|p: int| 0 <= p <= UNIT implies ease_spec(r.samples@, p) == p by {
            if p < UNIT {
                assert(p * 1 / (UNIT as int) == 0) by (nonlinear_arith)
                    requires
                        0 <= p < UNIT,
                ;
                assert(p * 1 % (UNIT as int) == p) by (nonlinear_arith)
                    requires
                        0 <= p < UNIT,
                ;
                assert((0 * (UNIT - p) + UNIT * p) / (UNIT as int) == p) by (nonlinear_arith);
            } else {
                assert(p * 1 / (UNIT as int) == 1) by (nonlinear_arith)
                    requires
                        p == UNIT,
                ;
            }
        }
        r
    }

    /// A curve through `samples`, or `None` when they do not form one (fewer
    /// than two, one outside `[0, UNIT]`, or a decrease).
    pub fn from_samples(samples: Vec<i64>) -> (r: Option<Easing>)
        ensures
            samples_wf(samples@) <==> r is Some,
            r matches Some(e) ==> e.samples@ == samples@,
    {
        if samples.len() < 2 {
            return None;
        }
        let mut i: usize = 0;
        while i < samples.len()
            invariant
                i <= samples@.len(),
                samples@.len() >= 2,
                forall|j: int| 0 <= j < i ==> 0 <= #[trigger] samples@[j] <= UNIT,
                forall|j: int| 0 <= j < i - 1 ==> #[trigger] samples@[j] <= samples@[j + 1],
                i > 0 ==> 0 <= samples@[i - 1] <= UNIT,
            decreases samples@.len() - i,
        {
            if samples[i] < 0 || samples[i] > UNIT {
                return None;
            }
            if i > 0 && samples[i - 1] > samples[i] {
                return None;
            }
            i = i + 1;
        }
        Some(Easing { samples })
    }

    /// The eased value of the progress `p`.
    pub fn apply(&self, p: i64) -> (r: i64)
        requires
            self.wf(),
            0 <= p <= UNIT,
        ensures
            r == ease_spec(self.samples@, p as int),
            0 <= r <= UNIT,
    {
        let s = &self.samples;
        let n = s.len() - 1;
        assert(0 <= p * n <= UNIT * 0x1_0000_0000_0000_0000) by (nonlinear_arith)
            requires
                0 <= p <= UNIT,
                0 <= n < 0x1_0000_0000_0000_0000,
        ;
        let pos = p as i128 * n as i128;
        let i = pos / UNIT as i128;
        if i >= n as i128 {
            s[n]
        } else {
            let k = i as usize;
            let frac = (pos % UNIT as i128) as i64;
            proof {
                lemma_lerp_between(s@[k as int] as int, s@[k + 1] as int, frac as int);
            }
            lerp(s[k], s[k + 1], frac)
        }
    }
}

} // verus!
