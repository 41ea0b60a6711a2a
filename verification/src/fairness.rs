//! Proportional-share fairness of stride scheduling, for two perpetually
//! Ready tasks.
//!
//! Each dispatch turn the executor fetches the task with the minimum
//! accumulated `pass` and advances it by its stride (`BIG_STRIDE / weight`,
//! see [`crate::info::stride_of`]). For two tasks that is the selection
//! rule modelled by [`sel_counts`]: as long as no `pass` has wrapped, the
//! ready queue's minimum-key selection picks task one exactly when its
//! `pass` does not exceed the other's. [`lemma_stride_fairness`] bounds the
//! imbalance `n1 * s1 - n2 * s2` of the selection counts by one stride
//! step at every turn; hence over a long run `n1 : n2` converges to
//! `s2 : s1`, which for strides `BIG_STRIDE / w1` and `BIG_STRIDE / w2`
//! is the weight ratio `w1 : w2` — each task's share of turns is
//! proportional to its weight, within one stride step of deviation.

use vstd::prelude::*;

verus! {

/// How often each of two perpetually Ready tasks with strides `s1` and
/// `s2` has been selected after `steps` dispatch turns, when every turn
/// selects the task with the minimum accumulated pass (task one on ties,
/// as the queue's first-occurrence rule does for it) and advances that
/// task's pass by its stride. A task selected `n` times has pass `n`
/// times its stride.
pub open spec fn sel_counts(s1: int, s2: int, steps: nat) -> (int, int)
    decreases steps,
{
    if steps == 0 {
        (0, 0)
    } else {
        let prev = sel_counts(s1, s2, (steps - 1) as nat);
        if prev.0 * s1 <= prev.1 * s2 {
            (prev.0 + 1, prev.1)
        } else {
            (prev.0, prev.1 + 1)
        }
    }
}

/// Bounded deviation of stride scheduling: at every turn the weighted
/// selection counts of two perpetually Ready tasks differ by at most one
/// stride step, `-s2 <= n1 * s1 - n2 * s2 <= s1`. Since `n1 * s1` and
/// `n2 * s2` stay within one step of each other forever, the selection
/// ratio `n1 : n2` converges to `s2 : s1`, the tasks' weight ratio.
pub proof fn lemma_stride_fairness(s1: int, s2: int, steps: nat)
    requires
        s1 >= 1,
        s2 >= 1,
    ensures
        ({
            let c = sel_counts(s1, s2, steps);
            -s2 <= c.0 * s1 - c.1 * s2 <= s1
        }),
    decreases steps,
{
    let c = sel_counts(s1, s2, steps);
    if steps == 0 {
        assert(-s2 <= c.0 * s1 - c.1 * s2 <= s1) by (nonlinear_arith)
            requires c.0 == 0, c.1 == 0, s1 >= 1, s2 >= 1;
    } else {
        lemma_stride_fairness(s1, s2, (steps - 1) as nat);
        let p = sel_counts(s1, s2, (steps - 1) as nat);
        if p.0 * s1 <= p.1 * s2 {
            assert(-s2 <= c.0 * s1 - c.1 * s2 <= s1) by (nonlinear_arith)
                requires
                    c.0 == p.0 + 1,
                    c.1 == p.1,
                    p.0 * s1 <= p.1 * s2,
                    -s2 <= p.0 * s1 - p.1 * s2,
                    s1 >= 1,
                    s2 >= 1;
        } else {
            assert(-s2 <= c.0 * s1 - c.1 * s2 <= s1) by (nonlinear_arith)
                requires
                    c.0 == p.0,
                    c.1 == p.1 + 1,
                    p.0 * s1 > p.1 * s2,
                    p.0 * s1 - p.1 * s2 <= s1,
                    s1 >= 1,
                    s2 >= 1;
        }
    }
}

/// The selection counts always total the number of turns taken: every
/// turn selects exactly one of the two tasks.
pub proof fn lemma_sel_counts_total(s1: int, s2: int, steps: nat)
    ensures
        ({
            let c = sel_counts(s1, s2, steps);
            c.0 >= 0 && c.1 >= 0 && c.0 + c.1 == steps
        }),
    decreases steps,
{
    if steps > 0 {
        lemma_sel_counts_total(s1, s2, (steps - 1) as nat);
    }
}

} // verus!
