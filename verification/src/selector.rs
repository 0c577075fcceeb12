//! Weighted target selection: picks one destination from a weighted set
//! for each attempt.
//!
//! The caller supplies the random draw (a number below the total weight),
//! so selection itself is deterministic and exact: draw `d` lands on the
//! target whose weight band contains `d`. A total weight of zero is the
//! degenerate configuration case and always selects the first target.

use vstd::prelude::*;
use crate::config::Target;

verus! {

/// The effective weight of one target: its configured weight, in
/// thousandths, with a missing weight counting as zero.
pub open spec fn target_weight(t: Target) -> nat {
    match t.weight {
        Some(w) => w as nat,
        None => 0nat,
    }
}

/// Sum of the weights of the first `i` targets.
pub open spec fn prefix_weight(ts: Seq<Target>, i: int) -> int
    decreases i,
{
    if i <= 0 {
        0
    } else {
        prefix_weight(ts, i - 1) + target_weight(ts[i - 1])
    }
}

/// Sum of all the targets' weights.
pub open spec fn total_weight(ts: Seq<Target>) -> int {
    prefix_weight(ts, ts.len() as int)
}

/// Prefix sums of weights never decrease.
pub proof fn lemma_prefix_weight_monotone(ts: Seq<Target>, i: int, j: int)
    requires
        i <= j,
    ensures
        prefix_weight(ts, i) <= prefix_weight(ts, j),
    decreases j - i,
{
    if i < j {
        lemma_prefix_weight_monotone(ts, i, j - 1);
    }
}

/// Law: selection is proportional to weight. Each target `i` owns the
/// draw band `[prefix_weight(i), prefix_weight(i + 1))`, whose size is
/// exactly its weight; [`select_target`] returns `i` exactly for the
/// draws in that band, so over uniform draws each target is selected in
/// proportion weight over total — for weights of one and three, the
/// second target three times out of four.
pub proof fn lemma_selection_proportional(ts: Seq<Target>, i: int)
    requires
        0 <= i < ts.len(),
    ensures
        prefix_weight(ts, i + 1) - prefix_weight(ts, i) == target_weight(ts[i]),
        0 <= prefix_weight(ts, i),
        prefix_weight(ts, i + 1) <= total_weight(ts),
{
    lemma_prefix_weight_monotone(ts, 0, i);
    lemma_prefix_weight_monotone(ts, i + 1, ts.len() as int);
}

/// Total weight across the targets, exact.
pub fn compute_total_weight(targets: &[Target]) -> (total: u64)
    requires
        total_weight(targets@) <= u64::MAX,
    ensures
        total == total_weight(targets@),
{
    let ghost ts = targets@;
    let mut total: u64 = 0;
    let mut i: usize = 0;
    while i < targets.len()
        invariant
            ts == targets@,
            0 <= i <= ts.len(),
            total == prefix_weight(ts, i as int),
            total_weight(ts) <= u64::MAX,
        decreases targets.len() - i,
    {
        let w: u64 = match targets[i].weight {
            Some(w) => w,
            None => 0,
        };
        proof {
            lemma_prefix_weight_monotone(ts, i as int + 1, ts.len() as int);
        }
        total = total + w;
        i = i + 1;
    }
    total
}

/// Selects the target whose weight band contains `draw`: the result `idx`
/// is the unique index with `prefix_weight(idx) <= draw <
/// prefix_weight(idx + 1)`, so over uniform draws each target is chosen
/// in proportion to its weight. A total weight of zero is the defined
/// fallback case and selects the first target.
pub fn select_target(targets: &[Target], draw: u64) -> (idx: usize)
    requires
        targets@.len() > 0,
        total_weight(targets@) <= u64::MAX,
        total_weight(targets@) > 0 ==> draw < total_weight(targets@),
    ensures
        idx < targets@.len(),
        total_weight(targets@) == 0 ==> idx == 0,
        total_weight(targets@) > 0 ==> prefix_weight(targets@, idx as int) <= draw
            < prefix_weight(targets@, idx as int + 1),
{
    let ghost ts = targets@;
    let total = compute_total_weight(targets);
    if total == 0 {
        return 0;
    }
    let mut remaining = draw;
    let mut i: usize = 0;
    loop
        invariant
            ts == targets@,
            0 <= i < ts.len(),
            total_weight(ts) <= u64::MAX,
            0 < total_weight(ts),
            draw < total_weight(ts),
            prefix_weight(ts, i as int) <= draw,
            remaining == draw - prefix_weight(ts, i as int),
        decreases ts.len() - i,
    {
        let w: u64 = match targets[i].weight {
            Some(w) => w,
            None => 0,
        };
        if remaining < w {
            return i;
        }
        proof {
            // draw is at least prefix_weight(i + 1), and below the total,
            // so some later target's band holds it: i + 1 is in range.
            if i + 1 == ts.len() {
                assert(prefix_weight(ts, i as int + 1) == total_weight(ts));
            }
            lemma_prefix_weight_monotone(ts, i as int + 1, ts.len() as int);
        }
        remaining = remaining - w;
        i = i + 1;
    }
}

} // verus!
