//! Weighted random-event selection.
//!
//! A weighted space is an ordered sequence of `(weight, value)` pairs. Weights
//! are integers understood as parts of [`WEIGHT_SCALE`], so a weight `w`
//! stands for the probability `w / WEIGHT_SCALE`. Selection is inverse-CDF
//! sampling: a draw `r` uniform in `[0, WEIGHT_SCALE)` picks the first entry
//! whose cumulative weight exceeds `r`.
//!
//! When the weights sum to less than `WEIGHT_SCALE` (a caller omitted a
//! residual category, or rounding when converting probabilities to weights
//! left a sliver), a draw can land at or beyond the cumulative sum of all
//! entries. The documented policy here is to fall back to the last entry,
//! so selection from a non-empty space always succeeds.

use vstd::prelude::*;

verus! {

/// The denominator of every weight: a weight `w` stands for the probability
/// `w / WEIGHT_SCALE`.
pub const WEIGHT_SCALE: u64 = 1_000_000_000;

/// The sum of the first `i` weights of `ws` (the cumulative distribution at `i`).
pub open spec fn prefix_weight_sum(ws: Seq<u64>, i: int) -> int
    decreases i,
{
    if i <= 0 {
        0
    } else {
        prefix_weight_sum(ws, i - 1) + ws[i - 1]
    }
}

/// The weights of a weighted space, in order.
pub open spec fn weights_of<E>(space: Seq<(u64, E)>) -> Seq<u64> {
    space.map_values(|p: (u64, E)| p.0)
}

/// The draw `r` selects entry `i` of a space with weights `ws`: either `r`
/// falls in the half-open cumulative-weight interval of entry `i`, or `r` is
/// at or beyond the total weight and `i` is the last entry (the fallback).
pub open spec fn is_chosen(ws: Seq<u64>, r: int, i: int) -> bool {
    &&& 0 <= i < ws.len()
    &&& prefix_weight_sum(ws, i) <= r
    &&& (r < prefix_weight_sum(ws, i + 1) || i == ws.len() - 1)
}

/// Cumulative weight sums never decrease as more entries are included.
proof fn lemma_prefix_monotonic(ws: Seq<u64>, i: int, j: int)
    requires
        i <= j,
    ensures
        prefix_weight_sum(ws, i) <= prefix_weight_sum(ws, j),
    decreases j - i,
{
    if i < j {
        lemma_prefix_monotonic(ws, i, j - 1);
    }
}

/// A sum of `i` weights is at most `i` times the largest weight value.
proof fn lemma_prefix_bound(ws: Seq<u64>, i: int)
    requires
        0 <= i,
    ensures
        prefix_weight_sum(ws, i) <= i * u64::MAX,
    decreases i,
{
    if i > 0 {
        lemma_prefix_bound(ws, i - 1);
        assert((i - 1) * u64::MAX + u64::MAX == i * u64::MAX) by (nonlinear_arith);
    }
}

/// Each entry is drawn by exactly its weight's share of the draw space: for
/// any draw below the total weight, entry `i` is chosen exactly when the draw
/// falls in the half-open cumulative-weight interval `[prefix(i), prefix(i+1))`
/// of entry `i`. So over all draws `0 <= r < total`, entry `i` is chosen for
/// exactly `ws[i]` of them.
pub proof fn lemma_chosen_index_unique(ws: Seq<u64>, r: int, i: int)
    requires
        0 <= r < prefix_weight_sum(ws, ws.len() as int),
        0 <= i < ws.len(),
    ensures
        is_chosen(ws, r, i) <==> (prefix_weight_sum(ws, i) <= r
            < prefix_weight_sum(ws, i + 1)),
{
    if is_chosen(ws, r, i) && !(r < prefix_weight_sum(ws, i + 1)) {
        lemma_prefix_monotonic(ws, i + 1, ws.len() as int);
    }
}

/// The deterministic half of selection: given the draw `r`, return the index
/// of the entry it selects, walking the space in the caller-supplied order.
pub fn select_at<E>(space: &[(u64, E)], r: u64) -> (i: usize)
    requires
        space@.len() > 0,
    ensures
        is_chosen(weights_of(space@), r as int, i as int),
{
    let ghost ws = weights_of(space@);
    let n = space.len();
    let mut sum: u128 = 0;
    let mut i: usize = 0;
    while i < n
        invariant
            n == space@.len(),
            0 < n <= usize::MAX,
            ws == weights_of(space@),
            0 <= i <= n,
            sum == prefix_weight_sum(ws, i as int),
            r as int >= prefix_weight_sum(ws, i as int),
        decreases n - i,
    {
        proof {
            lemma_prefix_bound(ws, i as int);
            assert((i as int) * u64::MAX + u64::MAX <= u128::MAX) by (nonlinear_arith)
                requires 0 <= i as int <= usize::MAX;
        }
        let w = space[i].0;
        sum = sum + w as u128;
        if (r as u128) < sum {
            return i;
        }
        i = i + 1;
    }
    proof {
        lemma_prefix_monotonic(ws, (n - 1) as int, n as int);
    }
    n - 1
}

/// Relies on `rand::random_range` over the half-open integer range
/// `0..n`: a uniform draw from that range, so the result is below `n`.
/// The range is non-empty by the precondition, so the call cannot panic.
#[verifier::external_body]
fn draw_below(n: u64) -> (r: u64)
    requires
        1 <= n,
    ensures
        r < n,
{
    rand::random_range(0..n)
}

/// Select an entry from a space of values with the given weights, drawing
/// uniformly from `[0, WEIGHT_SCALE)`. The chosen entry is the one whose
/// cumulative-weight interval the draw falls into; a draw at or beyond the
/// total weight falls back to the last entry.
pub fn select<E>(space: &[(u64, E)]) -> (e: &E)
    requires
        space@.len() > 0,
    ensures
        exists|r: int, i: int|
            0 <= r < WEIGHT_SCALE && is_chosen(weights_of(space@), r, i) && *e == space@[i].1,
{
    let r = draw_below(WEIGHT_SCALE);
    let i = select_at(space, r);
    &space[i].1
}

} // verus!
