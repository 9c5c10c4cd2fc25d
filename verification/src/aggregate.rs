//! The repeated-trial aggregator: run many independent trials and accumulate
//! a histogram of their outcomes over a bounded category space.
//!
//! Each completed trial's outcome is mapped to a non-negative integer
//! category by a [`NonnegativeRandomVariable`]. A trial whose category falls
//! at or beyond the declared category count is dropped, as is a trial that
//! exhausts its iteration budget; neither counts toward any histogram slot.

use vstd::prelude::*;

use crate::engine::Condition;
use crate::engine::Outcome;
use crate::engine::StartCondition;
use crate::engine::sample;
use crate::engine::trial_ok;
use crate::stats::seq_sum;

verus! {

/// A map from the outcomes of one process to the non-negative integers
/// `0, 1, ..., space_len() - 1`.
pub trait NonnegativeRandomVariable {
    type Outcome: Outcome;

    /// The category of an outcome. The default models nothing; a verified
    /// implementation overrides it.
    open spec fn map_spec(&self, outcome: Self::Outcome) -> usize {
        arbitrary()
    }

    /// The number of possible values the random variable can take. The
    /// default models nothing; a verified implementation overrides it.
    open spec fn space_len_spec(&self) -> usize {
        arbitrary()
    }

    fn map(&self, outcome: Self::Outcome) -> (value: usize)
        ensures
            value == self.map_spec(outcome),
    ;

    /// The number of possible values the random variable can take.
    ///
    /// $0, 1, 2, ..., \text{space_len} - 1$
    fn space_len(&self) -> (len: usize)
        ensures
            len == self.space_len_spec(),
    ;
}

/// How many of the trial reports in `outs` landed in category `v`: a `None`
/// report (a timed-out trial) lands in no category.
pub open spec fn bucket_count<RV: NonnegativeRandomVariable>(
    rv: RV,
    outs: Seq<Option<RV::Outcome>>,
    v: int,
) -> int
    decreases outs.len(),
{
    if outs.len() == 0 {
        0
    } else {
        bucket_count(rv, outs.drop_last(), v) + match outs.last() {
            Some(o) => if rv.map_spec(o) == v {
                1int
            } else {
                0int
            },
            None => 0int,
        }
    }
}

/// How many of the trial reports in `outs` count toward no slot of a
/// histogram with `len` categories: timed-out trials and trials whose
/// category is at or beyond `len`.
pub open spec fn dropped_count<RV: NonnegativeRandomVariable>(
    rv: RV,
    outs: Seq<Option<RV::Outcome>>,
    len: int,
) -> int
    decreases outs.len(),
{
    if outs.len() == 0 {
        0
    } else {
        dropped_count(rv, outs.drop_last(), len) + match outs.last() {
            Some(o) => if rv.map_spec(o) < len {
                0int
            } else {
                1int
            },
            None => 1int,
        }
    }
}

/// No category holds more trials than were reported.
proof fn lemma_bucket_count_le_len<RV: NonnegativeRandomVariable>(
    rv: RV,
    outs: Seq<Option<RV::Outcome>>,
    v: int,
)
    ensures
        0 <= bucket_count(rv, outs, v) <= outs.len(),
    decreases outs.len(),
{
    if outs.len() > 0 {
        lemma_bucket_count_le_len(rv, outs.drop_last(), v);
    }
}

/// Sample a random variable a number of times and return the number of times
/// each value was seen: a histogram with one slot per category. Each round
/// builds a fresh condition, drives it under `budget`, and counts its
/// outcome's category; timed-out and out-of-range rounds are dropped.
pub fn sample_repeat<S, RV, O>(start: S, rounds: usize, rv: RV, budget: u64) -> (mass: Vec<
    usize,
>) where
    O: Outcome,
    S: StartCondition<Outcome = O>,
    RV: NonnegativeRandomVariable<Outcome = O>,

    ensures
        mass@.len() == rv.space_len_spec(),
        exists|outs: Seq<Option<O>>|
            #[trigger] outs.len() == rounds && (forall|j: int|
                0 <= j < rounds ==> trial_ok(start.build_spec(), budget, #[trigger] outs[j]))
                && (forall|v: int|
                0 <= v < mass@.len() ==> mass@[v] == bucket_count(rv, outs, v)),
{
    let len = rv.space_len();
    let mut mass: Vec<usize> = Vec::new();
    let mut k: usize = 0;
    while k < len
        invariant
            k <= len,
            mass@.len() == k as int,
            forall|v: int| 0 <= v < k as int ==> mass@[v] == 0,
        decreases len - k,
    {
        mass.push(0);
        k = k + 1;
    }
    let ghost mut outs: Seq<Option<O>> = Seq::empty();
    let mut i: usize = 0;
    while i < rounds
        invariant
            i <= rounds,
            outs.len() == i as int,
            mass@.len() == len as int,
            len == rv.space_len_spec(),
            forall|j: int| 0 <= j < i as int ==> trial_ok(start.build_spec(), budget, #[trigger] outs[j]),
            forall|v: int| 0 <= v < len as int ==> mass@[v] == bucket_count(rv, outs, v),
        decreases rounds - i,
    {
        let cond = start.build();
        let result = sample(cond, budget);
        let ghost report: Option<O> = if result is Ok {
            Some(result->Ok_0)
        } else {
            None
        };
        proof {
            let outs2 = outs.push(report);
            assert(outs2.drop_last() =~= outs);
            outs = outs2;
        }
        if let Ok(o) = result {
            let v = rv.map(o);
            if v < len {
                proof {
                    lemma_bucket_count_le_len(rv, outs.drop_last(), v as int);
                }
                let slot = mass[v];
                mass.set(v, slot + 1);
            }
        }
        i = i + 1;
    }
    mass
}

/// The sum of the first `len` histogram slots of the reports in `outs`.
spec fn hist_sum<RV: NonnegativeRandomVariable>(
    rv: RV,
    outs: Seq<Option<RV::Outcome>>,
    len: int,
) -> int
    decreases len,
{
    if len <= 0 {
        0
    } else {
        hist_sum(rv, outs, len - 1) + bucket_count(rv, outs, len - 1)
    }
}

/// One more report moves exactly one bucket, the category of the report, and
/// no bucket when the report is a timeout.
proof fn lemma_bucket_count_push<RV: NonnegativeRandomVariable>(
    rv: RV,
    outs: Seq<Option<RV::Outcome>>,
    x: Option<RV::Outcome>,
    v: int,
)
    ensures
        bucket_count(rv, outs.push(x), v) == bucket_count(rv, outs, v) + (match x {
            Some(o) => if rv.map_spec(o) == v {
                1int
            } else {
                0int
            },
            None => 0int,
        }),
{
    assert(outs.push(x).drop_last() =~= outs);
    assert(outs.push(x).last() == x);
}

/// One more report raises the in-range total by one exactly when its
/// category is in range.
proof fn lemma_hist_sum_push<RV: NonnegativeRandomVariable>(
    rv: RV,
    outs: Seq<Option<RV::Outcome>>,
    x: Option<RV::Outcome>,
    len: int,
)
    ensures
        hist_sum(rv, outs.push(x), len) == hist_sum(rv, outs, len) + (match x {
            Some(o) => if 0 <= rv.map_spec(o) < len {
                1int
            } else {
                0int
            },
            None => 0int,
        }),
    decreases len,
{
    if len > 0 {
        lemma_hist_sum_push(rv, outs, x, len - 1);
        lemma_bucket_count_push(rv, outs, x, len - 1);
    }
}

/// The in-range total of the reports is everything that was not dropped.
proof fn lemma_hist_sum_dropped<RV: NonnegativeRandomVariable>(
    rv: RV,
    outs: Seq<Option<RV::Outcome>>,
    len: int,
)
    requires
        len >= 0,
    ensures
        hist_sum(rv, outs, len) == outs.len() - dropped_count(rv, outs, len),
    decreases outs.len(),
{
    if outs.len() == 0 {
        lemma_hist_sum_empty(rv, outs, len);
    } else {
        let prev = outs.drop_last();
        let x = outs.last();
        lemma_hist_sum_dropped(rv, prev, len);
        lemma_hist_sum_push(rv, prev, x, len);
        assert(prev.push(x) =~= outs);
    }
}

proof fn lemma_hist_sum_empty<RV: NonnegativeRandomVariable>(
    rv: RV,
    outs: Seq<Option<RV::Outcome>>,
    len: int,
)
    requires
        outs.len() == 0,
    ensures
        hist_sum(rv, outs, len) == 0,
    decreases len,
{
    if len > 0 {
        lemma_hist_sum_empty(rv, outs, len - 1);
    }
}

/// A histogram whose slots count by category sums to the in-range total.
proof fn lemma_seq_sum_hist<RV: NonnegativeRandomVariable>(
    rv: RV,
    outs: Seq<Option<RV::Outcome>>,
    mass: Seq<usize>,
)
    requires
        forall|v: int| 0 <= v < mass.len() ==> mass[v] == bucket_count(rv, outs, v),
    ensures
        seq_sum(mass) == hist_sum(rv, outs, mass.len() as int),
    decreases mass.len(),
{
    if mass.len() > 0 {
        lemma_seq_sum_hist(rv, outs, mass.drop_last());
    }
}

/// Law: the histogram accounts for exactly the trials that were not dropped.
/// Its slots sum to the number of reports minus the dropped ones, so the
/// total probability mass of the derived mass function over `rounds` reports
/// is exactly `(rounds - dropped) / rounds` -- and exactly one when nothing
/// was dropped.
pub proof fn lemma_histogram_total_mass<RV: NonnegativeRandomVariable>(
    rv: RV,
    outs: Seq<Option<RV::Outcome>>,
    mass: Seq<usize>,
)
    requires
        forall|v: int| 0 <= v < mass.len() ==> mass[v] == bucket_count(rv, outs, v),
    ensures
        seq_sum(mass) == outs.len() - dropped_count(rv, outs, mass.len() as int),
{
    lemma_seq_sum_hist(rv, outs, mass);
    lemma_hist_sum_dropped(rv, outs, mass.len() as int);
}

} // verus!
