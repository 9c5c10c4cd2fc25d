//! Derived statistics: probability mass function, expectation and variance.
//!
//! A histogram entry divided by the declared number of rounds is a rational
//! number, so the statistics are computed exactly as rationals instead of
//! approximately as floating-point values. A [`Pmf`] keeps the histogram
//! counts as numerators over the round count; [`expectation`] and
//! [`variance`] return a [`Ratio`] whose value is exactly the weighted-index
//! sum the statistic defines.

use vstd::prelude::*;

verus! {

/// A probability mass function over categories `0, 1, ..., len - 1`: entry
/// `v` is the rational `counts[v] / rounds`. `rounds` is the declared trial
/// count, not the sum of the counts, so dropped trials leave the total mass
/// below one.
pub struct Pmf {
    pub counts: Vec<usize>,
    pub rounds: usize,
}

impl Pmf {
    /// A mass function is over at least one trial.
    pub open spec fn wf(&self) -> bool {
        self.rounds >= 1
    }
}

/// An exact non-negative rational number.
pub struct Ratio {
    pub num: u128,
    pub den: u128,
}

/// The sum of all entries of `s`.
pub open spec fn seq_sum(s: Seq<usize>) -> int
    decreases s.len(),
{
    if s.len() == 0 {
        0
    } else {
        seq_sum(s.drop_last()) + s.last()
    }
}

/// The numerator of the expectation of a mass function with entry
/// numerators `counts`: the weighted-index sum of the counts. The
/// expectation itself is this over `rounds`.
pub open spec fn expectation_num(counts: Seq<usize>) -> int
    decreases counts.len(),
{
    if counts.len() == 0 {
        0
    } else {
        expectation_num(counts.drop_last()) + (counts.len() - 1) * counts.last()
    }
}

/// The numerator of the variance of a mass function with entry numerators
/// `counts` about the expectation `e_num / e_den`: the weighted-index sum of
/// the squared deviations, each scaled by `e_den`. The variance itself is
/// this over `e_den * e_den * rounds`.
pub open spec fn variance_num(counts: Seq<usize>, e_num: int, e_den: int) -> int
    decreases counts.len(),
{
    if counts.len() == 0 {
        0
    } else {
        let i = counts.len() - 1;
        let d = i * e_den - e_num;
        variance_num(counts.drop_last(), e_num, e_den) + d * d * counts.last()
    }
}

/// Divide each count by the declared number of rounds: the counts become the
/// numerators of the mass function, `rounds` its common denominator.
pub fn prob_mass_func(mass: &[usize], rounds: usize) -> (pmf: Pmf)
    requires
        rounds >= 1,
    ensures
        pmf.counts@ == mass@,
        pmf.rounds == rounds,
        pmf.wf(),
{
    let mut counts: Vec<usize> = Vec::new();
    let mut i: usize = 0;
    while i < mass.len()
        invariant
            i <= mass@.len(),
            counts@ =~= mass@.take(i as int),
        decreases mass@.len() - i,
    {
        counts.push(mass[i]);
        i = i + 1;
    }
    proof {
        assert(counts@ =~= mass@);
    }
    Pmf { counts, rounds }
}

/// Every expectation term is non-negative, so a prefix of the sum is at most
/// the whole.
proof fn lemma_expectation_num_prefix(counts: Seq<usize>, i: int)
    requires
        0 <= i <= counts.len(),
    ensures
        0 <= expectation_num(counts.take(i)) <= expectation_num(counts.take(counts.len() as int)),
    decreases counts.len() - i,
{
    if i < counts.len() {
        lemma_expectation_num_prefix(counts, i + 1);
        lemma_expectation_num_nonneg(counts.take(i));
        assert(counts.take(i + 1).drop_last() =~= counts.take(i));
        assert(counts.take(i + 1).last() == counts[i]);
        assert(i * (counts[i] as int) >= 0) by (nonlinear_arith)
            requires
                i >= 0,
                counts[i] as int >= 0,
        ;
    } else {
        lemma_expectation_num_nonneg(counts.take(i));
    }
}

proof fn lemma_expectation_num_nonneg(counts: Seq<usize>)
    ensures
        expectation_num(counts) >= 0,
    decreases counts.len(),
{
    if counts.len() > 0 {
        lemma_expectation_num_nonneg(counts.drop_last());
    }
}

/// The expectation of a mass function: the sum over each category `v` of
/// `v * counts[v] / rounds`, returned as the exact rational
/// `expectation_num(counts) / rounds`.
pub fn expectation(pmf: &Pmf) -> (e: Ratio)
    requires
        pmf.wf(),
        expectation_num(pmf.counts@) <= u128::MAX,
    ensures
        e.num == expectation_num(pmf.counts@),
        e.den == pmf.rounds,
{
    let ghost counts = pmf.counts@;
    let n = pmf.counts.len();
    let mut acc: u128 = 0;
    let mut i: usize = 0;
    while i < n
        invariant
            n == counts.len(),
            counts == pmf.counts@,
            i <= n,
            acc == expectation_num(counts.take(i as int)),
            expectation_num(counts) <= u128::MAX,
        decreases n - i,
    {
        let c = pmf.counts[i];
        proof {
            lemma_expectation_num_prefix(counts, i + 1 as int);
            assert(counts.take(n as int) =~= counts);
            assert(counts.take(i + 1 as int).drop_last() =~= counts.take(i as int));
            assert((i as int) * (c as int) <= u128::MAX) by (nonlinear_arith)
                requires
                    0 <= i as int <= u64::MAX,
                    0 <= c as int <= u64::MAX,
            ;
        }
        acc = acc + (i as u128) * (c as u128);
        i = i + 1;
    }
    proof {
        assert(counts.take(n as int) =~= counts);
    }
    Ratio { num: acc, den: pmf.rounds as u128 }
}

/// Every variance term is non-negative, so a prefix of the sum is at most
/// the whole.
proof fn lemma_variance_num_prefix(counts: Seq<usize>, e_num: int, e_den: int, i: int)
    requires
        0 <= i <= counts.len(),
    ensures
        0 <= variance_num(counts.take(i), e_num, e_den) <= variance_num(
            counts.take(counts.len() as int),
            e_num,
            e_den,
        ),
    decreases counts.len() - i,
{
    if i < counts.len() {
        lemma_variance_num_prefix(counts, e_num, e_den, i + 1);
        lemma_variance_num_nonneg(counts.take(i), e_num, e_den);
        assert(counts.take(i + 1).drop_last() =~= counts.take(i));
        assert(counts.take(i + 1).last() == counts[i]);
        let d = i * e_den - e_num;
        assert(d * d * (counts[i] as int) >= 0) by (nonlinear_arith)
            requires
                counts[i] as int >= 0,
        ;
    } else {
        lemma_variance_num_nonneg(counts.take(i), e_num, e_den);
    }
}

proof fn lemma_variance_num_nonneg(counts: Seq<usize>, e_num: int, e_den: int)
    ensures
        variance_num(counts, e_num, e_den) >= 0,
    decreases counts.len(),
{
    if counts.len() > 0 {
        lemma_variance_num_nonneg(counts.drop_last(), e_num, e_den);
        let i = counts.len() - 1;
        let d = i * e_den - e_num;
        assert(d * d * (counts.last() as int) >= 0) by (nonlinear_arith)
            requires
                counts.last() as int >= 0,
        ;
    }
}

/// The variance of a mass function about the expectation
/// `expectation.num / expectation.den`: the sum over each category `v` of
/// `(v - expectation)^2 * counts[v] / rounds`, returned as the exact rational
/// `variance_num(..) / (expectation.den^2 * rounds)`.
pub fn variance(pmf: &Pmf, expectation: &Ratio) -> (v: Ratio)
    requires
        pmf.wf(),
        expectation.den >= 1,
        (pmf.counts@.len() as int) * (expectation.den as int) <= u128::MAX,
        variance_num(pmf.counts@, expectation.num as int, expectation.den as int) <= u128::MAX,
        (expectation.den as int) * (expectation.den as int) * (pmf.rounds as int) <= u128::MAX,
    ensures
        v.num == variance_num(pmf.counts@, expectation.num as int, expectation.den as int),
        v.den == (expectation.den as int) * (expectation.den as int) * (pmf.rounds as int),
{
    let ghost counts = pmf.counts@;
    let ghost en: int = expectation.num as int;
    let ghost ed: int = expectation.den as int;
    let n = pmf.counts.len();
    let mut acc: u128 = 0;
    let mut i: usize = 0;
    while i < n
        invariant
            n == counts.len(),
            counts == pmf.counts@,
            i <= n,
            en == expectation.num as int,
            ed == expectation.den as int,
            ed >= 1,
            (counts.len() as int) * ed <= u128::MAX,
            variance_num(counts, en, ed) <= u128::MAX,
            acc == variance_num(counts.take(i as int), en, ed),
        decreases n - i,
    {
        let c = pmf.counts[i];
        proof {
            lemma_variance_num_prefix(counts, en, ed, i + 1 as int);
            assert(counts.take(n as int) =~= counts);
            assert(counts.take(i + 1 as int).drop_last() =~= counts.take(i as int));
            assert(counts.take(i + 1 as int).last() == counts[i as int]);
        }
        if c > 0 {
            proof {
                assert((i as int) * ed <= (counts.len() as int) * ed) by (nonlinear_arith)
                    requires
                        0 <= i as int <= counts.len() as int,
                        ed >= 0,
                ;
            }
            let t = (i as u128) * expectation.den;
            let diff = if t >= expectation.num {
                t - expectation.num
            } else {
                expectation.num - t
            };
            proof {
                let d = (i as int) * ed - en;
                let term = d * d * (c as int);
                assert(variance_num(counts.take(i + 1 as int), en, ed) == variance_num(
                    counts.take(i as int),
                    en,
                    ed,
                ) + term);
                assert((diff as int) * (diff as int) == d * d) by (nonlinear_arith)
                    requires
                        diff as int == if d >= 0 {
                            d
                        } else {
                            -d
                        },
                ;
                assert(d * d <= term) by (nonlinear_arith)
                    requires
                        c as int >= 1,
                        term == d * d * (c as int),
                ;
            }
            let sq = diff * diff;
            let term = sq * (c as u128);
            acc = acc + term;
        } else {
            proof {
                let d = (i as int) * ed - en;
                assert(d * d * (c as int) == 0) by (nonlinear_arith)
                    requires
                        c as int == 0,
                ;
            }
        }
        i = i + 1;
    }
    proof {
        assert(counts.take(n as int) =~= counts);
        assert(ed * ed <= ed * ed * (pmf.rounds as int)) by (nonlinear_arith)
            requires
                ed >= 1,
                pmf.rounds as int >= 1,
        ;
    }
    let den2 = expectation.den * expectation.den;
    let den3 = den2 * (pmf.rounds as u128);
    Ratio { num: acc, den: den3 }
}

/// The bins of a histogram, each count paired with the category index it
/// stands for.
pub open spec fn indexed_bins(counts: Seq<usize>) -> Seq<(int, int)> {
    Seq::new(counts.len(), |i: int| (i, counts[i] as int))
}

/// The sum of `f` over all bins, in the order they stand.
pub open spec fn term_sum(bins: Seq<(int, int)>, f: spec_fn((int, int)) -> int) -> int
    decreases bins.len(),
{
    if bins.len() == 0 {
        0
    } else {
        term_sum(bins.drop_last(), f) + f(bins.last())
    }
}

/// The expectation term of one (category, count) bin.
pub open spec fn expectation_term() -> spec_fn((int, int)) -> int {
    |b: (int, int)| b.0 * b.1
}

/// The variance term of one (category, count) bin about the expectation
/// `e_num / e_den`.
pub open spec fn variance_term(e_num: int, e_den: int) -> spec_fn((int, int)) -> int {
    |b: (int, int)| (b.0 * e_den - e_num) * (b.0 * e_den - e_num) * b.1
}

/// Taking one bin out takes exactly its term out of the sum.
proof fn lemma_term_sum_remove(bins: Seq<(int, int)>, f: spec_fn((int, int)) -> int, j: int)
    requires
        0 <= j < bins.len(),
    ensures
        term_sum(bins.remove(j), f) == term_sum(bins, f) - f(bins[j]),
    decreases bins.len(),
{
    if j == bins.len() - 1 {
        assert(bins.remove(j) =~= bins.drop_last());
    } else {
        let prev = bins.drop_last();
        lemma_term_sum_remove(prev, f, j);
        assert(bins.remove(j).drop_last() =~= prev.remove(j));
        assert(bins.remove(j).last() == bins.last());
    }
}

/// Reordering the bins leaves the sum unchanged.
proof fn lemma_term_sum_permutation(
    b1: Seq<(int, int)>,
    b2: Seq<(int, int)>,
    f: spec_fn((int, int)) -> int,
)
    requires
        b1.to_multiset() == b2.to_multiset(),
    ensures
        term_sum(b1, f) == term_sum(b2, f),
    decreases b1.len(),
{
    broadcast use vstd::seq_lib::group_to_multiset_ensures;
    broadcast use vstd::multiset::group_multiset_axioms;

    if b1.len() == 0 {
        assert(b2.len() == b2.to_multiset().len());
    } else {
        let x = b1.last();
        let prev = b1.drop_last();
        assert(b1[b1.len() - 1] == x);
        assert(b1.contains(x));
        assert(b2.to_multiset().count(x) > 0);
        assert(b2.contains(x));
        let j = choose|j: int| 0 <= j < b2.len() && b2[j] == x;
        let b2r = b2.remove(j);
        assert(prev.push(x) =~= b1);
        assert(b1.to_multiset() =~= prev.to_multiset().insert(x));
        assert(b2r.to_multiset() =~= b2.to_multiset().remove(x));
        assert(prev.to_multiset() =~= b2r.to_multiset());
        lemma_term_sum_permutation(prev, b2r, f);
        lemma_term_sum_remove(b2, f, j);
    }
}

/// The expectation numerator is the expectation-term sum of the indexed bins.
proof fn lemma_expectation_num_bins(counts: Seq<usize>)
    ensures
        term_sum(indexed_bins(counts), expectation_term()) == expectation_num(counts),
    decreases counts.len(),
{
    if counts.len() > 0 {
        lemma_expectation_num_bins(counts.drop_last());
        assert(indexed_bins(counts).drop_last() =~= indexed_bins(counts.drop_last()));
        assert(indexed_bins(counts).last() == (counts.len() - 1, counts.last() as int));
    }
}

/// The variance numerator is the variance-term sum of the indexed bins.
proof fn lemma_variance_num_bins(counts: Seq<usize>, e_num: int, e_den: int)
    ensures
        term_sum(indexed_bins(counts), variance_term(e_num, e_den)) == variance_num(
            counts,
            e_num,
            e_den,
        ),
    decreases counts.len(),
{
    if counts.len() > 0 {
        lemma_variance_num_bins(counts.drop_last(), e_num, e_den);
        assert(indexed_bins(counts).drop_last() =~= indexed_bins(counts.drop_last()));
        assert(indexed_bins(counts).last() == (counts.len() - 1, counts.last() as int));
    }
}

/// Law: expectation is a genuine weighted-index statistic. Re-ordering the
/// histogram bins, each kept paired with its own category index, leaves the
/// expectation unchanged: any reordering `bins` of the indexed bins of
/// `counts` has the same expectation-term sum as the histogram itself.
pub proof fn lemma_expectation_bin_reorder(counts: Seq<usize>, bins: Seq<(int, int)>)
    requires
        bins.to_multiset() == indexed_bins(counts).to_multiset(),
    ensures
        term_sum(bins, expectation_term()) == expectation_num(counts),
{
    lemma_term_sum_permutation(bins, indexed_bins(counts), expectation_term());
    lemma_expectation_num_bins(counts);
}

/// Law: variance is a genuine weighted-index statistic, in the same sense as
/// the expectation: re-ordering the bins paired consistently with their
/// category indices leaves it unchanged.
pub proof fn lemma_variance_bin_reorder(
    counts: Seq<usize>,
    bins: Seq<(int, int)>,
    e_num: int,
    e_den: int,
)
    requires
        bins.to_multiset() == indexed_bins(counts).to_multiset(),
    ensures
        term_sum(bins, variance_term(e_num, e_den)) == variance_num(counts, e_num, e_den),
{
    lemma_term_sum_permutation(bins, indexed_bins(counts), variance_term(e_num, e_den));
    lemma_variance_num_bins(counts, e_num, e_den);
}

} // verus!
