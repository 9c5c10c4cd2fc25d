use cond_prob_sim::{expectation, prob_mass_func, variance, Pmf, Ratio};

/// The mass function keeps the histogram counts as numerators over the
/// declared round count.
#[test]
fn pmf_keeps_counts_over_rounds() {
    let mass = vec![1usize, 2, 3];
    let pmf = prob_mass_func(&mass, 6);
    assert_eq!(pmf.counts, vec![1, 2, 3]);
    assert_eq!(pmf.rounds, 6);
}

#[test]
fn pmf_of_empty_histogram() {
    let mass: Vec<usize> = vec![];
    let pmf = prob_mass_func(&mass, 5);
    assert!(pmf.counts.is_empty());
    assert_eq!(pmf.rounds, 5);
}

/// Expectation of counts [1, 2, 3] over 6 rounds is
/// (0*1 + 1*2 + 2*3) / 6 = 8/6.
#[test]
fn expectation_exact_value() {
    let pmf = prob_mass_func(&[1, 2, 3], 6);
    let e = expectation(&pmf);
    assert_eq!(e.num, 8);
    assert_eq!(e.den, 6);
}

#[test]
fn expectation_of_empty_pmf_is_zero() {
    let pmf = Pmf {
        counts: vec![],
        rounds: 1,
    };
    let e = expectation(&pmf);
    assert_eq!(e.num, 0);
    assert_eq!(e.den, 1);
}

/// A fair choice between categories 0 and 1 has expectation 1/2 and
/// variance 1/4: counts [1, 1] over 2 rounds give expectation 1/2, and the
/// variance numerator (0*2-1)^2*1 + (1*2-1)^2*1 = 2 over denominator
/// 2*2*2 = 8 is exactly 1/4.
#[test]
fn variance_exact_value() {
    let pmf = prob_mass_func(&[1, 1], 2);
    let e = expectation(&pmf);
    assert_eq!(e.num, 1);
    assert_eq!(e.den, 2);
    let v = variance(&pmf, &e);
    assert_eq!(v.num, 2);
    assert_eq!(v.den, 8);
}

/// Both statistics weigh each bin by its own category index, so summing the
/// bins in any other order, each kept paired with its index, gives the same
/// value as the positional computation.
#[test]
fn statistics_are_weighted_index_sums() {
    let counts = [4usize, 1, 5, 2];
    let pmf = prob_mass_func(&counts, 12);
    let e = expectation(&pmf);
    let reordered = [(2usize, 5usize), (0, 4), (3, 2), (1, 1)];
    let mut e_num = 0u128;
    for &(x, w) in reordered.iter() {
        e_num += (x as u128) * (w as u128);
    }
    assert_eq!(e.num, e_num);
    let v = variance(&pmf, &e);
    let mut v_num = 0u128;
    for &(x, w) in reordered.iter() {
        let t = (x as u128) * e.den;
        let d = if t >= e.num { t - e.num } else { e.num - t };
        v_num += d * d * (w as u128);
    }
    assert_eq!(v.num, v_num);
}

/// Variance about an expectation given over a different denominator.
#[test]
fn variance_with_scaled_expectation() {
    let pmf = prob_mass_func(&[1, 1], 2);
    let e = Ratio { num: 2, den: 4 };
    let v = variance(&pmf, &e);
    assert_eq!(v.num, (0 * 4u128).abs_diff(2).pow(2) * 1 + (1 * 4u128).abs_diff(2).pow(2) * 1);
    assert_eq!(v.den, 4 * 4 * 2);
}
