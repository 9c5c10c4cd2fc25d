use cond_prob_sim::{select, select_at, WEIGHT_SCALE};

/// An entry whose weight is the whole scale is chosen on every draw; the
/// zero-weight entry after it is never reachable, whatever the draw.
#[test]
fn certain_entry_always_chosen() {
    let space: &[(u64, u32)] = &[(WEIGHT_SCALE, 7), (0, 8)];
    for _ in 0..1000 {
        assert_eq!(*select(space), 7);
    }
}

/// The deterministic half of selection walks the cumulative weights: each
/// draw lands in exactly one entry's half-open interval.
#[test]
fn select_at_exact_intervals() {
    let space: &[(u64, char)] = &[(2, 'a'), (3, 'b'), (5, 'c')];
    assert_eq!(select_at(space, 0), 0);
    assert_eq!(select_at(space, 1), 0);
    assert_eq!(select_at(space, 2), 1);
    assert_eq!(select_at(space, 4), 1);
    assert_eq!(select_at(space, 5), 2);
    assert_eq!(select_at(space, 9), 2);
}

/// A draw at or beyond the total weight falls back to the last entry.
#[test]
fn select_at_fallback_to_last() {
    let space: &[(u64, char)] = &[(1, 'a'), (1, 'b')];
    assert_eq!(select_at(space, 2), 1);
    assert_eq!(select_at(space, 1000), 1);
    let single: &[(u64, char)] = &[(0, 'z')];
    assert_eq!(select_at(single, 0), 0);
}

/// A zero-weight entry between positive ones is skipped: its interval is
/// empty.
#[test]
fn select_at_skips_zero_weight() {
    let space: &[(u64, char)] = &[(2, 'a'), (0, 'b'), (3, 'c')];
    assert_eq!(select_at(space, 1), 0);
    assert_eq!(select_at(space, 2), 2);
}

/// Repeated selection over a weighted space converges to the declared
/// probabilities: with weights 0.3 and 0.7 of the scale, a million draws
/// land on each entry within a percent of its share.
#[test]
fn selection_converges_to_weights() {
    let w0 = 3 * (WEIGHT_SCALE / 10);
    let w1 = WEIGHT_SCALE - w0;
    let space: &[(u64, usize)] = &[(w0, 0), (w1, 1)];
    let rounds = 1_000_000;
    let mut hits = [0usize; 2];
    for _ in 0..rounds {
        hits[*select(space)] += 1;
    }
    let f0 = hits[0] as f64 / rounds as f64;
    let f1 = hits[1] as f64 / rounds as f64;
    println!("f0 = {}", f0);
    println!("f1 = {}", f1);
    assert!((f0 - 0.3).abs() < 0.01);
    assert!((f1 - 0.7).abs() < 0.01);
}
