use lau_control_theory::stability::{
    count_sign_changes, hurwitz_layout, routh_seed_rows, summarize_first_column, Sign,
};
use Sign::{Negative, Positive, Zero};

#[test]
fn sign_changes_none() {
    assert_eq!(count_sign_changes(&vec![Positive, Positive, Positive, Positive]), 0);
    assert_eq!(count_sign_changes(&vec![]), 0);
    assert_eq!(count_sign_changes(&vec![Negative]), 0);
}

#[test]
fn sign_changes_counted() {
    // s^3 + 2s^2 - 3s + 4: first column 1, 2, -5, 4
    assert_eq!(count_sign_changes(&vec![Positive, Positive, Negative, Positive]), 2);
    assert_eq!(count_sign_changes(&vec![Positive, Negative, Positive, Negative]), 3);
}

#[test]
fn sign_changes_skip_zero_entries() {
    assert_eq!(count_sign_changes(&vec![Positive, Zero, Negative]), 1);
    assert_eq!(count_sign_changes(&vec![Positive, Zero, Zero, Positive]), 0);
    assert_eq!(count_sign_changes(&vec![Zero, Negative, Zero, Positive, Zero]), 1);
}

#[test]
fn summary_stable_and_unstable() {
    let s = summarize_first_column(&vec![Positive, Positive, Positive], true);
    assert!(s.is_stable);
    assert_eq!(s.sign_changes, 0);
    assert_eq!(s.rhp_roots, 0);
    let s = summarize_first_column(&vec![Positive, Negative, Positive], true);
    assert!(!s.is_stable);
    assert_eq!(s.sign_changes, 2);
    assert_eq!(s.rhp_roots, 2);
}

#[test]
fn summary_rejects_inadmissible_coefficients() {
    // s^2 - 1: the first column has no sign change once zeros are skipped,
    // but a coefficient is negative.
    let s = summarize_first_column(&vec![Positive, Zero, Negative], false);
    assert_eq!(s.sign_changes, 1);
    assert!(!s.is_stable);
    let s = summarize_first_column(&vec![Positive, Positive], false);
    assert_eq!(s.sign_changes, 0);
    assert!(!s.is_stable);
}

#[test]
fn seed_rows_even_odd() {
    let (r0, r1) = routh_seed_rows(&vec![1.0, 10.0, 35.0, 50.0, 24.0], 0.0);
    assert_eq!(r0, vec![1.0, 35.0, 24.0]);
    assert_eq!(r1, vec![10.0, 50.0, 0.0]);
    let (r0, r1) = routh_seed_rows(&vec![1.0, 2.0, 3.0, 4.0], 0.0);
    assert_eq!(r0, vec![1.0, 3.0]);
    assert_eq!(r1, vec![2.0, 4.0]);
}

#[test]
fn hurwitz_layout_third_order() {
    // a = [a0, a1, a2, a3] = [1, 2, 3, 4]: rows [a1, a3, 0], [a0, a2, 0], [0, a1, a3]
    let h = hurwitz_layout(&vec![1, 2, 3, 4], 0);
    assert_eq!(h, vec![vec![2, 4, 0], vec![1, 3, 0], vec![0, 2, 4]]);
}

#[test]
fn hurwitz_layout_degenerate() {
    assert!(hurwitz_layout(&vec![1.0], 0.0).is_empty());
    assert_eq!(hurwitz_layout(&vec![1.0, 5.0], 0.0), vec![vec![5.0]]);
    assert_eq!(hurwitz_layout(&vec![1.0, 3.0, 2.0], 0.0), vec![vec![3.0, 0.0], vec![1.0, 2.0]]);
}

#[test]
fn hurwitz_layout_negative_index_is_zero() {
    let h = hurwitz_layout(&vec![1, 2, 3, 4, 5], 0);
    assert_eq!(h[0], vec![2, 4, 0, 0]);
    assert_eq!(h[1], vec![1, 3, 5, 0]);
    assert_eq!(h[2], vec![0, 2, 4, 0]);
    assert_eq!(h[3], vec![0, 1, 3, 5]);
}
