use lau_control_theory::transfer_function::{
    companion_with_first_row, companion_with_last_column, pad_front, polynomial_order, trim_leading,
    unit_column,
};

fn significant(v: &[f64]) -> Vec<bool> {
    v.iter().map(|c| c.abs() > 1e-15).collect()
}

#[test]
fn order_of_polynomials() {
    // tau*s + 1 and s^2 + s + 1
    assert_eq!(polynomial_order(&vec![0.5, 1.0]), 1);
    assert_eq!(polynomial_order(&vec![1.0, 1.0, 1.0]), 2);
    assert_eq!(polynomial_order(&vec![5.0]), 0);
    assert_eq!(polynomial_order(&Vec::<f64>::new()), 0);
}

#[test]
fn trim_leading_zeros() {
    let v = vec![0.0, 0.0, 1.0, 2.0];
    assert_eq!(trim_leading(&v, &significant(&v), 0.0), vec![1.0, 2.0]);
    let v = vec![1.0, 0.0, 2.0];
    assert_eq!(trim_leading(&v, &significant(&v), 0.0), vec![1.0, 0.0, 2.0]);
}

#[test]
fn trim_all_insignificant_keeps_last() {
    let v = vec![0.0, 0.0];
    assert_eq!(trim_leading(&v, &significant(&v), 0.0), vec![0.0]);
    let v = vec![1e-20, 2e-20];
    assert_eq!(trim_leading(&v, &significant(&v), 0.0), vec![2e-20]);
}

#[test]
fn trim_empty_gives_zero() {
    let v: Vec<f64> = vec![];
    assert_eq!(trim_leading(&v, &vec![], 0.0), vec![0.0]);
}

#[test]
fn pad_front_aligns() {
    assert_eq!(pad_front(&vec![1.0, 2.0], 4, 0.0), vec![0.0, 0.0, 1.0, 2.0]);
    assert_eq!(pad_front(&vec![3, 4], 2, 0), vec![3, 4]);
    assert_eq!(pad_front(&Vec::<i32>::new(), 2, 0), vec![0, 0]);
}

#[test]
fn companion_last_column_layout() {
    // s^3 + 2s^2 + 3s + 4: last column [-4, -3, -2]
    let m = companion_with_last_column(&vec![-4.0, -3.0, -2.0], 0.0, 1.0);
    assert_eq!(m, vec![vec![0.0, 0.0, -4.0], vec![1.0, 0.0, -3.0], vec![0.0, 1.0, -2.0]]);
    assert_eq!(companion_with_last_column(&vec![7], 0, 1), vec![vec![7]]);
}

#[test]
fn companion_first_row_layout() {
    // s^2 + 3s + 2: first row [-3, -2]
    let m = companion_with_first_row(&vec![-3.0, -2.0], 0.0, 1.0);
    assert_eq!(m, vec![vec![-3.0, -2.0], vec![1.0, 0.0]]);
    assert!(companion_with_first_row(&Vec::<i32>::new(), 0, 1).is_empty());
}

#[test]
fn unit_column_layout() {
    assert_eq!(unit_column(3, 0.0, 1.0), vec![vec![1.0], vec![0.0], vec![0.0]]);
    assert_eq!(unit_column(1, 0, 1), vec![vec![1]]);
}
