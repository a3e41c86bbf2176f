use lau_control_theory::pid::{rise_window, settling_index};

fn levels(output: &[f64], setpoint: f64) -> (Vec<bool>, Vec<bool>) {
    (
        output.iter().map(|&y| y >= setpoint * 0.1).collect(),
        output.iter().map(|&y| y >= setpoint * 0.9).collect(),
    )
}

#[test]
fn rise_window_of_ramp() {
    let output = [0.0, 0.05, 0.2, 0.5, 0.8, 0.95, 1.0];
    let (low, high) = levels(&output, 1.0);
    assert_eq!(rise_window(&low, &high), Some((2, 5)));
}

#[test]
fn rise_window_same_sample() {
    // A jump straight past both levels: both are reached at the same sample.
    let output = [0.0, 1.0, 1.0];
    let (low, high) = levels(&output, 1.0);
    assert_eq!(rise_window(&low, &high), Some((1, 1)));
}

#[test]
fn rise_window_missing() {
    let output = [0.0, 0.01, 0.02];
    let (low, high) = levels(&output, 1.0);
    assert_eq!(rise_window(&low, &high), None);
    let output = [0.0, 0.3, 0.5];
    let (low, high) = levels(&output, 1.0);
    assert_eq!(rise_window(&low, &high), None);
    assert_eq!(rise_window(&vec![], &vec![]), None);
}

#[test]
fn settling_after_last_excursion() {
    let outside = vec![true, true, false, true, false, false];
    assert_eq!(settling_index(&outside, 6), Some(4));
}

#[test]
fn settling_never_outside() {
    // Already within the band: settled from the first time point.
    assert_eq!(settling_index(&vec![false, false, false], 3), Some(0));
    assert_eq!(settling_index(&vec![false, false], 2), Some(0));
    assert_eq!(settling_index(&vec![], 0), None);
}

#[test]
fn settling_outside_at_end() {
    assert_eq!(settling_index(&vec![false, false, true], 3), None);
    // A longer time axis still has a point after the last excursion.
    assert_eq!(settling_index(&vec![false, false, true], 4), Some(3));
}
