use lau_control_theory::agent_control::{assess_stability, count_crossings, escalation, oscillation_detected, BoundExceedance};

fn exceed(token: bool, error: bool, deviation: bool) -> BoundExceedance {
    BoundExceedance { token_rate: token, error_rate: error, deviation }
}

fn mean_crossings(signal: &[f64]) -> Vec<bool> {
    if signal.is_empty() {
        return vec![];
    }
    let mean = signal.iter().sum::<f64>() / signal.len() as f64;
    let d: Vec<f64> = signal.iter().map(|&x| x - mean).collect();
    (1..d.len()).map(|i| d[i - 1] * d[i] < 0.0).collect()
}

#[test]
fn test_oscillation_detection() {
    let signal = vec![0.0, 1.0, 0.0, 1.0, 0.0, 1.0, 0.0, 1.0];
    assert!(oscillation_detected(signal.len(), &mean_crossings(&signal)));

    let stable = vec![0.0, 0.1, 0.2, 0.3, 0.4, 0.5];
    assert!(!oscillation_detected(stable.len(), &mean_crossings(&stable)));
}

#[test]
fn test_feedback_control_normal() {
    // token_rate 500 <= 1000, error_rate 0.01 <= 0.1, deviation 0.1 <= 0.5
    let e = escalation(&exceed(500.0 > 1000.0, 0.01 > 0.1, 0.1 > 0.5));
    assert!(!e.strict_mode);
    assert_eq!(e.warning_level, 0);
}

#[test]
fn test_agent_stability_analysis() {
    let metrics = [(500.0, 0.01, 0.1), (600.0, 0.02, 0.15), (550.0, 0.015, 0.12)];
    let samples: Vec<BoundExceedance> =
        metrics.iter().map(|&(t, e, d)| exceed(t > 1000.0, e > 0.1, d > 0.5)).collect();
    let deviations = vec![0.0; metrics.len()];
    let report = assess_stability(&samples, &mean_crossings(&deviations));
    assert!(report.is_stable);
    assert_eq!(report.bound_violations, 0);
}

#[test]
fn escalation_levels() {
    let e = escalation(&exceed(true, false, false));
    assert_eq!((e.warning_level, e.strict_mode), (1, false));
    assert_eq!(e.description, "Mild: one bound exceeded");
    let e = escalation(&exceed(false, true, true));
    assert_eq!((e.warning_level, e.strict_mode), (2, true));
    assert_eq!(e.description, "Severe: two bounds exceeded");
    let e = escalation(&exceed(true, true, true));
    assert_eq!((e.warning_level, e.strict_mode), (2, true));
    assert_eq!(e.description, "Critical: all bounds exceeded");
    let e = escalation(&exceed(false, false, false));
    assert_eq!(e.description, "Normal operation");
}

#[test]
fn exceedance_count() {
    assert_eq!(exceed(false, false, false).count(), 0);
    assert_eq!(exceed(true, false, true).count(), 2);
    assert_eq!(exceed(true, true, true).count(), 3);
}

#[test]
fn crossings_counted() {
    assert_eq!(count_crossings(&vec![true, false, true, true]), 3);
    assert_eq!(count_crossings(&vec![]), 0);
}

#[test]
fn oscillation_needs_four_points() {
    assert!(!oscillation_detected(3, &vec![true, true]));
    assert!(oscillation_detected(4, &vec![true, true, true]));
    assert!(!oscillation_detected(4, &vec![true, true, false]));
}

#[test]
fn stability_with_violations() {
    let samples = vec![exceed(true, true, true), exceed(false, true, false)];
    let v = assess_stability(&samples, &vec![false]);
    assert_eq!(v.bound_violations, 4);
    assert!(!v.oscillation_detected);
    assert!(!v.is_stable);
}

#[test]
fn stability_with_oscillation_only() {
    let samples = vec![exceed(false, false, false); 6];
    let v = assess_stability(&samples, &vec![true, true, true, true, false]);
    assert_eq!(v.bound_violations, 0);
    assert!(v.oscillation_detected);
    assert!(!v.is_stable);
}

#[test]
fn stability_of_empty_history() {
    let v = assess_stability(&vec![], &vec![]);
    assert!(v.is_stable);
    assert_eq!(v.bound_violations, 0);
    assert!(!v.oscillation_detected);
}
