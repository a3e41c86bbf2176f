use lau_control_theory::nyquist::closed_loop_stable;

#[test]
fn nyquist_no_encirclement_stable() {
    assert!(closed_loop_stable(0, 0));
}

#[test]
fn nyquist_encirclement_unstable() {
    assert!(!closed_loop_stable(1, 0));
    assert!(!closed_loop_stable(-2, 0));
}

#[test]
fn nyquist_compensating_encirclements_stable() {
    // N = -P: one counterclockwise encirclement per open-loop RHP pole
    assert!(closed_loop_stable(-1, 1));
    assert!(closed_loop_stable(-3, 3));
    assert!(!closed_loop_stable(0, 3));
    assert!(!closed_loop_stable(1, 1));
    assert!(!closed_loop_stable(-2, 1));
    assert!(!closed_loop_stable(i32::MIN, 5));
}
