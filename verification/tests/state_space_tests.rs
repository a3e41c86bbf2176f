use lau_control_theory::state_space::ShapeError;
use lau_control_theory::StateSpace;

fn siso(a: f64) -> StateSpace<f64> {
    StateSpace::new(vec![vec![a]], vec![vec![1.0]], vec![vec![1.0]], vec![vec![0.0]]).unwrap()
}

#[test]
fn test_ss_creation() {
    let ss = StateSpace::new(
        vec![vec![-1.0]],
        vec![vec![1.0]],
        vec![vec![1.0]],
        vec![vec![0.0]],
    )
    .unwrap();
    assert_eq!(ss.n_states(), 1);
    assert_eq!(ss.n_inputs(), 1);
    assert_eq!(ss.n_outputs(), 1);
}

#[test]
fn test_ss_validation_rejects_bad_dims() {
    // Non-square A
    assert!(StateSpace::new(
        vec![vec![1.0, 2.0]],
        vec![vec![1.0]],
        vec![vec![1.0, 2.0]],
        vec![vec![0.0]],
    )
    .is_err());
}

#[test]
fn ss_new_keeps_matrices() {
    let ss = StateSpace::new(
        vec![vec![0.0, 1.0], vec![-2.0, -3.0]],
        vec![vec![0.0], vec![1.0]],
        vec![vec![1.0, 0.0]],
        vec![vec![0.0]],
    )
    .unwrap();
    assert_eq!(ss.a, vec![vec![0.0, 1.0], vec![-2.0, -3.0]]);
    assert_eq!(ss.b, vec![vec![0.0], vec![1.0]]);
    assert_eq!(ss.c, vec![vec![1.0, 0.0]]);
    assert_eq!(ss.d, vec![vec![0.0]]);
    assert_eq!(ss.n_states(), 2);
    assert_eq!(ss.n_inputs(), 1);
    assert_eq!(ss.n_outputs(), 1);
}

#[test]
fn ss_error_empty_state_matrix() {
    let r = StateSpace::<f64>::new(vec![], vec![], vec![vec![]], vec![vec![]]);
    assert_eq!(r.err(), Some(ShapeError::EmptyStateMatrix));
}

#[test]
fn ss_error_not_square() {
    let r = StateSpace::new(vec![vec![1.0, 2.0]], vec![vec![1.0]], vec![vec![1.0, 2.0]], vec![vec![0.0]]);
    assert_eq!(r.err(), Some(ShapeError::StateMatrixNotSquare));
}

#[test]
fn ss_error_input_rows() {
    let r = StateSpace::new(
        vec![vec![1.0, 0.0], vec![0.0, 1.0]],
        vec![vec![1.0]],
        vec![vec![1.0, 0.0]],
        vec![vec![0.0]],
    );
    assert_eq!(r.err(), Some(ShapeError::InputRowCount { expected: 2, got: 1 }));
}

#[test]
fn ss_error_no_outputs() {
    let r = StateSpace::new(vec![vec![1.0]], vec![vec![1.0]], vec![], vec![]);
    assert_eq!(r.err(), Some(ShapeError::NoOutputRows));
}

#[test]
fn ss_error_output_columns() {
    let r = StateSpace::new(vec![vec![1.0]], vec![vec![1.0]], vec![vec![1.0, 2.0]], vec![vec![0.0]]);
    assert_eq!(r.err(), Some(ShapeError::OutputColumnCount));
}

#[test]
fn ss_error_feedthrough_rows() {
    let r = StateSpace::new(vec![vec![1.0]], vec![vec![1.0]], vec![vec![1.0]], vec![]);
    assert_eq!(r.err(), Some(ShapeError::FeedthroughRowCount));
}

#[test]
fn ss_error_feedthrough_columns() {
    let r = StateSpace::new(vec![vec![1.0]], vec![vec![1.0, 2.0]], vec![vec![1.0]], vec![vec![0.0]]);
    assert_eq!(r.err(), Some(ShapeError::FeedthroughColumnCount));
}

#[test]
fn ss_first_error_reported() {
    // A is not square and B has the wrong row count: the first rule broken is reported.
    let r = StateSpace::new(vec![vec![1.0, 2.0]], vec![], vec![], vec![]);
    assert_eq!(r.err(), Some(ShapeError::StateMatrixNotSquare));
}

#[test]
fn ss_inputs_without_b_rows() {
    let ss: StateSpace<f64> = StateSpace { a: vec![], b: vec![], c: vec![], d: vec![] };
    assert_eq!(ss.n_inputs(), 0);
    assert_eq!(ss.n_states(), 0);
    assert_eq!(ss.n_outputs(), 0);
}

#[test]
fn ss_dual_transposes() {
    let ss = StateSpace::new(
        vec![vec![0.0, -2.0], vec![1.0, -3.0]],
        vec![vec![1.0], vec![0.0]],
        vec![vec![0.0, 1.0]],
        vec![vec![0.5]],
    )
    .unwrap();
    let dual = ss.dual().unwrap();
    assert_eq!(dual.a, vec![vec![0.0, 1.0], vec![-2.0, -3.0]]);
    assert_eq!(dual.b, vec![vec![0.0], vec![1.0]]);
    assert_eq!(dual.c, vec![vec![1.0, 0.0]]);
    assert_eq!(dual.d, vec![vec![0.5]]);
}

#[test]
fn ss_dual_twice_is_identity() {
    let ss = StateSpace::new(
        vec![vec![0.0, -2.0], vec![1.0, -3.0]],
        vec![vec![1.0], vec![0.0]],
        vec![vec![0.0, 1.0]],
        vec![vec![0.0]],
    )
    .unwrap();
    let back = ss.dual().unwrap().dual().unwrap();
    assert_eq!(back.a, vec![vec![0.0, -2.0], vec![1.0, -3.0]]);
    assert_eq!(back.b, vec![vec![1.0], vec![0.0]]);
    assert_eq!(back.c, vec![vec![0.0, 1.0]]);
    assert_eq!(back.d, vec![vec![0.0]]);
}

#[test]
fn ss_dual_swaps_dimensions() {
    let ss = siso(-1.0);
    let dual = ss.dual().unwrap();
    assert_eq!(dual.n_states(), 1);
    assert_eq!(dual.n_inputs(), 1);
    assert_eq!(dual.n_outputs(), 1);
}

#[test]
fn ss_dual_rejects_mismatched_feedthrough() {
    // Two inputs, one output: D stays 1 x 2 but the dual needs 2 x 1.
    let ss = StateSpace::new(vec![vec![1.0]], vec![vec![1.0, 2.0]], vec![vec![1.0]], vec![vec![0.0, 0.0]])
        .unwrap();
    assert_eq!(ss.dual().err(), Some(ShapeError::FeedthroughRowCount));
}

#[test]
fn ss_dual_without_states_is_itself() {
    let ss: StateSpace<f64> = StateSpace { a: vec![], b: vec![], c: vec![vec![]], d: vec![vec![2.0]] };
    let same = ss.dual().unwrap();
    assert!(same.a.is_empty());
    assert!(same.b.is_empty());
    assert_eq!(same.c, vec![Vec::<f64>::new()]);
    assert_eq!(same.d, vec![vec![2.0]]);
}

#[test]
fn ss_error_input_columns() {
    // B rows of unequal length
    let r = StateSpace::new(
        vec![vec![1.0, 0.0], vec![0.0, 1.0]],
        vec![vec![1.0], vec![1.0, 2.0]],
        vec![vec![1.0, 0.0]],
        vec![vec![0.0]],
    );
    assert_eq!(r.err(), Some(ShapeError::InputColumnCount));
}
