//! State-space representation of linear time-invariant systems,
//! ẋ = Ax + Bu, y = Cx + Du: the shape rules that the four matrices obey,
//! the dimensions read from them, and the dual (transposed) system.

use vstd::prelude::*;

use crate::matrix::{is_rectangular, lemma_transpose_involution, rows_cover_first, rows_of, transpose, transpose_matrix};

verus! {

/// State-space model with state matrix `a` (n × n), input matrix `b` (n × m),
/// output matrix `c` (p × n) and feedthrough matrix `d` (p × m), each stored
/// as a vector of rows.
#[derive(Debug, Clone)]
pub struct StateSpace<T> {
    /// State matrix (n x n)
    pub a: Vec<Vec<T>>,
    /// Input matrix (n x m)
    pub b: Vec<Vec<T>>,
    /// Output matrix (p x n)
    pub c: Vec<Vec<T>>,
    /// Feedthrough matrix (p x m)
    pub d: Vec<Vec<T>>,
}

/// Why four matrices do not form a state-space model. The checks are made in
/// the order of the variants and the first one that fails is reported.
#[derive(Debug, Clone, Copy, PartialEq, Eq, Structural)]
pub enum ShapeError {
    /// A has no rows.
    EmptyStateMatrix,
    /// Some row of A does not have n entries.
    StateMatrixNotSquare,
    /// B does not have n rows.
    InputRowCount { expected: usize, got: usize },
    /// Some row of B does not have as many entries as its first row.
    InputColumnCount,
    /// C has no rows.
    NoOutputRows,
    /// Some row of C does not have n entries.
    OutputColumnCount,
    /// D does not have as many rows as C.
    FeedthroughRowCount,
    /// Some row of D does not have as many entries as the first row of B.
    FeedthroughColumnCount,
}

/// Number of inputs: the length of the first row of B, or 0 when B has no rows.
pub open spec fn input_count<T>(b: Seq<Seq<T>>) -> nat {
    if b.len() == 0 {
        0
    } else {
        b[0].len()
    }
}

/// The first shape rule that the matrices break, or `None` when they form a model.
pub open spec fn shape_error<T>(a: Seq<Seq<T>>, b: Seq<Seq<T>>, c: Seq<Seq<T>>, d: Seq<Seq<T>>) -> Option<
    ShapeError,
> {
    let n = a.len();
    let m = input_count(b);
    let p = c.len();
    if n == 0 {
        Some(ShapeError::EmptyStateMatrix)
    } else if exists|i: int| 0 <= i < n && #[trigger] a[i].len() != n {
        Some(ShapeError::StateMatrixNotSquare)
    } else if b.len() != n {
        Some(ShapeError::InputRowCount { expected: n as usize, got: b.len() as usize })
    } else if exists|i: int| 0 <= i < n && #[trigger] b[i].len() != m {
        Some(ShapeError::InputColumnCount)
    } else if p == 0 {
        Some(ShapeError::NoOutputRows)
    } else if exists|i: int| 0 <= i < p && #[trigger] c[i].len() != n {
        Some(ShapeError::OutputColumnCount)
    } else if d.len() != p {
        Some(ShapeError::FeedthroughRowCount)
    } else if exists|i: int| 0 <= i < p && #[trigger] d[i].len() != m {
        Some(ShapeError::FeedthroughColumnCount)
    } else {
        None
    }
}

/// Law: no shape rule is broken exactly when the matrices are A (n × n), B (n × m),
/// C (p × n) and D (p × m) with n, p at least one, whatever m and p are.
pub proof fn lemma_shape_rules_mean_dimensions<T>(
    a: Seq<Seq<T>>,
    b: Seq<Seq<T>>,
    c: Seq<Seq<T>>,
    d: Seq<Seq<T>>,
)
    ensures
        shape_error(a, b, c, d) is None <==> (a.len() >= 1
            && (forall|i: int| 0 <= i < a.len() ==> #[trigger] a[i].len() == a.len())
            && b.len() == a.len()
            && (forall|i: int| 0 <= i < b.len() ==> #[trigger] b[i].len() == b[0].len())
            && c.len() >= 1
            && (forall|i: int| 0 <= i < c.len() ==> #[trigger] c[i].len() == a.len())
            && d.len() == c.len()
            && (forall|i: int| 0 <= i < d.len() ==> #[trigger] d[i].len() == b[0].len())),
{
}

impl<T> StateSpace<T> {
    /// Contents of A.
    pub open spec fn a_rows(&self) -> Seq<Seq<T>> {
        rows_of(self.a@)
    }

    /// Contents of B.
    pub open spec fn b_rows(&self) -> Seq<Seq<T>> {
        rows_of(self.b@)
    }

    /// Contents of C.
    pub open spec fn c_rows(&self) -> Seq<Seq<T>> {
        rows_of(self.c@)
    }

    /// Contents of D.
    pub open spec fn d_rows(&self) -> Seq<Seq<T>> {
        rows_of(self.d@)
    }

    /// The four matrices obey every shape rule.
    pub open spec fn well_shaped(&self) -> bool {
        shape_error(self.a_rows(), self.b_rows(), self.c_rows(), self.d_rows()) is None
    }

    /// Creates a state-space model from its four matrices, checking their shapes.
    /// Succeeds exactly when no shape rule is broken, and then holds the matrices
    /// unchanged; otherwise reports the first rule broken.
    #[verifier::loop_isolation(false)]
    pub fn new(a: Vec<Vec<T>>, b: Vec<Vec<T>>, c: Vec<Vec<T>>, d: Vec<Vec<T>>) -> (r: Result<
        Self,
        ShapeError,
    >)
        ensures
            match r {
                Ok(ss) => shape_error(rows_of(a@), rows_of(b@), rows_of(c@), rows_of(d@)) is None
                    && ss.a == a && ss.b == b && ss.c == c && ss.d == d,
                Err(e) => shape_error(rows_of(a@), rows_of(b@), rows_of(c@), rows_of(d@)) == Some(
                    e,
                ),
            },
            r is Ok <==> (rows_of(a@).len() >= 1
            && (forall|i: int| 0 <= i < rows_of(a@).len() ==> #[trigger] rows_of(a@)[i].len() == rows_of(a@).len())
            && rows_of(b@).len() == rows_of(a@).len()
            && (forall|i: int| 0 <= i < rows_of(b@).len() ==> #[trigger] rows_of(b@)[i].len() == rows_of(b@)[0].len())
            && rows_of(c@).len() >= 1
            && (forall|i: int| 0 <= i < rows_of(c@).len() ==> #[trigger] rows_of(c@)[i].len() == rows_of(a@).len())
            && rows_of(d@).len() == rows_of(c@).len()
            && (forall|i: int| 0 <= i < rows_of(d@).len() ==> #[trigger] rows_of(d@)[i].len() == rows_of(b@)[0].len())),
    {
        proof {
            lemma_shape_rules_mean_dimensions(rows_of(a@), rows_of(b@), rows_of(c@), rows_of(d@));
        }
        let ghost av = rows_of(a@);
        let ghost bv = rows_of(b@);
        let ghost cv = rows_of(c@);
        let ghost dv = rows_of(d@);
        let n = a.len();
        if n == 0 {
            return Err(ShapeError::EmptyStateMatrix);
        }
        for i in 0..n
            invariant
                n == a@.len(),
                av == rows_of(a@),
                forall|k: int| 0 <= k < i ==> #[trigger] av[k].len() == n,
        {
            if a[i].len() != n {
                assert(av[i as int].len() != n);
                return Err(ShapeError::StateMatrixNotSquare);
            }
        }
        let m = if b.len() != 0 {
            b[0].len()
        } else {
            0
        };
        assert(m == input_count(bv));
        if b.len() != n {
            return Err(ShapeError::InputRowCount { expected: n, got: b.len() });
        }
        for i in 0..n
            invariant
                n == b@.len(),
                bv == rows_of(b@),
                forall|k: int| 0 <= k < i ==> #[trigger] bv[k].len() == m,
        {
            if b[i].len() != m {
                assert(bv[i as int].len() != m);
                return Err(ShapeError::InputColumnCount);
            }
        }
        let p = c.len();
        if p == 0 {
            return Err(ShapeError::NoOutputRows);
        }
        for i in 0..p
            invariant
                p == c@.len(),
                n == a@.len(),
                cv == rows_of(c@),
                forall|k: int| 0 <= k < i ==> #[trigger] cv[k].len() == n,
        {
            if c[i].len() != n {
                assert(cv[i as int].len() != n);
                return Err(ShapeError::OutputColumnCount);
            }
        }
        if d.len() != p {
            return Err(ShapeError::FeedthroughRowCount);
        }
        for i in 0..p
            invariant
                p == d@.len(),
                dv == rows_of(d@),
                forall|k: int| 0 <= k < i ==> #[trigger] dv[k].len() == m,
        {
            if d[i].len() != m {
                assert(dv[i as int].len() != m);
                return Err(ShapeError::FeedthroughColumnCount);
            }
        }
        Ok(StateSpace { a, b, c, d })
    }

    /// Number of states: the number of rows of A.
    pub fn n_states(&self) -> (n: usize)
        ensures
            n == self.a@.len(),
    {
        self.a.len()
    }

    /// Number of inputs: the length of the first row of B, or 0 when B has no rows.
    pub fn n_inputs(&self) -> (m: usize)
        ensures
            m == input_count(self.b_rows()),
            self.b@.len() == 0 ==> m == 0,
            self.b@.len() > 0 ==> m == self.b@[0]@.len(),
    {
        if self.b.len() == 0 {
            0
        } else {
            self.b[0].len()
        }
    }

    /// Number of outputs: the number of rows of C.
    pub fn n_outputs(&self) -> (p: usize)
        ensures
            p == self.c@.len(),
    {
        self.c.len()
    }
}

/// The matrices of the dual system (Aᵀ, Cᵀ, Bᵀ, D), checked like any other:
/// `None` for a model without states, which is its own dual.
pub open spec fn dual_shape_error<T>(ss: StateSpace<T>) -> Option<ShapeError> {
    shape_error(
        transpose(ss.a_rows()),
        transpose(ss.c_rows()),
        transpose(ss.b_rows()),
        ss.d_rows(),
    )
}

impl<T: Copy> StateSpace<T> {
    /// The dual system: state matrix Aᵀ, input matrix Cᵀ, output matrix Bᵀ and
    /// the same D, checked by `new`. A model without states is returned as it is.
    /// The dual of a controllable canonical form is the observable canonical form.
    pub fn dual(self) -> (r: Result<Self, ShapeError>)
        requires
            rows_cover_first(self.a_rows()),
            rows_cover_first(self.b_rows()),
            rows_cover_first(self.c_rows()),
        ensures
            self.a@.len() == 0 ==> r == Ok::<Self, ShapeError>(self),
            self.a@.len() != 0 ==> match r {
                Ok(s) => dual_shape_error(self) is None && s.a_rows() == transpose(self.a_rows())
                    && s.b_rows() == transpose(self.c_rows()) && s.c_rows() == transpose(
                    self.b_rows(),
                ) && s.d_rows() == self.d_rows(),
                Err(e) => dual_shape_error(self) == Some(e),
            },
    {
        if self.n_states() == 0 {
            return Ok(self);
        }
        let a_t = transpose_matrix(&self.a);
        let c_t = transpose_matrix(&self.b);
        let b_t = transpose_matrix(&self.c);
        StateSpace::new(a_t, b_t, c_t, self.d)
    }
}

/// Shape of a well-shaped system with `n` states, `m` inputs and `p` outputs.
pub open spec fn has_dimensions<T>(ss: StateSpace<T>, n: nat, m: nat, p: nat) -> bool {
    &&& ss.well_shaped()
    &&& ss.a_rows().len() == n
    &&& ss.c_rows().len() == p
    &&& input_count(ss.b_rows()) == m
}

/// Law of duality: for a well-shaped system with as many inputs as outputs
/// (at least one), the dual system is
/// well-shaped, has the same number of states, swaps the inputs with the
/// outputs, and its own dual is the system it started from.
pub proof fn lemma_dual_involution<T>(ss: StateSpace<T>, n: nat, m: nat)
    requires
        has_dimensions(ss, n, m, m),
        m >= 1,
    ensures
        dual_shape_error(ss) is None,
        transpose(ss.a_rows()).len() == n,
        transpose(ss.c_rows()).len() == n,
        input_count(transpose(ss.c_rows())) == m,
        transpose(ss.b_rows()).len() == m,
        is_rectangular(transpose(ss.c_rows()), m),
        shape_error(
            transpose(transpose(ss.a_rows())),
            transpose(transpose(ss.b_rows())),
            transpose(transpose(ss.c_rows())),
            ss.d_rows(),
        ) is None,
        transpose(transpose(ss.a_rows())) == ss.a_rows(),
        transpose(transpose(ss.b_rows())) == ss.b_rows(),
        transpose(transpose(ss.c_rows())) == ss.c_rows(),
{
    let a = ss.a_rows();
    let b = ss.b_rows();
    let c = ss.c_rows();
    let d = ss.d_rows();
    assert(n > 0);
    assert(forall|i: int| 0 <= i < n ==> #[trigger] a[i].len() == n);
    assert(forall|i: int| 0 <= i < m ==> #[trigger] c[i].len() == n);
    assert(forall|i: int| 0 <= i < m ==> #[trigger] d[i].len() == m);
    assert(forall|i: int| 0 <= i < n ==> #[trigger] b[i].len() == m);
    assert(is_rectangular(a, n));
    assert(is_rectangular(b, m));
    assert(is_rectangular(c, n));
    lemma_transpose_involution(a, n);
    lemma_transpose_involution(b, m);
    lemma_transpose_involution(c, n);
    let at = transpose(a);
    let bt = transpose(c);
    let ct = transpose(b);
    assert(at.len() == n);
    assert(bt.len() == n);
    assert(ct.len() == m);
    assert(input_count(bt) == m);
    assert(!(exists|i: int| 0 <= i < n && #[trigger] at[i].len() != n));
    assert(!(exists|i: int| 0 <= i < m && #[trigger] ct[i].len() != n));
    assert(!(exists|i: int| 0 <= i < m && #[trigger] d[i].len() != m));
    assert(shape_error(at, bt, ct, d) is None);
}

} // verus!
