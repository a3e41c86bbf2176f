//! Polynomial coefficient vectors of transfer functions (descending powers of s):
//! their order, trimming of leading insignificant coefficients, alignment of two
//! polynomials, and the companion matrices built from a polynomial.

use vstd::prelude::*;

use crate::matrix::rows_of;

verus! {

/// Order of a polynomial given by its coefficients: one less than their number,
/// or 0 when there is none.
pub open spec fn order_of(len: nat) -> nat {
    if len == 0 {
        0
    } else {
        (len - 1) as nat
    }
}

/// Order (degree) of the polynomial with these coefficients.
pub fn polynomial_order<T>(coeffs: &Vec<T>) -> (k: usize)
    ensures
        k == order_of(coeffs@.len()),
        coeffs@.len() > 0 ==> k + 1 == coeffs@.len(),
        coeffs@.len() == 0 ==> k == 0,
{
    if coeffs.len() == 0 {
        0
    } else {
        coeffs.len() - 1
    }
}

/// Number of leading coefficients marked insignificant.
pub open spec fn leading_insignificant(significant: Seq<bool>) -> nat
    decreases significant.len(),
{
    if significant.len() == 0 {
        0
    } else if significant[0] {
        0
    } else {
        1 + leading_insignificant(significant.drop_first())
    }
}

/// Where the trimmed polynomial starts: at the first significant coefficient,
/// or at the last coefficient when none is significant.
pub open spec fn trim_start(significant: Seq<bool>) -> nat {
    let k = leading_insignificant(significant);
    if k == significant.len() {
        order_of(significant.len())
    } else {
        k
    }
}

/// The coefficients without their insignificant leading ones. When none is
/// significant the last coefficient is kept; an empty polynomial becomes `[zero]`.
pub open spec fn trimmed<T>(coeffs: Seq<T>, significant: Seq<bool>, zero: T) -> Seq<T> {
    if coeffs.len() == 0 {
        seq![zero]
    } else {
        coeffs.skip(trim_start(significant) as int)
    }
}

proof fn lemma_leading_insignificant(significant: Seq<bool>, i: nat)
    requires
        i <= significant.len(),
        forall|k: int| 0 <= k < i ==> !#[trigger] significant[k],
        i == significant.len() || significant[i as int],
    ensures
        leading_insignificant(significant) == i,
    decreases i,
{
    if i > 0 {
        let rest = significant.drop_first();
        assert forall|k: int| 0 <= k < i - 1 implies !#[trigger] rest[k] by {
            assert(rest[k] == significant[k + 1]);
        }
        if i < significant.len() {
            assert(rest[i - 1] == significant[i as int]);
        }
        lemma_leading_insignificant(rest, (i - 1) as nat);
    }
}

/// Law of trimming: when some coefficient is significant, the result is the input
/// from the first significant coefficient to the end, with every trailing
/// coefficient (zero or not) kept; when none is, it is the last coefficient alone.
pub proof fn lemma_trim_keeps_everything_after_first_significant<T>(
    coeffs: Seq<T>,
    significant: Seq<bool>,
    zero: T,
)
    requires
        significant.len() == coeffs.len(),
    ensures
        forall|f: int|
            0 <= f < coeffs.len() && #[trigger] significant[f] && (forall|k: int|
                0 <= k < f ==> !#[trigger] significant[k]) ==> {
                &&& trimmed(coeffs, significant, zero).len() == coeffs.len() - f
                &&& forall|k: int|
                    0 <= k < coeffs.len() - f ==> #[trigger] trimmed(coeffs, significant, zero)[k]
                        == coeffs[f + k]
                &&& trimmed(coeffs, significant, zero).last() == coeffs.last()
            },
        coeffs.len() > 0 && (forall|k: int| 0 <= k < coeffs.len() ==> !#[trigger] significant[k])
            ==> trimmed(coeffs, significant, zero) == seq![coeffs.last()],
        coeffs.len() == 0 ==> trimmed(coeffs, significant, zero) == seq![zero],
{
    assert forall|f: int|
        0 <= f < coeffs.len() && #[trigger] significant[f] && (forall|k: int|
            0 <= k < f ==> !#[trigger] significant[k]) implies {
        &&& trimmed(coeffs, significant, zero).len() == coeffs.len() - f
        &&& forall|k: int|
            0 <= k < coeffs.len() - f ==> #[trigger] trimmed(coeffs, significant, zero)[k]
                == coeffs[f + k]
        &&& trimmed(coeffs, significant, zero).last() == coeffs.last()
    } by {
        lemma_leading_insignificant(significant, f as nat);
    }
    if coeffs.len() > 0 && (forall|k: int| 0 <= k < coeffs.len() ==> !#[trigger] significant[k]) {
        lemma_leading_insignificant(significant, coeffs.len());
        assert(trimmed(coeffs, significant, zero) =~= seq![coeffs.last()]);
    }
}

/// Drops the leading coefficients marked insignificant (`significant[k]` tells
/// whether `coeffs[k]` counts), keeping at least one coefficient.
pub fn trim_leading<T: Copy>(coeffs: &Vec<T>, significant: &Vec<bool>, zero: T) -> (out: Vec<T>)
    requires
        significant@.len() == coeffs@.len(),
    ensures
        out@ == trimmed(coeffs@, significant@, zero),
        out@.len() >= 1,
        forall|f: int|
            0 <= f < coeffs@.len() && #[trigger] significant@[f] && (forall|k: int|
                0 <= k < f ==> !#[trigger] significant@[k]) ==> out@ == coeffs@.subrange(
                f,
                coeffs@.len() as int,
            ),
        coeffs@.len() > 0 && (forall|k: int| 0 <= k < coeffs@.len() ==> !#[trigger] significant@[k])
            ==> out@ == seq![coeffs@.last()],
{
    proof {
        lemma_trim_keeps_everything_after_first_significant(coeffs@, significant@, zero);
        assert forall|f: int|
            0 <= f < coeffs@.len() && #[trigger] significant@[f] && (forall|k: int|
                0 <= k < f ==> !#[trigger] significant@[k]) implies trimmed(
            coeffs@,
            significant@,
            zero,
        ) =~= coeffs@.subrange(f, coeffs@.len() as int) by {}
    }
    let len = coeffs.len();
    let mut start: usize = 0;
    while start < len && !significant[start]
        invariant
            len == coeffs@.len(),
            significant@.len() == len,
            start <= len,
            forall|k: int| 0 <= k < start ==> !#[trigger] significant@[k],
        decreases len - start,
    {
        start = start + 1;
    }
    proof {
        lemma_leading_insignificant(significant@, start as nat);
    }
    if start == len {
        start = if len == 0 {
            0
        } else {
            len - 1
        };
    }
    if start >= len {
        let mut out: Vec<T> = Vec::new();
        out.push(zero);
        assert(out@ =~= seq![zero]);
        return out;
    }
    let mut out: Vec<T> = Vec::new();
    for k in start..len
        invariant
            len == coeffs@.len(),
            start < len,
            out@ == coeffs@.subrange(start as int, k as int),
    {
        out.push(coeffs[k]);
        assert(out@ =~= coeffs@.subrange(start as int, k + 1));
    }
    assert(out@ =~= coeffs@.skip(start as int));
    out
}

/// `count` copies of `zero`.
pub open spec fn zeros<T>(count: nat, zero: T) -> Seq<T> {
    Seq::new(count, |_i: int| zero)
}

/// Pads a coefficient vector with leading `zero`s up to `len` coefficients; the
/// polynomial it stands for is unchanged.
pub fn pad_front<T: Copy>(coeffs: &Vec<T>, len: usize, zero: T) -> (out: Vec<T>)
    requires
        coeffs@.len() <= len,
    ensures
        out@ == zeros((len - coeffs@.len()) as nat, zero) + coeffs@,
        out@.len() == len,
        forall|k: int| 0 <= k < len - coeffs@.len() ==> #[trigger] out@[k] == zero,
        forall|k: int|
            0 <= k < coeffs@.len() ==> #[trigger] out@[len - coeffs@.len() + k] == coeffs@[k],
{
    let offset = len - coeffs.len();
    let mut out: Vec<T> = Vec::new();
    for k in 0..offset
        invariant
            out@ == zeros(k as nat, zero),
    {
        out.push(zero);
        assert(out@ =~= zeros((k + 1) as nat, zero));
    }
    for k in 0..coeffs.len()
        invariant
            out@ == zeros(offset as nat, zero) + coeffs@.take(k as int),
    {
        out.push(coeffs[k]);
        assert(out@ =~= zeros(offset as nat, zero) + coeffs@.take(k + 1));
    }
    assert(coeffs@.take(coeffs@.len() as int) =~= coeffs@);
    out
}

/// Entry `(i, j)` of the companion matrix with last column `column`: the column
/// in the last place, ones just below the diagonal, zero elsewhere.
pub open spec fn last_column_companion_entry<T>(column: Seq<T>, i: int, j: int, zero: T, one: T) -> T {
    if j == column.len() - 1 {
        column[i]
    } else if j == i - 1 {
        one
    } else {
        zero
    }
}

/// The companion matrix with last column `column`.
pub open spec fn last_column_companion<T>(column: Seq<T>, zero: T, one: T) -> Seq<Seq<T>> {
    Seq::new(
        column.len(),
        |i: int| Seq::new(column.len(), |j: int| last_column_companion_entry(column, i, j, zero, one)),
    )
}

/// Law of the root-finding companion layout: the last column is `column`, and
/// left of it each row holds a one just below the diagonal and zeros elsewhere.
pub proof fn lemma_last_column_companion_shape<T>(column: Seq<T>, zero: T, one: T)
    ensures
        last_column_companion(column, zero, one).len() == column.len(),
        forall|i: int|
            0 <= i < column.len() ==> #[trigger] last_column_companion(column, zero, one)[i][column.len()
                - 1] == column[i],
        forall|i: int, j: int|
            0 <= i < column.len() && 0 <= j < column.len() - 1 ==> #[trigger] last_column_companion(
                column,
                zero,
                one,
            )[i][j] == if j == i - 1 {
                one
            } else {
                zero
            },
{
}

/// Lays out the square companion matrix whose last column is `column` and which
/// has ones just below the diagonal. With `column[i] = -c[n - 1 - i]` for the
/// lower coefficients `c` of a monic polynomial, its eigenvalues are the roots.
pub fn companion_with_last_column<T: Copy>(column: &Vec<T>, zero: T, one: T) -> (m: Vec<Vec<T>>)
    ensures
        rows_of(m@) == last_column_companion(column@, zero, one),
        m@.len() == column@.len(),
        forall|i: int| 0 <= i < column@.len() ==> #[trigger] m@[i]@.len() == column@.len(),
        forall|i: int| 0 <= i < column@.len() ==> #[trigger] m@[i]@[column@.len() - 1] == column@[i],
        forall|i: int, j: int|
            0 <= i < column@.len() && 0 <= j < column@.len() - 1 ==> #[trigger] m@[i]@[j] == if j
                == i - 1 {
                one
            } else {
                zero
            },
{
    let n = column.len();
    let mut m: Vec<Vec<T>> = Vec::new();
    for i in 0..n
        invariant
            n == column@.len(),
            m@.len() == i,
            forall|r: int|
                0 <= r < i ==> #[trigger] m@[r]@ == Seq::new(
                    n as nat,
                    |j: int| last_column_companion_entry(column@, r, j, zero, one),
                ),
    {
        let mut row: Vec<T> = Vec::new();
        for j in 0..n
            invariant
                n == column@.len(),
                i < n,
                row@ == Seq::new(
                    j as nat,
                    |q: int| last_column_companion_entry(column@, i as int, q, zero, one),
                ),
        {
            if j == n - 1 {
                row.push(column[i]);
            } else if i >= 1 && j == i - 1 {
                row.push(one);
            } else {
                row.push(zero);
            }
            assert(row@ =~= Seq::new(
                (j + 1) as nat,
                |q: int| last_column_companion_entry(column@, i as int, q, zero, one),
            ));
        }
        m.push(row);
    }
    assert(rows_of(m@) =~= last_column_companion(column@, zero, one));
    m
}

/// Entry `(i, j)` of the companion matrix with first row `row`: the row on top,
/// ones just below the diagonal, zero elsewhere.
pub open spec fn first_row_companion_entry<T>(row: Seq<T>, i: int, j: int, zero: T, one: T) -> T {
    if i == 0 {
        row[j]
    } else if j == i - 1 {
        one
    } else {
        zero
    }
}

/// The companion matrix with first row `row`.
pub open spec fn first_row_companion<T>(row: Seq<T>, zero: T, one: T) -> Seq<Seq<T>> {
    Seq::new(
        row.len(),
        |i: int| Seq::new(row.len(), |j: int| first_row_companion_entry(row, i, j, zero, one)),
    )
}

/// Law of the controllable companion layout: the first row is `row`, and every
/// other row holds a single one, just below the diagonal, and zeros elsewhere.
pub proof fn lemma_first_row_companion_shape<T>(row: Seq<T>, zero: T, one: T)
    ensures
        first_row_companion(row, zero, one).len() == row.len(),
        row.len() > 0 ==> first_row_companion(row, zero, one)[0] == row,
        forall|i: int, j: int|
            1 <= i < row.len() && 0 <= j < row.len() ==> #[trigger] first_row_companion(
                row,
                zero,
                one,
            )[i][j] == if j == i - 1 {
                one
            } else {
                zero
            },
{
    if row.len() > 0 {
        assert(first_row_companion(row, zero, one)[0] =~= row);
    }
}

/// Lays out the square companion matrix whose first row is `row` and which has
/// ones just below the diagonal: the state matrix of the controllable canonical
/// form, whose first row holds the negated lower denominator coefficients.
pub fn companion_with_first_row<T: Copy>(row: &Vec<T>, zero: T, one: T) -> (m: Vec<Vec<T>>)
    ensures
        rows_of(m@) == first_row_companion(row@, zero, one),
        m@.len() == row@.len(),
        forall|i: int| 0 <= i < row@.len() ==> #[trigger] m@[i]@.len() == row@.len(),
        row@.len() > 0 ==> m@[0]@ == row@,
        forall|i: int, j: int|
            1 <= i < row@.len() && 0 <= j < row@.len() ==> #[trigger] m@[i]@[j] == if j == i - 1 {
                one
            } else {
                zero
            },
{
    let n = row.len();
    let mut m: Vec<Vec<T>> = Vec::new();
    for i in 0..n
        invariant
            n == row@.len(),
            m@.len() == i,
            forall|r: int|
                0 <= r < i ==> #[trigger] m@[r]@ == Seq::new(
                    n as nat,
                    |j: int| first_row_companion_entry(row@, r, j, zero, one),
                ),
    {
        let mut line: Vec<T> = Vec::new();
        for j in 0..n
            invariant
                n == row@.len(),
                i < n,
                line@ == Seq::new(
                    j as nat,
                    |q: int| first_row_companion_entry(row@, i as int, q, zero, one),
                ),
        {
            if i == 0 {
                line.push(row[j]);
            } else if j == i - 1 {
                line.push(one);
            } else {
                line.push(zero);
            }
            assert(line@ =~= Seq::new(
                (j + 1) as nat,
                |q: int| first_row_companion_entry(row@, i as int, q, zero, one),
            ));
        }
        m.push(line);
    }
    assert(rows_of(m@) =~= first_row_companion(row@, zero, one));
    m
}

/// The column vector with `n` rows: `one` on top, `zero` below. It is the
/// input matrix of the controllable canonical form.
pub fn unit_column<T: Copy>(n: usize, zero: T, one: T) -> (b: Vec<Vec<T>>)
    requires
        n >= 1,
    ensures
        rows_of(b@) == Seq::new(
            n as nat,
            |i: int|
                if i == 0 {
                    seq![one]
                } else {
                    seq![zero]
                },
        ),
{
    let mut b: Vec<Vec<T>> = Vec::new();
    for i in 0..n
        invariant
            b@.len() == i,
            forall|r: int|
                0 <= r < i ==> #[trigger] b@[r]@ == if r == 0 {
                    seq![one]
                } else {
                    seq![zero]
                },
    {
        let mut row: Vec<T> = Vec::new();
        if i == 0 {
            row.push(one);
        } else {
            row.push(zero);
        }
        assert(row@ =~= if i == 0 {
            seq![one]
        } else {
            seq![zero]
        });
        b.push(row);
    }
    assert(rows_of(b@) =~= Seq::new(
        n as nat,
        |i: int|
            if i == 0 {
                seq![one]
            } else {
                seq![zero]
            },
    ));
    b
}

} // verus!
