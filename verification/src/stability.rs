//! Routh–Hurwitz stability analysis: the layout of the Routh array's first two
//! rows, the count of sign changes down its first column and the judgement drawn
//! from it, and the layout of the Hurwitz matrix.

use vstd::prelude::*;

use crate::matrix::rows_of;

verus! {

/// Sign of an entry of the Routh array's first column. `Zero` stands for an
/// entry too small to count.
#[derive(Debug, Clone, Copy, PartialEq, Eq, Structural)]
pub enum Sign {
    Negative,
    Zero,
    Positive,
}

/// The entries of `s` that are not `Zero`, in order.
pub open spec fn nonzero_signs(s: Seq<Sign>) -> Seq<Sign>
    decreases s.len(),
{
    if s.len() == 0 {
        Seq::empty()
    } else if s.last() == Sign::Zero {
        nonzero_signs(s.drop_last())
    } else {
        nonzero_signs(s.drop_last()).push(s.last())
    }
}

/// Number of neighbouring pairs in `s` whose signs differ.
pub open spec fn sign_flips(s: Seq<Sign>) -> nat
    decreases s.len(),
{
    if s.len() < 2 {
        0
    } else {
        sign_flips(s.drop_last()) + if s.last() != s[s.len() - 2] {
            1nat
        } else {
            0nat
        }
    }
}

/// Number of sign changes down a column, skipping the entries that are zero.
pub open spec fn sign_changes(s: Seq<Sign>) -> nat {
    sign_flips(nonzero_signs(s))
}

proof fn lemma_nonzero_signs_len(s: Seq<Sign>)
    ensures
        nonzero_signs(s).len() <= s.len(),
        forall|i: int| 0 <= i < nonzero_signs(s).len() ==> #[trigger] nonzero_signs(s)[i] != Sign::Zero,
    decreases s.len(),
{
    if s.len() > 0 {
        lemma_nonzero_signs_len(s.drop_last());
    }
}

proof fn lemma_sign_flips_bound(s: Seq<Sign>)
    ensures
        sign_flips(s) <= s.len(),
    decreases s.len(),
{
    if s.len() >= 2 {
        lemma_sign_flips_bound(s.drop_last());
    }
}

/// Counts the sign changes down the first column of a Routh array, ignoring
/// the entries marked `Zero`.
pub fn count_sign_changes(column: &Vec<Sign>) -> (k: usize)
    ensures
        k == sign_changes(column@),
{
    let mut count: usize = 0;
    let mut last: Option<Sign> = None;
    assert(column@.take(0) =~= Seq::<Sign>::empty());
    for i in 0..column.len()
        invariant
            count == sign_changes(column@.take(i as int)),
            count <= i,
            match last {
                None => nonzero_signs(column@.take(i as int)).len() == 0,
                Some(x) => nonzero_signs(column@.take(i as int)).len() > 0 && x == nonzero_signs(
                    column@.take(i as int),
                ).last(),
            },
    {
        let ghost prev = column@.take(i as int);
        let ghost cur = column@.take(i + 1);
        assert(cur.drop_last() =~= prev);
        assert(cur.last() == column@[i as int]);
        let x = column[i];
        if x != Sign::Zero {
            let ghost r = nonzero_signs(prev);
            assert(nonzero_signs(cur) == r.push(x));
            assert(r.push(x).drop_last() =~= r);
            match last {
                Some(y) => {
                    assert(r.push(x)[r.len() - 1] == y);
                    proof {
                        lemma_sign_flips_bound(r);
                        lemma_nonzero_signs_len(prev);
                    }
                    if y != x {
                        count = count + 1;
                    }
                },
                None => {},
            }
            last = Some(x);
        } else {
            assert(nonzero_signs(cur) == nonzero_signs(prev));
        }
    }
    assert(column@.take(column@.len() as int) =~= column@);
    count
}

/// Keeping the non-zero entries of a concatenation keeps those of each part.
pub proof fn lemma_nonzero_signs_concat(a: Seq<Sign>, b: Seq<Sign>)
    ensures
        nonzero_signs(a + b) == nonzero_signs(a) + nonzero_signs(b),
    decreases b.len(),
{
    if b.len() == 0 {
        assert(a + b =~= a);
        assert(nonzero_signs(a) + nonzero_signs(b) =~= nonzero_signs(a));
    } else {
        let ab = a + b;
        assert(ab.drop_last() =~= a + b.drop_last());
        assert(ab.last() == b.last());
        lemma_nonzero_signs_concat(a, b.drop_last());
        if b.last() == Sign::Zero {
        } else {
            assert(nonzero_signs(a) + nonzero_signs(b.drop_last()).push(b.last()) =~= (
            nonzero_signs(a) + nonzero_signs(b.drop_last())).push(b.last()));
        }
    }
}

/// The non-zero entries are those that `Seq::filter` keeps for "not `Zero`".
pub proof fn lemma_nonzero_signs_is_filter(s: Seq<Sign>)
    ensures
        nonzero_signs(s) == s.filter(|x: Sign| x != Sign::Zero),
    decreases s.len(),
{
    reveal_with_fuel(Seq::<_>::filter, 1);
    if s.len() > 0 {
        lemma_nonzero_signs_is_filter(s.drop_last());
    }
}

/// Law: a `Zero` entry never affects the count of sign changes, wherever it is
/// inserted in the column.
pub proof fn lemma_zero_entries_never_count(s: Seq<Sign>, i: int)
    requires
        0 <= i <= s.len(),
    ensures
        sign_changes(s.insert(i, Sign::Zero)) == sign_changes(s),
{
    let front = s.take(i);
    let back = s.skip(i);
    assert(s.insert(i, Sign::Zero) =~= front + seq![Sign::Zero] + back);
    assert(s =~= front + back);
    lemma_nonzero_signs_concat(front + seq![Sign::Zero], back);
    lemma_nonzero_signs_concat(front, seq![Sign::Zero]);
    lemma_nonzero_signs_concat(front, back);
    let z = seq![Sign::Zero];
    assert(z.len() == 1 && z.last() == Sign::Zero);
    assert(z.drop_last() =~= Seq::<Sign>::empty());
    assert(nonzero_signs(z.drop_last()) =~= Seq::<Sign>::empty());
    assert(nonzero_signs(z) =~= Seq::<Sign>::empty());
    assert(nonzero_signs(front) + nonzero_signs(seq![Sign::Zero]) =~= nonzero_signs(front));
}

proof fn lemma_flips_zero_iff_constant(f: Seq<Sign>)
    ensures
        sign_flips(f) == 0 <==> forall|p: int, q: int|
            0 <= p < f.len() && 0 <= q < f.len() ==> #[trigger] f[p] == #[trigger] f[q],
    decreases f.len(),
{
    if f.len() >= 2 {
        let g = f.drop_last();
        lemma_flips_zero_iff_constant(g);
        if sign_flips(f) == 0 {
            assert forall|p: int, q: int| 0 <= p < f.len() && 0 <= q < f.len() implies #[trigger] f[p]
                == #[trigger] f[q] by {
                assert(g[p] == g[0] || p == f.len() - 1);
                if p < f.len() - 1 {
                    assert(f[p] == g[p]);
                    assert(g[p] == g[0]);
                } else {
                    assert(f[p] == f[f.len() - 2]);
                    assert(f[f.len() - 2] == g[f.len() - 2]);
                    assert(g[f.len() - 2] == g[0]);
                }
                if q < f.len() - 1 {
                    assert(f[q] == g[q]);
                    assert(g[q] == g[0]);
                } else {
                    assert(f[q] == f[f.len() - 2]);
                    assert(f[f.len() - 2] == g[f.len() - 2]);
                    assert(g[f.len() - 2] == g[0]);
                }
            }
        }
        if forall|p: int, q: int|
            0 <= p < f.len() && 0 <= q < f.len() ==> #[trigger] f[p] == #[trigger] f[q] {
            assert forall|p: int, q: int| 0 <= p < g.len() && 0 <= q < g.len() implies #[trigger] g[p]
                == #[trigger] g[q] by {
                assert(f[p] == f[q]);
            }
            assert(f[f.len() - 1] == f[f.len() - 2]);
        }
    }
}

proof fn lemma_nonzero_signs_members(s: Seq<Sign>)
    ensures
        forall|i: int| 0 <= i < s.len() && s[i] != Sign::Zero ==> nonzero_signs(s).contains(
            #[trigger] s[i],
        ),
        forall|k: int|
            0 <= k < nonzero_signs(s).len() ==> #[trigger] nonzero_signs(s)[k] != Sign::Zero
                && s.contains(nonzero_signs(s)[k]),
    decreases s.len(),
{
    if s.len() > 0 {
        let g = s.drop_last();
        lemma_nonzero_signs_members(g);
        let r = nonzero_signs(g);
        assert forall|i: int| 0 <= i < s.len() && s[i] != Sign::Zero implies nonzero_signs(
            s,
        ).contains(#[trigger] s[i]) by {
            if i < s.len() - 1 {
                assert(g[i] == s[i]);
                let k = choose|k: int| 0 <= k < r.len() && r[k] == g[i];
                if s.last() != Sign::Zero {
                    assert(r.push(s.last())[k] == s[i]);
                }
            } else {
                assert(r.push(s.last())[r.len() as int] == s[i]);
            }
        }
        assert forall|k: int| 0 <= k < nonzero_signs(s).len() implies #[trigger] nonzero_signs(s)[k]
            != Sign::Zero && s.contains(nonzero_signs(s)[k]) by {
            if k < r.len() {
                if s.last() != Sign::Zero {
                    assert(nonzero_signs(s)[k] == r[k]);
                }
                let i = choose|i: int| 0 <= i < g.len() && g[i] == r[k];
                assert(s[i] == g[i]);
            } else {
                assert(nonzero_signs(s)[k] == s.last());
                assert(s[s.len() - 1] == s.last());
            }
        }
    }
}

/// Law: a column shows no sign change exactly when all its non-zero entries
/// have the same sign.
pub proof fn lemma_no_sign_change_iff_one_sign(s: Seq<Sign>)
    ensures
        sign_changes(s) == 0 <==> forall|i: int, j: int|
            0 <= i < s.len() && 0 <= j < s.len() && s[i] != Sign::Zero && s[j] != Sign::Zero
                ==> #[trigger] s[i] == #[trigger] s[j],
{
    let f = nonzero_signs(s);
    lemma_flips_zero_iff_constant(f);
    lemma_nonzero_signs_members(s);
    if sign_changes(s) == 0 {
        assert forall|i: int, j: int|
            0 <= i < s.len() && 0 <= j < s.len() && s[i] != Sign::Zero && s[j] != Sign::Zero
                implies #[trigger] s[i] == #[trigger] s[j] by {
            assert(f.contains(s[i]));
            assert(f.contains(s[j]));
            let p = choose|p: int| 0 <= p < f.len() && f[p] == s[i];
            let q = choose|q: int| 0 <= q < f.len() && f[q] == s[j];
            assert(f[p] == f[q]);
        }
    }
    if forall|i: int, j: int|
        0 <= i < s.len() && 0 <= j < s.len() && s[i] != Sign::Zero && s[j] != Sign::Zero
            ==> #[trigger] s[i] == #[trigger] s[j] {
        assert forall|p: int, q: int| 0 <= p < f.len() && 0 <= q < f.len() implies #[trigger] f[p]
            == #[trigger] f[q] by {
            assert(f[p] != Sign::Zero && s.contains(f[p]));
            assert(f[q] != Sign::Zero && s.contains(f[q]));
            let i = choose|i: int| 0 <= i < s.len() && s[i] == f[p];
            let j = choose|j: int| 0 <= j < s.len() && s[j] == f[q];
            assert(s[i] == s[j]);
        }
    }
}

proof fn lemma_sign_flips_concat(f: Seq<Sign>, g: Seq<Sign>)
    requires
        f.len() > 0,
        g.len() > 0,
    ensures
        sign_flips(f + g) == sign_flips(f) + sign_flips(g) + if f.last() != g[0] {
            1nat
        } else {
            0nat
        },
    decreases g.len(),
{
    let fg = f + g;
    if g.len() == 1 {
        assert(fg.drop_last() =~= f);
        assert(fg.last() == g[0]);
        assert(fg[fg.len() - 2] == f.last());
    } else {
        let h = g.drop_last();
        assert(fg.drop_last() =~= f + h);
        lemma_sign_flips_concat(f, h);
        assert(fg[fg.len() - 2] == g[g.len() - 2]);
        assert(h[0] == g[0]);
    }
}

/// Law: two neighbouring non-zero entries make one sign change when their signs
/// differ and none when they agree.
pub proof fn lemma_sign_changes_of_pair(x: Sign, y: Sign)
    requires
        x != Sign::Zero,
        y != Sign::Zero,
    ensures
        sign_changes(seq![x, y]) == if x != y {
            1nat
        } else {
            0nat
        },
{
    let s = seq![x, y];
    let one = seq![x];
    assert(s.drop_last() =~= one);
    assert(s.last() == y);
    assert(one.last() == x);
    assert(one.drop_last() =~= Seq::<Sign>::empty());
    assert(nonzero_signs(one.drop_last()) =~= Seq::<Sign>::empty());
    assert(nonzero_signs(one) =~= Seq::<Sign>::empty().push(x));
    assert(nonzero_signs(one) =~= one);
    assert(nonzero_signs(s) =~= one.push(y));
    assert(one.push(y) =~= s);
    assert(s.drop_last() =~= one);
    assert(s[s.len() - 2] == x);
    assert(sign_flips(one) == 0);
}

/// Law: the sign changes of a column split into those of its two parts, plus one
/// where the last non-zero entry of the first part and the first non-zero entry
/// of the second differ.
pub proof fn lemma_sign_changes_concat(a: Seq<Sign>, b: Seq<Sign>)
    ensures
        sign_changes(a + b) == sign_changes(a) + sign_changes(b) + if nonzero_signs(a).len() > 0
            && nonzero_signs(b).len() > 0 && nonzero_signs(a).last() != nonzero_signs(b)[0] {
            1nat
        } else {
            0nat
        },
{
    lemma_nonzero_signs_concat(a, b);
    let f = nonzero_signs(a);
    let g = nonzero_signs(b);
    if f.len() == 0 {
        assert(f + g =~= g);
    } else if g.len() == 0 {
        assert(f + g =~= f);
    } else {
        lemma_sign_flips_concat(f, g);
    }
}

/// What the first column of a Routh array says of the polynomial.
#[derive(Debug, Clone, Copy, PartialEq, Eq, Structural)]
pub struct RouthSummary {
    /// Number of sign changes in the first column.
    pub sign_changes: usize,
    /// Number of right-half-plane roots, one per sign change.
    pub rhp_roots: usize,
    /// No sign change, and every coefficient is admissible.
    pub is_stable: bool,
}

/// Draws the judgement from the signs of the first column: one right-half-plane
/// root per sign change, and stability exactly when there is no sign change
/// and every coefficient of the polynomial was admissible (not negative beyond
/// the tolerance).
pub fn summarize_first_column(column: &Vec<Sign>, coefficients_admissible: bool) -> (r:
    RouthSummary)
    ensures
        r.sign_changes == sign_changes(column@),
        r.rhp_roots == r.sign_changes,
        r.is_stable == (r.sign_changes == 0 && coefficients_admissible),
        r.is_stable ==> r.rhp_roots == 0,
{
    let sign_changes = count_sign_changes(column);
    RouthSummary {
        sign_changes,
        rhp_roots: sign_changes,
        is_stable: sign_changes == 0 && coefficients_admissible,
    }
}

/// Number of columns of the Routh array of a polynomial with `n` coefficients.
pub open spec fn routh_columns(n: nat) -> nat {
    ((n + 1) / 2) as nat
}

/// The first two rows of the Routh array of the polynomial with coefficients
/// `coeffs` (descending powers): the coefficients of even index, then those of
/// odd index, the second row filled up with `zero`.
pub fn routh_seed_rows<T: Copy>(coeffs: &Vec<T>, zero: T) -> (rows: (Vec<T>, Vec<T>))
    requires
        coeffs@.len() < usize::MAX,
    ensures
        rows.0@ == Seq::new(routh_columns(coeffs@.len()), |j: int| coeffs@[2 * j]),
        rows.1@ == Seq::new(
            routh_columns(coeffs@.len()),
            |j: int|
                if 2 * j + 1 < coeffs@.len() {
                    coeffs@[2 * j + 1]
                } else {
                    zero
                },
        ),
{
    let n = coeffs.len();
    let cols = (n + 1) / 2;
    let mut even: Vec<T> = Vec::new();
    let mut odd: Vec<T> = Vec::new();
    for j in 0..cols
        invariant
            n == coeffs@.len(),
            cols == routh_columns(n as nat),
            even@ == Seq::new(j as nat, |q: int| coeffs@[2 * q]),
            odd@ == Seq::new(
                j as nat,
                |q: int|
                    if 2 * q + 1 < n {
                        coeffs@[2 * q + 1]
                    } else {
                        zero
                    },
            ),
    {
        even.push(coeffs[2 * j]);
        if 2 * j + 1 < n {
            odd.push(coeffs[2 * j + 1]);
        } else {
            odd.push(zero);
        }
        assert(even@ =~= Seq::new((j + 1) as nat, |q: int| coeffs@[2 * q]));
        assert(odd@ =~= Seq::new(
            (j + 1) as nat,
            |q: int|
                if 2 * q + 1 < n {
                    coeffs@[2 * q + 1]
                } else {
                    zero
                },
        ));
    }
    (even, odd)
}

/// Entry `(i, j)` of the Hurwitz matrix of the coefficients `a = [a0, a1, ..., an]`:
/// `a[2j - i + 1]` when that index lies in `0..=n`, `zero` otherwise. Row 0 is
/// `[a1, a3, ...]`, row 1 is `[a0, a2, ...]`, row 2 is `[0, a1, a3, ...]`.
pub open spec fn hurwitz_entry<T>(a: Seq<T>, i: int, j: int, zero: T) -> T {
    let idx = 2 * j - i + 1;
    if 0 <= idx && idx < a.len() {
        a[idx]
    } else {
        zero
    }
}

/// The Hurwitz matrix of a polynomial of degree `n` (`n + 1` coefficients):
/// `n` rows of `n` entries laid out by `hurwitz_entry`.
pub open spec fn hurwitz_matrix_of<T>(a: Seq<T>, zero: T) -> Seq<Seq<T>> {
    let n = (a.len() - 1) as nat;
    Seq::new(n, |i: int| Seq::new(n, |j: int| hurwitz_entry(a, i, j, zero)))
}

/// Law of the Hurwitz layout for `a = [a0, ..., an]`: the matrix is n × n; its
/// first row holds the odd-indexed coefficients `a1, a3, ...`, its second row the
/// even-indexed ones `a0, a2, ...`, each filled up with `zero`; and every later
/// row is the row two above shifted one place to the right, starting with `zero`.
pub proof fn lemma_hurwitz_structure<T>(a: Seq<T>, zero: T)
    requires
        a.len() >= 1,
    ensures
        hurwitz_matrix_of(a, zero).len() == a.len() - 1,
        forall|i: int|
            0 <= i < a.len() - 1 ==> #[trigger] hurwitz_matrix_of(a, zero)[i].len() == a.len() - 1,
        forall|j: int|
            0 <= j < a.len() - 1 ==> #[trigger] hurwitz_matrix_of(a, zero)[0][j] == if 2 * j + 1
                < a.len() {
                a[2 * j + 1]
            } else {
                zero
            },
        forall|j: int|
            0 <= j < a.len() - 1 && 1 < a.len() - 1 ==> #[trigger] hurwitz_matrix_of(a, zero)[1][j]
                == if 2 * j < a.len() {
                a[2 * j]
            } else {
                zero
            },
        forall|i: int|
            2 <= i < a.len() - 1 ==> #[trigger] hurwitz_matrix_of(a, zero)[i][0] == zero,
        forall|i: int, j: int|
            2 <= i < a.len() - 1 && 1 <= j < a.len() - 1 ==> #[trigger] hurwitz_matrix_of(a, zero)[i][j]
                == hurwitz_matrix_of(a, zero)[i - 2][j - 1],
{
}

/// Lays out the Hurwitz matrix of the (already normalized) coefficients `a`.
pub fn hurwitz_layout<T: Copy>(a: &Vec<T>, zero: T) -> (h: Vec<Vec<T>>)
    requires
        a@.len() >= 1,
        a@.len() <= usize::MAX / 2,
    ensures
        rows_of(h@) == hurwitz_matrix_of(a@, zero),
{
    let n = a.len() - 1;
    let mut h: Vec<Vec<T>> = Vec::new();
    for i in 0..n
        invariant
            n == a@.len() - 1,
            a@.len() <= usize::MAX / 2,
            h@.len() == i,
            forall|r: int|
                0 <= r < i ==> #[trigger] h@[r]@ == Seq::new(
                    n as nat,
                    |j: int| hurwitz_entry(a@, r, j, zero),
                ),
    {
        let mut row: Vec<T> = Vec::new();
        for j in 0..n
            invariant
                n == a@.len() - 1,
                a@.len() <= usize::MAX / 2,
                i < n,
                row@ == Seq::new(j as nat, |q: int| hurwitz_entry(a@, i as int, q, zero)),
        {
            let twice = 2 * j + 1;
            if twice >= i && twice - i < a.len() {
                row.push(a[twice - i]);
            } else {
                row.push(zero);
            }
            assert(row@ =~= Seq::new(
                (j + 1) as nat,
                |q: int| hurwitz_entry(a@, i as int, q, zero),
            ));
        }
        h.push(row);
    }
    assert(rows_of(h@) =~= hurwitz_matrix_of(a@, zero));
    h
}

} // verus!
