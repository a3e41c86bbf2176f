//! Dense matrices stored as vectors of rows: transposition, row-major
//! flattening and its inverse, and block concatenation.
//!
//! These functions only move entries around, so they are written for any
//! `Copy` entry type and their contracts say exactly where each entry goes.

use vstd::prelude::*;

verus! {

/// The contents of a matrix stored as a vector of rows.
pub open spec fn rows_of<T>(m: Seq<Vec<T>>) -> Seq<Seq<T>> {
    m.map_values(|r: Vec<T>| r@)
}

/// Every row is at least as long as the first row.
pub open spec fn rows_cover_first<T>(m: Seq<Seq<T>>) -> bool {
    forall|i: int| 0 <= i < m.len() ==> #[trigger] m[i].len() >= m[0].len()
}

/// Every row has exactly `cols` entries.
pub open spec fn is_rectangular<T>(m: Seq<Seq<T>>, cols: nat) -> bool {
    forall|i: int| 0 <= i < m.len() ==> #[trigger] m[i].len() == cols
}

/// Transpose, taking the column count from the first row.
/// The transpose of a matrix without rows has no rows.
pub open spec fn transpose<T>(m: Seq<Seq<T>>) -> Seq<Seq<T>> {
    if m.len() == 0 {
        Seq::empty()
    } else {
        Seq::new(m[0].len(), |j: int| Seq::new(m.len(), |i: int| m[i][j]))
    }
}

/// The matrix with `rows` rows of `cols` entries read row by row from `flat`.
pub open spec fn unflatten<T>(flat: Seq<T>, rows: nat, cols: nat) -> Seq<Seq<T>> {
    Seq::new(rows, |i: int| Seq::new(cols, |j: int| flat[i * cols + j]))
}

/// Row `i` of the horizontal concatenation of `blocks`: row `i` of every block, in order.
pub open spec fn block_row<T>(blocks: Seq<Seq<Seq<T>>>, i: int) -> Seq<Seq<T>> {
    Seq::new(blocks.len(), |k: int| blocks[k][i])
}

/// The horizontal concatenation of `blocks`, keeping their first `n` rows.
pub open spec fn hconcat<T>(blocks: Seq<Seq<Seq<T>>>, n: nat) -> Seq<Seq<T>> {
    Seq::new(n, |i: int| block_row(blocks, i).flatten())
}

/// The contents of a list of matrices.
pub open spec fn blocks_of<T>(blocks: Seq<Vec<Vec<T>>>) -> Seq<Seq<Seq<T>>> {
    blocks.map_values(|b: Vec<Vec<T>>| rows_of(b@))
}

/// Copies a row.
pub fn copy_row<T: Copy>(r: &Vec<T>) -> (out: Vec<T>)
    ensures
        out@ == r@,
{
    let mut out: Vec<T> = Vec::new();
    for k in 0..r.len()
        invariant
            out@ == r@.take(k as int),
    {
        out.push(r[k]);
        assert(out@ =~= r@.take(k + 1));
    }
    assert(r@.take(r.len() as int) =~= r@);
    out
}

/// Transpose of a matrix: entry `(j, i)` of the result is entry `(i, j)` of `m`.
/// The column count is that of the first row; a matrix without rows gives one
/// without rows.
pub fn transpose_matrix<T: Copy>(m: &Vec<Vec<T>>) -> (t: Vec<Vec<T>>)
    requires
        rows_cover_first(rows_of(m@)),
    ensures
        rows_of(t@) == transpose(rows_of(m@)),
        m@.len() == 0 ==> t@.len() == 0,
        m@.len() > 0 ==> t@.len() == m@[0]@.len(),
        forall|j: int| 0 <= j < t@.len() ==> #[trigger] t@[j]@.len() == m@.len(),
        forall|i: int, j: int|
            0 <= i < m@.len() && 0 <= j < t@.len() ==> #[trigger] t@[j]@[i] == m@[i]@[j],
{
    if m.len() == 0 {
        let t: Vec<Vec<T>> = Vec::new();
        assert(t@.len() == 0);
        assert(rows_of(t@) =~= transpose(rows_of(m@)));
        return t;
    }
    let ghost mv = rows_of(m@);
    let rows = m.len();
    let cols = m[0].len();
    let mut result: Vec<Vec<T>> = Vec::new();
    for j in 0..cols
        invariant
            rows == m@.len(),
            cols == mv[0].len(),
            mv == rows_of(m@),
            rows > 0,
            rows_cover_first(mv),
            result@.len() == j,
            forall|k: int|
                0 <= k < j ==> #[trigger] result@[k]@ == Seq::new(
                    rows as nat,
                    |i: int| mv[i][k],
                ),
    {
        let mut row: Vec<T> = Vec::new();
        for i in 0..rows
            invariant
                rows == m@.len(),
                cols == mv[0].len(),
                mv == rows_of(m@),
                j < cols,
                rows_cover_first(mv),
                row@ == Seq::new(i as nat, |x: int| mv[x][j as int]),
        {
            assert(mv[i as int].len() >= mv[0].len());
            assert(mv[i as int] == m@[i as int]@);
            row.push(m[i][j]);
            assert(row@ =~= Seq::new((i + 1) as nat, |x: int| mv[x][j as int]));
        }
        result.push(row);
    }
    assert(rows_of(result@) =~= transpose(mv));
    assert forall|j: int| 0 <= j < result@.len() implies #[trigger] result@[j]@.len() == m@.len() by {
        assert(rows_of(result@)[j] == result@[j]@);
    }
    assert forall|i: int, j: int| 0 <= i < m@.len() && 0 <= j < result@.len() implies #[trigger] result@[
        j]@[i] == m@[i]@[j] by {
        assert(rows_of(result@)[j] == result@[j]@);
        assert(mv[i] == m@[i]@);
    }
    result
}

/// The flattened contents of a matrix, after its first `k` rows were appended.
proof fn lemma_take_push_flatten<T>(m: Seq<Seq<T>>, k: int)
    requires
        0 <= k < m.len(),
    ensures
        m.take(k + 1).flatten() == m.take(k).flatten() + m[k],
{
    assert(m.take(k + 1) =~= m.take(k).push(m[k]));
    m.take(k).lemma_flatten_push(m[k]);
}

/// Row-major flattening: the rows of `m` one after the other.
pub fn flatten_rows<T: Copy>(m: &Vec<Vec<T>>) -> (flat: Vec<T>)
    ensures
        flat@ == rows_of(m@).flatten(),
{
    let ghost mv = rows_of(m@);
    let mut flat: Vec<T> = Vec::new();
    assert(mv.take(0) =~= Seq::<Seq<T>>::empty());
    for i in 0..m.len()
        invariant
            mv == rows_of(m@),
            flat@ == mv.take(i as int).flatten(),
    {
        let ghost before = flat@;
        let row = &m[i];
        for k in 0..row.len()
            invariant
                row@ == mv[i as int],
                flat@ == before + row@.take(k as int),
        {
            flat.push(row[k]);
            assert(flat@ =~= before + row@.take(k + 1));
        }
        assert(row@.take(row@.len() as int) =~= row@);
        proof {
            lemma_take_push_flatten(mv, i as int);
        }
    }
    assert(mv.take(m@.len() as int) =~= mv);
    flat
}

/// A rectangular matrix flattened row by row holds entry `(i, j)` at `i * cols + j`.
pub proof fn lemma_flatten_rectangular<T>(m: Seq<Seq<T>>, cols: nat)
    requires
        is_rectangular(m, cols),
    ensures
        m.flatten().len() == m.len() * cols,
        forall|i: int, j: int|
            0 <= i < m.len() && 0 <= j < cols ==> #[trigger] m.flatten()[i * cols + j] == m[i][j],
    decreases m.len(),
{
    if m.len() == 0 {
        assert(m.flatten() =~= Seq::<T>::empty());
    } else {
        let init = m.drop_last();
        let n = m.len() - 1;
        assert(is_rectangular(init, cols));
        lemma_flatten_rectangular(init, cols);
        assert(m =~= init.push(m.last()));
        init.lemma_flatten_push(m.last());
        assert(m.flatten() == init.flatten() + m.last());
        assert(m.len() * cols == n * cols + cols) by (nonlinear_arith)
            requires
                n == m.len() - 1,
        ;
        assert forall|i: int, j: int| 0 <= i < m.len() && 0 <= j < cols implies #[trigger] m.flatten()[
            i * cols + j] == m[i][j] by {
            if i < n {
                assert(i * cols + j < n * cols) by (nonlinear_arith)
                    requires
                        i < n,
                        j < cols,
                        0 <= i,
                ;
                assert(0 <= i * cols + j) by (nonlinear_arith)
                    requires
                        0 <= i,
                        0 <= j,
                ;
                assert(init[i] == m[i]);
            } else {
                assert(i * cols + j == n * cols + j);
            }
        }
    }
}

/// Reads a matrix of `rows` rows and `cols` columns from a row-major vector:
/// entry `(i, j)` is `flat[i * cols + j]`.
pub fn rows_from_flat<T: Copy>(flat: &Vec<T>, rows: usize, cols: usize) -> (m: Vec<Vec<T>>)
    requires
        rows * cols <= flat@.len(),
    ensures
        rows_of(m@) == unflatten(flat@, rows as nat, cols as nat),
        m@.len() == rows,
        forall|i: int| 0 <= i < rows ==> #[trigger] m@[i]@.len() == cols,
        forall|i: int, j: int|
            0 <= i < rows && 0 <= j < cols ==> #[trigger] m@[i]@[j] == flat@[i * cols + j],
{
    let total: usize = flat.len();
    let mut m: Vec<Vec<T>> = Vec::new();
    for i in 0..rows
        invariant
            total == flat@.len(),
            rows * cols <= flat@.len(),
            m@.len() == i,
            forall|k: int|
                0 <= k < i ==> #[trigger] m@[k]@ == Seq::new(
                    cols as nat,
                    |j: int| flat@[k * cols + j],
                ),
    {
        let mut row: Vec<T> = Vec::new();
        for j in 0..cols
            invariant
                total == flat@.len(),
                rows * cols <= flat@.len(),
                i < rows,
                row@ == Seq::new(j as nat, |x: int| flat@[i * cols + x]),
        {
            assert(i * cols + j < rows * cols && i * cols <= i * cols + j) by (nonlinear_arith)
                requires
                    i < rows,
                    j < cols,
            ;
            row.push(flat[i * cols + j]);
            assert(row@ =~= Seq::new((j + 1) as nat, |x: int| flat@[i * cols + x]));
        }
        m.push(row);
    }
    assert(rows_of(m@) =~= unflatten(flat@, rows as nat, cols as nat));
    assert forall|i: int| 0 <= i < rows implies #[trigger] m@[i]@.len() == cols by {
        assert(rows_of(m@)[i] == m@[i]@);
    }
    assert forall|i: int, j: int| 0 <= i < rows && 0 <= j < cols implies #[trigger] m@[i]@[j]
        == flat@[i * cols + j] by {
        assert(rows_of(m@)[i] == m@[i]@);
    }
    m
}

/// Flattening a rectangular matrix row by row and reading it back with the same
/// shape gives the matrix again.
pub proof fn lemma_unflatten_flatten<T>(m: Seq<Seq<T>>, cols: nat)
    requires
        is_rectangular(m, cols),
    ensures
        unflatten(m.flatten(), m.len(), cols) == m,
{
    lemma_flatten_rectangular(m, cols);
    assert forall|i: int| 0 <= i < m.len() implies #[trigger] unflatten(m.flatten(), m.len(), cols)[i]
        =~= m[i] by {
        assert forall|j: int| 0 <= j < cols implies #[trigger] unflatten(
            m.flatten(),
            m.len(),
            cols,
        )[i][j] == m[i][j] by {
            assert(m.flatten()[i * cols + j] == m[i][j]);
        }
    }
    assert(unflatten(m.flatten(), m.len(), cols) =~= m);
}

/// Law of transposition: the transpose has as many rows as the first row has
/// entries, each with one entry per row of the matrix, and entry `(j, i)` of the
/// transpose is entry `(i, j)` of the matrix.
pub proof fn lemma_transpose_entries<T>(m: Seq<Seq<T>>)
    ensures
        m.len() == 0 ==> transpose(m).len() == 0,
        m.len() > 0 ==> transpose(m).len() == m[0].len(),
        forall|j: int| 0 <= j < transpose(m).len() ==> #[trigger] transpose(m)[j].len() == m.len(),
        forall|i: int, j: int|
            0 <= i < m.len() && 0 <= j < transpose(m).len() ==> #[trigger] transpose(m)[j][i]
                == m[i][j],
{
}

/// Transposing a non-empty rectangular matrix twice gives it back.
pub proof fn lemma_transpose_involution<T>(m: Seq<Seq<T>>, cols: nat)
    requires
        m.len() > 0,
        cols > 0,
        is_rectangular(m, cols),
    ensures
        transpose(transpose(m)) == m,
        transpose(m).len() == cols,
        is_rectangular(transpose(m), m.len()),
{
    let t = transpose(m);
    assert(t.len() == cols);
    assert(t[0].len() == m.len());
    assert forall|i: int| 0 <= i < m.len() implies #[trigger] transpose(t)[i] =~= m[i] by {}
    assert(transpose(t) =~= m);
}

/// Horizontal concatenation: row `i` of the result is row `i` of each block in
/// turn, for the first `n` rows.
pub fn concatenate_columns<T: Copy>(blocks: &Vec<Vec<Vec<T>>>, n: usize) -> (out: Vec<Vec<T>>)
    requires
        forall|k: int| 0 <= k < blocks@.len() ==> #[trigger] blocks@[k]@.len() >= n,
    ensures
        rows_of(out@) == hconcat(blocks_of(blocks@), n as nat),
{
    let ghost bv = blocks_of(blocks@);
    let mut out: Vec<Vec<T>> = Vec::new();
    for i in 0..n
        invariant
            bv == blocks_of(blocks@),
            forall|k: int| 0 <= k < blocks@.len() ==> #[trigger] blocks@[k]@.len() >= n,
            out@.len() == i,
            forall|r: int| 0 <= r < i ==> #[trigger] out@[r]@ == block_row(bv, r).flatten(),
    {
        let mut row: Vec<T> = Vec::new();
        assert(block_row(bv, i as int).take(0) =~= Seq::<Seq<T>>::empty());
        for k in 0..blocks.len()
            invariant
                bv == blocks_of(blocks@),
                forall|q: int| 0 <= q < blocks@.len() ==> #[trigger] blocks@[q]@.len() >= n,
                i < n,
                row@ == block_row(bv, i as int).take(k as int).flatten(),
        {
            let ghost before = row@;
            assert(blocks@[k as int]@.len() >= n);
            let piece = &blocks[k][i];
            assert(piece@ == block_row(bv, i as int)[k as int]);
            for x in 0..piece.len()
                invariant
                    row@ == before + piece@.take(x as int),
            {
                row.push(piece[x]);
                assert(row@ =~= before + piece@.take(x + 1));
            }
            assert(piece@.take(piece@.len() as int) =~= piece@);
            proof {
                lemma_take_push_flatten(block_row(bv, i as int), k as int);
            }
        }
        assert(block_row(bv, i as int).take(blocks@.len() as int) =~= block_row(bv, i as int));
        out.push(row);
    }
    assert(rows_of(out@) =~= hconcat(bv, n as nat));
    out
}

/// Law of horizontal concatenation: when every block has rows of the same width
/// `w`, entry `(i, k * w + j)` of the result is entry `(i, j)` of block `k`, and
/// each row has `w` entries per block.
pub proof fn lemma_hconcat_equal_widths<T>(blocks: Seq<Seq<Seq<T>>>, n: nat, w: nat)
    requires
        forall|k: int| 0 <= k < blocks.len() ==> #[trigger] blocks[k].len() >= n,
        forall|k: int, i: int|
            0 <= k < blocks.len() && 0 <= i < n ==> #[trigger] blocks[k][i].len() == w,
    ensures
        hconcat(blocks, n).len() == n,
        forall|i: int| 0 <= i < n ==> #[trigger] hconcat(blocks, n)[i].len() == blocks.len() * w,
        forall|i: int, k: int, j: int|
            0 <= i < n && 0 <= k < blocks.len() && 0 <= j < w ==> #[trigger] hconcat(blocks, n)[i][k
                * w + j] == blocks[k][i][j],
{
    assert forall|i: int| 0 <= i < n implies #[trigger] hconcat(blocks, n)[i].len() == blocks.len()
        * w by {
        let r = Seq::new(blocks.len(), |k: int| blocks[k][i]);
        assert(is_rectangular(r, w));
        lemma_flatten_rectangular(r, w);
        assert(hconcat(blocks, n)[i] == r.flatten());
    }
    assert forall|i: int, k: int, j: int|
        0 <= i < n && 0 <= k < blocks.len() && 0 <= j < w implies #[trigger] hconcat(blocks, n)[i][k
        * w + j] == blocks[k][i][j] by {
        let r = Seq::new(blocks.len(), |q: int| blocks[q][i]);
        assert(is_rectangular(r, w));
        lemma_flatten_rectangular(r, w);
        assert(hconcat(blocks, n)[i] == r.flatten());
        assert(r[k] == blocks[k][i]);
        assert(r.flatten()[k * w + j] == r[k][j]);
    }
}

/// Vertical concatenation: the rows of each block in turn.
pub fn concatenate_rows<T: Copy>(blocks: &Vec<Vec<Vec<T>>>) -> (out: Vec<Vec<T>>)
    ensures
        rows_of(out@) == blocks_of(blocks@).flatten(),
{
    let ghost bv = blocks_of(blocks@);
    let mut out: Vec<Vec<T>> = Vec::new();
    assert(bv.take(0) =~= Seq::<Seq<Seq<T>>>::empty());
    assert(rows_of(out@) =~= Seq::<Seq<T>>::empty());
    for k in 0..blocks.len()
        invariant
            bv == blocks_of(blocks@),
            rows_of(out@) == bv.take(k as int).flatten(),
    {
        let ghost before = rows_of(out@);
        let block = &blocks[k];
        assert(rows_of(block@) == bv[k as int]);
        for r in 0..block.len()
            invariant
                rows_of(out@) == before + rows_of(block@).take(r as int),
        {
            let row = copy_row(&block[r]);
            assert(rows_of(block@)[r as int] == row@);
            let ghost prev = out@;
            out.push(row);
            assert(rows_of(out@) =~= rows_of(prev).push(row@));
            assert(rows_of(out@) =~= before + rows_of(block@).take(r + 1));
        }
        assert(rows_of(block@).take(block@.len() as int) =~= rows_of(block@));
        proof {
            lemma_take_push_flatten(bv, k as int);
        }
    }
    assert(bv.take(blocks@.len() as int) =~= bv);
    out
}

} // verus!
