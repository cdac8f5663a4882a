//! Conversions between sparse 1-based coordinate lists and dense row-major
//! buffers of a fixed-size grid, and the horizontal flip of a dense buffer.

use vstd::prelude::*;
use vstd::arithmetic::div_mod::{lemma_fundamental_div_mod, lemma_fundamental_div_mod_converse};

verus! {

/// Why a codec operation rejected its input.
#[derive(Debug, Clone, Copy, PartialEq, Eq, Structural)]
pub enum CodecError {
    /// A sparse list of odd length, or with a coordinate outside the grid.
    InvalidEncoding,
    /// A dense buffer whose length is not `rows * cols`.
    ShapeMismatch,
}

/// The cell that lands at row-major position `k` when each row of width
/// `cols` is reversed.
pub open spec fn flip_index(k: int, cols: int) -> int {
    (k / cols) * cols + (cols - 1 - k % cols)
}

/// `d` with the order of the elements within each row of width `cols` reversed.
pub open spec fn flipped<T>(d: Seq<T>, cols: nat) -> Seq<T> {
    Seq::new(d.len(), |k: int| d[flip_index(k, cols as int)])
}

/// Within a grid of `rows * cols` cells, the flipped position of a cell is a
/// cell again, and flipping it once more gives the cell back.
proof fn lemma_flip_index(k: int, rows: int, cols: int)
    requires
        0 < cols,
        0 <= rows,
        0 <= k < rows * cols,
    ensures
        0 <= flip_index(k, cols) < rows * cols,
        flip_index(k, cols) / cols == k / cols,
        flip_index(k, cols) % cols == cols - 1 - k % cols,
        flip_index(flip_index(k, cols), cols) == k,
{
    let q = k / cols;
    let m = k % cols;
    lemma_fundamental_div_mod(k, cols);
    assert(0 <= m < cols);
    assert(0 <= q) by {
        if q < 0 {
            assert(cols * q <= -cols) by (nonlinear_arith)
                requires q < 0, 0 < cols;
        }
    }
    assert(rows * cols == cols * rows) by (nonlinear_arith);
    assert(q < rows) by {
        if q >= rows {
            assert(cols * q >= cols * rows) by (nonlinear_arith)
                requires q >= rows, 0 < cols;
        }
    }
    assert(q * cols + cols <= rows * cols) by (nonlinear_arith)
        requires q + 1 <= rows, 0 < cols;
    assert(q * cols == cols * q) by (nonlinear_arith);
    assert(0 <= q * cols) by (nonlinear_arith) requires 0 <= q, 0 < cols;
    let j = q * cols + (cols - 1 - m);
    lemma_fundamental_div_mod_converse(j, cols, q, cols - 1 - m);
    lemma_fundamental_div_mod_converse(k, cols, q, m);
}

/// Reverses the order of the elements within each row of a row-major buffer
/// of `rows` rows and `cols` columns; the rows keep their order.
pub fn flat_horizontal_flip<T: Copy>(
    matrix_flat: Vec<T>,
    rows: usize,
    cols: usize,
) -> (r: Result<Vec<T>, CodecError>)
    ensures
        matrix_flat@.len() == rows * cols ==> r is Ok && r->Ok_0@ == flipped(
            matrix_flat@,
            cols as nat,
        ),
        matrix_flat@.len() != rows * cols ==> r == Err::<Vec<T>, CodecError>(
            CodecError::ShapeMismatch,
        ),
{
    let n = matrix_flat.len();
    match rows.checked_mul(cols) {
        Some(size) => {
            if size != n {
                return Err(CodecError::ShapeMismatch);
            }
        },
        None => {
            return Err(CodecError::ShapeMismatch);
        },
    }
    let mut out: Vec<T> = Vec::with_capacity(n);
    let mut k: usize = 0;
    while k < n
        invariant
            n == matrix_flat@.len(),
            n == rows * cols,
            k <= n,
            out@.len() == k,
            forall|i: int| 0 <= i < k ==> out@[i] == flipped(matrix_flat@, cols as nat)[i],
        decreases n - k,
    {
        assert(cols > 0) by (nonlinear_arith)
            requires k < rows * cols, 0 <= rows, 0 <= cols;
        proof {
            lemma_flip_index(k as int, rows as int, cols as int);
            lemma_fundamental_div_mod(k as int, cols as int);
            assert((k / cols) * cols == cols * (k / cols)) by (nonlinear_arith);
        }
        let m = k % cols;
        let idx = (k - m) + (cols - 1 - m);
        out.push(matrix_flat[idx]);
        k = k + 1;
    }
    Ok(out)
}

/// Flipping a buffer of `rows * cols` cells twice gives the buffer back.
pub proof fn lemma_flip_twice_is_identity<T>(d: Seq<T>, rows: nat, cols: nat)
    requires
        d.len() == rows * cols,
    ensures
        flipped(flipped(d, cols), cols) == d,
{
    let once = flipped(d, cols);
    let twice = flipped(once, cols);
    assert forall|k: int| 0 <= k < d.len() implies twice[k] == d[k] by {
        assert(cols > 0) by (nonlinear_arith)
            requires k < rows * cols, 0 <= k, 0 <= rows;
        lemma_flip_index(k, rows as int, cols as int);
    }
    assert(twice =~= d);
}

/// The sparse list of the first `m` cells of `d`: for each cell equal to 1,
/// in row-major order, its 1-based row and then its 1-based column.
pub open spec fn sparse_prefix(d: Seq<usize>, cols: nat, m: nat) -> Seq<usize>
    decreases m,
{
    if m == 0 {
        Seq::empty()
    } else {
        let k = (m - 1) as int;
        let prev = sparse_prefix(d, cols, (m - 1) as nat);
        if d[k] == 1 {
            prev.push((k / cols as int + 1) as usize).push((k % cols as int + 1) as usize)
        } else {
            prev
        }
    }
}

/// The sparse coordinate list of a dense buffer with rows of width `cols`.
pub open spec fn sparse_of(d: Seq<usize>, cols: nat) -> Seq<usize> {
    sparse_prefix(d, cols, d.len())
}

/// Encodes a row-major buffer of `rows` by `cols` cells as the flat list of
/// 1-based (row, column) pairs of its cells that equal 1, in row-major order.
pub fn flat_to_coo(matrix_flat: Vec<usize>, rows: usize, cols: usize) -> (r: Result<
    Vec<usize>,
    CodecError,
>)
    ensures
        matrix_flat@.len() == rows * cols ==> r is Ok && r->Ok_0@ == sparse_of(
            matrix_flat@,
            cols as nat,
        ),
        matrix_flat@.len() != rows * cols ==> r == Err::<Vec<usize>, CodecError>(
            CodecError::ShapeMismatch,
        ),
{
    let n = matrix_flat.len();
    match rows.checked_mul(cols) {
        Some(size) => {
            if size != n {
                return Err(CodecError::ShapeMismatch);
            }
        },
        None => {
            return Err(CodecError::ShapeMismatch);
        },
    }
    let mut out: Vec<usize> = Vec::new();
    let mut k: usize = 0;
    while k < n
        invariant
            n == matrix_flat@.len(),
            n == rows * cols,
            k <= n,
            out@ == sparse_prefix(matrix_flat@, cols as nat, k as nat),
        decreases n - k,
    {
        assert(cols > 0) by (nonlinear_arith)
            requires k < rows * cols, 0 <= rows, 0 <= cols;
        if matrix_flat[k] == 1 {
            let row = k / cols;
            let col = k % cols;
            assert(row <= k) by (nonlinear_arith)
                requires row == k / cols, cols > 0;
            out.push(row + 1);
            out.push(col + 1);
        }
        k = k + 1;
    }
    Ok(out)
}

/// The row-major index of the cell named by the `i`-th 1-based pair of `c`.
pub open spec fn cell_of(c: Seq<usize>, i: int, cols: nat) -> int {
    (c[2 * i] - 1) * cols + (c[2 * i + 1] - 1)
}

/// `c` has even length and each of its pairs names a cell of the grid.
pub open spec fn coords_valid(c: Seq<usize>, rows: nat, cols: nat) -> bool {
    &&& c.len() % 2 == 0
    &&& forall|i: int|
        0 <= i < c.len() / 2 ==> 1 <= #[trigger] c[2 * i] <= rows && 1 <= c[2 * i + 1] <= cols
}

/// Some pair among the first `p` pairs of `c` names cell `k`.
pub open spec fn covered(c: Seq<usize>, p: int, cols: nat, k: int) -> bool {
    exists|i: int| 0 <= i < p && #[trigger] cell_of(c, i, cols) == k
}

/// The dense buffer of `rows * cols` cells whose cells named in `c` are 1 and
/// all others 0.
pub open spec fn dense_of(c: Seq<usize>, rows: nat, cols: nat) -> Seq<usize> {
    Seq::new(rows * cols, |k: int| if covered(c, (c.len() / 2) as int, cols, k) { 1usize } else { 0usize })
}

/// Decodes a flat list of 1-based (row, column) pairs into a row-major buffer
/// of `rows` by `cols` cells, with 1 at each named cell and 0 elsewhere.
/// An odd-length list, or a pair outside the grid, is rejected.
pub fn coo_to_flat(coo_flat: Vec<usize>, rows: usize, cols: usize) -> (r: Result<
    Vec<usize>,
    CodecError,
>)
    requires
        rows * cols <= usize::MAX,
    ensures
        coords_valid(coo_flat@, rows as nat, cols as nat) ==> r is Ok && r->Ok_0@ == dense_of(
            coo_flat@,
            rows as nat,
            cols as nat,
        ),
        !coords_valid(coo_flat@, rows as nat, cols as nat) ==> r == Err::<Vec<usize>, CodecError>(
            CodecError::InvalidEncoding,
        ),
{
    let len = coo_flat.len();
    if len % 2 != 0 {
        return Err(CodecError::InvalidEncoding);
    }
    let n = rows * cols;
    let mut matrix_flat: Vec<usize> = vec![0; n];
    let pairs = len / 2;
    let mut p: usize = 0;
    while p < pairs
        invariant
            len == coo_flat@.len(),
            len % 2 == 0,
            pairs == len / 2,
            n == rows * cols,
            p <= pairs,
            matrix_flat@.len() == n,
            forall|i: int|
                0 <= i < p ==> 1 <= #[trigger] coo_flat@[2 * i] <= rows && 1 <= coo_flat@[2 * i
                    + 1] <= cols,
            forall|k: int|
                0 <= k < n ==> #[trigger] matrix_flat@[k] == if covered(
                    coo_flat@,
                    p as int,
                    cols as nat,
                    k,
                ) {
                    1usize
                } else {
                    0usize
                },
        decreases pairs - p,
    {
        let row = coo_flat[2 * p];
        let col = coo_flat[2 * p + 1];
        if row < 1 || row > rows || col < 1 || col > cols {
            assert(!coords_valid(coo_flat@, rows as nat, cols as nat)) by {
                assert(coo_flat@[2 * (p as int)] == row);
            }
            return Err(CodecError::InvalidEncoding);
        }
        assert((row - 1) * cols + (col - 1) < rows * cols) by (nonlinear_arith)
            requires 1 <= row <= rows, 1 <= col <= cols;
        assert(0 <= (row - 1) * cols) by (nonlinear_arith)
            requires 1 <= row, 0 <= cols;
        let idx = (row - 1) * cols + (col - 1);
        proof {
            assert(cell_of(coo_flat@, p as int, cols as nat) == idx);
        }
        matrix_flat.set(idx, 1);
        p = p + 1;
        assert forall|k: int| 0 <= k < n implies #[trigger] matrix_flat@[k] == if covered(
            coo_flat@,
            p as int,
            cols as nat,
            k,
        ) {
            1usize
        } else {
            0usize
        } by {
            if k == idx {
                assert(cell_of(coo_flat@, p - 1, cols as nat) == k);
            } else {
                if covered(coo_flat@, p as int, cols as nat, k) {
                    let i = choose|i: int| 0 <= i < p && #[trigger] cell_of(coo_flat@, i, cols as nat) == k;
                    assert(i != p - 1);
                    assert(covered(coo_flat@, p - 1, cols as nat, k));
                }
            }
        }
    }
    assert(matrix_flat@ =~= dense_of(coo_flat@, rows as nat, cols as nat));
    Ok(matrix_flat)
}

/// Row and column of a cell of a grid of `rows * cols` cells.
proof fn lemma_row_col(k: int, rows: int, cols: int)
    requires
        0 < cols,
        0 <= rows,
        0 <= k < rows * cols,
    ensures
        0 <= k / cols < rows,
        0 <= k % cols < cols,
        (k / cols) * cols + k % cols == k,
{
    lemma_flip_index(k, rows, cols);
    lemma_fundamental_div_mod(k, cols);
    assert((k / cols) * cols == cols * (k / cols)) by (nonlinear_arith);
    assert(rows * cols == cols * rows) by (nonlinear_arith);
    assert(k / cols < rows) by {
        if k / cols >= rows {
            assert(cols * (k / cols) >= cols * rows) by (nonlinear_arith)
                requires k / cols >= rows, 0 < cols;
        }
    }
}

/// Each pair of the sparse list of the first `m` cells of `d` names, within
/// the grid, a cell before `m` that is 1, and each such cell is named.
#[verifier::rlimit(30)]
proof fn lemma_sparse_prefix(d: Seq<usize>, rows: nat, cols: nat, m: nat)
    requires
        d.len() == rows * cols,
        d.len() <= usize::MAX,
        m <= d.len(),
    ensures
        sparse_prefix(d, cols, m).len() % 2 == 0,
        forall|i: int|
            0 <= i < sparse_prefix(d, cols, m).len() / 2 ==> {
                &&& 1 <= #[trigger] sparse_prefix(d, cols, m)[2 * i] <= rows
                &&& 1 <= sparse_prefix(d, cols, m)[2 * i + 1] <= cols
                &&& 0 <= cell_of(sparse_prefix(d, cols, m), i, cols) < m
                &&& d[cell_of(sparse_prefix(d, cols, m), i, cols)] == 1
            },
        forall|k: int|
            0 <= k < m && #[trigger] d[k] == 1 ==> covered(
                sparse_prefix(d, cols, m),
                (sparse_prefix(d, cols, m).len() / 2) as int,
                cols,
                k,
            ),
    decreases m,
{
    if m > 0 {
        let k = (m - 1) as int;
        let prev = sparse_prefix(d, cols, (m - 1) as nat);
        let s = sparse_prefix(d, cols, m);
        lemma_sparse_prefix(d, rows, cols, (m - 1) as nat);
        let h = (prev.len() / 2) as int;
        assert forall|i: int| 0 <= i < h implies cell_of(s, i, cols) == cell_of(prev, i, cols)
            && s[2 * i] == prev[2 * i] && s[2 * i + 1] == prev[2 * i + 1] by {}
        if d[k] == 1 {
            assert(cols > 0) by (nonlinear_arith)
                requires k < rows * cols, 0 <= k, 0 <= rows;
            lemma_row_col(k, rows as int, cols as int);
            assert(k / cols as int <= k && k % cols as int <= k) by (nonlinear_arith)
                requires (k / cols as int) * cols + k % cols as int == k, 0 <= k / cols as int,
                    0 <= k % cols as int, cols > 0;
            assert(s[2 * h] == k / cols as int + 1);
            assert(s[2 * h + 1] == k % cols as int + 1);
            assert(cell_of(s, h, cols) == k);
            assert(s.len() / 2 == h + 1);
            assert forall|i: int| 0 <= i < s.len() / 2 implies {
                &&& 1 <= #[trigger] s[2 * i] <= rows
                &&& 1 <= s[2 * i + 1] <= cols
                &&& 0 <= cell_of(s, i, cols) < m
                &&& d[cell_of(s, i, cols)] == 1
            } by {
                if i < h {
                    assert(1 <= prev[2 * i] <= rows);
                }
            }
            assert forall|j: int| 0 <= j < m && #[trigger] d[j] == 1 implies covered(
                s,
                (s.len() / 2) as int,
                cols,
                j,
            ) by {
                if j < k {
                    let i = choose|i: int| 0 <= i < h && #[trigger] cell_of(prev, i, cols) == j;
                    assert(cell_of(s, i, cols) == j);
                } else {
                    assert(cell_of(s, h, cols) == j);
                }
            }
        } else {
            assert(s == prev);
            assert forall|i: int| 0 <= i < s.len() / 2 implies {
                &&& 1 <= #[trigger] s[2 * i] <= rows
                &&& 1 <= s[2 * i + 1] <= cols
                &&& 0 <= cell_of(s, i, cols) < m
                &&& d[cell_of(s, i, cols)] == 1
            } by {
                assert(1 <= prev[2 * i] <= rows);
            }
            assert forall|j: int| 0 <= j < m && #[trigger] d[j] == 1 implies covered(
                s,
                (s.len() / 2) as int,
                cols,
                j,
            ) by {
                assert(j < k);
            }
        }
    }
}

/// Encoding a binary buffer of `rows * cols` cells gives a valid sparse list,
/// and decoding that list gives the buffer back.
pub proof fn lemma_round_trip(d: Seq<usize>, rows: nat, cols: nat)
    requires
        d.len() == rows * cols,
        d.len() <= usize::MAX,
        forall|k: int| 0 <= k < d.len() ==> d[k] == 0 || d[k] == 1,
    ensures
        coords_valid(sparse_of(d, cols), rows, cols),
        dense_of(sparse_of(d, cols), rows, cols) == d,
{
    let s = sparse_of(d, cols);
    lemma_sparse_prefix(d, rows, cols, d.len());
    let e = dense_of(s, rows, cols);
    assert forall|k: int| 0 <= k < d.len() implies e[k] == d[k] by {
        if d[k] == 1 {
            assert(covered(s, (s.len() / 2) as int, cols, k));
        } else if covered(s, (s.len() / 2) as int, cols, k) {
            let i = choose|i: int| 0 <= i < s.len() / 2 && #[trigger] cell_of(s, i, cols) == k;
            assert(1 <= s[2 * i]);
        }
    }
    assert(e =~= d);
}

} // verus!
