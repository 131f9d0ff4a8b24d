//! GF(2^8) matrix: row-major layout, 64-byte aligned backing store.
//!
//! The backing store is an [`AlignedBuffer`] with each row padded to a
//! 64-byte-multiple stride, so every row handed to the kernels starts on a
//! 64-byte boundary.
//!
//! Example: `symbol_size` = 100 bytes gives a padded stride of 128 bytes;
//! row 0 starts at offset 0 and row 1 at offset 128.

use crate::aligned::{AlignedBuffer, ALIGN};
use crate::encoder::{all_zero, is_all_zero};
use crate::field::algebra::{lemma_mul_commutative, lemma_mul_identities, lemma_xor_basics};
use crate::field::tables::{exp_lookup, lemma_inverse_by_log, log_lookup};
use crate::kernel;
use crate::linear::{axpy_spec, lemma_axpy_zero, scale_spec, unit};
use crate::span::{
    lemma_axpy_equivalent, lemma_equivalent_refl, lemma_equivalent_step, lemma_scale_equivalent,
    lemma_swap_equivalent, row_equivalent, rows_of_len,
};
use crate::slices::swap_bytes;
use crate::std_ops::subslice_mut;
use vstd::prelude::*;

verus! {

/// The padded stride of `cols` columns: `cols` rounded up to a multiple of
/// `ALIGN`.
pub open spec fn stride_for(cols: nat) -> nat {
    ((cols + 63) / 64 * 64) as nat
}

/// Byte `j` of row `q` in a row-major store with the given stride.
pub open spec fn entry(data: Seq<u8>, stride: nat, q: int, j: int) -> u8 {
    data[q * stride + j]
}

/// The `rows` rows of `cols` bytes stored at multiples of `stride`.
pub open spec fn matrix_rows(data: Seq<u8>, rows: nat, stride: nat, cols: nat) -> Seq<Seq<u8>> {
    Seq::new(rows, |q: int| data.subrange(q * stride, q * stride + cols))
}

/// Every padding byte (past `cols` in each row) is zero.
pub open spec fn padding_zero(data: Seq<u8>, rows: nat, stride: nat, cols: nat) -> bool {
    forall|q: int, j: int|
        0 <= q < rows && cols <= j < stride ==> #[trigger] entry(data, stride, q, j) == 0u8
}

/// `data` with the `new.len()` bytes at `off` replaced by `new`.
pub open spec fn splice(data: Seq<u8>, off: int, new: Seq<u8>) -> Seq<u8> {
    data.subrange(0, off) + new + data.subrange(off + new.len(), data.len() as int)
}

/// Reduced row echelon form with `rank` non-zero rows: row `q < rank`
/// starts with a one in column `pivots[q]`, the pivot columns increase and
/// are zero in every other row, and the rows from `rank` on are zero.
pub open spec fn rref(m: Seq<Seq<u8>>, rank: nat, pivots: Seq<int>, cols: nat) -> bool {
    &&& pivots.len() == rank
    &&& rank <= m.len()
    &&& rows_of_len(m, cols)
    &&& forall|q: int|
        0 <= q < rank ==> {
            &&& 0 <= #[trigger] pivots[q] < cols
            &&& m[q][pivots[q]] == 1u8
            &&& forall|j: int| 0 <= j < pivots[q] ==> m[q][j] == 0u8
        }
    &&& forall|q1: int, q2: int| 0 <= q1 < q2 < rank ==> pivots[q1] < pivots[q2]
    &&& forall|q: int, q2: int|
        0 <= q < rank && 0 <= q2 < m.len() && q2 != q ==> #[trigger] m[q2][pivots[q]] == 0u8
    &&& forall|q: int, j: int| rank <= q < m.len() && 0 <= j < cols ==> #[trigger] m[q][j] == 0u8
}

/// Gaussian elimination after the first `col` columns: the rows before
/// `pr` are pivot rows as in [`rref`], with their pivots before `col`, and
/// the rows from `pr` on are zero in the first `col` columns.
pub open spec fn reduced_through(
    m: Seq<Seq<u8>>,
    pr: nat,
    pivots: Seq<int>,
    col: nat,
    cols: nat,
) -> bool {
    &&& pivots.len() == pr
    &&& pr <= m.len()
    &&& pr <= col <= cols
    &&& rows_of_len(m, cols)
    &&& forall|q: int|
        0 <= q < pr ==> {
            &&& 0 <= #[trigger] pivots[q] < col
            &&& m[q][pivots[q]] == 1u8
            &&& forall|j: int| 0 <= j < pivots[q] ==> m[q][j] == 0u8
        }
    &&& forall|q1: int, q2: int| 0 <= q1 < q2 < pr ==> pivots[q1] < pivots[q2]
    &&& forall|q: int, q2: int|
        0 <= q < pr && 0 <= q2 < m.len() && q2 != q ==> #[trigger] m[q2][pivots[q]] == 0u8
    &&& forall|q: int, j: int| pr <= q < m.len() && 0 <= j < col ==> #[trigger] m[q][j] == 0u8
}

/// Nothing is reduced before the first column.
proof fn lemma_reduced_start(m: Seq<Seq<u8>>, cols: nat)
    requires
        rows_of_len(m, cols),
    ensures
        reduced_through(m, 0, Seq::empty(), 0, cols),
{
}

/// A column that is zero below the pivot rows adds no pivot.
proof fn lemma_reduced_skip(m: Seq<Seq<u8>>, pr: nat, pivots: Seq<int>, col: nat, cols: nat)
    requires
        reduced_through(m, pr, pivots, col, cols),
        col < cols,
        forall|q: int| pr <= q < m.len() ==> #[trigger] m[q][col as int] == 0u8,
    ensures
        reduced_through(m, pr, pivots, col + 1, cols),
{
    assert forall|q: int, j: int| pr <= q < m.len() && 0 <= j < col + 1 implies #[trigger] m[q][j]
        == 0u8 by {
        if j == col {
            assert(m[q][col as int] == 0u8);
        }
    }
}

/// Exchanging two rows at or below the pivot rows keeps the reduction.
proof fn lemma_reduced_swap(m: Seq<Seq<u8>>, pr: nat, pivots: Seq<int>, col: nat, cols: nat, r: int)
    requires
        reduced_through(m, pr, pivots, col, cols),
        pr <= r < m.len(),
        pr < m.len(),
    ensures
        reduced_through(m.update(r, m[pr as int]).update(pr as int, m[r]), pr, pivots, col, cols),
{
    let m2 = m.update(r, m[pr as int]).update(pr as int, m[r]);
    assert forall|q: int| 0 <= q < m2.len() implies (#[trigger] m2[q]).len() == cols by {
    }
    assert forall|q: int, q2: int| 0 <= q < pr && 0 <= q2 < m2.len() && q2 != q implies #[trigger] m2[q2][pivots[q]]
        == 0u8 by {
        if q2 == r {
            assert(m[pr as int][pivots[q]] == 0u8);
        } else if q2 == pr {
            assert(m[r][pivots[q]] == 0u8);
        }
    }
    assert forall|q: int, j: int| pr <= q < m2.len() && 0 <= j < col implies #[trigger] m2[q][j] == 0u8 by {
        if q == r {
            assert(m[pr as int][j] == 0u8);
        } else if q == pr {
            assert(m[r][j] == 0u8);
        }
    }
}

/// Scaling the first row below the pivot rows keeps the reduction.
proof fn lemma_reduced_scale(m: Seq<Seq<u8>>, pr: nat, pivots: Seq<int>, col: nat, cols: nat, c: u8)
    requires
        reduced_through(m, pr, pivots, col, cols),
        pr < m.len(),
    ensures
        reduced_through(m.update(pr as int, scale_spec(c, m[pr as int])), pr, pivots, col, cols),
{
    let m2 = m.update(pr as int, scale_spec(c, m[pr as int]));
    lemma_mul_identities(c);
    assert forall|q: int| 0 <= q < m2.len() implies (#[trigger] m2[q]).len() == cols by {
    }
    assert forall|q: int, q2: int| 0 <= q < pr && 0 <= q2 < m2.len() && q2 != q implies #[trigger] m2[q2][pivots[q]]
        == 0u8 by {
        if q2 == pr {
            assert(m[pr as int][pivots[q]] == 0u8);
        }
    }
    assert forall|q: int, j: int| pr <= q < m2.len() && 0 <= j < col implies #[trigger] m2[q][j] == 0u8 by {
        if q == pr {
            assert(m[pr as int][j] == 0u8);
        }
    }
}

/// Clearing column `col` outside a row whose entry there is one makes that
/// row the next pivot row.
proof fn lemma_reduced_pivot(
    m: Seq<Seq<u8>>,
    m2: Seq<Seq<u8>>,
    pr: nat,
    pivots: Seq<int>,
    col: nat,
    cols: nat,
)
    requires
        reduced_through(m, pr, pivots, col, cols),
        col < cols,
        pr < m.len(),
        m[pr as int][col as int] == 1u8,
        m2.len() == m.len(),
        m2[pr as int] == m[pr as int],
        forall|q: int|
            0 <= q < m.len() && q != pr ==> #[trigger] m2[q] == axpy_spec(
                m[q][col as int],
                m[pr as int],
                m[q],
            ),
    ensures
        reduced_through(m2, pr + 1, pivots.push(col as int), col + 1, cols),
{
    let p = m[pr as int];
    let ps = pivots.push(col as int);
    assert forall|q: int, j: int|
        0 <= q < m.len() && q != pr && 0 <= j <= col implies #[trigger] m2[q][j] == if j == col {
        0u8
    } else {
        m[q][j]
    } by {
        let c = m[q][col as int];
        assert(m2[q] == axpy_spec(c, p, m[q]));
        lemma_mul_identities(c);
        if j == col {
            lemma_xor_basics(c, c);
        } else {
            assert(p[j] == 0u8);
            lemma_xor_basics(m[q][j], 0u8);
        }
    }
    assert forall|q: int| 0 <= q < m2.len() implies (#[trigger] m2[q]).len() == cols by {
        if q != pr {
            assert(m2[q] == axpy_spec(m[q][col as int], p, m[q]));
        }
    }
    assert forall|q: int| 0 <= q < pr + 1 implies {
        &&& 0 <= #[trigger] ps[q] < col + 1
        &&& m2[q][ps[q]] == 1u8
        &&& forall|j: int| 0 <= j < ps[q] ==> m2[q][j] == 0u8
    } by {
        if q < pr {
            assert(ps[q] == pivots[q]);
            assert forall|j: int| 0 <= j < ps[q] implies m2[q][j] == 0u8 by {
                assert(m2[q][j] == m[q][j]);
            }
            assert(m2[q][ps[q]] == m[q][pivots[q]]);
        } else {
            assert(ps[q] == col);
            assert forall|j: int| 0 <= j < ps[q] implies m2[q][j] == 0u8 by {
                assert(m[pr as int][j] == 0u8);
            }
        }
    }
    assert forall|q: int, q2: int| 0 <= q < pr + 1 && 0 <= q2 < m2.len() && q2 != q implies #[trigger] m2[q2][ps[q]]
        == 0u8 by {
        if q < pr {
            assert(ps[q] == pivots[q]);
            if q2 == pr {
                assert(m[pr as int][pivots[q]] == 0u8);
            } else {
                assert(m2[q2][pivots[q]] == m[q2][pivots[q]]);
            }
        } else {
            assert(ps[q] == col);
            assert(m2[q2][col as int] == 0u8);
        }
    }
    assert forall|q: int, j: int| pr + 1 <= q < m2.len() && 0 <= j < col + 1 implies #[trigger] m2[q][j]
        == 0u8 by {
        if j < col {
            assert(m[q][j] == 0u8);
        }
    }
}

/// Once every column is reduced, the matrix is in reduced row echelon form.
proof fn lemma_reduced_done(m: Seq<Seq<u8>>, pr: nat, pivots: Seq<int>, cols: nat)
    requires
        reduced_through(m, pr, pivots, cols, cols),
    ensures
        rref(m, pr, pivots, cols),
{
}

/// Row `q` ends before row `rows` begins.
proof fn lemma_row_window(q: int, rows: int, stride: int)
    by (nonlinear_arith)
    requires
        0 <= q < rows,
        0 <= stride,
    ensures
        0 <= q * stride,
        q * stride + stride <= rows * stride,
{
}

/// Rows are laid out one after the other.
proof fn lemma_windows_ordered(a: int, b: int, stride: int)
    by (nonlinear_arith)
    requires
        0 <= a < b,
        0 <= stride,
    ensures
        a * stride + stride <= b * stride,
{
}

/// The stride formula: `(cols + 63) & !63` rounds up to a multiple of 64.
proof fn lemma_stride_formula(cols: usize)
    requires
        cols <= usize::MAX - (ALIGN - 1),
    ensures
        ((cols + 63) as usize) & !63usize == stride_for(cols as nat),
        cols <= stride_for(cols as nat) < cols + ALIGN,
{
    let x = (cols + 63) as usize;
    assert(x & !63usize == (x / 64) * 64) by (bit_vector);
    assert(cols <= (x / 64) * 64 < cols + 64) by (nonlinear_arith)
        requires
            x == cols + 63,
    ;
}

/// Replacing row `r`'s bytes replaces that row of the matrix and leaves
/// every padding byte as it was.
proof fn lemma_splice_row(data: Seq<u8>, rows: nat, stride: nat, cols: nat, r: int, new: Seq<u8>)
    requires
        data.len() == rows * stride,
        cols <= stride,
        0 <= r < rows,
        new.len() == cols,
    ensures
        splice(data, r * stride, new).len() == data.len(),
        matrix_rows(splice(data, r * stride, new), rows, stride, cols) == matrix_rows(
            data,
            rows,
            stride,
            cols,
        ).update(r, new),
        forall|q: int, j: int|
            0 <= q < rows && cols <= j < stride ==> #[trigger] entry(
                splice(data, r * stride, new),
                stride,
                q,
                j,
            ) == entry(data, stride, q, j),
{
    let d2 = splice(data, r * stride, new);
    let off = r * stride;
    lemma_row_window(r, rows as int, stride as int);
    assert(d2.len() == data.len());
    assert forall|q: int| 0 <= q < rows implies #[trigger] matrix_rows(d2, rows, stride, cols)[q]
        == matrix_rows(data, rows, stride, cols).update(r, new)[q] by {
        lemma_row_window(q, rows as int, stride as int);
        if q < r {
            lemma_windows_ordered(q, r, stride as int);
        } else if q > r {
            lemma_windows_ordered(r, q, stride as int);
        }
        assert(matrix_rows(d2, rows, stride, cols)[q] =~= matrix_rows(data, rows, stride, cols).update(
            r,
            new,
        )[q]);
    }
    assert(matrix_rows(d2, rows, stride, cols) =~= matrix_rows(data, rows, stride, cols).update(
        r,
        new,
    ));
    assert forall|q: int, j: int| 0 <= q < rows && cols <= j < stride implies #[trigger] entry(
        d2,
        stride,
        q,
        j,
    ) == entry(data, stride, q, j) by {
        lemma_row_window(q, rows as int, stride as int);
        if q < r {
            lemma_windows_ordered(q, r, stride as int);
        } else if q > r {
            lemma_windows_ordered(r, q, stride as int);
        }
    }
}

/// Replacing a whole stride window of row `r` replaces that row with the
/// window's first `cols` bytes and the row's padding with the rest.
proof fn lemma_splice_window(data: Seq<u8>, rows: nat, stride: nat, cols: nat, r: int, new: Seq<u8>)
    requires
        data.len() == rows * stride,
        cols <= stride,
        0 <= r < rows,
        new.len() == stride,
    ensures
        splice(data, r * stride, new).len() == data.len(),
        matrix_rows(splice(data, r * stride, new), rows, stride, cols) == matrix_rows(
            data,
            rows,
            stride,
            cols,
        ).update(r, new.subrange(0, cols as int)),
        forall|q: int, j: int|
            0 <= q < rows && cols <= j < stride ==> #[trigger] entry(
                splice(data, r * stride, new),
                stride,
                q,
                j,
            ) == if q == r {
                new[j]
            } else {
                entry(data, stride, q, j)
            },
{
    let d2 = splice(data, r * stride, new);
    lemma_row_window(r, rows as int, stride as int);
    assert(d2.len() == data.len());
    assert forall|q: int| 0 <= q < rows implies #[trigger] matrix_rows(d2, rows, stride, cols)[q]
        == matrix_rows(data, rows, stride, cols).update(r, new.subrange(0, cols as int))[q] by {
        lemma_row_window(q, rows as int, stride as int);
        if q < r {
            lemma_windows_ordered(q, r, stride as int);
        } else if q > r {
            lemma_windows_ordered(r, q, stride as int);
        }
        assert(matrix_rows(d2, rows, stride, cols)[q] =~= matrix_rows(data, rows, stride, cols).update(
            r,
            new.subrange(0, cols as int),
        )[q]);
    }
    assert(matrix_rows(d2, rows, stride, cols) =~= matrix_rows(data, rows, stride, cols).update(
        r,
        new.subrange(0, cols as int),
    ));
    assert forall|q: int, j: int| 0 <= q < rows && cols <= j < stride implies #[trigger] entry(
        d2,
        stride,
        q,
        j,
    ) == if q == r {
        new[j]
    } else {
        entry(data, stride, q, j)
    } by {
        lemma_row_window(q, rows as int, stride as int);
        if q < r {
            lemma_windows_ordered(q, r, stride as int);
        } else if q > r {
            lemma_windows_ordered(r, q, stride as int);
        }
    }
}

/// Exchanging the stride windows of rows `a` and `b` exchanges the two
/// rows and keeps the padding zero.
proof fn lemma_swap_layout(data: Seq<u8>, rows: nat, stride: nat, cols: nat, a: int, b: int)
    requires
        data.len() == rows * stride,
        cols <= stride,
        0 <= a < rows,
        0 <= b < rows,
        a != b,
        padding_zero(data, rows, stride, cols),
    ensures
        ({
            let wa = data.subrange(a * stride, a * stride + stride);
            let wb = data.subrange(b * stride, b * stride + stride);
            let d2 = splice(splice(data, a * stride, wb), b * stride, wa);
            &&& d2.len() == data.len()
            &&& matrix_rows(d2, rows, stride, cols) == matrix_rows(data, rows, stride, cols).update(
                a,
                matrix_rows(data, rows, stride, cols)[b],
            ).update(b, matrix_rows(data, rows, stride, cols)[a])
            &&& padding_zero(d2, rows, stride, cols)
        }),
{
    lemma_row_window(a, rows as int, stride as int);
    lemma_row_window(b, rows as int, stride as int);
    let wa = data.subrange(a * stride, a * stride + stride);
    let wb = data.subrange(b * stride, b * stride + stride);
    let d1 = splice(data, a * stride, wb);
    let d2 = splice(d1, b * stride, wa);
    lemma_splice_window(data, rows, stride, cols, a, wb);
    lemma_splice_window(d1, rows, stride, cols, b, wa);
    let v = matrix_rows(data, rows, stride, cols);
    assert(wb.subrange(0, cols as int) =~= v[b]);
    assert(wa.subrange(0, cols as int) =~= v[a]);
    assert forall|q: int, j: int| 0 <= q < rows && cols <= j < stride implies #[trigger] entry(
        d2,
        stride,
        q,
        j,
    ) == 0u8 by {
        if q == a {
            assert(wb[j] == entry(data, stride, b, j));
        } else if q == b {
            assert(wa[j] == entry(data, stride, a, j));
        }
    }
}

/// Row-major GF(2^8) matrix backed by a 64-byte aligned [`AlignedBuffer`].
///
/// Each row occupies `stride` bytes where `stride` is `cols` rounded up to
/// the next multiple of `ALIGN` (64).  Padding bytes at the end of each row
/// are always zero and are never used in arithmetic.
pub struct GfMatrix {
    rows: usize,
    cols: usize,
    /// Padded row stride (cols rounded up to a 64-byte multiple).
    stride: usize,
    /// Flat backing buffer, length = rows * stride, 64-byte aligned.
    data: AlignedBuffer,
}

impl View for GfMatrix {
    type V = Seq<Seq<u8>>;

    /// The rows, without padding.
    closed spec fn view(&self) -> Seq<Seq<u8>> {
        matrix_rows(self.data@, self.rows as nat, self.stride as nat, self.cols as nat)
    }
}

impl GfMatrix {
    /// Number of rows, as a specification value.
    pub closed spec fn height(&self) -> usize {
        self.rows
    }

    /// Number of data columns, as a specification value.
    pub closed spec fn width(&self) -> usize {
        self.cols
    }

    /// Padded row stride, as a specification value.
    pub closed spec fn pitch(&self) -> usize {
        self.stride
    }

    /// The layout invariant: the stride is the padded width, the store
    /// holds exactly `rows` strides, and every padding byte is zero.
    pub closed spec fn wf(&self) -> bool {
        &&& self.stride == stride_for(self.cols as nat)
        &&& self.data@.len() == self.rows * self.stride
        &&& self.rows * self.stride <= usize::MAX - (ALIGN - 1)
        &&& padding_zero(self.data@, self.rows as nat, self.stride as nat, self.cols as nat)
    }

    /// What a well-formed matrix looks like from outside: `height` rows of
    /// `width` bytes, and the stride is the padded width.
    pub proof fn lemma_shape(&self)
        requires
            self.wf(),
        ensures
            self@.len() == self.height(),
            rows_of_len(self@, self.width() as nat),
            self.pitch() == stride_for(self.width() as nat),
            self.width() <= self.pitch(),
    {
        assert forall|q: int| 0 <= q < self@.len() implies (#[trigger] self@[q]).len() == self.cols by {
            lemma_row_window(q, self.rows as int, self.stride as int);
        }
        assert(self.cols <= self.stride) by (nonlinear_arith)
            requires
                self.stride == ((self.cols + 63) / 64) * 64,
        ;
    }

    /// Compute the padded row stride for `cols` data columns.
    pub fn padded_stride(cols: usize) -> (r: usize)
        requires
            cols <= usize::MAX - (ALIGN - 1),
        ensures
            r == stride_for(cols as nat),
    {
        proof {
            lemma_stride_formula(cols);
        }
        (cols + (ALIGN - 1)) & !(ALIGN - 1)
    }

    /// Allocate a zero matrix of size `rows x cols` with aligned rows.
    pub fn zeros(rows: usize, cols: usize) -> (r: Self)
        requires
            cols <= usize::MAX - (ALIGN - 1),
            rows * stride_for(cols as nat) <= usize::MAX - (ALIGN - 1),
        ensures
            r.wf(),
            r.height() == rows,
            r.width() == cols,
            r@ == Seq::new(rows as nat, |q: int| Seq::new(cols as nat, |j: int| 0u8)),
    {
        let stride = Self::padded_stride(cols);
        let r = GfMatrix { rows, cols, stride, data: AlignedBuffer::zeroed(rows * stride) };
        proof {
            lemma_stride_formula(cols);
            assert forall|q: int, j: int| 0 <= q < rows && cols <= j < stride implies #[trigger] entry(
                r.data@,
                stride as nat,
                q,
                j,
            ) == 0u8 by {
                lemma_row_window(q, rows as int, stride as int);
            }
            assert forall|q: int| 0 <= q < rows implies #[trigger] r@[q] == Seq::new(
                cols as nat,
                |j: int| 0u8,
            ) by {
                lemma_row_window(q, rows as int, stride as int);
                assert(r@[q] =~= Seq::new(cols as nat, |j: int| 0u8));
            }
            assert(r@ =~= Seq::new(rows as nat, |q: int| Seq::new(cols as nat, |j: int| 0u8)));
        }
        r
    }

    /// Allocate a `k x k` identity matrix with aligned rows.
    pub fn identity(k: usize) -> (r: Self)
        requires
            k <= usize::MAX - (ALIGN - 1),
            k * stride_for(k as nat) <= usize::MAX - (ALIGN - 1),
        ensures
            r.wf(),
            r.height() == k,
            r.width() == k,
            r@ == Seq::new(k as nat, |i: int| unit(k as nat, i)),
    {
        let mut m = Self::zeros(k, k);
        let mut i: usize = 0;
        while i < k
            invariant
                i <= k,
                m.wf(),
                m.height() == k,
                m.width() == k,
                m@ == Seq::new(
                    k as nat,
                    |q: int|
                        if q < i {
                            unit(k as nat, q)
                        } else {
                            Seq::new(k as nat, |j: int| 0u8)
                        },
                ),
            decreases k - i,
        {
            let ghost before = m@;
            m.row_mut(i)[i] = 1;
            proof {
                assert(m@ =~= Seq::new(
                    k as nat,
                    |q: int|
                        if q < i + 1 {
                            unit(k as nat, q)
                        } else {
                            Seq::new(k as nat, |j: int| 0u8)
                        },
                )) by {
                    assert(m@[i as int] =~= unit(k as nat, i as int));
                }
            }
            i = i + 1;
        }
        assert(m@ =~= Seq::new(k as nat, |i: int| unit(k as nat, i)));
        m
    }

    /// Number of data columns (not including stride padding).
    pub fn rows(&self) -> (r: usize)
        ensures
            r == self.width(),
    {
        self.cols
    }

    /// Number of data rows.
    pub fn cols(&self) -> (r: usize)
        ensures
            r == self.height(),
    {
        self.rows
    }

    /// Padded row stride in bytes.
    pub fn stride(&self) -> (r: usize)
        ensures
            r == self.pitch(),
    {
        self.stride
    }

    /// Row `r` as a data slice (length = `cols`, 64-byte aligned).
    pub fn row(&self, r: usize) -> (s: &[u8])
        requires
            self.wf(),
            r < self.height() || self.width() == 0,
        ensures
            s@.len() == self.width(),
            r < self.height() ==> s@ == self@[r as int],
    {
        if r >= self.rows {
            // With no columns every row is empty, wherever it is asked for.
            return &self.data.as_slice()[0..0];
        }
        proof {
            lemma_row_window(r as int, self.rows as int, self.stride as int);
            self.lemma_shape();
        }
        let off = r * self.stride;
        &self.data.as_slice()[off..off + self.cols]
    }

    /// Mutable access to row `r` (64-byte aligned).
    pub fn row_mut(&mut self, r: usize) -> (s: &mut [u8])
        requires
            old(self).wf(),
            r < old(self).height() || old(self).width() == 0,
        ensures
            s@.len() == old(self).width(),
            r < old(self).height() ==> s@ == old(self)@[r as int],
            final(s)@.len() == old(self).width(),
            final(self).wf(),
            final(self).height() == old(self).height(),
            final(self).width() == old(self).width(),
            final(self).pitch() == old(self).pitch(),
            final(self)@ == if r < old(self).height() {
                old(self)@.update(r as int, final(s)@)
            } else {
                old(self)@
            },
    {
        if r >= self.rows {
            // With no columns the store is empty and every row is too.
            proof {
                lemma_stride_formula(self.cols);
            }
            let ghost data = self.data@;
            let s = subslice_mut(self.data.as_mut_slice(), 0, 0);
            proof {
                assert(final(s)@ =~= Seq::<u8>::empty());
                assert(data.subrange(0, 0) + final(s)@ + data.subrange(0, data.len() as int) =~= data);
            }
            return s;
        }
        proof {
            lemma_row_window(r as int, self.rows as int, self.stride as int);
            self.lemma_shape();
        }
        let off = r * self.stride;
        let cols = self.cols;
        let ghost rows = self.rows as nat;
        let ghost stride = self.stride as nat;
        let ghost data = self.data@;
        let s = subslice_mut(self.data.as_mut_slice(), off, off + cols);
        proof {
            lemma_splice_row(data, rows, stride, cols as nat, r as int, final(s)@);
        }
        s
    }

    /// `row[dst] ^= c * row[src]`.  Both rows are 64-byte aligned, so the
    /// kernel always sees aligned slices.  The rows must differ (the two
    /// views would overlap).
    pub fn row_axpy(&mut self, dst: usize, c: u8, src: usize)
        requires
            old(self).wf(),
            dst < old(self).height() && src < old(self).height() || old(self).width() == 0,
            dst != src,
        ensures
            final(self).wf(),
            final(self).height() == old(self).height(),
            final(self).width() == old(self).width(),
            final(self).pitch() == old(self).pitch(),
            final(self)@ == if dst < old(self).height() && src < old(self).height() {
                old(self)@.update(
                    dst as int,
                    axpy_spec(c, old(self)@[src as int], old(self)@[dst as int]),
                )
            } else {
                old(self)@
            },
    {
        if dst >= self.rows || src >= self.rows {
            // Only reachable without columns, where every row is empty.
            return;
        }
        let stride = self.stride;
        let cols = self.cols;
        let ghost rows = self.rows as nat;
        let ghost data = self.data@;
        proof {
            lemma_row_window(dst as int, self.rows as int, stride as int);
            lemma_row_window(src as int, self.rows as int, stride as int);
            if dst < src {
                lemma_windows_ordered(dst as int, src as int, stride as int);
            } else {
                lemma_windows_ordered(src as int, dst as int, stride as int);
            }
            self.lemma_shape();
        }
        let dst_off = dst * stride;
        let src_off = src * stride;
        let ghost src_row = data.subrange(src_off as int, src_off + cols);
        let ghost dst_row = data.subrange(dst_off as int, dst_off + cols);
        let d = self.data.as_mut_slice();
        if dst > src {
            let (lo, hi) = d.split_at_mut(dst_off);
            kernel::axpy(c, &lo[src_off..src_off + cols], subslice_mut(hi, 0, cols));
        } else {
            let (lo, hi) = d.split_at_mut(src_off);
            kernel::axpy(c, &hi[0..cols], subslice_mut(lo, dst_off, dst_off + cols));
        }
        proof {
            let new = axpy_spec(c, src_row, dst_row);
            assert(self.data@ =~= splice(data, dst_off as int, new));
            lemma_splice_row(data, rows, stride as nat, cols as nat, dst as int, new);
        }
    }

    /// Scale row `r` by `c` with [`kernel::scale_inplace`].
    pub fn row_scale(&mut self, r: usize, c: u8)
        requires
            old(self).wf(),
            r < old(self).height() || old(self).width() == 0,
        ensures
            final(self).wf(),
            final(self).height() == old(self).height(),
            final(self).width() == old(self).width(),
            final(self).pitch() == old(self).pitch(),
            final(self)@ == if r < old(self).height() {
                old(self)@.update(r as int, scale_spec(c, old(self)@[r as int]))
            } else {
                old(self)@
            },
    {
        if r >= self.rows {
            // Only reachable without columns, where every row is empty.
            return;
        }
        let stride = self.stride;
        let cols = self.cols;
        let ghost rows = self.rows as nat;
        let ghost data = self.data@;
        proof {
            lemma_row_window(r as int, self.rows as int, stride as int);
            self.lemma_shape();
        }
        let off = r * stride;
        kernel::scale_inplace(c, subslice_mut(self.data.as_mut_slice(), off, off + cols));
        proof {
            let new = scale_spec(c, data.subrange(off as int, off + cols));
            assert(self.data@ =~= splice(data, off as int, new));
            lemma_splice_row(data, rows, stride as nat, cols as nat, r as int, new);
        }
    }

    /// Swap rows `a` and `b` (padding included).
    pub fn swap_rows(&mut self, a: usize, b: usize)
        requires
            old(self).wf(),
            a == b || a < old(self).height() && b < old(self).height() || old(self).width() == 0,
        ensures
            final(self).wf(),
            final(self).height() == old(self).height(),
            final(self).width() == old(self).width(),
            final(self).pitch() == old(self).pitch(),
            final(self)@ == if a < old(self).height() && b < old(self).height() {
                old(self)@.update(a as int, old(self)@[b as int]).update(
                    b as int,
                    old(self)@[a as int],
                )
            } else {
                old(self)@
            },
    {
        if a == b {
            if a < self.rows {
                assert(self@.update(a as int, self@[b as int]).update(b as int, self@[a as int])
                    =~= self@);
            }
            return;
        }
        if a >= self.rows || b >= self.rows {
            // Only reachable without columns, where every row is empty.
            return;
        }
        let stride = self.stride;
        let ghost rows = self.rows as nat;
        let ghost cols = self.cols as nat;
        let ghost data = self.data@;
        proof {
            lemma_row_window(a as int, self.rows as int, stride as int);
            lemma_row_window(b as int, self.rows as int, stride as int);
            if a < b {
                lemma_windows_ordered(a as int, b as int, stride as int);
            } else {
                lemma_windows_ordered(b as int, a as int, stride as int);
            }
            self.lemma_shape();
        }
        let a_off = a * stride;
        let b_off = b * stride;
        let ghost wa = data.subrange(a_off as int, a_off + stride);
        let ghost wb = data.subrange(b_off as int, b_off + stride);
        let d = self.data.as_mut_slice();
        if a < b {
            let (lo, hi) = d.split_at_mut(b_off);
            swap_bytes(subslice_mut(lo, a_off, a_off + stride), subslice_mut(hi, 0, stride));
            proof {
                assert(self.data@ =~= splice(splice(data, a_off as int, wb), b_off as int, wa));
            }
        } else {
            let (lo, hi) = d.split_at_mut(a_off);
            swap_bytes(subslice_mut(lo, b_off, b_off + stride), subslice_mut(hi, 0, stride));
            proof {
                assert(self.data@ =~= splice(splice(data, a_off as int, wb), b_off as int, wa));
            }
        }
        proof {
            lemma_swap_layout(data, rows, stride as nat, cols, a as int, b as int);
        }
    }

    /// In-place Gaussian elimination to reduced row echelon form.  Returns
    /// the rank.
    ///
    /// The result has the row space of the input: row swaps, scaling by a
    /// non-zero factor and adding a multiple of another row are all
    /// invertible.
    pub fn gaussian_elimination(&mut self) -> (rank: usize)
        requires
            old(self).wf(),
        ensures
            final(self).wf(),
            final(self).height() == old(self).height(),
            final(self).width() == old(self).width(),
            final(self).pitch() == old(self).pitch(),
            rank <= old(self).height(),
            rank <= old(self).width(),
            row_equivalent(old(self)@, final(self)@),
            exists|pivots: Seq<int>| rref(final(self)@, rank as nat, pivots, old(self).width() as nat),
    {
        let rows = self.rows;
        let cols = self.cols;
        let mut pivot_row: usize = 0;
        let ghost mut pivots: Seq<int> = Seq::empty();
        proof {
            self.lemma_shape();
            lemma_reduced_start(self@, cols as nat);
            lemma_equivalent_refl(self@, cols as nat);
        }
        let mut col: usize = 0;
        while col < cols
            invariant
                self.wf(),
                self.height() == rows,
                self.width() == cols,
                self.pitch() == old(self).pitch(),
                rows == old(self).height(),
                cols == old(self).width(),
                self@.len() == rows,
                col <= cols,
                reduced_through(self@, pivot_row as nat, pivots, col as nat, cols as nat),
                row_equivalent(old(self)@, self@),
                rows_of_len(old(self)@, cols as nat),
            decreases cols - col,
        {
            let mut r: usize = pivot_row;
            while r < rows
                invariant
                    pivot_row <= r <= rows,
                    self.wf(),
                    self.height() == rows,
                    self@.len() == rows,
                    self.width() == cols,
                    col < cols,
                    rows_of_len(self@, cols as nat),
                    forall|q: int| pivot_row <= q < r ==> #[trigger] self@[q][col as int] == 0u8,
                ensures
                    r < rows ==> self@[r as int][col as int] != 0u8,
                    forall|q: int| pivot_row <= q < r ==> #[trigger] self@[q][col as int] == 0u8,
                decreases rows - r,
            {
                if self.row(r)[col] != 0 {
                    break;
                }
                r = r + 1;
            }
            if r == rows {
                proof {
                    lemma_reduced_skip(self@, pivot_row as nat, pivots, col as nat, cols as nat);
                }
                col = col + 1;
                continue;
            }
            let ghost m0 = self@;
            if r != pivot_row {
                self.swap_rows(r, pivot_row);
                proof {
                    lemma_reduced_swap(m0, pivot_row as nat, pivots, col as nat, cols as nat, r as int);
                    lemma_swap_equivalent(m0, cols as nat, r as int, pivot_row as int);
                    lemma_equivalent_step(old(self)@, m0, self@, cols as nat);
                }
            }
            let pivot_val = self.row(pivot_row)[col];
            let ghost m1 = self@;
            if pivot_val != 1 {
                let inv = exp_lookup(255 - log_lookup(pivot_val) as usize);
                proof {
                    lemma_inverse_by_log(pivot_val);
                    lemma_mul_commutative(pivot_val, inv);
                }
                self.row_scale(pivot_row, inv);
                proof {
                    lemma_reduced_scale(m1, pivot_row as nat, pivots, col as nat, cols as nat, inv);
                    lemma_scale_equivalent(m1, cols as nat, pivot_row as int, inv, pivot_val);
                    lemma_equivalent_step(old(self)@, m1, self@, cols as nat);
                }
            }
            let ghost m2 = self@;
            let ghost p = m2[pivot_row as int];
            assert(p[col as int] == 1u8);
            let mut r2: usize = 0;
            while r2 < rows
                invariant
                    r2 <= rows,
                    pivot_row < rows,
                    col < cols,
                    self.wf(),
                    self.height() == rows,
                    self.width() == cols,
                    self.pitch() == old(self).pitch(),
                    self@.len() == rows,
                    m2.len() == rows,
                    rows_of_len(m2, cols as nat),
                    rows_of_len(self@, cols as nat),
                    rows_of_len(old(self)@, cols as nat),
                    p == m2[pivot_row as int],
                    forall|q: int|
                        0 <= q < rows ==> #[trigger] self@[q] == if q < r2 && q != pivot_row {
                            axpy_spec(m2[q][col as int], p, m2[q])
                        } else {
                            m2[q]
                        },
                    row_equivalent(old(self)@, self@),
                decreases rows - r2,
            {
                if r2 != pivot_row {
                    let coeff = self.row(r2)[col];
                    let ghost before = self@;
                    if coeff != 0 {
                        self.row_axpy(r2, coeff, pivot_row);
                        proof {
                            lemma_axpy_equivalent(before, cols as nat, r2 as int, coeff, pivot_row as int);
                            lemma_equivalent_step(old(self)@, before, self@, cols as nat);
                        }
                    } else {
                        proof {
                            lemma_axpy_zero(p, m2[r2 as int]);
                        }
                    }
                    proof {
                        assert(self@[r2 as int] == axpy_spec(m2[r2 as int][col as int], p, m2[r2 as int]));
                    }
                }
                r2 = r2 + 1;
            }
            proof {
                lemma_reduced_pivot(m2, self@, pivot_row as nat, pivots, col as nat, cols as nat);
                pivots = pivots.push(col as int);
            }
            pivot_row = pivot_row + 1;
            col = col + 1;
        }
        proof {
            lemma_reduced_done(self@, pivot_row as nat, pivots, cols as nat);
        }
        pivot_row
    }

    /// True if no row is all-zero (a quick necessary check for full rank).
    pub fn is_full_rank(&self) -> (r: bool)
        requires
            self.wf(),
        ensures
            r == forall|q: int| 0 <= q < self.height() ==> !all_zero(#[trigger] self@[q]),
    {
        let rows = self.rows;
        let mut q: usize = 0;
        while q < rows
            invariant
                q <= rows,
                rows == self.height(),
                self.wf(),
                forall|p: int| 0 <= p < q ==> !all_zero(#[trigger] self@[p]),
            decreases rows - q,
        {
            if is_all_zero(self.row(q)) {
                return false;
            }
            q = q + 1;
        }
        true
    }
}

} // verus!
