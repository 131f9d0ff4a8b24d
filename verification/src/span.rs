//! Row spaces over GF(2^8): when one list of rows spans another, the
//! row operations that keep a row space, and the facts about rows in
//! echelon form that elimination relies on.

use crate::field::algebra::{gf_mul, lemma_mul_associative, lemma_mul_identities, lemma_xor_assoc, lemma_xor_basics};
use crate::linear::{
    axpy_spec, column, combination, dot, in_span, lemma_combination_axpy, lemma_combination_compose,
    lemma_combination_scale, lemma_combination_unit, lemma_reduce_entries, lemma_reduce_prefix,
    lemma_reduce_to_zero_in_span, reduce, scale_spec, unit,
};
use vstd::prelude::*;

verus! {

/// Rows in echelon form: row `r` is zero before its pivot column
/// `pivots[r]`, one at it, and the pivot columns strictly increase.
pub open spec fn echelon(basis: Seq<Seq<u8>>, pivots: Seq<int>, k: nat) -> bool {
    &&& basis.len() == pivots.len()
    &&& forall|r: int|
        0 <= r < basis.len() ==> {
            &&& (#[trigger] basis[r]).len() == k
            &&& 0 <= pivots[r] < k
            &&& basis[r][pivots[r]] == 1u8
            &&& forall|j: int| 0 <= j < pivots[r] ==> basis[r][j] == 0u8
        }
    &&& forall|r1: int, r2: int| 0 <= r1 < r2 < pivots.len() ==> pivots[r1] < pivots[r2]
}

/// With as many strictly increasing pivots as columns, row `r` pivots on
/// column `r`.
pub proof fn lemma_full_rank_pivots(pivots: Seq<int>, k: nat)
    requires
        pivots.len() == k,
        forall|r: int| 0 <= r < k ==> 0 <= #[trigger] pivots[r] < k,
        forall|r1: int, r2: int| 0 <= r1 < r2 < k ==> pivots[r1] < pivots[r2],
    ensures
        forall|r: int| 0 <= r < k ==> #[trigger] pivots[r] == r,
{
    assert forall|r: int| 0 <= r < k implies #[trigger] pivots[r] >= r by {
        lemma_pivots_lower(pivots, k, r);
    }
    assert forall|r: int| 0 <= r < k implies #[trigger] pivots[r] <= r by {
        lemma_pivots_upper(pivots, k, r);
    }
}

proof fn lemma_pivots_lower(pivots: Seq<int>, k: nat, r: int)
    requires
        0 <= r < k,
        pivots.len() == k,
        forall|i: int| 0 <= i < k ==> 0 <= #[trigger] pivots[i] < k,
        forall|r1: int, r2: int| 0 <= r1 < r2 < k ==> pivots[r1] < pivots[r2],
    ensures
        pivots[r] >= r,
    decreases r,
{
    if r > 0 {
        lemma_pivots_lower(pivots, k, r - 1);
    }
}

proof fn lemma_pivots_upper(pivots: Seq<int>, k: nat, r: int)
    requires
        0 <= r < k,
        pivots.len() == k,
        forall|i: int| 0 <= i < k ==> 0 <= #[trigger] pivots[i] < k,
        forall|r1: int, r2: int| 0 <= r1 < r2 < k ==> pivots[r1] < pivots[r2],
    ensures
        pivots[r] <= r,
    decreases k - r,
{
    if r < k - 1 {
        lemma_pivots_upper(pivots, k, r + 1);
    }
}

/// Each row of `b` is a combination of the rows of `a`.
pub open spec fn spans(a: Seq<Seq<u8>>, b: Seq<Seq<u8>>) -> bool {
    forall|i: int| 0 <= i < b.len() ==> in_span(#[trigger] b[i], a)
}

/// `a` and `b` have the same row space.
pub open spec fn row_equivalent(a: Seq<Seq<u8>>, b: Seq<Seq<u8>>) -> bool {
    spans(a, b) && spans(b, a)
}

/// Every row has `n` bytes.
pub open spec fn rows_of_len(m: Seq<Seq<u8>>, n: nat) -> bool {
    forall|q: int| 0 <= q < m.len() ==> (#[trigger] m[q]).len() == n
}

/// Replacing row `r` by a combination of the rows keeps every row in the
/// span of the old rows.
pub proof fn lemma_spans_update(a: Seq<Seq<u8>>, n: nat, r: int, f: Seq<u8>)
    requires
        rows_of_len(a, n),
        0 <= r < a.len(),
        f.len() == a.len(),
    ensures
        spans(a, a.update(r, combination(f, a, n))),
{
    let b = a.update(r, combination(f, a, n));
    assert forall|i: int| 0 <= i < b.len() implies in_span(#[trigger] b[i], a) by {
        if i == r {
            assert(b[i] == combination(f, a, b[i].len()));
        } else {
            lemma_combination_unit(a, i, n);
            assert(b[i] == combination(unit(a.len(), i), a, b[i].len()));
        }
    }
}

/// Exchanging two rows keeps every row in the span of the old rows.
pub proof fn lemma_spans_swap(a: Seq<Seq<u8>>, n: nat, x: int, y: int)
    requires
        rows_of_len(a, n),
        0 <= x < a.len(),
        0 <= y < a.len(),
    ensures
        spans(a, a.update(x, a[y]).update(y, a[x])),
{
    let b = a.update(x, a[y]).update(y, a[x]);
    assert forall|i: int| 0 <= i < b.len() implies in_span(#[trigger] b[i], a) by {
        let j = if i == y {
            x
        } else if i == x {
            y
        } else {
            i
        };
        lemma_combination_unit(a, j, n);
        assert(b[i] == combination(unit(a.len(), j), a, b[i].len()));
    }
}

/// Spanning is transitive.
pub proof fn lemma_spans_trans(a: Seq<Seq<u8>>, b: Seq<Seq<u8>>, c: Seq<Seq<u8>>, n: nat)
    requires
        spans(a, b),
        spans(b, c),
        rows_of_len(b, n),
        rows_of_len(c, n),
    ensures
        spans(a, c),
{
    let fs = Seq::new(
        b.len(),
        |q: int| choose|f: Seq<u8>| f.len() == a.len() && b[q] == combination(f, a, n),
    );
    assert forall|q: int| 0 <= q < b.len() implies (#[trigger] fs[q]).len() == a.len() && b[q]
        == combination(fs[q], a, n) by {
        assert(in_span(b[q], a));
    }
    assert forall|i: int| 0 <= i < c.len() implies in_span(#[trigger] c[i], a) by {
        assert(in_span(c[i], b));
        let g = choose|g: Seq<u8>| g.len() == b.len() && c[i] == combination(g, b, n);
        lemma_combination_compose(g, fs, a, b, a.len(), n);
        let h = combination(g, fs, a.len());
        assert(h.len() == a.len() && c[i] == combination(h, a, c[i].len()));
    }
}

/// A step from `m` to a row-equivalent `m2` keeps the row space of `orig`.
pub proof fn lemma_equivalent_step(orig: Seq<Seq<u8>>, m: Seq<Seq<u8>>, m2: Seq<Seq<u8>>, n: nat)
    requires
        row_equivalent(orig, m),
        row_equivalent(m, m2),
        rows_of_len(orig, n),
        rows_of_len(m, n),
        rows_of_len(m2, n),
    ensures
        row_equivalent(orig, m2),
{
    lemma_spans_trans(orig, m, m2, n);
    lemma_spans_trans(m2, m, orig, n);
}

/// Exchanging two rows keeps the row space.
pub proof fn lemma_swap_equivalent(a: Seq<Seq<u8>>, n: nat, x: int, y: int)
    requires
        rows_of_len(a, n),
        0 <= x < a.len(),
        0 <= y < a.len(),
    ensures
        row_equivalent(a, a.update(x, a[y]).update(y, a[x])),
        rows_of_len(a.update(x, a[y]).update(y, a[x]), n),
{
    let b = a.update(x, a[y]).update(y, a[x]);
    lemma_spans_swap(a, n, x, y);
    assert(b.update(x, b[y]).update(y, b[x]) =~= a);
    lemma_spans_swap(b, n, x, y);
}

/// Scaling a row by an invertible factor keeps the row space.
pub proof fn lemma_scale_equivalent(a: Seq<Seq<u8>>, n: nat, r: int, c: u8, c_inv: u8)
    requires
        rows_of_len(a, n),
        0 <= r < a.len(),
        gf_mul(c_inv, c) == 1u8,
    ensures
        row_equivalent(a, a.update(r, scale_spec(c, a[r]))),
        rows_of_len(a.update(r, scale_spec(c, a[r])), n),
{
    let b = a.update(r, scale_spec(c, a[r]));
    lemma_combination_unit(a, r, n);
    lemma_combination_scale(c, unit(a.len(), r), a, n);
    lemma_spans_update(a, n, r, scale_spec(c, unit(a.len(), r)));
    assert(rows_of_len(b, n));
    assert forall|j: int| 0 <= j < n implies #[trigger] scale_spec(c_inv, b[r])[j] == a[r][j] by {
        lemma_mul_associative(c_inv, c, a[r][j]);
        lemma_mul_identities(a[r][j]);
    }
    assert(scale_spec(c_inv, b[r]) =~= a[r]);
    assert(b.update(r, scale_spec(c_inv, b[r])) =~= a);
    lemma_combination_unit(b, r, n);
    lemma_combination_scale(c_inv, unit(b.len(), r), b, n);
    lemma_spans_update(b, n, r, scale_spec(c_inv, unit(b.len(), r)));
}

/// Adding a multiple of one row to another keeps the row space.
pub proof fn lemma_axpy_equivalent(a: Seq<Seq<u8>>, n: nat, dst: int, c: u8, src: int)
    requires
        rows_of_len(a, n),
        0 <= dst < a.len(),
        0 <= src < a.len(),
        dst != src,
    ensures
        row_equivalent(a, a.update(dst, axpy_spec(c, a[src], a[dst]))),
        rows_of_len(a.update(dst, axpy_spec(c, a[src], a[dst])), n),
{
    let b = a.update(dst, axpy_spec(c, a[src], a[dst]));
    let k = a.len();
    lemma_combination_unit(a, src, n);
    lemma_combination_unit(a, dst, n);
    lemma_combination_axpy(c, unit(k, src), unit(k, dst), a, n);
    lemma_spans_update(a, n, dst, axpy_spec(c, unit(k, src), unit(k, dst)));
    assert(rows_of_len(b, n));
    assert forall|j: int| 0 <= j < n implies #[trigger] axpy_spec(c, b[src], b[dst])[j] == a[dst][j] by {
        let m = gf_mul(c, a[src][j]);
        lemma_xor_assoc(a[dst][j], m, m);
        lemma_xor_basics(m, m);
        lemma_xor_basics(a[dst][j], 0u8);
    }
    assert(axpy_spec(c, b[src], b[dst]) =~= a[dst]);
    assert(b.update(dst, axpy_spec(c, b[src], b[dst])) =~= a);
    lemma_combination_unit(b, src, n);
    lemma_combination_unit(b, dst, n);
    lemma_combination_axpy(c, unit(k, src), unit(k, dst), b, n);
    lemma_spans_update(b, n, dst, axpy_spec(c, unit(k, src), unit(k, dst)));
}

/// Every matrix has its own row space.
pub proof fn lemma_equivalent_refl(m: Seq<Seq<u8>>, n: nat)
    requires
        rows_of_len(m, n),
    ensures
        row_equivalent(m, m),
{
    assert forall|i: int| 0 <= i < m.len() implies in_span(#[trigger] m[i], m) by {
        lemma_combination_unit(m, i, n);
        assert(m[i] == combination(unit(m.len(), i), m, m[i].len()));
    }
}


/// A row lies in the span of the rows that contain it.
pub proof fn lemma_in_span_row(rows: Seq<Seq<u8>>, i: int, n: nat)
    requires
        0 <= i < rows.len(),
        rows[i].len() == n,
    ensures
        in_span(rows[i], rows),
{
    lemma_combination_unit(rows, i, n);
    assert(rows[i] == combination(unit(rows.len(), i), rows, rows[i].len()));
}

/// A span is closed under adding a multiple of one member to another.
pub proof fn lemma_in_span_axpy(c: u8, u: Seq<u8>, v: Seq<u8>, rows: Seq<Seq<u8>>)
    requires
        in_span(u, rows),
        in_span(v, rows),
        u.len() == v.len(),
    ensures
        in_span(axpy_spec(c, u, v), rows),
{
    let n = v.len();
    let fu = choose|f: Seq<u8>| f.len() == rows.len() && u == combination(f, rows, u.len());
    let fv = choose|f: Seq<u8>| f.len() == rows.len() && v == combination(f, rows, v.len());
    lemma_combination_axpy(c, fu, fv, rows, n);
    let w = axpy_spec(c, fu, fv);
    assert(w.len() == rows.len() && axpy_spec(c, u, v) == combination(
        w,
        rows,
        axpy_spec(c, u, v).len(),
    ));
}

/// A span is closed under scaling.
pub proof fn lemma_in_span_scale(c: u8, u: Seq<u8>, rows: Seq<Seq<u8>>)
    requires
        in_span(u, rows),
    ensures
        in_span(scale_spec(c, u), rows),
{
    let fu = choose|f: Seq<u8>| f.len() == rows.len() && u == combination(f, rows, u.len());
    lemma_combination_scale(c, fu, rows, u.len());
    let w = scale_spec(c, fu);
    assert(w.len() == rows.len() && scale_spec(c, u) == combination(
        w,
        rows,
        scale_spec(c, u).len(),
    ));
}

/// Adding multiples of members of a span to a member stays in the span.
pub proof fn lemma_in_span_reduce(
    v: Seq<u8>,
    f: Seq<u8>,
    b: Seq<Seq<u8>>,
    m: nat,
    rows: Seq<Seq<u8>>,
)
    requires
        in_span(v, rows),
        m <= b.len(),
        forall|i: int| 0 <= i < m ==> in_span(#[trigger] b[i], rows) && b[i].len() == v.len(),
    ensures
        in_span(reduce(v, f, b, m), rows),
        reduce(v, f, b, m).len() == v.len(),
    decreases m,
{
    if m > 0 {
        let m1 = (m - 1) as nat;
        lemma_in_span_reduce(v, f, b, m1, rows);
        lemma_in_span_axpy(f[m1 as int], b[m1 as int], reduce(v, f, b, m1), rows);
    }
}

/// Reducing twice with the same factors gives the vector back.
pub proof fn lemma_reduce_twice(v: Seq<u8>, f: Seq<u8>, b: Seq<Seq<u8>>, m: nat)
    requires
        m <= f.len(),
        m <= b.len(),
    ensures
        reduce(reduce(v, f, b, m), f, b, m) == v,
{
    let w = reduce(v, f, b, m);
    lemma_reduce_entries(v, f, b, m);
    lemma_reduce_entries(w, f, b, m);
    assert forall|t: int| 0 <= t < v.len() implies #[trigger] reduce(w, f, b, m)[t] == v[t] by {
        let d = dot(f, column(b, t), m);
        lemma_xor_assoc(v[t], d, d);
        lemma_xor_basics(d, d);
        lemma_xor_basics(v[t], 0u8);
    }
    assert(reduce(w, f, b, m) =~= v);
}

/// A vector in the span of `b`, where `a` spans `b`, is in the span of `a`.
pub proof fn lemma_in_span_trans(v: Seq<u8>, a: Seq<Seq<u8>>, b: Seq<Seq<u8>>, n: nat)
    requires
        in_span(v, b),
        spans(a, b),
        rows_of_len(b, n),
        v.len() == n,
    ensures
        in_span(v, a),
{
    let c = seq![v];
    assert(c[0] == v);
    assert(spans(b, c));
    assert(rows_of_len(c, n));
    lemma_spans_trans(a, b, c, n);
}

/// Adding a row to `a` keeps every row that `a` spans in its span.
pub proof fn lemma_spans_push(a: Seq<Seq<u8>>, b: Seq<Seq<u8>>, w: Seq<u8>, n: nat)
    requires
        spans(a, b),
        rows_of_len(a, n),
        rows_of_len(b, n),
    ensures
        spans(a.push(w), b),
{
    let a2 = a.push(w);
    assert forall|i: int| 0 <= i < a.len() implies in_span(#[trigger] a[i], a2) by {
        assert(a2[i] == a[i]);
        lemma_in_span_row(a2, i, n);
    }
    lemma_spans_trans(a2, a, b, n);
}

/// Inserting a row into `a` keeps every row that `a` spans in its span.
pub proof fn lemma_spans_insert(a: Seq<Seq<u8>>, b: Seq<Seq<u8>>, ins: int, w: Seq<u8>, n: nat)
    requires
        spans(a, b),
        0 <= ins <= a.len(),
        rows_of_len(a, n),
        rows_of_len(b, n),
    ensures
        spans(a.insert(ins, w), b),
{
    let a2 = a.insert(ins, w);
    assert forall|i: int| 0 <= i < a.len() implies in_span(#[trigger] a[i], a2) by {
        if i < ins {
            assert(a2[i] == a[i]);
            lemma_in_span_row(a2, i, n);
        } else {
            assert(a2[i + 1] == a[i]);
            lemma_in_span_row(a2, i + 1, n);
        }
    }
    lemma_spans_trans(a2, a, b, n);
}

/// The dot product vanishes when every term has a zero factor.
pub proof fn lemma_dot_terms_zero(g: Seq<u8>, b: Seq<u8>, n: nat)
    requires
        forall|i: int| 0 <= i < n ==> g[i] == 0u8 || b[i] == 0u8,
    ensures
        dot(g, b, n) == 0u8,
    decreases n,
{
    if n > 0 {
        let m = (n - 1) as nat;
        lemma_dot_terms_zero(g, b, m);
        lemma_mul_identities(g[m as int]);
        lemma_mul_identities(b[m as int]);
        lemma_xor_basics(0u8, 0u8);
    }
}

/// When every term but the `q`-th has a zero factor, the dot product is
/// that term.
pub proof fn lemma_dot_single(g: Seq<u8>, b: Seq<u8>, n: nat, q: int)
    requires
        0 <= q < n,
        forall|i: int| 0 <= i < n && i != q ==> g[i] == 0u8 || b[i] == 0u8,
    ensures
        dot(g, b, n) == gf_mul(g[q], b[q]),
    decreases n,
{
    let m = (n - 1) as nat;
    if m == q {
        lemma_dot_terms_zero(g, b, m);
        lemma_xor_basics(gf_mul(g[q], b[q]), 0u8);
    } else {
        lemma_dot_single(g, b, m, q);
        lemma_mul_identities(g[m as int]);
        lemma_mul_identities(b[m as int]);
        lemma_xor_basics(gf_mul(g[q], b[q]), 0u8);
    }
}

/// Induction step of [`lemma_echelon_span_zero`]: the first `m` weights of
/// a combination of echelon rows that vanishes on every pivot are zero.
proof fn lemma_echelon_weights_zero(
    basis: Seq<Seq<u8>>,
    pivots: Seq<int>,
    k: nat,
    g: Seq<u8>,
    v: Seq<u8>,
    m: nat,
)
    requires
        echelon(basis, pivots, k),
        g.len() == basis.len(),
        v == combination(g, basis, k),
        forall|q: int| 0 <= q < pivots.len() ==> v[#[trigger] pivots[q]] == 0u8,
        m <= basis.len(),
    ensures
        forall|q: int| 0 <= q < m ==> g[q] == 0u8,
    decreases m,
{
    if m > 0 {
        let q = m - 1;
        lemma_echelon_weights_zero(basis, pivots, k, g, v, (m - 1) as nat);
        let p = pivots[q];
        assert(basis[q].len() == k);
        let col = column(basis, p);
        assert forall|i: int| 0 <= i < basis.len() && i != q implies g[i] == 0u8 || col[i] == 0u8 by {
            if i > q {
                assert(basis[i].len() == k);
                assert(pivots[q] < pivots[i]);
                assert(col[i] == basis[i][p]);
            }
        }
        lemma_dot_single(g, col, basis.len(), q);
        lemma_mul_identities(g[q]);
        assert(v[p] == dot(g, col, g.len()));
    }
}

/// Rows in echelon form are independent: a combination of them that is
/// zero in every pivot column is zero.
pub proof fn lemma_echelon_span_zero(basis: Seq<Seq<u8>>, pivots: Seq<int>, k: nat, v: Seq<u8>)
    requires
        echelon(basis, pivots, k),
        in_span(v, basis),
        v.len() == k,
        forall|q: int| 0 <= q < pivots.len() ==> v[#[trigger] pivots[q]] == 0u8,
    ensures
        forall|t: int| 0 <= t < k ==> v[t] == 0u8,
{
    let g = choose|g: Seq<u8>| g.len() == basis.len() && v == combination(g, basis, v.len());
    lemma_echelon_weights_zero(basis, pivots, k, g, v, basis.len());
    assert forall|t: int| 0 <= t < k implies v[t] == 0u8 by {
        crate::linear::lemma_dot_zero(g, column(basis, t), g.len());
    }
}

/// The factors that clear `v` against the first `m` rows, pivot by pivot:
/// factor `r` is the entry of the partly reduced `v` in pivot column `r`.
pub open spec fn elimination_factors(v: Seq<u8>, basis: Seq<Seq<u8>>, pivots: Seq<int>, m: nat) -> Seq<
    u8,
>
    decreases m,
{
    if m == 0 {
        Seq::empty()
    } else {
        let f = elimination_factors(v, basis, pivots, (m - 1) as nat);
        f.push(reduce(v, f, basis, (m - 1) as nat)[pivots[m - 1]])
    }
}

/// Reducing `v` with its elimination factors clears every pivot column.
proof fn lemma_elimination_clears_pivots(
    v: Seq<u8>,
    basis: Seq<Seq<u8>>,
    pivots: Seq<int>,
    k: nat,
    m: nat,
)
    requires
        echelon(basis, pivots, k),
        v.len() == k,
        m <= basis.len(),
    ensures
        elimination_factors(v, basis, pivots, m).len() == m,
        reduce(v, elimination_factors(v, basis, pivots, m), basis, m).len() == k,
        forall|q: int|
            0 <= q < m ==> reduce(v, elimination_factors(v, basis, pivots, m), basis, m)[#[trigger] pivots[q]]
                == 0u8,
    decreases m,
{
    if m > 0 {
        let m1 = (m - 1) as nat;
        lemma_elimination_clears_pivots(v, basis, pivots, k, m1);
        let f = elimination_factors(v, basis, pivots, m1);
        let w = reduce(v, f, basis, m1);
        let c = w[pivots[m1 as int]];
        let f2 = elimination_factors(v, basis, pivots, m);
        assert(f2 == f.push(c));
        lemma_reduce_prefix(v, f, f2, basis, basis, m1);
        let row = basis[m1 as int];
        assert(row.len() == k);
        assert(reduce(v, f2, basis, m) == axpy_spec(c, row, w));
        assert forall|q: int| 0 <= q < m implies axpy_spec(c, row, w)[#[trigger] pivots[q]] == 0u8 by {
            assert(basis[q].len() == k);
            lemma_mul_identities(c);
            if q == m1 {
                lemma_xor_basics(c, c);
            } else {
                assert(pivots[q] < pivots[m1 as int]);
                assert(row[pivots[q]] == 0u8);
                lemma_xor_basics(0u8, 0u8);
            }
        }
    }
}

/// `k` rows in echelon form over `k` columns span every vector of length
/// `k`.
pub proof fn lemma_full_rank_spans(basis: Seq<Seq<u8>>, pivots: Seq<int>, k: nat, v: Seq<u8>)
    requires
        echelon(basis, pivots, k),
        basis.len() == k,
        v.len() == k,
    ensures
        in_span(v, basis),
{
    assert forall|r: int| 0 <= r < k implies 0 <= #[trigger] pivots[r] < k by {
        assert(basis[r].len() == k);
    }
    lemma_full_rank_pivots(pivots, k);
    lemma_elimination_clears_pivots(v, basis, pivots, k, k);
    let f = elimination_factors(v, basis, pivots, k);
    assert forall|t: int| 0 <= t < v.len() implies #[trigger] reduce(v, f, basis, k)[t] == 0u8 by {
        assert(pivots[t] == t);
    }
    lemma_reduce_to_zero_in_span(v, f, basis, k);
}

/// Adding to each row before `r` a multiple of row `r` keeps the row
/// space.
pub proof fn lemma_eliminate_equivalent(basis: Seq<Seq<u8>>, b2: Seq<Seq<u8>>, r: int, n: nat)
    requires
        rows_of_len(basis, n),
        0 <= r < basis.len(),
        b2.len() == basis.len(),
        forall|i: int|
            0 <= i < basis.len() ==> #[trigger] b2[i] == if i < r {
                axpy_spec(basis[i][r], basis[r], basis[i])
            } else {
                basis[i]
            },
    ensures
        row_equivalent(basis, b2),
        rows_of_len(b2, n),
{
    assert forall|i: int| 0 <= i < b2.len() implies (#[trigger] b2[i]).len() == n by {
        assert(basis[i].len() == n);
    }
    assert forall|i: int| 0 <= i < b2.len() implies in_span(#[trigger] b2[i], basis) by {
        lemma_in_span_row(basis, i, n);
        if i < r {
            lemma_in_span_row(basis, r, n);
            lemma_in_span_axpy(basis[i][r], basis[r], basis[i], basis);
        }
    }
    assert forall|i: int| 0 <= i < basis.len() implies in_span(#[trigger] basis[i], b2) by {
        lemma_in_span_row(b2, i, n);
        if i < r {
            let c = basis[i][r];
            assert(b2[r] == basis[r]);
            lemma_in_span_row(b2, r, n);
            lemma_in_span_axpy(c, b2[r], b2[i], b2);
            assert forall|j: int| 0 <= j < n implies #[trigger] axpy_spec(c, b2[r], b2[i])[j]
                == basis[i][j] by {
                let m = gf_mul(c, basis[r][j]);
                lemma_xor_assoc(basis[i][j], m, m);
                lemma_xor_basics(m, m);
                lemma_xor_basics(basis[i][j], 0u8);
            }
            assert(axpy_spec(c, b2[r], b2[i]) =~= basis[i]);
        }
    }
}

/// Rows in echelon form are linearly independent: only the zero weights
/// combine them to the zero vector.
pub proof fn lemma_echelon_independent(basis: Seq<Seq<u8>>, pivots: Seq<int>, k: nat, g: Seq<u8>)
    requires
        echelon(basis, pivots, k),
        g.len() == basis.len(),
        forall|t: int| 0 <= t < k ==> #[trigger] combination(g, basis, k)[t] == 0u8,
    ensures
        forall|q: int| 0 <= q < g.len() ==> g[q] == 0u8,
{
    let v = combination(g, basis, k);
    assert forall|q: int| 0 <= q < pivots.len() implies v[#[trigger] pivots[q]] == 0u8 by {
        assert(basis[q].len() == k);
    }
    lemma_echelon_weights_zero(basis, pivots, k, g, v, basis.len());
}

} // verus!
