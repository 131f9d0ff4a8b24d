//! Byte vectors over GF(2^8): the operations the kernels perform, stated
//! over sequences, and the linear-algebra facts the coder relies on.

use crate::field::algebra::{
    gf_mul, lemma_mul_associative, lemma_mul_commutative, lemma_mul_distributive,
    lemma_mul_identities, lemma_xor_assoc, lemma_xor_basics, lemma_xor_swap4,
};
use vstd::prelude::*;

verus! {

/// `y[i] + c * x[i]` for every index of `y`.
pub open spec fn axpy_spec(c: u8, x: Seq<u8>, y: Seq<u8>) -> Seq<u8> {
    Seq::new(y.len(), |i: int| y[i] ^ gf_mul(c, x[i]))
}

/// `c * x[i]` for every index of `x`.
pub open spec fn scale_spec(c: u8, x: Seq<u8>) -> Seq<u8> {
    Seq::new(x.len(), |i: int| gf_mul(c, x[i]))
}

/// `x[i] + y[i]` for every index of `x`.
pub open spec fn add_spec(x: Seq<u8>, y: Seq<u8>) -> Seq<u8> {
    Seq::new(x.len(), |i: int| x[i] ^ y[i])
}

/// The dot product of the first `n` entries of `a` and `b`.
pub open spec fn dot(a: Seq<u8>, b: Seq<u8>, n: nat) -> u8
    decreases n,
{
    if n == 0 {
        0u8
    } else {
        dot(a, b, (n - 1) as nat) ^ gf_mul(a[n - 1], b[n - 1])
    }
}

/// Entry `t` of every row.
pub open spec fn column(rows: Seq<Seq<u8>>, t: int) -> Seq<u8> {
    Seq::new(rows.len(), |j: int| rows[j][t])
}

/// The linear combination `sum_j coeffs[j] * rows[j]`, `len` bytes long.
pub open spec fn combination(coeffs: Seq<u8>, rows: Seq<Seq<u8>>, len: nat) -> Seq<u8> {
    Seq::new(len, |t: int| dot(coeffs, column(rows, t), coeffs.len()))
}

/// The `i`-th unit vector of length `k`.
pub open spec fn unit(k: nat, i: int) -> Seq<u8> {
    Seq::new(
        k,
        |j: int|
            if j == i {
                1u8
            } else {
                0u8
            },
    )
}

/// `v` is a combination of `rows`.
pub open spec fn in_span(v: Seq<u8>, rows: Seq<Seq<u8>>) -> bool {
    exists|f: Seq<u8>| f.len() == rows.len() && v == combination(f, rows, v.len())
}

/// `v` after adding `f[r] * rows[r]` for `r = 0, 1, ..., m - 1` in turn.
pub open spec fn reduce(v: Seq<u8>, f: Seq<u8>, rows: Seq<Seq<u8>>, m: nat) -> Seq<u8>
    decreases m,
{
    if m == 0 {
        v
    } else {
        axpy_spec(f[m - 1], rows[m - 1], reduce(v, f, rows, (m - 1) as nat))
    }
}

/// The dot product only reads the first `n` entries of its arguments.
pub proof fn lemma_dot_prefix(a: Seq<u8>, b: Seq<u8>, a2: Seq<u8>, b2: Seq<u8>, n: nat)
    requires
        forall|i: int| 0 <= i < n ==> a[i] == a2[i] && b[i] == b2[i],
    ensures
        dot(a, b, n) == dot(a2, b2, n),
    decreases n,
{
    if n > 0 {
        lemma_dot_prefix(a, b, a2, b2, (n - 1) as nat);
    }
}

/// The dot product is linear in its first argument:
/// `(v + f u) . b == v . b + f (u . b)`.
pub proof fn lemma_dot_axpy(f: u8, u: Seq<u8>, v: Seq<u8>, b: Seq<u8>, n: nat)
    requires
        n <= u.len(),
        n <= v.len(),
    ensures
        dot(axpy_spec(f, u, v), b, n) == dot(v, b, n) ^ gf_mul(f, dot(u, b, n)),
    decreases n,
{
    if n == 0 {
        lemma_mul_identities(f);
        lemma_xor_basics(0u8, 0u8);
    } else {
        let m = (n - 1) as nat;
        lemma_dot_axpy(f, u, v, b, m);
        let w = axpy_spec(f, u, v);
        let i = m as int;
        // w[i] * b[i] == v[i] * b[i] + f * (u[i] * b[i])
        lemma_mul_distributive(b[i], v[i], gf_mul(f, u[i]));
        lemma_mul_commutative(b[i], v[i]);
        lemma_mul_commutative(b[i], gf_mul(f, u[i]));
        lemma_mul_commutative(b[i], w[i]);
        lemma_mul_associative(f, u[i], b[i]);
        // f * (dot_m(u) + u[i] b[i]) == f dot_m(u) + f (u[i] b[i])
        lemma_mul_distributive(f, dot(u, b, m), gf_mul(u[i], b[i]));
        lemma_xor_swap4(
            dot(v, b, m),
            gf_mul(f, dot(u, b, m)),
            gf_mul(v[i], b[i]),
            gf_mul(f, gf_mul(u[i], b[i])),
        );
    }
}

/// Scaling the first argument scales the dot product.
pub proof fn lemma_dot_scale(f: u8, u: Seq<u8>, b: Seq<u8>, n: nat)
    requires
        n <= u.len(),
    ensures
        dot(scale_spec(f, u), b, n) == gf_mul(f, dot(u, b, n)),
    decreases n,
{
    if n == 0 {
        lemma_mul_identities(f);
    } else {
        let m = (n - 1) as nat;
        let i = m as int;
        lemma_dot_scale(f, u, b, m);
        lemma_mul_associative(f, u[i], b[i]);
        lemma_mul_distributive(f, dot(u, b, m), gf_mul(u[i], b[i]));
    }
}

/// The dot product with the `i`-th unit vector picks out entry `i`.
pub proof fn lemma_dot_unit(e: Seq<u8>, b: Seq<u8>, i: int, n: nat)
    requires
        0 <= i < n,
        n <= e.len(),
        forall|j: int| 0 <= j < n ==> e[j] == (if j == i {
            1u8
        } else {
            0u8
        }),
    ensures
        dot(e, b, n) == b[i],
    decreases n,
{
    let m = (n - 1) as nat;
    lemma_mul_identities(b[m as int]);
    if m as int == i {
        lemma_dot_zero(e, b, m);
        lemma_xor_basics(b[i], 0u8);
    } else {
        lemma_dot_unit(e, b, i, m);
        lemma_xor_basics(b[i], 0u8);
    }
}

/// The dot product with a vector whose first `n` entries are zero is zero.
pub proof fn lemma_dot_zero(e: Seq<u8>, b: Seq<u8>, n: nat)
    requires
        n <= e.len(),
        forall|j: int| 0 <= j < n ==> e[j] == 0u8,
    ensures
        dot(e, b, n) == 0u8,
    decreases n,
{
    if n > 0 {
        let m = (n - 1) as nat;
        lemma_dot_zero(e, b, m);
        lemma_mul_identities(b[m as int]);
        lemma_xor_basics(0u8, 0u8);
    }
}

/// Adding zero times a vector changes nothing.
pub proof fn lemma_axpy_zero(x: Seq<u8>, y: Seq<u8>)
    ensures
        axpy_spec(0u8, x, y) == y,
{
    assert forall|i: int| 0 <= i < y.len() implies #[trigger] axpy_spec(0u8, x, y)[i] == y[i] by {
        lemma_mul_identities(x[i]);
        lemma_xor_basics(y[i], 0u8);
    }
    assert(axpy_spec(0u8, x, y) =~= y);
}

/// Linear combinations commute with AXPY on the coefficient side.
pub proof fn lemma_combination_axpy(f: u8, u: Seq<u8>, v: Seq<u8>, rows: Seq<Seq<u8>>, n: nat)
    requires
        u.len() == rows.len(),
        v.len() == rows.len(),
    ensures
        combination(axpy_spec(f, u, v), rows, n) == axpy_spec(
            f,
            combination(u, rows, n),
            combination(v, rows, n),
        ),
{
    assert forall|t: int| 0 <= t < n implies #[trigger] combination(axpy_spec(f, u, v), rows, n)[t]
        == axpy_spec(f, combination(u, rows, n), combination(v, rows, n))[t] by {
        lemma_dot_axpy(f, u, v, column(rows, t), v.len());
    }
    assert(combination(axpy_spec(f, u, v), rows, n) =~= axpy_spec(
        f,
        combination(u, rows, n),
        combination(v, rows, n),
    ));
}

/// Linear combinations commute with scaling the coefficients.
pub proof fn lemma_combination_scale(f: u8, u: Seq<u8>, rows: Seq<Seq<u8>>, n: nat)
    requires
        u.len() == rows.len(),
    ensures
        combination(scale_spec(f, u), rows, n) == scale_spec(f, combination(u, rows, n)),
{
    assert forall|t: int| 0 <= t < n implies #[trigger] combination(scale_spec(f, u), rows, n)[t]
        == scale_spec(f, combination(u, rows, n))[t] by {
        lemma_dot_scale(f, u, column(rows, t), u.len());
    }
    assert(combination(scale_spec(f, u), rows, n) =~= scale_spec(f, combination(u, rows, n)));
}

/// The combination with the `i`-th unit vector is row `i`.
pub proof fn lemma_combination_unit(rows: Seq<Seq<u8>>, i: int, n: nat)
    requires
        0 <= i < rows.len(),
        rows[i].len() == n,
    ensures
        combination(unit(rows.len(), i), rows, n) == rows[i],
{
    assert forall|t: int| 0 <= t < n implies #[trigger] combination(unit(rows.len(), i), rows, n)[t]
        == rows[i][t] by {
        lemma_dot_unit(unit(rows.len(), i), column(rows, t), i, rows.len());
    }
    assert(combination(unit(rows.len(), i), rows, n) =~= rows[i]);
}

/// If every row `r` satisfies `prows[r] == combination(crows[r], src)`, and
/// `p == combination(c, src)`, then the same holds after reducing both sides
/// with the same factors.
pub proof fn lemma_reduce_consistent(
    c: Seq<u8>,
    p: Seq<u8>,
    f: Seq<u8>,
    crows: Seq<Seq<u8>>,
    prows: Seq<Seq<u8>>,
    src: Seq<Seq<u8>>,
    n: nat,
    m: nat,
)
    requires
        m <= f.len(),
        m <= crows.len(),
        m <= prows.len(),
        c.len() == src.len(),
        p == combination(c, src, n),
        forall|r: int| 0 <= r < m ==> (#[trigger] crows[r]).len() == src.len(),
        forall|r: int| 0 <= r < m ==> #[trigger] prows[r] == combination(crows[r], src, n),
    ensures
        reduce(c, f, crows, m).len() == src.len(),
        reduce(p, f, prows, m) == combination(reduce(c, f, crows, m), src, n),
    decreases m,
{
    if m > 0 {
        let k = (m - 1) as nat;
        lemma_reduce_consistent(c, p, f, crows, prows, src, n, k);
        lemma_combination_axpy(f[k as int], crows[k as int], reduce(c, f, crows, k), src, n);
    }
}

/// AXPY applied to a suffix equals AXPY on the whole vector when the source
/// is zero before the suffix.
pub proof fn lemma_axpy_suffix(f: u8, x: Seq<u8>, y: Seq<u8>, from: int)
    requires
        x.len() == y.len(),
        0 <= from <= y.len(),
        forall|j: int| 0 <= j < from ==> x[j] == 0u8,
    ensures
        y.subrange(0, from) + axpy_spec(f, x.subrange(from, x.len() as int), y.subrange(from, y.len() as int))
            == axpy_spec(f, x, y),
{
    assert forall|j: int| 0 <= j < from implies y[j] ^ gf_mul(f, x[j]) == y[j] by {
        lemma_mul_identities(f);
        lemma_xor_basics(y[j], 0u8);
    }
    assert(y.subrange(0, from) + axpy_spec(
        f,
        x.subrange(from, x.len() as int),
        y.subrange(from, y.len() as int),
    ) =~= axpy_spec(f, x, y));
}

/// Scaling a suffix equals scaling the whole vector when it is zero before
/// the suffix.
pub proof fn lemma_scale_suffix(f: u8, y: Seq<u8>, from: int)
    requires
        0 <= from <= y.len(),
        forall|j: int| 0 <= j < from ==> y[j] == 0u8,
    ensures
        y.subrange(0, from) + scale_spec(f, y.subrange(from, y.len() as int)) == scale_spec(f, y),
{
    assert forall|j: int| 0 <= j < from implies gf_mul(f, y[j]) == 0u8 by {
        lemma_mul_identities(f);
    }
    assert(y.subrange(0, from) + scale_spec(f, y.subrange(from, y.len() as int)) =~= scale_spec(f, y));
}

/// `reduce` reads only the first `m` factors and rows.
pub proof fn lemma_reduce_prefix(
    v: Seq<u8>,
    f: Seq<u8>,
    f2: Seq<u8>,
    rows: Seq<Seq<u8>>,
    rows2: Seq<Seq<u8>>,
    m: nat,
)
    requires
        forall|r: int| 0 <= r < m ==> f[r] == f2[r] && rows[r] == rows2[r],
    ensures
        reduce(v, f, rows, m) == reduce(v, f2, rows2, m),
    decreases m,
{
    if m > 0 {
        lemma_reduce_prefix(v, f, f2, rows, rows2, (m - 1) as nat);
    }
}

/// `reduce` adds the combination of the rows with the factors:
/// entry `t` becomes `v[t] + sum_{r < m} f[r] * rows[r][t]`.
pub proof fn lemma_reduce_entries(v: Seq<u8>, f: Seq<u8>, rows: Seq<Seq<u8>>, m: nat)
    requires
        m <= f.len(),
        m <= rows.len(),
    ensures
        reduce(v, f, rows, m).len() == v.len(),
        forall|t: int|
            0 <= t < v.len() ==> #[trigger] reduce(v, f, rows, m)[t] == v[t] ^ dot(
                f,
                column(rows, t),
                m,
            ),
    decreases m,
{
    if m == 0 {
        assert forall|t: int| 0 <= t < v.len() implies #[trigger] reduce(v, f, rows, m)[t] == v[t]
            ^ dot(f, column(rows, t), m) by {
            lemma_xor_basics(v[t], 0u8);
        }
    } else {
        let k = (m - 1) as nat;
        lemma_reduce_entries(v, f, rows, k);
        assert forall|t: int| 0 <= t < v.len() implies #[trigger] reduce(v, f, rows, m)[t] == v[t]
            ^ dot(f, column(rows, t), m) by {
            assert(column(rows, t)[k as int] == rows[k as int][t]);
            lemma_xor_assoc(v[t], dot(f, column(rows, t), k), gf_mul(f[k as int], rows[k as int][t]));
        }
    }
}

/// If reducing `v` by the rows gives zero, `v` is in the span of the rows.
pub proof fn lemma_reduce_to_zero_in_span(v: Seq<u8>, f: Seq<u8>, rows: Seq<Seq<u8>>, m: nat)
    requires
        m <= f.len(),
        m == rows.len(),
        forall|t: int| 0 <= t < v.len() ==> #[trigger] reduce(v, f, rows, m)[t] == 0u8,
    ensures
        in_span(v, rows),
{
    lemma_reduce_entries(v, f, rows, m);
    let g = f.subrange(0, m as int);
    assert forall|t: int| 0 <= t < v.len() implies v[t] == #[trigger] combination(g, rows, v.len())[t] by {
        lemma_dot_prefix(g, column(rows, t), f, column(rows, t), m);
        let d = dot(f, column(rows, t), m);
        assert(reduce(v, f, rows, m)[t] == 0u8);
        assert(reduce(v, f, rows, m)[t] == v[t] ^ d);
        assert((v[t] ^ d) ^ d == v[t] ^ (d ^ d)) by {
            lemma_xor_assoc(v[t], d, d);
        }
        lemma_xor_basics(d, v[t]);
        lemma_xor_basics(v[t], d);
        lemma_xor_basics(0u8, d);
    }
    assert(v =~= combination(g, rows, v.len()));
}


/// `g` applied to the first `j` coefficient vectors of `fs`, entry by
/// entry: `sum_{q < j} g[q] * fs[q][i]` for each of `p` entries.
pub open spec fn partial_combination(g: Seq<u8>, fs: Seq<Seq<u8>>, p: nat, j: nat) -> Seq<u8> {
    Seq::new(p, |i: int| dot(g, column(fs, i), j))
}

/// Induction step of [`lemma_combination_compose`]: the first `j` terms of
/// `sum_q g[q] * b[q]`, at byte `t`, equal the combination of `a` with the
/// first `j` terms of `sum_q g[q] * fs[q]`.
proof fn lemma_compose_prefix(
    g: Seq<u8>,
    fs: Seq<Seq<u8>>,
    a: Seq<Seq<u8>>,
    b: Seq<Seq<u8>>,
    p: nat,
    n: nat,
    t: int,
    j: nat,
)
    requires
        j <= g.len(),
        g.len() == fs.len(),
        b.len() == fs.len(),
        0 <= t < n,
        forall|q: int| 0 <= q < fs.len() ==> (#[trigger] fs[q]).len() == p,
        forall|q: int| 0 <= q < b.len() ==> #[trigger] b[q] == combination(fs[q], a, n),
    ensures
        dot(g, column(b, t), j) == dot(partial_combination(g, fs, p, j), column(a, t), p),
    decreases j,
{
    if j == 0 {
        lemma_dot_zero(partial_combination(g, fs, p, 0), column(a, t), p);
    } else {
        let m = (j - 1) as nat;
        lemma_compose_prefix(g, fs, a, b, p, n, t, m);
        let pm = partial_combination(g, fs, p, m);
        let fm = fs[m as int];
        assert(partial_combination(g, fs, p, j) =~= axpy_spec(g[m as int], fm, pm));
        assert(column(b, t)[m as int] == dot(fm, column(a, t), p));
        lemma_dot_axpy(g[m as int], fm, pm, column(a, t), p);
    }
}

/// Combinations compose: combining rows that are themselves combinations
/// of `a` (row `q` of `b` is `fs[q]` applied to `a`) is the combination of
/// `a` with the combined coefficient vectors.
pub proof fn lemma_combination_compose(
    g: Seq<u8>,
    fs: Seq<Seq<u8>>,
    a: Seq<Seq<u8>>,
    b: Seq<Seq<u8>>,
    p: nat,
    n: nat,
)
    requires
        g.len() == fs.len(),
        b.len() == fs.len(),
        forall|q: int| 0 <= q < fs.len() ==> (#[trigger] fs[q]).len() == p,
        forall|q: int| 0 <= q < b.len() ==> #[trigger] b[q] == combination(fs[q], a, n),
    ensures
        combination(g, b, n) == combination(combination(g, fs, p), a, n),
{
    let c = combination(g, fs, p);
    assert(c =~= partial_combination(g, fs, p, g.len()));
    assert forall|t: int| 0 <= t < n implies #[trigger] combination(g, b, n)[t] == combination(
        c,
        a,
        n,
    )[t] by {
        lemma_compose_prefix(g, fs, a, b, p, n, t, g.len());
    }
    assert(combination(g, b, n) =~= combination(c, a, n));
}

/// Adding the same multiple twice changes nothing: AXPY is its own
/// inverse in characteristic two.
pub proof fn lemma_axpy_involution(c: u8, x: Seq<u8>, y: Seq<u8>)
    ensures
        axpy_spec(c, x, axpy_spec(c, x, y)) == y,
{
    assert forall|i: int| 0 <= i < y.len() implies #[trigger] axpy_spec(c, x, axpy_spec(c, x, y))[i]
        == y[i] by {
        let m = gf_mul(c, x[i]);
        lemma_xor_assoc(y[i], m, m);
        lemma_xor_basics(m, m);
        lemma_xor_basics(y[i], 0u8);
    }
    assert(axpy_spec(c, x, axpy_spec(c, x, y)) =~= y);
}

/// Scaling equals AXPY into a zero vector.
pub proof fn lemma_scale_is_axpy_into_zero(c: u8, x: Seq<u8>)
    ensures
        scale_spec(c, x) == axpy_spec(c, x, Seq::new(x.len(), |i: int| 0u8)),
{
    assert forall|i: int| 0 <= i < x.len() implies #[trigger] scale_spec(c, x)[i] == axpy_spec(
        c,
        x,
        Seq::new(x.len(), |i: int| 0u8),
    )[i] by {
        lemma_xor_basics(gf_mul(c, x[i]), 0u8);
    }
    assert(scale_spec(c, x) =~= axpy_spec(c, x, Seq::new(x.len(), |i: int| 0u8)));
}

/// AXPY with factor one is XOR; scaling by one is the identity and by
/// zero gives zeros.
pub proof fn lemma_unit_factors(x: Seq<u8>, y: Seq<u8>)
    requires
        x.len() == y.len(),
    ensures
        axpy_spec(1u8, x, y) == add_spec(y, x),
        axpy_spec(0u8, x, y) == y,
        scale_spec(1u8, x) == x,
        scale_spec(0u8, x) == Seq::new(x.len(), |i: int| 0u8),
{
    assert forall|i: int| 0 <= i < x.len() implies gf_mul(1u8, #[trigger] x[i]) == x[i] && gf_mul(
        0u8,
        x[i],
    ) == 0u8 by {
        lemma_mul_identities(x[i]);
    }
    lemma_axpy_zero(x, y);
    assert(axpy_spec(1u8, x, y) =~= add_spec(y, x));
    assert(scale_spec(1u8, x) =~= x);
    assert(scale_spec(0u8, x) =~= Seq::new(x.len(), |i: int| 0u8));
}

/// The fused multi-source AXPY equals one AXPY per source, in order.
pub proof fn lemma_multi_axpy_is_sequential(y: Seq<u8>, c: Seq<u8>, rows: Seq<Seq<u8>>)
    requires
        c.len() == rows.len(),
    ensures
        add_spec(y, combination(c, rows, y.len())) == reduce(y, c, rows, c.len()),
{
    lemma_reduce_entries(y, c, rows, c.len());
    assert(add_spec(y, combination(c, rows, y.len())) =~= reduce(y, c, rows, c.len()));
}

} // verus!
