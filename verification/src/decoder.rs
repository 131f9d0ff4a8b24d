//! RLNC Decoder: in-place pivot-based Gaussian elimination over GF(2^8).
//!
//! Coefficients and payloads are stored separately.  Incoming coefficients
//! are reduced first so dependent packets never touch their large payload,
//! while innovative packet buffers move directly into pivot storage kept in
//! column order.

use crate::aligned::AlignedBuffer;
use crate::encoder::CodedPacket;
use crate::error::RlncError;
use crate::field::algebra::{
    gf_mul, lemma_mul_associative, lemma_mul_commutative, lemma_mul_identities, lemma_xor_basics,
};
use crate::field::tables::{exp_lookup, lemma_inverse_by_log, log_lookup};
use crate::kernel;
use crate::linear::{
    axpy_spec, combination, in_span, lemma_axpy_suffix, lemma_axpy_zero, lemma_combination_axpy,
    lemma_combination_scale, lemma_combination_unit, lemma_reduce_consistent, lemma_reduce_entries,
    lemma_reduce_prefix,
    lemma_reduce_to_zero_in_span, lemma_scale_suffix, reduce, scale_spec, unit,
};
use crate::span::{
    echelon, lemma_echelon_independent, lemma_echelon_span_zero, lemma_full_rank_pivots, lemma_full_rank_spans,
    lemma_in_span_reduce, lemma_in_span_row, lemma_in_span_scale, lemma_in_span_trans,
    lemma_eliminate_equivalent, lemma_reduce_twice, lemma_spans_insert, lemma_spans_push,
    lemma_spans_trans, row_equivalent, rows_of_len, spans,
};
use crate::std_ops::{slice_elem_mut, subslice_mut, vec_swap};
use vstd::prelude::*;

verus! {

/// The source symbols `src` (k symbols of n bytes) explain the packets:
/// every payload is the combination of the source symbols weighted by the
/// packet's coefficients.
pub open spec fn explains(src: Seq<Seq<u8>>, k: nat, n: nat, packets: Seq<(Seq<u8>, Seq<u8>)>) -> bool {
    &&& src.len() == k
    &&& forall|j: int| 0 <= j < k ==> (#[trigger] src[j]).len() == n
    &&& forall|m: int|
        0 <= m < packets.len() ==> (#[trigger] packets[m]).1 == combination(packets[m].0, src, n)
}

/// Every payload row is the combination of `src` with its coefficient row.
pub open spec fn consistent_rows(
    basis: Seq<Seq<u8>>,
    payloads: Seq<Seq<u8>>,
    src: Seq<Seq<u8>>,
    n: nat,
) -> bool {
    &&& basis.len() == payloads.len()
    &&& forall|r: int|
        0 <= r < basis.len() ==> #[trigger] payloads[r] == combination(basis[r], src, n)
}

/// The contents of a list of buffers.
pub open spec fn views(rows: Seq<AlignedBuffer>) -> Seq<Seq<u8>> {
    Seq::new(rows.len(), |r: int| rows[r]@)
}

/// Swapping two adjacent entries moves an inserted element one step left.
pub proof fn lemma_insert_swap<A>(s: Seq<A>, x: A, i: int)
    requires
        0 < i <= s.len(),
    ensures
        s.insert(i, x).update(i - 1, s.insert(i, x)[i]).update(i, s.insert(i, x)[i - 1]) == s.insert(
            i - 1,
            x,
        ),
{
    assert(s.insert(i, x).update(i - 1, s.insert(i, x)[i]).update(i, s.insert(i, x)[i - 1]) =~= s.insert(
        i - 1,
        x,
    ));
}

/// The contents follow the buffers through a swap.
pub proof fn lemma_views_swap(rows: Seq<AlignedBuffer>, i: int, j: int)
    requires
        0 <= i < rows.len(),
        0 <= j < rows.len(),
    ensures
        views(rows.update(i, rows[j]).update(j, rows[i])) == views(rows).update(i, views(rows)[j]).update(
            j,
            views(rows)[i],
        ),
{
    assert(views(rows.update(i, rows[j]).update(j, rows[i])) =~= views(rows).update(
        i,
        views(rows)[j],
    ).update(j, views(rows)[i]));
}

/// The contents follow the buffers through a push.
pub proof fn lemma_views_push(rows: Seq<AlignedBuffer>, b: AlignedBuffer)
    ensures
        views(rows.push(b)) == views(rows).push(b@),
{
    assert(views(rows.push(b)) =~= views(rows).push(b@));
}

/// The first `m` recorded pivot columns (`-1` where none is recorded).
pub open spec fn pivot_prefix(cols: Seq<Option<usize>>, m: nat) -> Seq<int> {
    Seq::new(
        m,
        |r: int|
            match cols[r] {
                Some(c) => c as int,
                None => -1,
            },
    )
}

/// Every packet explained by `src` after one more arrives was explained
/// before it.
pub proof fn lemma_explains_prefix(
    src: Seq<Seq<u8>>,
    k: nat,
    n: nat,
    packets: Seq<(Seq<u8>, Seq<u8>)>,
    pkt: (Seq<u8>, Seq<u8>),
)
    requires
        explains(src, k, n, packets.push(pkt)),
    ensures
        explains(src, k, n, packets),
        pkt.1 == combination(pkt.0, src, n),
{
    assert forall|m: int| 0 <= m < packets.len() implies (#[trigger] packets[m]).1 == combination(
        packets[m].0,
        src,
        n,
    ) by {
        assert(packets.push(pkt)[m] == packets[m]);
    }
    assert(packets.push(pkt)[packets.len() as int] == pkt);
}

/// The coefficient vectors of the logged packets.
pub open spec fn coefficient_log(packets: Seq<(Seq<u8>, Seq<u8>)>) -> Seq<Seq<u8>> {
    Seq::new(packets.len(), |m: int| packets[m].0)
}

/// Logging a vector that the basis already spans keeps the log and the
/// basis spanning each other, and the vector was in the span of the log.
pub proof fn lemma_log_dependent(log: Seq<Seq<u8>>, basis: Seq<Seq<u8>>, c: Seq<u8>, k: nat)
    requires
        spans(log, basis),
        spans(basis, log),
        rows_of_len(log, k),
        rows_of_len(basis, k),
        in_span(c, basis),
        c.len() == k,
    ensures
        spans(log.push(c), basis),
        spans(basis, log.push(c)),
        rows_of_len(log.push(c), k),
        in_span(c, log),
{
    lemma_spans_push(log, basis, c, k);
    lemma_in_span_trans(c, log, basis, k);
    let log2 = log.push(c);
    assert forall|i: int| 0 <= i < log2.len() implies in_span(#[trigger] log2[i], basis) by {
        if i < log.len() {
            assert(log2[i] == log[i]);
        }
    }
    assert forall|i: int| 0 <= i < log2.len() implies (#[trigger] log2[i]).len() == k by {
        if i < log.len() {
            assert(log2[i] == log[i]);
        }
    }
}

/// Logging a vector that the basis does not span, and inserting its
/// reduced, normalised form into the basis, keeps the log and the basis
/// spanning each other; and the vector was not in the span of the log.
///
/// `f` holds the factors that reduced `c0` against the basis; the reduced
/// vector is zero in every pivot column and non-zero in column `p`.
pub proof fn lemma_log_innovative(
    log: Seq<Seq<u8>>,
    basis: Seq<Seq<u8>>,
    pivots: Seq<int>,
    k: nat,
    c0: Seq<u8>,
    f: Seq<u8>,
    rank: nat,
    p: int,
    pv: u8,
    inv: u8,
    ins: int,
    new_c: Seq<u8>,
)
    requires
        spans(log, basis),
        spans(basis, log),
        rows_of_len(log, k),
        echelon(basis, pivots, k),
        basis.len() == rank,
        c0.len() == k,
        rank <= f.len(),
        0 <= p < k,
        pv == reduce(c0, f, basis, rank)[p],
        pv != 0u8,
        forall|q: int| 0 <= q < rank ==> reduce(c0, f, basis, rank)[#[trigger] pivots[q]] == 0u8,
        gf_mul(inv, pv) == 1u8,
        new_c == scale_spec(inv, reduce(c0, f, basis, rank)),
        0 <= ins <= rank,
    ensures
        spans(log.push(c0), basis.insert(ins, new_c)),
        spans(basis.insert(ins, new_c), log.push(c0)),
        rows_of_len(log.push(c0), k),
        !in_span(c0, log),
{
    let reduced = reduce(c0, f, basis, rank);
    let log2 = log.push(c0);
    let b2 = basis.insert(ins, new_c);
    assert(rows_of_len(basis, k)) by {
        assert forall|q: int| 0 <= q < basis.len() implies (#[trigger] basis[q]).len() == k by {
            assert(basis[q].len() == k);
        }
    }
    lemma_reduce_entries(c0, f, basis, rank);
    assert(reduced.len() == k);
    assert(new_c.len() == k);
    // The vector is not in the span of the log: otherwise its reduced form
    // would be a combination of the basis that vanishes on every pivot.
    if in_span(c0, log) {
        lemma_in_span_trans(c0, basis, log, k);
        assert forall|i: int| 0 <= i < rank implies in_span(#[trigger] basis[i], basis) && basis[i].len()
            == c0.len() by {
            lemma_in_span_row(basis, i, k);
        }
        lemma_in_span_reduce(c0, f, basis, rank, basis);
        lemma_echelon_span_zero(basis, pivots, k, reduced);
        assert(false);
    }
    // The log, with the new vector, spans the new basis.
    lemma_spans_push(log, basis, c0, k);
    assert(log2[log.len() as int] == c0);
    lemma_in_span_row(log2, log.len() as int, k);
    assert forall|i: int| 0 <= i < rank implies in_span(#[trigger] basis[i], log2) && basis[i].len()
        == c0.len() by {
    }
    lemma_in_span_reduce(c0, f, basis, rank, log2);
    lemma_in_span_scale(inv, reduced, log2);
    assert forall|i: int| 0 <= i < b2.len() implies in_span(#[trigger] b2[i], log2) by {
        if i < ins {
            assert(b2[i] == basis[i]);
        } else if i > ins {
            assert(b2[i] == basis[i - 1]);
        }
    }
    // The new basis spans the log with the new vector.
    lemma_spans_insert(basis, log, ins, new_c, k);
    assert(b2[ins] == new_c);
    lemma_in_span_row(b2, ins, k);
    lemma_in_span_scale(pv, new_c, b2);
    assert forall|j: int| 0 <= j < k implies #[trigger] scale_spec(pv, new_c)[j] == reduced[j] by {
        lemma_mul_associative(pv, inv, reduced[j]);
        lemma_mul_commutative(pv, inv);
        lemma_mul_identities(reduced[j]);
    }
    assert(scale_spec(pv, new_c) =~= reduced);
    assert forall|i: int| 0 <= i < rank implies in_span(#[trigger] basis[i], b2) && basis[i].len()
        == reduced.len() by {
        if i < ins {
            assert(b2[i] == basis[i]);
            lemma_in_span_row(b2, i, k);
        } else {
            assert(b2[i + 1] == basis[i]);
            lemma_in_span_row(b2, i + 1, k);
        }
    }
    lemma_in_span_reduce(reduced, f, basis, rank, b2);
    lemma_reduce_twice(c0, f, basis, rank);
    assert forall|i: int| 0 <= i < log2.len() implies in_span(#[trigger] log2[i], b2) by {
        if i < log.len() {
            assert(log2[i] == log[i]);
        }
    }
    assert forall|i: int| 0 <= i < log2.len() implies (#[trigger] log2[i]).len() == k by {
        if i < log.len() {
            assert(log2[i] == log[i]);
        }
    }
}

/// Logging a packet that the basis already spans, with the rows unchanged,
/// keeps the invariant.
proof fn lemma_logged_dependent(before: Decoder, after: Decoder, pkt: (Seq<u8>, Seq<u8>))
    requires
        before.wf(),
        after.generation_size == before.generation_size,
        after.symbol_size == before.symbol_size,
        after.coefficient_rows == before.coefficient_rows,
        after.payload_rows == before.payload_rows,
        after.pivot_col == before.pivot_col,
        after.elimination_factors@.len() == before.elimination_factors@.len(),
        after.rank == before.rank,
        after.decoded == before.decoded,
        after.received@ == before.received@.push(pkt),
        pkt.0.len() == before.generation_size,
        in_span(pkt.0, before.basis()),
    ensures
        after.wf(),
        in_span(pkt.0, coefficient_log(before.received@)),
{
    let k = before.generation_size as nat;
    let n = before.symbol_size as nat;
    let log = coefficient_log(before.received@);
    assert(after.basis() == before.basis());
    assert(after.payloads() == before.payloads());
    assert(after.pivots() == before.pivots());
    assert(rows_of_len(before.basis(), k)) by {
        assert forall|q: int| 0 <= q < before.basis().len() implies (#[trigger] before.basis()[q]).len()
            == k by {
            assert(before.basis()[q].len() == k);
        }
    }
    lemma_log_dependent(log, before.basis(), pkt.0, k);
    assert(coefficient_log(after.received@) =~= log.push(pkt.0));
    assert forall|src: Seq<Seq<u8>>| #[trigger] explains(src, k, n, after.received@) implies consistent_rows(
        after.basis(),
        after.payloads(),
        src,
        n,
    ) by {
        lemma_explains_prefix(src, k, n, before.received@, pkt);
    }
}

/// Inserting a row whose pivot lies between its neighbours' pivots keeps
/// the echelon form.
pub proof fn lemma_echelon_insert(
    basis: Seq<Seq<u8>>,
    pivots: Seq<int>,
    k: nat,
    ins: int,
    row: Seq<u8>,
    p: int,
)
    requires
        echelon(basis, pivots, k),
        0 <= ins <= basis.len(),
        row.len() == k,
        0 <= p < k,
        row[p] == 1u8,
        forall|j: int| 0 <= j < p ==> row[j] == 0u8,
        forall|q: int| 0 <= q < ins ==> #[trigger] pivots[q] < p,
        forall|q: int| ins <= q < pivots.len() ==> #[trigger] pivots[q] > p,
    ensures
        echelon(basis.insert(ins, row), pivots.insert(ins, p), k),
{
    let b2 = basis.insert(ins, row);
    let p2 = pivots.insert(ins, p);
    assert forall|r: int| 0 <= r < b2.len() implies {
        &&& (#[trigger] b2[r]).len() == k
        &&& 0 <= p2[r] < k
        &&& b2[r][p2[r]] == 1u8
        &&& forall|j: int| 0 <= j < p2[r] ==> b2[r][j] == 0u8
    } by {
        if r < ins {
            assert(b2[r] == basis[r] && p2[r] == pivots[r]);
        } else if r == ins {
            assert(b2[r] == row && p2[r] == p);
        } else {
            assert(b2[r] == basis[r - 1] && p2[r] == pivots[r - 1]);
        }
    }
    assert forall|r1: int, r2: int| 0 <= r1 < r2 < p2.len() implies p2[r1] < p2[r2] by {
        if r2 < ins {
        } else if r2 == ins {
            assert(p2[r1] == pivots[r1]);
        } else if r1 < ins {
            assert(p2[r1] == pivots[r1]);
            assert(p2[r2] == pivots[r2 - 1]);
        } else if r1 == ins {
            assert(p2[r2] == pivots[r2 - 1]);
        } else {
            assert(p2[r1] == pivots[r1 - 1]);
            assert(p2[r2] == pivots[r2 - 1]);
        }
    }
}

/// Inserting a consistent row keeps the rows consistent.
pub proof fn lemma_consistent_insert(
    basis: Seq<Seq<u8>>,
    payloads: Seq<Seq<u8>>,
    src: Seq<Seq<u8>>,
    n: nat,
    ins: int,
    row: Seq<u8>,
    payload: Seq<u8>,
)
    requires
        consistent_rows(basis, payloads, src, n),
        0 <= ins <= basis.len(),
        payload == combination(row, src, n),
    ensures
        consistent_rows(basis.insert(ins, row), payloads.insert(ins, payload), src, n),
{
    let b2 = basis.insert(ins, row);
    let q2 = payloads.insert(ins, payload);
    assert forall|r: int| 0 <= r < b2.len() implies #[trigger] q2[r] == combination(b2[r], src, n) by {
        if r < ins {
            assert(b2[r] == basis[r] && q2[r] == payloads[r]);
        } else if r > ins {
            assert(b2[r] == basis[r - 1] && q2[r] == payloads[r - 1]);
        }
    }
}

/// The first non-zero byte of `s`, if any.
fn first_nonzero(s: &[u8]) -> (r: Option<usize>)
    ensures
        r matches Some(j) ==> j < s@.len() && s@[j as int] != 0u8 && forall|i: int|
            0 <= i < j ==> s@[i] == 0u8,
        r is None ==> forall|i: int| 0 <= i < s@.len() ==> s@[i] == 0u8,
{
    let n = s.len();
    let mut i: usize = 0;
    while i < n
        invariant
            i <= n,
            n == s@.len(),
            forall|j: int| 0 <= j < i ==> s@[j] == 0u8,
        decreases n - i,
    {
        if s[i] != 0 {
            return Some(i);
        }
        i = i + 1;
    }
    None
}

/// RLNC Decoder.
pub struct Decoder {
    generation_size: usize,
    symbol_size: usize,
    coefficient_rows: Vec<AlignedBuffer>,
    payload_rows: Vec<AlignedBuffer>,
    pivot_col: Vec<Option<usize>>,
    elimination_factors: Vec<u8>,
    rank: usize,
    decoded: bool,
    received: Ghost<Seq<(Seq<u8>, Seq<u8>)>>,
}

impl Decoder {
    /// Generation size (`k`).
    pub closed spec fn generation(&self) -> usize {
        self.generation_size
    }

    /// Symbol size in bytes (`n`).
    pub closed spec fn symbol_len(&self) -> usize {
        self.symbol_size
    }

    /// Number of innovative packets kept so far.
    pub closed spec fn current_rank(&self) -> usize {
        self.rank
    }

    /// Every packet accepted so far (coefficients, payload), in order.
    pub closed spec fn received(&self) -> Seq<(Seq<u8>, Seq<u8>)> {
        self.received@
    }

    /// The stored coefficient rows.
    pub closed spec fn basis(&self) -> Seq<Seq<u8>> {
        views(self.coefficient_rows@)
    }

    /// The stored payload rows.
    pub closed spec fn payloads(&self) -> Seq<Seq<u8>> {
        views(self.payload_rows@)
    }

    /// The pivot column of each stored row.
    pub closed spec fn pivots(&self) -> Seq<int> {
        pivot_prefix(self.pivot_col@, self.rank as nat)
    }

    /// The decoder's internal invariant.
    pub closed spec fn wf(&self) -> bool {
        let k = self.generation_size as nat;
        let n = self.symbol_size as nat;
        &&& k > 0
        &&& n > 0
        &&& self.pivot_col@.len() == k
        &&& self.elimination_factors@.len() == k
        &&& self.rank <= k
        &&& self.coefficient_rows@.len() == self.rank
        &&& self.payload_rows@.len() == self.rank
        &&& forall|r: int| 0 <= r < self.rank ==> (#[trigger] self.pivot_col@[r]) is Some
        &&& forall|r: int| self.rank <= r < k ==> (#[trigger] self.pivot_col@[r]) is None
        &&& forall|r: int| 0 <= r < self.rank ==> (#[trigger] self.payloads()[r]).len() == n
        &&& echelon(self.basis(), self.pivots(), k)
        &&& self.decoded ==> self.rank == k && forall|r: int|
            0 <= r < k ==> #[trigger] self.basis()[r] == unit(k, r)
        &&& rows_of_len(coefficient_log(self.received@), k)
        &&& spans(coefficient_log(self.received@), self.basis())
        &&& spans(self.basis(), coefficient_log(self.received@))
        &&& forall|src: Seq<Seq<u8>>|
            #[trigger] explains(src, k, n, self.received@) ==> consistent_rows(
                self.basis(),
                self.payloads(),
                src,
                n,
            )
    }

    /// The rank counts independent packets: the stored rows have the row
    /// space of the received coefficient vectors, there are `rank` of them,
    /// and they are linearly independent.
    pub proof fn lemma_rank_is_dimension(&self)
        requires
            self.wf(),
        ensures
            row_equivalent(coefficient_log(self.received()), self.basis()),
            self.basis().len() == self.current_rank(),
            forall|g: Seq<u8>|
                g.len() == self.current_rank() && (forall|t: int|
                    0 <= t < self.generation() ==> #[trigger] combination(
                        g,
                        self.basis(),
                        self.generation() as nat,
                    )[t] == 0u8) ==> forall|q: int| 0 <= q < g.len() ==> g[q] == 0u8,
    {
        let k = self.generation_size as nat;
        assert forall|g: Seq<u8>|
            g.len() == self.current_rank() && (forall|t: int|
                0 <= t < self.generation() ==> #[trigger] combination(g, self.basis(), k)[t]
                    == 0u8) implies forall|q: int| 0 <= q < g.len() ==> g[q] == 0u8 by {
            lemma_echelon_independent(self.basis(), self.pivots(), k, g);
        }
    }

    /// The rank never exceeds the generation size.
    pub proof fn lemma_rank_at_most_generation(&self)
        requires
            self.wf(),
        ensures
            self.current_rank() <= self.generation(),
            self.basis().len() == self.current_rank(),
    {
    }

    /// Create a new decoder for a generation.
    ///
    /// Fails with `InvalidParameters` exactly when a size is zero.  The
    /// per-generation bookkeeping is allocated up front with room for `k`
    /// rows.
    pub fn new(generation_size: usize, symbol_size: usize) -> (r: Result<Self, RlncError>)
        ensures
            generation_size == 0 || symbol_size == 0 ==> r == Err::<Self, RlncError>(
                RlncError::InvalidParameters,
            ),
            generation_size > 0 && symbol_size > 0 ==> (r matches Ok(d) && {
                &&& d.wf()
                &&& d.generation() == generation_size
                &&& d.symbol_len() == symbol_size
                &&& d.current_rank() == 0
                &&& d.received() == Seq::<(Seq<u8>, Seq<u8>)>::empty()
            }),
    {
        if generation_size == 0 || symbol_size == 0 {
            return Err(RlncError::InvalidParameters);
        }
        let k = generation_size;
        let coefficient_rows: Vec<AlignedBuffer> = Vec::with_capacity(k);
        let payload_rows: Vec<AlignedBuffer> = Vec::with_capacity(k);
        let mut pivot_col: Vec<Option<usize>> = Vec::with_capacity(k);
        let mut elimination_factors: Vec<u8> = Vec::with_capacity(k);
        let mut i: usize = 0;
        while i < k
            invariant
                i <= k,
                pivot_col@.len() == i,
                elimination_factors@.len() == i,
                forall|r: int| 0 <= r < i ==> (#[trigger] pivot_col@[r]) is None,
            decreases k - i,
        {
            pivot_col.push(None);
            elimination_factors.push(0);
            i = i + 1;
        }
        let d = Decoder {
            generation_size,
            symbol_size,
            coefficient_rows,
            payload_rows,
            pivot_col,
            elimination_factors,
            rank: 0,
            decoded: false,
            received: Ghost(Seq::empty()),
        };
        assert(d.basis() =~= Seq::<Seq<u8>>::empty());
        assert(d.payloads() =~= Seq::<Seq<u8>>::empty());
        assert(d.pivots() =~= Seq::<int>::empty());
        Ok(d)
    }

    /// Generation size (`k`).
    pub fn generation_size(&self) -> (r: usize)
        ensures
            r == self.generation(),
    {
        self.generation_size
    }

    /// Symbol size in bytes.
    pub fn symbol_size(&self) -> (r: usize)
        ensures
            r == self.symbol_len(),
    {
        self.symbol_size
    }

    /// Current rank (innovative packets received).
    pub fn rank(&self) -> (r: usize)
        ensures
            r == self.current_rank(),
    {
        self.rank
    }

    /// True when rank == `generation_size`.
    pub fn is_complete(&self) -> (r: bool)
        ensures
            r == (self.current_rank() == self.generation()),
    {
        self.rank == self.generation_size
    }

    /// The stored coefficient rows, one per innovative packet, in pivot
    /// column order.
    pub fn coefficient_rows(&self) -> (r: &[AlignedBuffer])
        ensures
            views(r@) == self.basis(),
    {
        self.coefficient_rows.as_slice()
    }

    /// The stored payload rows, matching [`Decoder::coefficient_rows`].
    pub fn payload_rows(&self) -> (r: &[AlignedBuffer])
        ensures
            views(r@) == self.payloads(),
    {
        self.payload_rows.as_slice()
    }

    /// Receive a coded packet.
    ///
    /// Returns `true` if the packet was innovative (increased the rank).
    /// A packet whose coefficient vector is a combination of the rows kept
    /// so far is rejected after coefficient-only reduction, without
    /// payload-sized arithmetic.
    pub fn receive(&mut self, pkt: CodedPacket) -> (r: Result<bool, RlncError>)
        requires
            old(self).wf(),
        ensures
            final(self).wf(),
            final(self).generation() == old(self).generation(),
            final(self).symbol_len() == old(self).symbol_len(),
            r != Ok::<bool, RlncError>(true) ==> {
                &&& final(self).basis() == old(self).basis()
                &&& final(self).payloads() == old(self).payloads()
                &&& final(self).pivots() == old(self).pivots()
            },
            pkt.coefficients@.len() != old(self).generation() || pkt.payload@.len()
                != old(self).symbol_len() ==> {
                &&& r == Err::<bool, RlncError>(
                    RlncError::PacketSizeMismatch {
                        expected_coeffs: old(self).generation(),
                        got_coeffs: pkt.coefficients@.len() as usize,
                        expected_payload: old(self).symbol_len(),
                        got_payload: pkt.payload@.len() as usize,
                    },
                )
                &&& final(self).received() == old(self).received()
                &&& final(self).current_rank() == old(self).current_rank()
            },
            pkt.coefficients@.len() == old(self).generation() && pkt.payload@.len()
                == old(self).symbol_len() ==> {
                &&& final(self).received() == old(self).received().push(
                    (pkt.coefficients@, pkt.payload@),
                )
                &&& old(self).current_rank() == old(self).generation() ==> r == Ok::<
                    bool,
                    RlncError,
                >(false) && final(self).current_rank() == old(self).current_rank()
                &&& old(self).current_rank() < old(self).generation() ==> (r == Ok::<bool, RlncError>(
                    true,
                ) && final(self).current_rank() == old(self).current_rank() + 1) || (r == Ok::<
                    bool,
                    RlncError,
                >(false) && final(self).current_rank() == old(self).current_rank() && in_span(
                    pkt.coefficients@,
                    old(self).basis(),
                ))
            &&& (r == Ok::<bool, RlncError>(true) <==> !in_span(
                    pkt.coefficients@,
                    coefficient_log(old(self).received()),
                ))
            },
    {
        let k = self.generation_size;
        let n = self.symbol_size;
        if pkt.coefficients.len() != k || pkt.payload.len() != n {
            return Err(
                RlncError::PacketSizeMismatch {
                    expected_coeffs: k,
                    got_coeffs: pkt.coefficients.len(),
                    expected_payload: n,
                    got_payload: pkt.payload.len(),
                },
            );
        }
        let ghost old_log = self.received@;
        let ghost pkt_view = (pkt.coefficients@, pkt.payload@);
        let ghost basis = self.basis();
        let ghost payloads = self.payloads();
        let ghost pivots = self.pivots();
        proof {
            assert(coefficient_log(old_log.push(pkt_view)) =~= coefficient_log(old_log).push(
                pkt_view.0,
            ));
        }
        if self.rank == k {
            let ghost before: Decoder = *self;
            proof {
                lemma_full_rank_spans(basis, pivots, k as nat, pkt_view.0);
            }
            self.received = Ghost(old_log.push(pkt_view));
            proof {
                lemma_logged_dependent(before, *self, pkt_view);
            }
            return Ok(false);
        }
        let CodedPacket { coefficients: mut coefficients, payload: mut payload } = pkt;
        let ghost c0 = coefficients@;
        let ghost p0 = payload@;
        let rank = self.rank;

        // Reduce the small coefficient vector first and record the operations.
        // A dependent packet can then be rejected without touching its payload.
        let mut r: usize = 0;
        while r < rank
            invariant
                self.wf(),
                self.generation_size == k,
                self.symbol_size == n,
                self.rank == rank,
                rank < k,
                r <= rank,
                self.basis() == basis,
                self.payloads() == payloads,
                self.pivots() == pivots,
                self.received@ == old_log,
                c0 == pkt_view.0,
                p0 == pkt_view.1,
                c0.len() == k,
                p0.len() == n,
                payload@ == p0,
                coefficients@.len() == k,
                coefficients@ == reduce(c0, self.elimination_factors@, basis, r as nat),
                forall|q: int| 0 <= q < r ==> coefficients@[#[trigger] pivots[q]] == 0u8,
            decreases rank - r,
        {
            let col = match self.pivot_col[r] {
                Some(c) => c,
                None => {
                    r = r + 1;
                    continue ;
                },
            };
            assert(col as int == pivots[r as int]);
            assert(basis[r as int].len() == k);
            assert(0 <= pivots[r as int] < k);
            let coeff = coefficients.as_slice()[col];
            let ghost factors_before = self.elimination_factors@;
            self.elimination_factors.set(r, coeff);
            let ghost before = coefficients@;
            proof {
                lemma_reduce_prefix(
                    c0,
                    factors_before,
                    self.elimination_factors@,
                    basis,
                    basis,
                    r as nat,
                );
                assert(basis[r as int] == self.coefficient_rows@[r as int]@);
            }
            if coeff != 0 {
                let row = self.coefficient_rows[r].as_slice();
                let source = &row[col..k];
                kernel::axpy_unchecked(coeff, source, subslice_mut(coefficients.as_mut_slice(), col, k));
                proof {
                    lemma_axpy_suffix(coeff, basis[r as int], before, col as int);
                    assert(coefficients@ =~= axpy_spec(coeff, basis[r as int], before));
                }
            } else {
                proof {
                    lemma_axpy_zero(basis[r as int], before);
                }
            }
            proof {
                assert(coefficients@ == axpy_spec(coeff, basis[r as int], before));
                assert forall|q: int| 0 <= q <= r implies coefficients@[#[trigger] pivots[q]] == 0u8 by {
                    let pq = pivots[q];
                    if q < r {
                        assert(basis[r as int][pq] == 0u8);
                        lemma_mul_identities(coeff);
                        crate::field::algebra::lemma_xor_basics(before[pq], 0u8);
                    } else {
                        lemma_mul_identities(coeff);
                        crate::field::algebra::lemma_xor_basics(coeff, coeff);
                    }
                }
            }
            r = r + 1;
        }
        let ghost factors = self.elimination_factors@;

        let new_pivot = first_nonzero(coefficients.as_slice());
        let pivot_col = match new_pivot {
            None => {
                let ghost before: Decoder = *self;
                proof {
                    lemma_reduce_to_zero_in_span(c0, factors, basis, rank as nat);
                }
                self.received = Ghost(old_log.push(pkt_view));
                proof {
                    lemma_logged_dependent(before, *self, pkt_view);
                }
                return Ok(false);
            },
            Some(p) => p,
        };

        let mut r: usize = 0;
        while r < rank
            invariant
                self.wf(),
                self.generation_size == k,
                self.symbol_size == n,
                self.rank == rank,
                r <= rank,
                self.basis() == basis,
                self.payloads() == payloads,
                self.elimination_factors@ == factors,
                self.received@ == old_log,
                payload@.len() == n,
                payload@ == reduce(p0, factors, payloads, r as nat),
            decreases rank - r,
        {
            let coeff = self.elimination_factors[r];
            let ghost before = payload@;
            proof {
                assert(payloads[r as int] == self.payload_rows@[r as int]@);
            }
            if coeff != 0 {
                kernel::axpy_unchecked(coeff, self.payload_rows[r].as_slice(), payload.as_mut_slice());
            } else {
                proof {
                    lemma_axpy_zero(payloads[r as int], before);
                }
            }
            r = r + 1;
        }

        let pivot_val = coefficients.as_slice()[pivot_col];
        let ghost reduced_c = coefficients@;
        proof {
            assert(reduced_c == reduce(c0, factors, basis, rank as nat));
            assert(forall|q: int| 0 <= q < rank ==> reduced_c[#[trigger] pivots[q]] == 0u8);
        }
        let ghost reduced_p = payload@;
        let ghost inv_val: u8 = 1u8;
        if pivot_val != 1 {
            let inv = exp_lookup(255 - log_lookup(pivot_val) as usize);
            proof {
                lemma_inverse_by_log(pivot_val);
                inv_val = inv;
            }
            kernel::scale_inplace(inv, subslice_mut(coefficients.as_mut_slice(), pivot_col, k));
            kernel::scale_inplace(inv, payload.as_mut_slice());
            proof {
                lemma_scale_suffix(inv, reduced_c, pivot_col as int);
            }
        }
        proof {
            if pivot_val == 1 {
                assert forall|j: int| 0 <= j < k implies #[trigger] reduced_c[j] == gf_mul(1u8, reduced_c[j]) by {
                    lemma_mul_identities(reduced_c[j]);
                }
                assert forall|j: int| 0 <= j < n implies #[trigger] reduced_p[j] == gf_mul(1u8, reduced_p[j]) by {
                    lemma_mul_identities(reduced_p[j]);
                }
                assert(reduced_c =~= scale_spec(1u8, reduced_c));
                assert(reduced_p =~= scale_spec(1u8, reduced_p));
            } else {
                lemma_mul_commutative(pivot_val, inv_val);
            }
            assert(coefficients@ == scale_spec(inv_val, reduced_c));
            assert(payload@ == scale_spec(inv_val, reduced_p));
            assert(gf_mul(inv_val, pivot_val) == 1u8);
            assert forall|j: int| 0 <= j < pivot_col implies coefficients@[j] == 0u8 by {
                lemma_mul_identities(inv_val);
            }
            assert forall|q: int| 0 <= q < rank implies coefficients@[#[trigger] pivots[q]] == 0u8 by {
                lemma_mul_identities(inv_val);
            }
        }

        // Keep pivot rows ordered by pivot column.
        let mut insert_at: usize = rank;
        let mut i: usize = 0;
        while i < rank
            invariant_except_break
                i <= rank,
                insert_at == rank,
                forall|q: int| 0 <= q < i ==> #[trigger] pivots[q] < pivot_col,
            invariant
                self.wf(),
                self.rank == rank,
                self.pivots() == pivots,
                self.received@ == old_log,
                forall|q: int| 0 <= q < rank ==> coefficients@[#[trigger] pivots[q]] == 0u8,
                coefficients@[pivot_col as int] != 0u8,
            ensures
                insert_at <= rank,
                forall|q: int| 0 <= q < insert_at ==> #[trigger] pivots[q] < pivot_col,
                forall|q: int| insert_at <= q < rank ==> #[trigger] pivots[q] > pivot_col,
            decreases rank - i,
        {
            match self.pivot_col[i] {
                Some(c) => {
                    if c > pivot_col {
                        insert_at = i;
                        proof {
                            assert(pivots[i as int] == c);
                        }
                        break;
                    }
                    assert(pivots[i as int] == c);
                    assert(c != pivot_col);
                },
                None => {},
            }
            i = i + 1;
        }

        let ghost new_c = coefficients@;
        let ghost new_p = payload@;
        let ghost crows = self.coefficient_rows@;
        let ghost prows = self.payload_rows@;
        self.coefficient_rows.push(coefficients);
        self.payload_rows.push(payload);
        self.pivot_col.set(rank, Some(pivot_col));
        let mut i: usize = rank;
        proof {
            lemma_views_push(crows, self.coefficient_rows@[rank as int]);
            lemma_views_push(prows, self.payload_rows@[rank as int]);
            assert(basis.push(new_c) =~= basis.insert(rank as int, new_c));
            assert(payloads.push(new_p) =~= payloads.insert(rank as int, new_p));
            assert(pivot_prefix(self.pivot_col@, (rank + 1) as nat) =~= pivots.insert(
                rank as int,
                pivot_col as int,
            ));
        }
        while i > insert_at
            invariant
                insert_at <= i <= rank,
                rank < k,
                basis.len() == rank,
                payloads.len() == rank,
                pivots.len() == rank,
                self.generation_size == k,
                self.symbol_size == n,
                self.rank == rank,
                self.received@ == old_log,
                self.elimination_factors@.len() == k,
                self.pivot_col@.len() == k,
                self.coefficient_rows@.len() == rank + 1,
                self.payload_rows@.len() == rank + 1,
                views(self.coefficient_rows@) == basis.insert(i as int, new_c),
                views(self.payload_rows@) == payloads.insert(i as int, new_p),
                pivot_prefix(self.pivot_col@, (rank + 1) as nat) == pivots.insert(
                    i as int,
                    pivot_col as int,
                ),
                forall|q: int| 0 <= q <= rank ==> (#[trigger] self.pivot_col@[q]) is Some,
                forall|q: int| rank < q < k ==> (#[trigger] self.pivot_col@[q]) is None,
            decreases i,
        {
            let ghost crows = self.coefficient_rows@;
            let ghost prows = self.payload_rows@;
            let ghost cols = self.pivot_col@;
            vec_swap(&mut self.coefficient_rows, i - 1, i);
            vec_swap(&mut self.payload_rows, i - 1, i);
            vec_swap(&mut self.pivot_col, i - 1, i);
            proof {
                lemma_views_swap(crows, i - 1, i as int);
                lemma_views_swap(prows, i - 1, i as int);
                lemma_insert_swap(basis, new_c, i as int);
                lemma_insert_swap(payloads, new_p, i as int);
                let pp = pivot_prefix(cols, (rank + 1) as nat);
                assert(pivot_prefix(self.pivot_col@, (rank + 1) as nat) =~= pp.update(i - 1, pp[i as int]).update(
                    i as int,
                    pp[i - 1],
                ));
                lemma_insert_swap(pivots, pivot_col as int, i as int);
            }
            i = i - 1;
        }
        self.rank = rank + 1;
        self.decoded = false;
        self.received = Ghost(old_log.push(pkt_view));
        proof {
            lemma_log_innovative(
                coefficient_log(old_log),
                basis,
                pivots,
                k as nat,
                c0,
                factors,
                rank as nat,
                pivot_col as int,
                pivot_val,
                inv_val,
                insert_at as int,
                new_c,
            );
            assert(self.basis() == basis.insert(insert_at as int, new_c));
            assert(self.payloads() == payloads.insert(insert_at as int, new_p));
            assert(self.pivots() == pivots.insert(insert_at as int, pivot_col as int));
            lemma_echelon_insert(basis, pivots, k as nat, insert_at as int, new_c, pivot_col as int);
            assert forall|src: Seq<Seq<u8>>| #[trigger]
                explains(src, k as nat, n as nat, self.received@) implies consistent_rows(
                self.basis(),
                self.payloads(),
                src,
                n as nat,
            ) by {
                lemma_explains_prefix(src, k as nat, n as nat, old_log, pkt_view);
                assert forall|q: int| 0 <= q < rank implies (#[trigger] basis[q]).len() == src.len() by {}
                lemma_reduce_consistent(c0, p0, factors, basis, payloads, src, n as nat, rank as nat);
                lemma_combination_scale(inv_val, reduced_c, src, n as nat);
                lemma_consistent_insert(basis, payloads, src, n as nat, insert_at as int, new_c, new_p);
            }
            assert forall|q: int| 0 <= q < self.rank implies (#[trigger] self.payloads()[q]).len() == n by {
                if q < insert_at {
                    assert(self.payloads()[q] == payloads[q]);
                } else if q > insert_at {
                    assert(self.payloads()[q] == payloads[q - 1]);
                }
            }
        }
        Ok(true)
    }

    /// Attempt to decode.  Returns `Some(symbols)` when rank equals the
    /// generation size, `None` before that.
    ///
    /// Back-substitution clears every entry above each pivot, leaving the
    /// identity in the coefficient rows; the payload rows are then the
    /// source symbols.
    pub fn decode(&mut self) -> (r: Result<Option<Vec<Vec<u8>>>, RlncError>)
        requires
            old(self).wf(),
        ensures
            final(self).wf(),
            final(self).generation() == old(self).generation(),
            final(self).symbol_len() == old(self).symbol_len(),
            final(self).current_rank() == old(self).current_rank(),
            final(self).received() == old(self).received(),
            old(self).current_rank() < old(self).generation() ==> r == Ok::<
                Option<Vec<Vec<u8>>>,
                RlncError,
            >(None),
            old(self).current_rank() == old(self).generation() ==> (r matches Ok(Some(out)) && {
                &&& out@.len() == old(self).generation()
                &&& forall|i: int|
                    0 <= i < out@.len() ==> (#[trigger] out@[i])@ == final(self).payloads()[i]
                &&& forall|i: int|
                    0 <= i < out@.len() ==> #[trigger] final(self).basis()[i] == unit(
                        old(self).generation() as nat,
                        i,
                    )
                &&& forall|src: Seq<Seq<u8>>|
                    #[trigger] explains(
                        src,
                        old(self).generation() as nat,
                        old(self).symbol_len() as nat,
                        old(self).received(),
                    ) ==> forall|i: int| 0 <= i < out@.len() ==> (#[trigger] out@[i])@ == src[i]
                &&& forall|src: Seq<Seq<u8>>|
                    src.len() == old(self).generation() && rows_of_len(
                        src,
                        old(self).symbol_len() as nat,
                    ) && #[trigger] consistent_rows(
                        old(self).basis(),
                        old(self).payloads(),
                        src,
                        old(self).symbol_len() as nat,
                    ) ==> forall|i: int| 0 <= i < out@.len() ==> (#[trigger] out@[i])@ == src[i]
            }),
    {
        if !self.is_complete() {
            return Ok(None);
        }
        if self.decoded {
            let out = self.extract_symbols();
            proof {
                self.lemma_decoded_rows_are_source();
            }
            return Ok(Some(out));
        }
        let k = self.generation_size;
        let ghost n = self.symbol_size as nat;
        proof {
            assert forall|q: int| 0 <= q < k implies 0 <= #[trigger] self.pivots()[q] < k by {
                assert(self.basis()[q].len() == k);
            }
            lemma_full_rank_pivots(self.pivots(), k as nat);
        }

        // Back-substitution, bottom row first: once rows `t..k` are unit
        // vectors, row `t - 1` is one too and clears its column above it.
        let mut t: usize = k;
        while t > 0
            invariant
                self.wf(),
                self.generation_size == k,
                self.rank == k,
                self.received@ == old(self).received@,
                self.symbol_size == old(self).symbol_size,
                n == self.symbol_size as nat,
                !self.decoded,
                t <= k,
                forall|r: int| 0 <= r < k ==> #[trigger] self.pivots()[r] == r,
                forall|i: int, j: int|
                    0 <= i < k && t <= j < k && j != i ==> #[trigger] self.basis()[i][j] == 0u8,
                forall|src: Seq<Seq<u8>>|
                    src.len() == k && rows_of_len(src, n) && #[trigger] consistent_rows(
                        old(self).basis(),
                        old(self).payloads(),
                        src,
                        n,
                    ) ==> consistent_rows(self.basis(), self.payloads(), src, n),
            decreases t,
        {
            let r = t - 1;
            let col = match self.pivot_col[r] {
                Some(c) => c,
                None => {
                    t = r;
                    continue;
                },
            };
            let ghost basis = self.basis();
            let ghost payloads = self.payloads();
            proof {
                assert(self.pivots()[r as int] == col as int);
                assert(col == r);
                assert forall|q: int| 0 <= q < k implies (#[trigger] basis[q]).len() == k by {
                    assert(basis[q].len() == k);
                }
                assert forall|q: int| 0 <= q < k implies (#[trigger] payloads[q]).len() == n by {
                    assert(self.payloads()[q].len() == n);
                }
                assert(basis[r as int] == unit(k as nat, r as int)) by {
                    assert(basis[r as int] =~= unit(k as nat, r as int));
                }
            }
            {
                let (c_above, c_rest) = self.coefficient_rows.as_mut_slice().split_at_mut(r);
                let (p_above, p_rest) = self.payload_rows.as_mut_slice().split_at_mut(r);
                proof {
                    assert forall|i: int| 0 <= i < c_above@.len() implies (#[trigger] c_above@[i])@.len()
                        == k by {
                        assert(c_above@[i]@ == basis[i]);
                    }
                    assert forall|i: int| 0 <= i < p_above@.len() implies (#[trigger] p_above@[i])@.len()
                        == n by {
                        assert(p_above@[i]@ == payloads[i]);
                    }
                    assert(c_rest@[0]@ == basis[r as int]);
                    assert(p_rest@[0]@ == payloads[r as int]);
                }
                eliminate_column(c_above, p_above, c_rest[0].as_slice(), p_rest[0].as_slice(), col);
            }
            proof {
                let b2 = self.basis();
                let p2 = self.payloads();
                assert forall|i: int| #![trigger b2[i]] #![trigger p2[i]] 0 <= i < k implies {
                    &&& b2[i] == if i < r {
                        axpy_spec(basis[i][r as int], basis[r as int], basis[i])
                    } else {
                        basis[i]
                    }
                    &&& p2[i] == if i < r {
                        axpy_spec(basis[i][r as int], payloads[r as int], payloads[i])
                    } else {
                        payloads[i]
                    }
                } by {
                    assert(b2[i] == self.coefficient_rows@[i]@);
                    assert(p2[i] == self.payload_rows@[i]@);
                }
                assert forall|i: int, j: int| 0 <= i < r && 0 <= j < k implies #[trigger] b2[i][j] == if j == r {
                        0u8
                    } else {
                        basis[i][j]
                    } by {
                    lemma_axpy_unit_clears(basis[i], k as nat, r as int);
                }
                assert(echelon(b2, self.pivots(), k as nat));
                assert forall|src: Seq<Seq<u8>>| #[trigger]
                    explains(src, k as nat, n, self.received@) implies consistent_rows(
                    b2,
                    p2,
                    src,
                    n,
                ) by {
                    lemma_consistent_eliminate(basis, payloads, b2, p2, src, n, r as int);
                }
                assert forall|src: Seq<Seq<u8>>|
                    src.len() == k && rows_of_len(src, n) && #[trigger] consistent_rows(
                        old(self).basis(),
                        old(self).payloads(),
                        src,
                        n,
                    ) implies consistent_rows(b2, p2, src, n) by {
                    lemma_consistent_eliminate(basis, payloads, b2, p2, src, n, r as int);
                }
                let log = coefficient_log(self.received@);
                assert(rows_of_len(basis, k as nat));
                lemma_eliminate_equivalent(basis, b2, r as int, k as nat);
                lemma_spans_trans(log, basis, b2, k as nat);
                lemma_spans_trans(b2, basis, log, k as nat);
            }
            t = r;
        }
        proof {
            assert forall|i: int| 0 <= i < k implies #[trigger] self.basis()[i] == unit(k as nat, i) by {
                assert(self.pivots()[i] == i);
                assert(self.basis()[i] =~= unit(k as nat, i));
            }
        }
        let ghost pre_payloads = self.payloads();
        let ghost pre_basis = self.basis();
        self.decoded = true;
        proof {
            assert(self.payloads() == pre_payloads);
            assert(self.basis() == pre_basis);
            assert(self.wf());
        }
        let out = self.extract_symbols();
        proof {
            self.lemma_decoded_rows_are_source();
        }
        Ok(Some(out))
    }

    /// Copies of the payload rows.
    fn extract_symbols(&self) -> (r: Vec<Vec<u8>>)
        ensures
            r@.len() == self.payload_rows@.len(),
            forall|i: int| 0 <= i < r@.len() ==> (#[trigger] r@[i])@ == self.payloads()[i],
    {
        let mut out: Vec<Vec<u8>> = Vec::new();
        let m = self.payload_rows.len();
        let mut i: usize = 0;
        while i < m
            invariant
                i <= m,
                m == self.payload_rows@.len(),
                out@.len() == i,
                forall|j: int| 0 <= j < i ==> (#[trigger] out@[j])@ == self.payloads()[j],
            decreases m - i,
        {
            out.push(self.payload_rows[i].to_vec());
            i = i + 1;
        }
        out
    }

    /// Once the coefficient rows are the identity, every source that
    /// explains the received packets is the payload rows.
    proof fn lemma_decoded_rows_are_source(&self)
        requires
            self.wf(),
            self.decoded,
        ensures
            forall|src: Seq<Seq<u8>>|
                #[trigger] explains(src, self.generation_size as nat, self.symbol_size as nat, self.received@)
                    ==> forall|i: int| 0 <= i < self.generation_size ==> self.payloads()[i] == src[i],
            forall|src: Seq<Seq<u8>>|
                src.len() == self.generation_size && rows_of_len(src, self.symbol_size as nat)
                    && #[trigger] consistent_rows(
                    self.basis(),
                    self.payloads(),
                    src,
                    self.symbol_size as nat,
                ) ==> forall|i: int| 0 <= i < self.generation_size ==> self.payloads()[i] == src[i],
    {
        let k = self.generation_size as nat;
        let n = self.symbol_size as nat;
        assert forall|src: Seq<Seq<u8>>|
            #[trigger] explains(src, k, n, self.received@) implies forall|i: int|
                0 <= i < k ==> self.payloads()[i] == src[i] by {
            assert forall|i: int| 0 <= i < k implies self.payloads()[i] == src[i] by {
                assert(self.basis()[i] == unit(k, i));
                lemma_combination_unit(src, i, n);
            }
        }
        assert forall|src: Seq<Seq<u8>>|
            src.len() == k && rows_of_len(src, n) && #[trigger] consistent_rows(
                self.basis(),
                self.payloads(),
                src,
                n,
            ) implies forall|i: int| 0 <= i < k ==> self.payloads()[i] == src[i] by {
            assert forall|i: int| 0 <= i < k implies self.payloads()[i] == src[i] by {
                assert(self.basis()[i] == unit(k, i));
                lemma_combination_unit(src, i, n);
            }
        }
    }
}

/// Adding `v[r]` times the `r`-th unit vector to `v` clears entry `r` and
/// leaves the others.
pub proof fn lemma_axpy_unit_clears(v: Seq<u8>, k: nat, r: int)
    requires
        v.len() == k,
        0 <= r < k,
    ensures
        axpy_spec(v[r], unit(k, r), v).len() == k,
        forall|j: int|
            0 <= j < k ==> #[trigger] axpy_spec(v[r], unit(k, r), v)[j] == if j == r {
                0u8
            } else {
                v[j]
            },
{
    assert forall|j: int| 0 <= j < k implies #[trigger] axpy_spec(v[r], unit(k, r), v)[j] == if j
        == r {
        0u8
    } else {
        v[j]
    } by {
        lemma_mul_identities(v[r]);
        lemma_xor_basics(v[j], 0u8);
        lemma_xor_basics(v[r], v[r]);
    }
}

/// Adding to each row before `r` a multiple of row `r`, and the same
/// multiple of payload `r` to its payload, keeps the rows consistent.
pub proof fn lemma_consistent_eliminate(
    basis: Seq<Seq<u8>>,
    payloads: Seq<Seq<u8>>,
    basis2: Seq<Seq<u8>>,
    payloads2: Seq<Seq<u8>>,
    src: Seq<Seq<u8>>,
    n: nat,
    r: int,
)
    requires
        consistent_rows(basis, payloads, src, n),
        0 <= r < basis.len(),
        forall|q: int| 0 <= q < basis.len() ==> (#[trigger] basis[q]).len() == src.len(),
        basis2.len() == basis.len(),
        payloads2.len() == payloads.len(),
        forall|i: int|
            0 <= i < basis.len() ==> {
                &&& #[trigger] basis2[i] == if i < r {
                    axpy_spec(basis[i][r], basis[r], basis[i])
                } else {
                    basis[i]
                }
                &&& payloads2[i] == if i < r {
                    axpy_spec(basis[i][r], payloads[r], payloads[i])
                } else {
                    payloads[i]
                }
            },
    ensures
        consistent_rows(basis2, payloads2, src, n),
{
    assert forall|i: int| 0 <= i < basis2.len() implies #[trigger] payloads2[i] == combination(
        basis2[i],
        src,
        n,
    ) by {
        if i < r {
            lemma_combination_axpy(basis[i][r], basis[r], basis[i], src, n);
        }
    }
}

/// Clears column `col` of every row above a pivot row: each coefficient
/// row `c` gains `c[col] * pivot_c`, and its payload row the same multiple
/// of `pivot_p`.
fn eliminate_column(
    c_above: &mut [AlignedBuffer],
    p_above: &mut [AlignedBuffer],
    pivot_c: &[u8],
    pivot_p: &[u8],
    col: usize,
)
    requires
        old(c_above)@.len() == old(p_above)@.len(),
        col < pivot_c@.len(),
        forall|j: int| 0 <= j < col ==> pivot_c@[j] == 0u8,
        forall|i: int|
            0 <= i < old(c_above)@.len() ==> (#[trigger] old(c_above)@[i])@.len() == pivot_c@.len(),
        forall|i: int|
            0 <= i < old(p_above)@.len() ==> (#[trigger] old(p_above)@[i])@.len() == pivot_p@.len(),
    ensures
        final(c_above)@.len() == old(c_above)@.len(),
        final(p_above)@.len() == old(p_above)@.len(),
        forall|i: int|
            0 <= i < old(c_above)@.len() ==> (#[trigger] final(c_above)@[i])@ == axpy_spec(
                old(c_above)@[i]@[col as int],
                pivot_c@,
                old(c_above)@[i]@,
            ),
        forall|i: int|
            0 <= i < old(p_above)@.len() ==> (#[trigger] final(p_above)@[i])@ == axpy_spec(
                old(c_above)@[i]@[col as int],
                pivot_p@,
                old(p_above)@[i]@,
            ),
{
    let k = pivot_c.len();
    let m = c_above.len();
    let coefficient_suffix = &pivot_c[col..k];
    let mut r2: usize = 0;
    while r2 < m
        invariant
            r2 <= m,
            m == c_above@.len(),
            m == p_above@.len(),
            m == old(c_above)@.len(),
            m == old(p_above)@.len(),
            k == pivot_c@.len(),
            col < k,
            coefficient_suffix@ == pivot_c@.subrange(col as int, k as int),
            forall|j: int| 0 <= j < col ==> pivot_c@[j] == 0u8,
            forall|i: int| 0 <= i < m ==> (#[trigger] old(c_above)@[i])@.len() == k,
            forall|i: int| 0 <= i < m ==> (#[trigger] old(p_above)@[i])@.len() == pivot_p@.len(),
            forall|i: int|
                0 <= i < r2 ==> (#[trigger] c_above@[i])@ == axpy_spec(
                    old(c_above)@[i]@[col as int],
                    pivot_c@,
                    old(c_above)@[i]@,
                ),
            forall|i: int|
                0 <= i < r2 ==> (#[trigger] p_above@[i])@ == axpy_spec(
                    old(c_above)@[i]@[col as int],
                    pivot_p@,
                    old(p_above)@[i]@,
                ),
            forall|i: int| r2 <= i < m ==> #[trigger] c_above@[i] == old(c_above)@[i],
            forall|i: int| r2 <= i < m ==> #[trigger] p_above@[i] == old(p_above)@[i],
        decreases m - r2,
    {
        let coeff = c_above[r2].as_slice()[col];
        let ghost c_before = c_above@[r2 as int]@;
        let ghost p_before = p_above@[r2 as int]@;
        if coeff != 0 {
            let row = slice_elem_mut(c_above, r2);
            let dest = subslice_mut(row.as_mut_slice(), col, k);
            kernel::axpy_unchecked(coeff, coefficient_suffix, dest);
            let prow = slice_elem_mut(p_above, r2);
            kernel::axpy_unchecked(coeff, pivot_p, prow.as_mut_slice());
            proof {
                lemma_axpy_suffix(coeff, pivot_c@, c_before, col as int);
            }
        } else {
            proof {
                lemma_axpy_zero(pivot_c@, c_before);
                lemma_axpy_zero(pivot_p@, p_before);
            }
        }
        r2 = r2 + 1;
    }
}

} // verus!
