//! RLNC Encoder: produces random linear coded packets over GF(2^8).
//!
//! `CodedPacket.payload` is backed by an [`AlignedBuffer`] so that all
//! intermediate re-encoding and decoding operations on the payload pass
//! 64-byte aligned slices to the kernels.

use crate::aligned::{AlignedBuffer, ALIGN};
use crate::error::RlncError;
use crate::kernel::{self, source_rows};
use crate::linear::{combination, lemma_combination_unit, unit};
use vstd::prelude::*;

verus! {

/// A single coded packet: GF(2^8) coefficient vector + 64-byte-aligned payload.
#[derive(Debug)]
pub struct CodedPacket {
    /// Length == `generation_size`.  The i-th byte is the coefficient
    /// applied to source symbol i.
    pub coefficients: AlignedBuffer,
    /// Length == `symbol_size`, 64-byte aligned.
    pub payload: AlignedBuffer,
}

impl Clone for CodedPacket {
    fn clone(&self) -> (r: Self)
        ensures
            r.coefficients@ == self.coefficients@,
            r.payload@ == self.payload@,
    {
        CodedPacket { coefficients: self.coefficients.clone(), payload: self.payload.clone() }
    }
}

impl CodedPacket {
    /// Coefficient vector as a byte slice.
    pub fn coefficients_slice(&self) -> (r: &[u8])
        ensures
            r@ == self.coefficients@,
    {
        self.coefficients.as_slice()
    }

    /// Payload as a byte slice.
    pub fn payload_slice(&self) -> (r: &[u8])
        ensures
            r@ == self.payload@,
    {
        self.payload.as_slice()
    }

    /// Copy coefficients and payload into owned `Vec`s.
    pub fn into_vecs(self) -> (r: (Vec<u8>, Vec<u8>))
        ensures
            r.0@ == self.coefficients@,
            r.1@ == self.payload@,
    {
        (self.coefficients.into_vec(), self.payload.into_vec())
    }

    /// Build a packet from coefficient and payload slices (copies into aligned buffers).
    pub fn from_slices(coefficients: &[u8], payload: &[u8]) -> (r: Self)
        requires
            coefficients@.len() <= usize::MAX - (ALIGN - 1),
            payload@.len() <= usize::MAX - (ALIGN - 1),
        ensures
            r.coefficients@ == coefficients@,
            r.payload@ == payload@,
    {
        CodedPacket {
            coefficients: AlignedBuffer::from_slice(coefficients),
            payload: AlignedBuffer::from_slice(payload),
        }
    }

    /// Build a packet from owned `Vec`s (copies into aligned buffers).
    pub fn from_vecs(coefficients: Vec<u8>, payload: Vec<u8>) -> (r: Self)
        requires
            coefficients@.len() <= usize::MAX - (ALIGN - 1),
            payload@.len() <= usize::MAX - (ALIGN - 1),
        ensures
            r.coefficients@ == coefficients@,
            r.payload@ == payload@,
    {
        CodedPacket {
            coefficients: AlignedBuffer::from_slice(coefficients.as_slice()),
            payload: AlignedBuffer::from_slice(payload.as_slice()),
        }
    }
}

// ---------------------------------------------------------------------------
// Coefficient generator
// ---------------------------------------------------------------------------

/// One xorshift64 step: `s ^= s << 13; s ^= s >> 7; s ^= s << 17`.
pub open spec fn xorshift(s: u64) -> u64 {
    let a = s ^ (s << 13u64);
    let b = a ^ (a >> 7u64);
    b ^ (b << 17u64)
}

/// The generator state after `n` draws from state `s`.
pub open spec fn rng_advance(s: u64, n: nat) -> u64
    decreases n,
{
    if n == 0 {
        s
    } else {
        xorshift(rng_advance(s, (n - 1) as nat))
    }
}

/// The `n` bytes drawn one after the other from state `s`.
pub open spec fn rng_bytes(s: u64, n: nat) -> Seq<u8> {
    Seq::new(n, |i: int| rng_advance(s, (i + 1) as nat) as u8)
}

/// Advancing one step and then `n` steps is advancing `n + 1` steps.
pub proof fn lemma_advance_after_step(s: u64, n: nat)
    ensures
        rng_advance(xorshift(s), n) == rng_advance(s, n + 1),
    decreases n,
{
    assert(rng_advance(s, 0) == s);
    if n > 0 {
        lemma_advance_after_step(s, (n - 1) as nat);
        assert(rng_advance(xorshift(s), n) == xorshift(rng_advance(xorshift(s), (n - 1) as nat)));
    }
}

/// Filling a buffer draws the same bytes as calling `next_u8` once per
/// byte: the first byte comes from one step, the rest from the state that
/// step leaves.
pub proof fn lemma_fill_is_repeated_next(s: u64, n: nat)
    ensures
        rng_bytes(s, n + 1) == seq![xorshift(s) as u8] + rng_bytes(xorshift(s), n),
        rng_advance(s, n + 1) == rng_advance(xorshift(s), n),
{
    assert forall|i: int| 0 <= i < n implies #[trigger] rng_bytes(xorshift(s), n)[i] == rng_bytes(
        s,
        n + 1,
    )[i + 1] by {
        lemma_advance_after_step(s, (i + 1) as nat);
    }
    lemma_advance_after_step(s, n);
    lemma_advance_after_step(s, 0);
    assert(rng_bytes(s, n + 1) =~= seq![xorshift(s) as u8] + rng_bytes(xorshift(s), n));
}

/// True when every byte of `s` is zero.
pub open spec fn all_zero(s: Seq<u8>) -> bool {
    forall|i: int| 0 <= i < s.len() ==> s[i] == 0u8
}

/// The coefficient vector of `k` bytes drawn from state `s` (and the state
/// after drawing it): redrawn while all zero, and after 100 all-zero draws
/// the first coefficient is set to one.  `attempt` counts earlier draws.
pub open spec fn draw_coefficients(s: u64, k: nat, attempt: nat) -> (Seq<u8>, u64)
    decreases 100 - attempt,
{
    let bytes = rng_bytes(s, k);
    let next = rng_advance(s, k);
    if !all_zero(bytes) {
        (bytes, next)
    } else if attempt + 1 >= 100 {
        (bytes.update(0, 1u8), next)
    } else {
        draw_coefficients(next, k, attempt + 1)
    }
}

/// The starting state for the seed `u64::MAX`, whose `seed + 1` would be
/// the zero state (the 64-bit golden-ratio constant).
pub const SEED_FOR_MAX: u64 = 0x9E37_79B9_7F4A_7C15;

/// A xorshift step never maps a non-zero state to zero (each of its three
/// shift-and-XOR steps is invertible).
pub proof fn lemma_xorshift_nonzero(s: u64)
    ensures
        s != 0 ==> xorshift(s) != 0,
{
    assert(s != 0 ==> (s ^ (s << 13u64)) != 0) by (bit_vector);
    let a = s ^ (s << 13u64);
    assert(a != 0 ==> (a ^ (a >> 7u64)) != 0) by (bit_vector);
    let b = a ^ (a >> 7u64);
    assert(b != 0 ==> (b ^ (b << 17u64)) != 0) by (bit_vector);
}

/// A generator that starts from a non-zero state stays out of the zero
/// state for ever.
pub proof fn lemma_state_stays_nonzero(s: u64, n: nat)
    requires
        s != 0,
    ensures
        rng_advance(s, n) != 0,
    decreases n,
{
    if n > 0 {
        lemma_state_stays_nonzero(s, (n - 1) as nat);
        lemma_xorshift_nonzero(rng_advance(s, (n - 1) as nat));
    }
}

/// Simple xorshift PRNG for coding coefficients: **not** a CSPRNG.
///
/// Use only for RLNC coefficient generation in non-adversarial settings.
pub struct SimpleRng(u64);

impl SimpleRng {
    /// The generator's state.
    pub closed spec fn state(&self) -> u64 {
        self.0
    }

    /// Create a new RNG from `seed`.  The state is never zero, so the
    /// generator never falls into the all-zero sequence: `seed + 1`, except
    /// that the one seed for which that wraps to zero starts from
    /// `SEED_FOR_MAX` instead.
    pub fn new(seed: u64) -> (r: Self)
        ensures
            r.state() == if seed == u64::MAX {
                SEED_FOR_MAX
            } else {
                (seed + 1) as u64
            },
            r.state() != 0,
    {
        let state = seed.wrapping_add(1);
        if state == 0 {
            SimpleRng(SEED_FOR_MAX)
        } else {
            SimpleRng(state)
        }
    }

    /// Next pseudorandom byte.
    pub fn next_u8(&mut self) -> (r: u8)
        ensures
            final(self).state() == xorshift(old(self).state()),
            r == final(self).state() as u8,
            old(self).state() != 0 ==> final(self).state() != 0,
    {
        proof {
            lemma_xorshift_nonzero(self.0);
        }
        self.0 = self.0 ^ (self.0 << 13u64);
        self.0 = self.0 ^ (self.0 >> 7u64);
        self.0 = self.0 ^ (self.0 << 17u64);
        self.0 as u8
    }

    /// Fill `buf` with pseudorandom bytes.
    pub fn fill(&mut self, buf: &mut [u8])
        ensures
            final(buf)@ == rng_bytes(old(self).state(), old(buf)@.len()),
            final(self).state() == rng_advance(old(self).state(), old(buf)@.len()),
    {
        let n = buf.len();
        let mut i: usize = 0;
        while i < n
            invariant
                i <= n,
                n == buf@.len(),
                self.state() == rng_advance(old(self).state(), i as nat),
                forall|j: int| 0 <= j < i ==> buf@[j] == rng_advance(old(self).state(), (j + 1) as nat) as u8,
            decreases n - i,
        {
            let b = self.next_u8();
            buf[i] = b;
            i = i + 1;
        }
        assert(buf@ =~= rng_bytes(old(self).state(), old(buf)@.len()));
    }
}

/// Whether every byte of `s` is zero.
pub(crate) fn is_all_zero(s: &[u8]) -> (r: bool)
    ensures
        r == all_zero(s@),
{
    let n = s.len();
    let mut i: usize = 0;
    while i < n
        invariant
            i <= n,
            n == s@.len(),
            forall|j: int| 0 <= j < i ==> s@[j] == 0u8,
        decreases n - i,
    {
        if s[i] != 0 {
            return false;
        }
        i = i + 1;
    }
    true
}

/// A drawn coefficient vector is never all zero.
pub proof fn lemma_drawn_coefficients_nonzero(s: u64, k: nat, attempt: nat)
    requires
        k > 0,
    ensures
        draw_coefficients(s, k, attempt).0.len() == k,
        !all_zero(draw_coefficients(s, k, attempt).0),
    decreases 100 - attempt,
{
    let bytes = rng_bytes(s, k);
    if all_zero(bytes) {
        if attempt + 1 >= 100 {
            assert(bytes.update(0, 1u8)[0] == 1u8);
        } else {
            lemma_drawn_coefficients_nonzero(rng_advance(s, k), k, attempt + 1);
        }
    }
}

/// A first draw that is not all zero is kept: the coefficient vector is
/// exactly the `k` bytes the generator yields, and the generator has moved
/// on by `k` steps.
pub proof fn lemma_first_draw_kept(s: u64, k: nat, attempt: nat)
    requires
        !all_zero(rng_bytes(s, k)),
    ensures
        draw_coefficients(s, k, attempt) == (rng_bytes(s, k), rng_advance(s, k)),
{
}

/// An all-zero draw is thrown away and drawn again from where the
/// generator stopped, until the 100th draw.
pub proof fn lemma_zero_draw_redrawn(s: u64, k: nat, attempt: nat)
    requires
        all_zero(rng_bytes(s, k)),
        attempt + 1 < 100,
    ensures
        draw_coefficients(s, k, attempt) == draw_coefficients(rng_advance(s, k), k, attempt + 1),
{
}

/// Draws a coefficient vector into `coeffs` from `rng`, redrawing while it
/// is all zero (at most 100 draws; then the first coefficient is set to 1).
pub(crate) fn draw_nonzero_coefficients(coeffs: &mut [u8], rng: &mut SimpleRng)
    requires
        old(coeffs)@.len() > 0,
    ensures
        final(coeffs)@ == draw_coefficients(old(rng).state(), old(coeffs)@.len(), 0).0,
        final(rng).state() == draw_coefficients(old(rng).state(), old(coeffs)@.len(), 0).1,
        !all_zero(final(coeffs)@),
        final(coeffs)@.len() == old(coeffs)@.len(),
        !all_zero(rng_bytes(old(rng).state(), old(coeffs)@.len())) ==> final(coeffs)@ == rng_bytes(
            old(rng).state(),
            old(coeffs)@.len(),
        ) && final(rng).state() == rng_advance(old(rng).state(), old(coeffs)@.len()),
{
    let ghost k = coeffs@.len();
    let ghost s0 = rng.state();
    let ghost mut s_prev = s0;
    proof {
        lemma_drawn_coefficients_nonzero(s0, k, 0);
        if !all_zero(rng_bytes(s0, k)) {
            lemma_first_draw_kept(s0, k, 0);
        }
    }
    rng.fill(coeffs);
    let mut retries: u32 = 0;
    loop
        invariant_except_break
            retries < 100,
            coeffs@ == rng_bytes(s_prev, k),
            rng.state() == rng_advance(s_prev, k),
            draw_coefficients(s0, k, 0) == draw_coefficients(s_prev, k, retries as nat),
        invariant
            k == coeffs@.len(),
            k > 0,
            !all_zero(draw_coefficients(s0, k, 0).0),
        ensures
            coeffs@ == draw_coefficients(s0, k, 0).0,
            rng.state() == draw_coefficients(s0, k, 0).1,
        decreases 100 - retries,
    {
        if !is_all_zero(coeffs) {
            break;
        }
        retries = retries + 1;
        if retries >= 100 {
            coeffs[0] = 1;
            break;
        }
        proof {
            s_prev = rng.state();
        }
        rng.fill(coeffs);
    }
}

// ---------------------------------------------------------------------------
// Encoder
// ---------------------------------------------------------------------------

/// The error that source validation reports for `sources`, if any: a count
/// mismatch first, otherwise the first symbol of the wrong size.
pub open spec fn source_error(k: usize, n: usize, sources: Seq<&[u8]>) -> Option<RlncError> {
    if sources.len() != k {
        Some(RlncError::SourceCountMismatch { expected: k, got: sources.len() as usize })
    } else {
        size_error_from(n, sources, 0)
    }
}

/// The first symbol at index `i` or later whose length is not `n`.
pub open spec fn size_error_from(n: usize, sources: Seq<&[u8]>, i: nat) -> Option<RlncError>
    decreases sources.len() - i,
{
    if i >= sources.len() {
        None
    } else if sources[i as int]@.len() != n {
        Some(RlncError::SourceSizeMismatch { expected: n, got: sources[i as int]@.len() as usize })
    } else {
        size_error_from(n, sources, i + 1)
    }
}

/// No symbol at index `i` or later has a wrong length exactly when the size
/// check finds nothing.
pub proof fn lemma_size_error_none(n: usize, sources: Seq<&[u8]>, i: nat)
    ensures
        size_error_from(n, sources, i) is None <==> forall|j: int|
            i <= j < sources.len() ==> (#[trigger] sources[j])@.len() == n,
    decreases sources.len() - i,
{
    if i < sources.len() {
        lemma_size_error_none(n, sources, i + 1);
    }
}

/// Exactly `k` source symbols, each of exactly `n` bytes.
pub open spec fn symbols_well_sized(k: usize, n: usize, sources: Seq<&[u8]>) -> bool {
    &&& sources.len() == k
    &&& forall|j: int| 0 <= j < sources.len() ==> (#[trigger] sources[j])@.len() == n
}

/// Source validation finds nothing wrong exactly when there are `k`
/// symbols of `n` bytes each, whatever `k` and `n` are.
pub proof fn lemma_source_error_none(k: usize, n: usize, sources: Seq<&[u8]>)
    ensures
        source_error(k, n, sources) is None <==> symbols_well_sized(k, n, sources),
{
    lemma_size_error_none(n, sources, 0);
}

/// RLNC Encoder.
pub struct Encoder {
    generation_size: usize,
    symbol_size: usize,
}

impl Encoder {
    /// Both sizes are positive: [`Encoder::new`] rejects zero.
    #[verifier::type_invariant]
    spec fn sizes_positive(self) -> bool {
        self.generation_size > 0 && self.symbol_size > 0
    }

    /// Generation size (`k`), as a specification value.
    pub closed spec fn k(&self) -> usize {
        self.generation_size
    }

    /// Symbol size (`n`), as a specification value.
    pub closed spec fn n(&self) -> usize {
        self.symbol_size
    }

    /// Create a new encoder.
    ///
    /// - `generation_size` (`k`): number of source symbols per generation.
    /// - `symbol_size` (`n`): bytes per source symbol.
    pub fn new(generation_size: usize, symbol_size: usize) -> (r: Result<Self, RlncError>)
        ensures
            generation_size == 0 || symbol_size == 0 ==> r == Err::<Self, RlncError>(
                RlncError::InvalidParameters,
            ),
            generation_size > 0 && symbol_size > 0 ==> (r matches Ok(e) && e.k() == generation_size
                && e.n() == symbol_size),
    {
        if generation_size == 0 || symbol_size == 0 {
            return Err(RlncError::InvalidParameters);
        }
        Ok(Encoder { generation_size, symbol_size })
    }

    /// Generation size (`k`).
    pub fn generation_size(&self) -> (r: usize)
        ensures
            r == self.k(),
    {
        self.generation_size
    }

    /// Symbol size in bytes (`n`).
    pub fn symbol_size(&self) -> (r: usize)
        ensures
            r == self.n(),
    {
        self.symbol_size
    }

    /// Encode one random-linear coded packet.
    ///
    /// `source` must contain exactly `generation_size` slices, each of
    /// length `symbol_size`.  `rng` provides the random coefficients; the
    /// payload is `sum_j coefficients[j] * source[j]` (cache-blocked
    /// multi-source AXPY).
    pub fn encode_random(&self, source: &[&[u8]], rng: &mut SimpleRng) -> (r: Result<
        CodedPacket,
        RlncError,
    >)
        requires
            self.k() <= usize::MAX - (ALIGN - 1),
            self.n() <= usize::MAX - (ALIGN - 1),
        ensures
            source_error(self.k(), self.n(), source@) matches Some(e) ==> r == Err::<
                CodedPacket,
                RlncError,
            >(e) && final(rng).state() == old(rng).state(),
            source_error(self.k(), self.n(), source@) is None ==> (r matches Ok(pkt) && {
                let drawn = draw_coefficients(old(rng).state(), self.k() as nat, 0);
                &&& pkt.coefficients@ == drawn.0
                &&& !all_zero(pkt.coefficients@)
                &&& final(rng).state() == drawn.1
                &&& pkt.payload@ == combination(drawn.0, source_rows(source@), self.n() as nat)
            }),
            symbols_well_sized(self.k(), self.n(), source@) ==> r is Ok,
            symbols_well_sized(self.k(), self.n(), source@) && !all_zero(
                rng_bytes(old(rng).state(), self.k() as nat),
            ) ==> (r matches Ok(pkt) && {
                &&& pkt.coefficients@ == rng_bytes(old(rng).state(), self.k() as nat)
                &&& final(rng).state() == rng_advance(old(rng).state(), self.k() as nat)
                &&& pkt.payload@ == combination(
                    rng_bytes(old(rng).state(), self.k() as nat),
                    source_rows(source@),
                    self.n() as nat,
                )
            }),
    {
        proof {
            lemma_source_error_none(self.k(), self.n(), source@);
            if !all_zero(rng_bytes(rng.state(), self.k() as nat)) {
                lemma_first_draw_kept(rng.state(), self.k() as nat, 0);
            }
        }
        match self.validate_source(source) {
            Err(e) => {
                return Err(e);
            },
            Ok(()) => {},
        }
        proof {
            use_type_invariant(self);
        }
        let k = self.generation_size;
        let n = self.symbol_size;
        let mut coeffs = AlignedBuffer::zeroed(k);
        let mut payload = AlignedBuffer::zeroed(n);
        draw_nonzero_coefficients(coeffs.as_mut_slice(), rng);
        proof {
            lemma_size_error_none(n, source@, 0);
            assert(source@.len() == k);
        }
        kernel::axpy_multi(coeffs.as_slice(), source, payload.as_mut_slice());
        proof {
            let c = combination(coeffs@, source_rows(source@), n as nat);
            assert forall|t: int| 0 <= t < n implies (0u8 ^ #[trigger] c[t]) == c[t] by {
                crate::field::algebra::lemma_xor_basics(c[t], 0u8);
            }
            assert(payload@ =~= c);
        }
        Ok(CodedPacket { coefficients: coeffs, payload })
    }

    /// Produce a **systematic** coded packet for source symbol `index`:
    /// unit coefficient vector `e_index` and a copy of that symbol.
    pub fn encode_systematic(&self, source: &[&[u8]], index: usize) -> (r: Result<
        CodedPacket,
        RlncError,
    >)
        requires
            self.k() <= usize::MAX - (ALIGN - 1),
            self.n() <= usize::MAX - (ALIGN - 1),
        ensures
            source_error(self.k(), self.n(), source@) matches Some(e) ==> r == Err::<
                CodedPacket,
                RlncError,
            >(e),
            source_error(self.k(), self.n(), source@) is None && index >= self.k() ==> r == Err::<
                CodedPacket,
                RlncError,
            >(RlncError::IndexOutOfRange { index, max: self.k() }),
            source_error(self.k(), self.n(), source@) is None && index < self.k() ==> (r matches Ok(pkt)
                && pkt.payload@ == source@[index as int]@ && pkt.coefficients@ == Seq::new(
                self.k() as nat,
                |j: int|
                    if j == index {
                        1u8
                    } else {
                        0u8
                    },
            ) && pkt.payload@ == combination(
                pkt.coefficients@,
                source_rows(source@),
                self.n() as nat,
            )),
            symbols_well_sized(self.k(), self.n(), source@) && index < self.k() ==> r is Ok,
    {
        proof {
            lemma_source_error_none(self.k(), self.n(), source@);
        }
        match self.validate_source(source) {
            Err(e) => {
                return Err(e);
            },
            Ok(()) => {},
        }
        if index >= self.generation_size {
            return Err(RlncError::IndexOutOfRange { index, max: self.generation_size });
        }
        proof {
            lemma_size_error_none(self.symbol_size, source@, 0);
        }
        let mut coeffs = AlignedBuffer::zeroed(self.generation_size);
        coeffs.as_mut_slice()[index] = 1;
        let payload = AlignedBuffer::from_slice(source[index]);
        assert(coeffs@ =~= Seq::new(
            self.k() as nat,
            |j: int|
                if j == index {
                    1u8
                } else {
                    0u8
                },
        ));
        proof {
            assert(coeffs@ == unit(source@.len(), index as int));
            lemma_combination_unit(source_rows(source@), index as int, self.n() as nat);
        }
        Ok(CodedPacket { coefficients: coeffs, payload })
    }

    fn validate_source(&self, source: &[&[u8]]) -> (r: Result<(), RlncError>)
        ensures
            source_error(self.k(), self.n(), source@) matches Some(e) ==> r == Err::<(), RlncError>(e),
            source_error(self.k(), self.n(), source@) is None ==> r is Ok,
            r is Ok <==> symbols_well_sized(self.k(), self.n(), source@),
    {
        proof {
            lemma_source_error_none(self.k(), self.n(), source@);
        }
        if source.len() != self.generation_size {
            return Err(
                RlncError::SourceCountMismatch { expected: self.generation_size, got: source.len() },
            );
        }
        let mut i: usize = 0;
        while i < source.len()
            invariant
                i <= source@.len(),
                source_error(self.k(), self.n(), source@) == size_error_from(
                    self.n(),
                    source@,
                    i as nat,
                ),
            decreases source@.len() - i,
        {
            let s = source[i];
            if s.len() != self.symbol_size {
                return Err(RlncError::SourceSizeMismatch { expected: self.symbol_size, got: s.len() });
            }
            i = i + 1;
        }
        Ok(())
    }
}

} // verus!
