//! RLNC Recoder: re-encodes already-coded packets into new coded packets.
//!
//! All output buffers are [`AlignedBuffer`]-backed, so the recoded payload
//! hands 64-byte aligned slices to the kernels.

use crate::aligned::AlignedBuffer;
use crate::encoder::{
    all_zero, draw_coefficients, lemma_first_draw_kept, rng_advance, rng_bytes, CodedPacket, SimpleRng,
};
use crate::encoder::draw_nonzero_coefficients;
use crate::error::RlncError;
use crate::kernel::{self, source_rows};
use crate::decoder::explains;
use crate::linear::{combination, lemma_combination_compose};
use vstd::prelude::*;

verus! {

/// The coefficient vectors of a list of packets.
pub open spec fn packet_coefficients(coded: Seq<CodedPacket>) -> Seq<Seq<u8>> {
    Seq::new(coded.len(), |j: int| coded[j].coefficients@)
}

/// The payloads of a list of packets.
pub open spec fn packet_payloads(coded: Seq<CodedPacket>) -> Seq<Seq<u8>> {
    Seq::new(coded.len(), |j: int| coded[j].payload@)
}

/// The first packet at index `i` or later whose sizes differ from `k`
/// coefficients and `n` payload bytes.
pub open spec fn packet_size_error_from(k: nat, n: nat, coded: Seq<CodedPacket>, i: nat) -> Option<
    RlncError,
>
    decreases coded.len() - i,
{
    if i >= coded.len() {
        None
    } else if coded[i as int].coefficients@.len() != k || coded[i as int].payload@.len() != n {
        Some(
            RlncError::PacketSizeMismatch {
                expected_coeffs: k as usize,
                got_coeffs: coded[i as int].coefficients@.len() as usize,
                expected_payload: n as usize,
                got_payload: coded[i as int].payload@.len() as usize,
            },
        )
    } else {
        packet_size_error_from(k, n, coded, i + 1)
    }
}

/// The error that recoding reports for `coded`, if any: no packets at all,
/// or the first packet whose sizes differ from those of the first.
pub open spec fn recode_error(coded: Seq<CodedPacket>) -> Option<RlncError> {
    if coded.len() == 0 {
        Some(RlncError::InvalidParameters)
    } else {
        packet_size_error_from(
            coded[0].coefficients@.len(),
            coded[0].payload@.len(),
            coded,
            0,
        )
    }
}

/// No packet at index `i` or later has the wrong sizes exactly when the
/// size check finds nothing.
pub proof fn lemma_packet_size_error_none(k: nat, n: nat, coded: Seq<CodedPacket>, i: nat)
    ensures
        packet_size_error_from(k, n, coded, i) is None <==> forall|j: int|
            i <= j < coded.len() ==> (#[trigger] coded[j]).coefficients@.len() == k
                && coded[j].payload@.len() == n,
    decreases coded.len() - i,
{
    if i < coded.len() {
        lemma_packet_size_error_none(k, n, coded, i + 1);
    }
}

/// At least one packet, and every packet has the coefficient and payload
/// lengths of the first.
pub open spec fn packets_well_sized(coded: Seq<CodedPacket>) -> bool {
    &&& coded.len() > 0
    &&& forall|j: int|
        0 <= j < coded.len() ==> (#[trigger] coded[j]).coefficients@.len() == coded[0].coefficients@.len()
            && coded[j].payload@.len() == coded[0].payload@.len()
}

/// Recoding refuses a list of packets exactly when it is empty or some
/// packet's sizes differ from the first's, whatever those sizes are.
pub proof fn lemma_recode_error_none(coded: Seq<CodedPacket>)
    ensures
        recode_error(coded) is None <==> packets_well_sized(coded),
{
    if coded.len() > 0 {
        lemma_packet_size_error_none(coded[0].coefficients@.len(), coded[0].payload@.len(), coded, 0);
    }
}

/// The (coefficients, payload) contents of a list of packets.
pub open spec fn packet_views(coded: Seq<CodedPacket>) -> Seq<(Seq<u8>, Seq<u8>)> {
    Seq::new(coded.len(), |j: int| (coded[j].coefficients@, coded[j].payload@))
}

/// Recoding keeps packets decodable: when the source symbols `src` explain
/// every input packet, they explain the packet that recoding with weights
/// `g` produces (its payload is the combination of `src` with its
/// coefficients).
pub proof fn lemma_recode_preserves_source(
    g: Seq<u8>,
    coded: Seq<CodedPacket>,
    src: Seq<Seq<u8>>,
    k: nat,
    n: nat,
)
    requires
        g.len() == coded.len(),
        explains(src, k, n, packet_views(coded)),
        forall|j: int| 0 <= j < coded.len() ==> (#[trigger] coded[j]).coefficients@.len() == k,
    ensures
        combination(g, packet_payloads(coded), n) == combination(
            combination(g, packet_coefficients(coded), k),
            src,
            n,
        ),
{
    let fs = packet_coefficients(coded);
    let b = packet_payloads(coded);
    assert forall|q: int| 0 <= q < b.len() implies #[trigger] b[q] == combination(fs[q], src, n) by {
        assert(packet_views(coded)[q] == (coded[q].coefficients@, coded[q].payload@));
    }
    lemma_combination_compose(g, fs, src, b, k, n);
}

/// RLNC Recoder.
pub struct Recoder;

impl Recoder {
    /// Produce a new coded packet from a set of already-coded packets.
    ///
    /// All input packets must have the same coefficient length and payload
    /// length.  The output is the combination of the inputs, weighted by a
    /// freshly drawn non-zero coefficient vector, on both the coefficient
    /// and the payload side.
    pub fn recode(coded: &[CodedPacket], rng: &mut SimpleRng) -> (r: Result<CodedPacket, RlncError>)
        ensures
            recode_error(coded@) matches Some(e) ==> r == Err::<CodedPacket, RlncError>(e)
                && final(rng).state() == old(rng).state(),
            recode_error(coded@) is None ==> (r matches Ok(pkt) && {
                let drawn = draw_coefficients(old(rng).state(), coded@.len(), 0);
                &&& final(rng).state() == drawn.1
                &&& pkt.coefficients@ == combination(
                    drawn.0,
                    packet_coefficients(coded@),
                    coded@[0].coefficients@.len(),
                )
                &&& pkt.payload@ == combination(
                    drawn.0,
                    packet_payloads(coded@),
                    coded@[0].payload@.len(),
                )
            }),
            packets_well_sized(coded@) ==> r is Ok,
            packets_well_sized(coded@) && !all_zero(rng_bytes(old(rng).state(), coded@.len())) ==> (
            r matches Ok(pkt) && {
                &&& final(rng).state() == rng_advance(old(rng).state(), coded@.len())
                &&& pkt.coefficients@ == combination(
                    rng_bytes(old(rng).state(), coded@.len()),
                    packet_coefficients(coded@),
                    coded@[0].coefficients@.len(),
                )
                &&& pkt.payload@ == combination(
                    rng_bytes(old(rng).state(), coded@.len()),
                    packet_payloads(coded@),
                    coded@[0].payload@.len(),
                )
            }),
    {
        proof {
            lemma_recode_error_none(coded@);
            if !all_zero(rng_bytes(rng.state(), coded@.len())) {
                lemma_first_draw_kept(rng.state(), coded@.len(), 0);
            }
        }
        if coded.len() == 0 {
            return Err(RlncError::InvalidParameters);
        }
        let k = coded[0].coefficients.len();
        let n = coded[0].payload.len();
        let m = coded.len();
        let mut i: usize = 0;
        while i < m
            invariant
                i <= m,
                m == coded@.len(),
                m > 0,
                k == coded@[0].coefficients@.len(),
                n == coded@[0].payload@.len(),
                recode_error(coded@) == packet_size_error_from(k as nat, n as nat, coded@, i as nat),
            decreases m - i,
        {
            let pkt = &coded[i];
            if pkt.coefficients.len() != k || pkt.payload.len() != n {
                return Err(
                    RlncError::PacketSizeMismatch {
                        expected_coeffs: k,
                        got_coeffs: pkt.coefficients.len(),
                        expected_payload: n,
                        got_payload: pkt.payload.len(),
                    },
                );
            }
            i = i + 1;
        }
        proof {
            lemma_packet_size_error_none(k as nat, n as nat, coded@, 0);
        }

        let mut out_coeffs = AlignedBuffer::zeroed(k);
        let mut out_payload = AlignedBuffer::zeroed(n);

        let mut recode_coeffs: Vec<u8> = vec![0u8; m];
        draw_nonzero_coefficients(recode_coeffs.as_mut_slice(), rng);

        let mut sources: Vec<&[u8]> = Vec::new();
        let mut j: usize = 0;
        while j < m
            invariant
                j <= m,
                m == coded@.len(),
                sources@.len() == j,
                forall|q: int| 0 <= q < j ==> (#[trigger] sources@[q])@ == coded@[q].coefficients@,
            decreases m - j,
        {
            sources.push(coded[j].coefficients.as_slice());
            j = j + 1;
        }
        proof {
            assert(source_rows(sources@) =~= packet_coefficients(coded@));
        }
        kernel::axpy_multi(recode_coeffs.as_slice(), sources.as_slice(), out_coeffs.as_mut_slice());

        let mut sources: Vec<&[u8]> = Vec::new();
        let mut j: usize = 0;
        while j < m
            invariant
                j <= m,
                m == coded@.len(),
                sources@.len() == j,
                forall|q: int| 0 <= q < j ==> (#[trigger] sources@[q])@ == coded@[q].payload@,
            decreases m - j,
        {
            sources.push(coded[j].payload.as_slice());
            j = j + 1;
        }
        proof {
            assert(source_rows(sources@) =~= packet_payloads(coded@));
        }
        kernel::axpy_multi(recode_coeffs.as_slice(), sources.as_slice(), out_payload.as_mut_slice());
        proof {
            let cc = combination(recode_coeffs@, packet_coefficients(coded@), k as nat);
            let pc = combination(recode_coeffs@, packet_payloads(coded@), n as nat);
            assert forall|t: int| 0 <= t < k implies (0u8 ^ #[trigger] cc[t]) == cc[t] by {
                crate::field::algebra::lemma_xor_basics(cc[t], 0u8);
            }
            assert forall|t: int| 0 <= t < n implies (0u8 ^ #[trigger] pc[t]) == pc[t] by {
                crate::field::algebra::lemma_xor_basics(pc[t], 0u8);
            }
            assert(out_coeffs@ =~= cc);
            assert(out_payload@ =~= pc);
        }
        Ok(CodedPacket { coefficients: out_coeffs, payload: out_payload })
    }
}

} // verus!
