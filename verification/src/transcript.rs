//! The Fiat-Shamir transcript.
//!
//! The prover's randomness comes from a Keccak-based transcript supplied by
//! `lambdaworks_crypto`. Its state is modelled as the byte string absorbed
//! since the last sample: appending concatenates, and sampling replaces the
//! state with the 32 sampled bytes. Field and index challenges are derived
//! from the sampled bytes by verified code.

use vstd::prelude::*;
use vstd::arithmetic::power2::{pow2, lemma_pow2_adds, lemma2_to64};
use crate::field::{Fe, be_val, prime, fe_from_bytes};
use lambdaworks_crypto::fiat_shamir::default_transcript::DefaultTranscript;
use lambdaworks_crypto::fiat_shamir::is_transcript::IsTranscript;
use lambdaworks_math::field::fields::fft_friendly::stark_252_prime_field::Stark252PrimeField;

verus! {

/// The Fiat-Shamir state: a Keccak hasher from `lambdaworks_crypto`.
#[verifier::external_body]
pub struct Transcript {
    inner: DefaultTranscript<Stark252PrimeField>,
}

/// The bytes the transcript has absorbed since it was created or last
/// sampled: the data its next challenge is a hash of.
pub uninterp spec fn transcript_read(t: Transcript) -> Seq<u8>;

/// The 32 bytes that `DefaultTranscript::sample` answers when the absorbed
/// bytes are `s`. Sampling is deterministic: a pure function of the state.
pub uninterp spec fn sample_of(s: Seq<u8>) -> Seq<u8>;

/// Relies on `DefaultTranscript::new`, which starts from an empty hasher
/// state and absorbs the given bytes.
#[verifier::external_body]
pub(crate) fn transcript_new() -> (t: Transcript)
    ensures
        transcript_read(t) == Seq::<u8>::empty(),
{
    Transcript { inner: DefaultTranscript::new(&[]) }
}

/// Relies on `DefaultTranscript::append_bytes`, which feeds the bytes to the
/// running Keccak hasher; feeding twice is feeding the concatenation.
#[verifier::external_body]
pub(crate) fn transcript_append(t: &mut Transcript, bytes: &Vec<u8>)
    ensures
        transcript_read(*final(t)) == transcript_read(*old(t)) + bytes@,
{
    t.inner.append_bytes(bytes);
}

/// Relies on `DefaultTranscript::sample`, which hashes the absorbed bytes,
/// resets the hasher and absorbs the 32 answered bytes.
#[verifier::external_body]
pub(crate) fn transcript_sample(t: &mut Transcript) -> (r: [u8; 32])
    ensures
        r@ == sample_of(transcript_read(*old(t))),
        transcript_read(*final(t)) == sample_of(transcript_read(*old(t))),
{
    t.inner.sample()
}

/// The field challenge derived from transcript state `s`: the 32 sampled
/// bytes read as a big-endian integer, reduced by the modulus.
pub open spec fn fe_challenge_of(s: Seq<u8>) -> int {
    be_val(sample_of(s)) % prime()
}

/// Sample a field challenge: the 32 sampled bytes reduced into the field.
pub fn challenge_fe(t: &mut Transcript) -> (r: Fe)
    ensures
        r.wf(),
        r.val() == fe_challenge_of(transcript_read(*old(t))),
        transcript_read(*final(t)) == sample_of(transcript_read(*old(t))),
{
    let bytes = transcript_sample(t);
    fe_from_bytes(&bytes)
}

/// The index challenge derived from transcript state `s`: the first 8
/// sampled bytes read as a big-endian integer.
pub open spec fn index_challenge_of(s: Seq<u8>) -> int {
    be_val(sample_of(s).take(8))
}

/// Sample an index challenge and reduce it by `modulus`.
pub fn challenge_index(t: &mut Transcript, modulus: u64) -> (r: u64)
    requires
        modulus > 0,
    ensures
        r == index_challenge_of(transcript_read(*old(t))) % (modulus as int),
        transcript_read(*final(t)) == sample_of(transcript_read(*old(t))),
{
    let bytes = transcript_sample(t);
    let ghost s = bytes@;
    let mut v: u64 = 0;
    let mut i: usize = 0;
    proof {
        assert(s.take(0) =~= Seq::<u8>::empty());
        lemma2_to64();
    }
    while i < 8
        invariant
            0 <= i <= 8,
            s == bytes@,
            s.len() == 32,
            v == be_val(s.take(i as int)),
            v < pow2((8 * i) as nat),
            pow2((8 * i) as nat) <= pow2(64),
        decreases 8 - i,
    {
        proof {
            lemma_pow2_adds((8 * i) as nat, 8);
            lemma2_to64();
            assert(pow2(((8 * i) + 8) as nat) <= pow2(64)) by {
                if i < 7 {
                    vstd::arithmetic::power2::lemma_pow2_strictly_increases(
                        ((8 * i) + 8) as nat, 64);
                }
            }
            assert(v * 256 + 255 < pow2(((8 * i) + 8) as nat)) by (nonlinear_arith)
                requires
                    v < pow2((8 * i) as nat),
                    v >= 0,
                    pow2(((8 * i) + 8) as nat) == pow2((8 * i) as nat) * 256,
            ;
            assert(s.take(i + 1).drop_last() =~= s.take(i as int));
        }
        v = v * 256 + (bytes[i] as u64);
        i = i + 1;
    }
    proof {
        lemma2_to64();
    }
    v % modulus
}

/// Copy 32 bytes into a vector, for absorbing.
pub fn bytes32_to_vec(a: &[u8; 32]) -> (r: Vec<u8>)
    ensures
        r@ == a@,
{
    let mut r: Vec<u8> = Vec::new();
    let mut i: usize = 0;
    while i < 32
        invariant
            0 <= i <= 32,
            r@.len() == i,
            forall|u: int| 0 <= u < i ==> r@[u] == a@[u],
        decreases 32 - i,
    {
        r.push(a[i]);
        i = i + 1;
    }
    proof {
        assert(r@ =~= a@);
    }
    r
}

/// The canonical big-endian bytes of a field element, for absorbing.
pub fn fe_bytes_to_vec(f: &Fe) -> (r: Vec<u8>)
    ensures
        r@ == f.bytes@,
        r@.len() == 32,
        be_val(r@) == f.val(),
{
    let b = f.to_bytes();
    bytes32_to_vec(&b)
}

/// The transcript state after `n` successive samples from state `s`.
pub open spec fn chained_state(s: Seq<u8>, n: nat) -> Seq<u8>
    decreases n,
{
    if n == 0 {
        s
    } else {
        sample_of(chained_state(s, (n - 1) as nat))
    }
}

/// The `n` field challenges drawn by successive samples from state `s`.
pub open spec fn chained_challenges(s: Seq<u8>, n: nat) -> Seq<int> {
    Seq::new(n, |i: int| fe_challenge_of(chained_state(s, i as nat)))
}

/// Sample a vector of `n` field challenges.
pub fn batch_sample_challenges(t: &mut Transcript, n: usize)
    -> (r: Vec<Fe>)
    ensures
        crate::field::all_wf(r@),
        crate::field::vals(r@) == chained_challenges(transcript_read(*old(t)), n as nat),
        transcript_read(*final(t)) == chained_state(transcript_read(*old(t)), n as nat),
{
    let ghost s0 = transcript_read(*t);
    let mut r: Vec<Fe> = Vec::new();
    let mut i: usize = 0;
    while i < n
        invariant
            0 <= i <= n,
            crate::field::all_wf(r@),
            r@.len() == i,
            transcript_read(*t) == chained_state(s0, i as nat),
            crate::field::vals(r@) =~= chained_challenges(s0, i as nat),
        decreases n - i,
    {
        let c = challenge_fe(t);
        let ghost r_old = r@;
        r.push(c);
        proof {
            assert forall|u: int| 0 <= u < r@.len() implies crate::field::vals(r@)[u]
                == chained_challenges(s0, (i + 1) as nat)[u] by {
                assert(crate::field::vals(r@)[u] == r@[u].val());
                if u < i {
                    assert(r@[u] == r_old[u]);
                    assert(crate::field::vals(r_old)[u] == r_old[u].val());
                }
            }
            assert(crate::field::vals(r@) =~= chained_challenges(s0, (i + 1) as nat));
        }
        i = i + 1;
    }
    r
}

} // verus!
