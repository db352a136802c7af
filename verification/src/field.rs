//! Elements of the STARK-252 prime field.
//!
//! A field element is held as its canonical value in 32 big-endian bytes.
//! The arithmetic itself is done by `lambdaworks_math` on the
//! `Stark252PrimeField`; each operation is wrapped in a trusted function
//! whose contract states the result as modular arithmetic on the integer
//! values of the operands.

use vstd::prelude::*;
use vstd::arithmetic::power::pow;
use lambdaworks_math::field::element::FieldElement;
use lambdaworks_math::field::fields::fft_friendly::stark_252_prime_field::Stark252PrimeField;
use lambdaworks_math::traits::ByteConversion;

verus! {

#[verifier::external_type_specification]
#[verifier::external_body]
pub struct ExMontgomeryConfigStark252PrimeField(
    lambdaworks_math::field::fields::fft_friendly::stark_252_prime_field::MontgomeryConfigStark252PrimeField);

#[verifier::external_type_specification]
#[verifier::external_body]
#[verifier::reject_recursive_types(M)]
pub struct ExMontgomeryBackendPrimeField<M, const NUM_LIMBS: usize>(
    lambdaworks_math::field::fields::montgomery_backed_prime_fields::MontgomeryBackendPrimeField<M, NUM_LIMBS>);

/// The field modulus: 2^251 + 17 * 2^192 + 1.
pub open spec fn prime() -> int {
    0x800000000000011000000000000000000000000000000000000000000000001int
}

/// The integer a big-endian byte string stands for.
pub open spec fn be_val(s: Seq<u8>) -> int
    decreases s.len(),
{
    if s.len() == 0 {
        0
    } else {
        be_val(s.drop_last()) * 256 + s.last()
    }
}

pub proof fn lemma_be_val_bound(s: Seq<u8>)
    ensures
        0 <= be_val(s) < pow(256, s.len()),
    decreases s.len(),
{
    vstd::arithmetic::power::lemma_pow_positive(256, s.len());
    if s.len() > 0 {
        lemma_be_val_bound(s.drop_last());
        assert(pow(256, s.len()) == 256 * pow(256, (s.len() - 1) as nat)) by {
            vstd::arithmetic::power::lemma_pow1(256);
            vstd::arithmetic::power::lemma_pow_adds(256, 1nat, (s.len() - 1) as nat);
        }
    }
}

/// Equal values written with the same number of bytes are the same bytes.
pub proof fn lemma_be_val_injective(a: Seq<u8>, b: Seq<u8>)
    requires
        a.len() == b.len(),
        be_val(a) == be_val(b),
    ensures
        a == b,
    decreases a.len(),
{
    if a.len() > 0 {
        lemma_be_val_bound(a.drop_last());
        lemma_be_val_bound(b.drop_last());
        assert(a.last() == b.last() && be_val(a.drop_last()) == be_val(b.drop_last())) by {
            let x = be_val(a.drop_last());
            let y = be_val(b.drop_last());
            assert(x * 256 + a.last() == y * 256 + b.last());
            assert(x == y && a.last() == b.last()) by (nonlinear_arith)
                requires
                    x * 256 + a.last() == y * 256 + b.last(),
                    0 <= a.last() < 256,
                    0 <= b.last() < 256,
            ;
        }
        lemma_be_val_injective(a.drop_last(), b.drop_last());
        assert forall|i: int| 0 <= i < a.len() implies a[i] == b[i] by {
            if i < a.len() - 1 {
                assert(a[i] == a.drop_last()[i]);
                assert(b[i] == b.drop_last()[i]);
            }
        }
        assert(a =~= b);
    } else {
        assert(a =~= b);
    }
}

/// A field element, held as its canonical (reduced) value in 32 big-endian
/// bytes.
#[derive(Clone, Copy, Debug, PartialEq, Eq)]
pub struct Fe {
    pub bytes: [u8; 32],
}

impl Fe {
    /// The integer value of the element.
    pub open spec fn val(self) -> int {
        be_val(self.bytes@)
    }

    /// The bytes are the canonical representative: a value below the modulus.
    pub open spec fn wf(self) -> bool {
        0 <= self.val() < prime()
    }

    /// The canonical big-endian bytes of the element.
    pub fn to_bytes(&self) -> (r: [u8; 32])
        ensures
            r@ == self.bytes@,
            be_val(r@) == self.val(),
    {
        self.bytes
    }
}

/// The values a sequence of field elements stands for.
pub open spec fn vals(s: Seq<Fe>) -> Seq<int> {
    s.map_values(|f: Fe| f.val())
}

/// Every element of the sequence is well formed.
pub open spec fn all_wf(s: Seq<Fe>) -> bool {
    forall|i: int| 0 <= i < s.len() ==> #[trigger] s[i].wf()
}

/// b^e in the field: pow reduced by the modulus.
pub open spec fn pow_mod(b: int, e: nat) -> int {
    pow(b, e) % prime()
}

/// Relies on `FieldElement::<Stark252PrimeField>::from` for `u64`, which
/// embeds the integer into the field, and on `to_bytes_be`, which returns
/// the canonical 32 big-endian bytes.
#[verifier::external_body]
pub(crate) fn fe_from_u64(x: u64) -> (r: Fe)
    ensures
        r.wf(),
        r.val() == x as int,
{
    let e = FieldElement::<Stark252PrimeField>::from(x);
    Fe { bytes: e.to_bytes_be().try_into().unwrap() }
}

/// Relies on `FieldElement::<Stark252PrimeField>::from_bytes_be`, which
/// reads the first 32 bytes as a big-endian integer and reduces it by the
/// modulus, and on `to_bytes_be` for the canonical bytes of the result.
#[verifier::external_body]
pub(crate) fn fe_from_bytes(bytes: &[u8; 32]) -> (r: Fe)
    ensures
        r.wf(),
        r.val() == be_val(bytes@) % prime(),
{
    let e = FieldElement::<Stark252PrimeField>::from_bytes_be(bytes).unwrap();
    Fe { bytes: e.to_bytes_be().try_into().unwrap() }
}

/// Relies on addition of `FieldElement<Stark252PrimeField>`: modular
/// addition of the canonical values.
#[verifier::external_body]
pub(crate) fn fe_add(a: &Fe, b: &Fe) -> (r: Fe)
    requires
        a.wf(),
        b.wf(),
    ensures
        r.wf(),
        r.val() == (a.val() + b.val()) % prime(),
{
    let x = FieldElement::<Stark252PrimeField>::from_bytes_be(&a.bytes).unwrap();
    let y = FieldElement::<Stark252PrimeField>::from_bytes_be(&b.bytes).unwrap();
    Fe { bytes: (x + y).to_bytes_be().try_into().unwrap() }
}

/// Relies on subtraction of `FieldElement<Stark252PrimeField>`: modular
/// subtraction of the canonical values.
#[verifier::external_body]
pub(crate) fn fe_sub(a: &Fe, b: &Fe) -> (r: Fe)
    requires
        a.wf(),
        b.wf(),
    ensures
        r.wf(),
        r.val() == (a.val() - b.val() + prime()) % prime(),
{
    let x = FieldElement::<Stark252PrimeField>::from_bytes_be(&a.bytes).unwrap();
    let y = FieldElement::<Stark252PrimeField>::from_bytes_be(&b.bytes).unwrap();
    Fe { bytes: (x - y).to_bytes_be().try_into().unwrap() }
}

/// Relies on multiplication of `FieldElement<Stark252PrimeField>`: modular
/// multiplication of the canonical values.
#[verifier::external_body]
pub(crate) fn fe_mul(a: &Fe, b: &Fe) -> (r: Fe)
    requires
        a.wf(),
        b.wf(),
    ensures
        r.wf(),
        r.val() == (a.val() * b.val()) % prime(),
{
    let x = FieldElement::<Stark252PrimeField>::from_bytes_be(&a.bytes).unwrap();
    let y = FieldElement::<Stark252PrimeField>::from_bytes_be(&b.bytes).unwrap();
    Fe { bytes: (x * y).to_bytes_be().try_into().unwrap() }
}

/// Relies on `FieldElement::<Stark252PrimeField>::pow`: modular
/// exponentiation of the canonical value.
#[verifier::external_body]
pub(crate) fn fe_pow(a: &Fe, e: u64) -> (r: Fe)
    requires
        a.wf(),
    ensures
        r.wf(),
        r.val() == pow_mod(a.val(), e as nat),
{
    let x = FieldElement::<Stark252PrimeField>::from_bytes_be(&a.bytes).unwrap();
    Fe { bytes: x.pow(e).to_bytes_be().try_into().unwrap() }
}

/// The multiplicative inverse of `a` in the field: the unique reduced `r`
/// with `r * a = 1`.
pub open spec fn inv_mod(a: int) -> int {
    choose|r: int| 0 <= r < prime() && #[trigger] ((r * a) % prime()) == 1
}

/// Any reduced element whose product with `a` is one is the inverse of `a`.
pub proof fn lemma_inv_unique(a: int, r: int)
    requires
        0 <= r < prime(),
        (r * a) % prime() == 1,
    ensures
        r == inv_mod(a),
{
    let p = prime();
    assert(0 <= r < p && (r * a) % p == 1);
    let s = inv_mod(a);
    assert(0 <= s < p && (s * a) % p == 1) by {
        assert(exists|x: int| 0 <= x < p && #[trigger] ((x * a) % p) == 1) by {
            assert(0 <= r < p && (r * a) % p == 1);
        }
    }
    assert(r * (s * a) == (r * a) * s) by (nonlinear_arith);
    vstd::arithmetic::div_mod::lemma_mul_mod_noop_general(r, s * a, p);
    vstd::arithmetic::div_mod::lemma_mul_mod_noop_general(s * a, r, p);
    vstd::arithmetic::div_mod::lemma_mul_mod_noop_general(r * a, s, p);
    vstd::arithmetic::div_mod::lemma_small_mod(r as nat, p as nat);
    vstd::arithmetic::div_mod::lemma_small_mod(s as nat, p as nat);
    assert((r * (s * a)) % p == (r * ((s * a) % p)) % p);
    assert((r * (s * a)) % p == r);
    assert(((r * a) * s) % p == (((r * a) % p) * s) % p);
    assert(((r * a) * s) % p == s);
}

/// Relies on `FieldElement::<Stark252PrimeField>::inv`: the multiplicative
/// inverse of a non-zero element, which fails only on zero.
#[verifier::external_body]
pub(crate) fn fe_inv(a: &Fe) -> (r: Fe)
    requires
        a.wf(),
        a.val() != 0,
    ensures
        r.wf(),
        (r.val() * a.val()) % prime() == 1,
{
    let x = FieldElement::<Stark252PrimeField>::from_bytes_be(&a.bytes).unwrap();
    Fe { bytes: x.inv().unwrap().to_bytes_be().try_into().unwrap() }
}

/// A byte string of zeros stands for zero.
pub proof fn lemma_be_val_zeros(s: Seq<u8>)
    requires
        forall|i: int| 0 <= i < s.len() ==> s[i] == 0,
    ensures
        be_val(s) == 0,
    decreases s.len(),
{
    if s.len() > 0 {
        lemma_be_val_zeros(s.drop_last());
    }
}

/// Build the field element of a small value directly from its bytes.
pub fn fe_small(x: u8) -> (r: Fe)
    ensures
        r.wf(),
        r.val() == x as int,
{
    let mut bytes: [u8; 32] = [0; 32];
    bytes[31] = x;
    let r = Fe { bytes };
    proof {
        assert(r.bytes@.last() == x);
        lemma_be_val_zeros(r.bytes@.drop_last());
        assert(r.val() == be_val(r.bytes@.drop_last()) * 256 + x);
    }
    r
}

/// Two well-formed elements are equal exactly when their values are.
pub fn fe_eq(a: &Fe, b: &Fe) -> (r: bool)
    requires
        a.wf(),
        b.wf(),
    ensures
        r <==> a.val() == b.val(),
{
    let mut i: usize = 0;
    while i < 32
        invariant
            0 <= i <= 32,
            forall|j: int| 0 <= j < i ==> a.bytes@[j] == b.bytes@[j],
        decreases 32 - i,
    {
        if a.bytes[i] != b.bytes[i] {
            proof {
                if a.val() == b.val() {
                    lemma_be_val_injective(a.bytes@, b.bytes@);
                }
            }
            return false;
        }
        i += 1;
    }
    proof {
        assert(a.bytes@ =~= b.bytes@);
    }
    true
}

} // verus!
