//! Dense univariate polynomials over the field, in coefficient form.
//!
//! A polynomial is a vector of field elements, lowest coefficient first;
//! trailing zero coefficients are allowed. Addition, scalar multiplication,
//! evaluation, division by a linear factor and the even/odd split are
//! verified here. Coset FFT evaluation and interpolation are done by
//! `lambdaworks_math` behind trusted wrappers.

use vstd::prelude::*;
use vstd::arithmetic::power2::pow2;
use vstd::arithmetic::div_mod::{lemma_add_mod_noop_right, lemma_small_mod};
use crate::field::{Fe, all_wf, vals, prime, pow_mod, fe_add, fe_mul, fe_from_u64};
use lambdaworks_math::field::element::FieldElement;
use lambdaworks_math::field::fields::fft_friendly::stark_252_prime_field::Stark252PrimeField;
use lambdaworks_math::field::traits::IsFFTField;
use lambdaworks_math::polynomial::Polynomial;
use lambdaworks_math::traits::ByteConversion;

verus! {

/// The value of the polynomial with coefficients `c` at `x`, reduced.
pub open spec fn poly_eval(c: Seq<int>, x: int) -> int
    decreases c.len(),
{
    if c.len() == 0 {
        0
    } else {
        (c[0] + x * poly_eval(c.subrange(1, c.len() as int), x)) % prime()
    }
}

/// `c` padded with zero coefficients up to length `n`.
pub open spec fn extended(c: Seq<int>, n: nat) -> Seq<int> {
    if c.len() >= n {
        c
    } else {
        c + Seq::new((n - c.len()) as nat, |i: int| 0)
    }
}

/// Coefficient `i` (zero beyond the end) of a coefficient sequence.
pub open spec fn coef_or_zero(c: Seq<int>, i: int) -> int {
    if 0 <= i < c.len() {
        c[i]
    } else {
        0
    }
}

/// The coefficients of the sum of two polynomials.
pub open spec fn poly_add_spec(a: Seq<int>, b: Seq<int>) -> Seq<int> {
    Seq::new(if a.len() >= b.len() { a.len() } else { b.len() },
        |i: int| (coef_or_zero(a, i) + coef_or_zero(b, i)) % prime())
}

/// The coefficients of the polynomial scaled by the constant `k`.
pub open spec fn poly_scale_spec(k: int, c: Seq<int>) -> Seq<int> {
    Seq::new(c.len(), |i: int| (k * c[i]) % prime())
}

/// Coefficient `i` of the quotient of `p` by the linear factor `X - a`,
/// by synthetic division from the top coefficient down.
pub open spec fn quot_coef(p: Seq<int>, a: int, i: int) -> int
    decreases p.len() - i,
{
    if 0 <= i < p.len() - 2 {
        (p[i + 1] + a * quot_coef(p, a, i + 1)) % prime()
    } else if i == p.len() - 2 {
        p[i + 1] % prime()
    } else {
        0
    }
}

/// The coefficients of the quotient of `p` by `X - a` (the remainder is
/// dropped, as the callers divide only polynomials that vanish at `a`).
pub open spec fn div_linear_spec(p: Seq<int>, a: int) -> Seq<int> {
    Seq::new((p.len() - 1) as nat, |i: int| quot_coef(p, a, i))
}

/// The even-indexed coefficients: the polynomial `H_1` with
/// `H(X) = H_1(X^2) + X * H_2(X^2)`.
pub open spec fn even_spec(c: Seq<int>) -> Seq<int> {
    Seq::new(((c.len() + 1) / 2) as nat, |i: int| c[2 * i])
}

/// The odd-indexed coefficients: the polynomial `H_2` above.
pub open spec fn odd_spec(c: Seq<int>) -> Seq<int> {
    Seq::new((c.len() / 2) as nat, |i: int| c[2 * i + 1])
}

/// Evaluate the polynomial at a point by Horner's rule.
pub fn poly_eval_at(c: &Vec<Fe>, x: &Fe) -> (r: Fe)
    requires
        all_wf(c@),
        x.wf(),
    ensures
        r.wf(),
        r.val() == poly_eval(vals(c@), x.val()),
{
    let mut acc: Fe = fe_from_u64(0);
    let mut i: usize = c.len();
    while i > 0
        invariant
            0 <= i <= c@.len(),
            all_wf(c@),
            x.wf(),
            acc.wf(),
            acc.val() == poly_eval(vals(c@).subrange(i as int, c@.len() as int), x.val()),
        decreases i,
    {
        i = i - 1;
        let m = fe_mul(x, &acc);
        let acc2 = fe_add(&c[i], &m);
        proof {
            let cv = vals(c@);
            let tail = cv.subrange(i + 1, cv.len() as int);
            let whole = cv.subrange(i as int, cv.len() as int);
            assert(whole[0] == cv[i as int]);
            assert(whole.subrange(1, whole.len() as int) =~= tail);
            let ev = poly_eval(tail, x.val());
            assert(cv[i as int] == c@[i as int].val());
            lemma_add_mod_noop_right(cv[i as int], x.val() * ev, prime());
            assert(acc2.val() == (cv[i as int] + x.val() * ev) % prime());
        }
        acc = acc2;
    }
    proof {
        assert(vals(c@).subrange(0, c@.len() as int) =~= vals(c@));
    }
    acc
}

/// Add two polynomials coefficient by coefficient.
pub fn poly_add(a: &Vec<Fe>, b: &Vec<Fe>) -> (r: Vec<Fe>)
    requires
        all_wf(a@),
        all_wf(b@),
    ensures
        all_wf(r@),
        vals(r@) == poly_add_spec(vals(a@), vals(b@)),
{
    let n = if a.len() >= b.len() { a.len() } else { b.len() };
    let mut r: Vec<Fe> = Vec::new();
    let zero: Fe = fe_from_u64(0);
    let mut i: usize = 0;
    while i < n
        invariant
            0 <= i <= n,
            n == if a@.len() >= b@.len() { a@.len() } else { b@.len() },
            all_wf(a@),
            all_wf(b@),
            zero.wf(),
            zero.val() == 0,
            all_wf(r@),
            r@.len() == i,
            vals(r@) =~= poly_add_spec(vals(a@), vals(b@)).subrange(0, i as int),
        decreases n - i,
    {
        let x: Fe = if i < a.len() { a[i] } else { zero };
        let y: Fe = if i < b.len() { b[i] } else { zero };
        let s = fe_add(&x, &y);
        r.push(s);
        proof {
            assert(vals(r@) =~= poly_add_spec(vals(a@), vals(b@)).subrange(0, i + 1));
        }
        i = i + 1;
    }
    proof {
        assert(vals(r@) =~= poly_add_spec(vals(a@), vals(b@)));
    }
    r
}

/// Multiply every coefficient by the constant `k`.
pub fn poly_scale(k: &Fe, c: &Vec<Fe>) -> (r: Vec<Fe>)
    requires
        k.wf(),
        all_wf(c@),
    ensures
        all_wf(r@),
        vals(r@) == poly_scale_spec(k.val(), vals(c@)),
{
    let mut r: Vec<Fe> = Vec::new();
    let mut i: usize = 0;
    while i < c.len()
        invariant
            0 <= i <= c@.len(),
            k.wf(),
            all_wf(c@),
            all_wf(r@),
            r@.len() == i,
            vals(r@) =~= poly_scale_spec(k.val(), vals(c@)).subrange(0, i as int),
        decreases c@.len() - i,
    {
        let s = fe_mul(k, &c[i]);
        r.push(s);
        proof {
            assert(vals(r@) =~= poly_scale_spec(k.val(), vals(c@)).subrange(0, i + 1));
        }
        i = i + 1;
    }
    proof {
        assert(vals(r@) =~= poly_scale_spec(k.val(), vals(c@)));
    }
    r
}

/// Split a polynomial into the polynomials of its even- and odd-indexed
/// coefficients, so that `H(X) = H_1(X^2) + X * H_2(X^2)`.
pub fn poly_even_odd(c: &Vec<Fe>) -> (r: (Vec<Fe>, Vec<Fe>))
    requires
        all_wf(c@),
    ensures
        all_wf(r.0@),
        all_wf(r.1@),
        vals(r.0@) == even_spec(vals(c@)),
        vals(r.1@) == odd_spec(vals(c@)),
{
    let mut even: Vec<Fe> = Vec::new();
    let mut odd: Vec<Fe> = Vec::new();
    let mut i: usize = 0;
    while i < c.len()
        invariant
            0 <= i <= c@.len(),
            all_wf(c@),
            all_wf(even@),
            all_wf(odd@),
            even@.len() == (i + 1) / 2,
            odd@.len() == i / 2,
            vals(even@) =~= even_spec(vals(c@)).subrange(0, ((i + 1) / 2) as int),
            vals(odd@) =~= odd_spec(vals(c@)).subrange(0, (i / 2) as int),
        decreases c@.len() - i,
    {
        if i % 2 == 0 {
            even.push(c[i]);
            proof {
                assert(vals(even@) =~= even_spec(vals(c@)).subrange(0, ((i + 2) / 2) as int));
            }
        } else {
            odd.push(c[i]);
            proof {
                assert(vals(odd@) =~= odd_spec(vals(c@)).subrange(0, ((i + 1) / 2) as int));
            }
        }
        i = i + 1;
    }
    proof {
        assert(vals(even@) =~= even_spec(vals(c@)));
        assert(vals(odd@) =~= odd_spec(vals(c@)));
    }
    (even, odd)
}

/// The coefficients of `p` minus the constant `v` (a value subtracted from
/// the constant coefficient).
pub open spec fn sub_const_spec(c: Seq<int>, v: int) -> Seq<int> {
    if c.len() == 0 {
        seq![(0 - v + prime()) % prime()]
    } else {
        c.update(0, (c[0] - v + prime()) % prime())
    }
}

/// Subtract the constant `v` from the polynomial.
pub fn poly_sub_const(c: &Vec<Fe>, v: &Fe) -> (r: Vec<Fe>)
    requires
        all_wf(c@),
        v.wf(),
    ensures
        all_wf(r@),
        r@.len() >= 1,
        vals(r@) == sub_const_spec(vals(c@), v.val()),
{
    let mut r: Vec<Fe> = Vec::new();
    if c.len() == 0 {
        let zero: Fe = fe_from_u64(0);
        r.push(crate::field::fe_sub(&zero, v));
        proof {
            assert(vals(r@) =~= sub_const_spec(vals(c@), v.val()));
        }
        return r;
    }
    r.push(crate::field::fe_sub(&c[0], v));
    let mut i: usize = 1;
    while i < c.len()
        invariant
            1 <= i <= c@.len(),
            c@.len() >= 1,
            all_wf(c@),
            v.wf(),
            all_wf(r@),
            r@.len() == i,
            vals(r@) =~= sub_const_spec(vals(c@), v.val()).subrange(0, i as int),
        decreases c@.len() - i,
    {
        r.push(c[i]);
        proof {
            assert(vals(r@) =~= sub_const_spec(vals(c@), v.val()).subrange(0, i + 1));
        }
        i = i + 1;
    }
    proof {
        assert(vals(r@) =~= sub_const_spec(vals(c@), v.val()));
    }
    r
}

/// Divide `p` by the linear factor `X - a` by synthetic division,
/// dropping the remainder.
pub fn poly_div_linear(p: &Vec<Fe>, a: &Fe) -> (q: Vec<Fe>)
    requires
        all_wf(p@),
        a.wf(),
        p@.len() >= 1,
    ensures
        all_wf(q@),
        vals(q@) == div_linear_spec(vals(p@), a.val()),
{
    let n = p.len();
    let mut rev: Vec<Fe> = Vec::new();
    let mut j: usize = n - 1;
    // build the quotient coefficients from the top down
    while j > 0
        invariant
            0 <= j <= n - 1,
            n == p@.len(),
            all_wf(p@),
            a.wf(),
            all_wf(rev@),
            rev@.len() == n - 1 - j,
            forall|t: int| 0 <= t < rev@.len()
                ==> vals(rev@)[t] == quot_coef(vals(p@), a.val(), n - 2 - t),
        decreases j,
    {
        let next: Fe = if j == n - 1 {
            p[j]
        } else {
            let prev = rev[rev.len() - 1];
            fe_add(&p[j], &fe_mul(a, &prev))
        };
        proof {
            let pv = vals(p@);
            assert(p@[j as int].wf());
            assert(pv[j as int] == p@[j as int].val());
            if j == n - 1 {
                lemma_small_mod(pv[j as int] as nat, prime() as nat);
                assert(next.val() == quot_coef(pv, a.val(), j - 1));
            } else {
                let t = rev@.len() - 1;
                assert(vals(rev@)[t] == quot_coef(pv, a.val(), j as int));
                lemma_add_mod_noop_right(pv[j as int],
                    a.val() * quot_coef(pv, a.val(), j as int), prime());
                assert(next.val() == quot_coef(pv, a.val(), j - 1));
            }
        }
        let ghost rev_old = rev@;
        rev.push(next);
        proof {
            assert forall|t: int| 0 <= t < rev@.len() implies
                vals(rev@)[t] == quot_coef(vals(p@), a.val(), n - 2 - t) by {
                assert(vals(rev@)[t] == rev@[t].val());
                if t < rev@.len() - 1 {
                    assert(rev@[t] == rev_old[t]);
                    assert(vals(rev_old)[t] == rev_old[t].val());
                }
            }
        }
        j = j - 1;
    }
    let mut q: Vec<Fe> = Vec::new();
    let mut k: usize = 0;
    while k < n - 1
        invariant
            0 <= k <= n - 1,
            n == p@.len(),
            all_wf(p@),
            a.wf(),
            all_wf(rev@),
            rev@.len() == n - 1,
            forall|t: int| 0 <= t < rev@.len()
                ==> vals(rev@)[t] == quot_coef(vals(p@), a.val(), n - 2 - t),
            all_wf(q@),
            q@.len() == k,
            forall|t: int| 0 <= t < k ==> vals(q@)[t] == quot_coef(vals(p@), a.val(), t),
        decreases n - 1 - k,
    {
        let ghost q_old = q@;
        q.push(rev[n - 2 - k]);
        proof {
            assert forall|t: int| 0 <= t < q@.len() implies
                vals(q@)[t] == quot_coef(vals(p@), a.val(), t) by {
                assert(vals(q@)[t] == q@[t].val());
                if t < q@.len() - 1 {
                    assert(q@[t] == q_old[t]);
                    assert(vals(q_old)[t] == q_old[t].val());
                } else {
                    assert(q@[t] == rev@[n - 2 - k]);
                    assert(vals(rev@)[n - 2 - k] == rev@[n - 2 - k].val());
                }
            }
        }
        k = k + 1;
    }
    proof {
        assert(vals(q@) =~= div_linear_spec(vals(p@), a.val()));
    }
    q
}

/// The result of `lambdaworks` `get_primitive_root_of_unity` for a given
/// order: the canonical primitive `2^order`-th root of unity of the field.
pub uninterp spec fn omega_of(order: nat) -> int;

/// The canonical generator of the `2^192`-th roots of unity, the constant
/// `lambdaworks` defines for the field.
pub open spec fn two_adic_generator() -> int {
    0x5282db87529cfa3f0464519c8b0fa5ad187148e11a61616070024f42f8ef94int
}

/// Relies on `Stark252PrimeField::get_primitive_root_of_unity`, which
/// squares the canonical generator of the `2^192`-th roots of unity
/// `192 - order` times, giving a primitive root of order `2^order`.
#[verifier::external_body]
pub(crate) fn get_root_of_unity(order: u32) -> (r: Fe)
    requires
        order <= 192,
    ensures
        r.wf(),
        r.val() == omega_of(order as nat),
        r.val() == pow_mod(two_adic_generator(), pow2((192 - order) as nat)),
        pow_mod(r.val(), pow2(order as nat)) == 1,
        order > 0 ==> pow_mod(r.val(), pow2((order - 1) as nat)) != 1,
{
    let e = Stark252PrimeField::get_primitive_root_of_unity(order as u64).unwrap();
    Fe { bytes: e.to_bytes_be().try_into().unwrap() }
}

/// Relies on `Polynomial::evaluate_offset_fft`: for a power-of-two domain
/// size and blowup it returns the evaluations of the polynomial at
/// `offset * w^i` for `i` below `domain_size * blowup`, where `w` is the
/// primitive root of unity of that order.
#[verifier::external_body]
pub(crate) fn evaluate_offset_fft(p: &Vec<Fe>, blowup: usize, domain_size: usize, offset: &Fe,
    order: u32) -> (r: Vec<Fe>)
    requires
        all_wf(p@),
        offset.wf(),
        order <= 192,
        domain_size * blowup == pow2(order as nat),
        p@.len() <= domain_size,
        domain_size >= 1,
        blowup >= 1,
    ensures
        all_wf(r@),
        r@.len() == domain_size * blowup,
        forall|i: int| 0 <= i < r@.len() ==> vals(r@)[i] == poly_eval(vals(p@),
            (offset.val() * pow_mod(omega_of(order as nat), i as nat)) % prime()),
{
    let coeffs: Vec<FieldElement<Stark252PrimeField>> = p.iter().map(
        |c| FieldElement::from_bytes_be(&c.bytes).unwrap()).collect();
    let off = FieldElement::<Stark252PrimeField>::from_bytes_be(&offset.bytes).unwrap();
    let evals = Polynomial::evaluate_offset_fft::<Stark252PrimeField>(
        &Polynomial::new(&coeffs), blowup, Some(domain_size), &off).unwrap();
    evals.iter().map(|e| Fe { bytes: e.to_bytes_be().try_into().unwrap() }).collect()
}

/// Relies on `Polynomial::interpolate_offset_fft`: the inverse of the
/// offset FFT evaluation. It returns the unique polynomial of degree below
/// the domain size whose value at `offset * w^i` is the `i`-th input, with
/// trailing zero coefficients trimmed; uniqueness holds among reduced
/// coefficient sequences because a non-zero polynomial of degree below
/// `2^order` cannot vanish on all `2^order` distinct points of the coset.
#[verifier::external_body]
pub(crate) fn interpolate_offset_fft(evals: &Vec<Fe>, offset: &Fe, order: u32) -> (r: Vec<Fe>)
    requires
        all_wf(evals@),
        offset.wf(),
        offset.val() != 0,
        order <= 192,
        evals@.len() == pow2(order as nat),
    ensures
        all_wf(r@),
        r@.len() <= evals@.len(),
        r@.len() == 0 || vals(r@)[r@.len() - 1] != 0,
        forall|i: int| 0 <= i < evals@.len() ==> poly_eval(vals(r@),
            (offset.val() * pow_mod(omega_of(order as nat), i as nat)) % prime())
            == vals(evals@)[i],
        forall|q: Seq<int>| q.len() <= evals@.len()
            && (forall|i: int| 0 <= i < q.len() ==> 0 <= #[trigger] q[i] < prime())
            && (forall|i: int| 0 <= i < evals@.len() ==> poly_eval(q,
                (offset.val() * pow_mod(omega_of(order as nat), i as nat)) % prime())
                == vals(evals@)[i])
            ==> #[trigger] extended(q, evals@.len() as nat)
                == extended(vals(r@), evals@.len() as nat),
{
    let es: Vec<FieldElement<Stark252PrimeField>> = evals.iter().map(
        |c| FieldElement::from_bytes_be(&c.bytes).unwrap()).collect();
    let off = FieldElement::<Stark252PrimeField>::from_bytes_be(&offset.bytes).unwrap();
    let p = Polynomial::interpolate_offset_fft::<Stark252PrimeField>(&es, &off).unwrap();
    p.coefficients().iter().map(|e| Fe { bytes: e.to_bytes_be().try_into().unwrap() }).collect()
}

/// Evaluating a polynomial of degree below the coset size on the coset and
/// interpolating the values gives the polynomial back, up to trailing zero
/// coefficients.
pub fn fft_round_trip(p: &Vec<Fe>, offset: &Fe, order: u32, n: usize) -> (r: Vec<Fe>)
    requires
        all_wf(p@),
        offset.wf(),
        offset.val() != 0,
        order <= 62,
        n == pow2(order as nat),
        p@.len() <= n,
    ensures
        all_wf(r@),
        extended(vals(r@), pow2(order as nat)) == extended(vals(p@), pow2(order as nat)),
{
    proof {
        vstd::arithmetic::power2::lemma_pow2_pos(order as nat);
    }
    let evals = evaluate_offset_fft(p, 1, n, offset, order);
    let r = interpolate_offset_fft(&evals, offset, order);
    proof {
        let nn = pow2(order as nat);
        assert(vals(p@).len() <= evals@.len());
        assert forall|i: int| 0 <= i < vals(p@).len() implies
            0 <= #[trigger] vals(p@)[i] < prime() by {
            assert(p@[i].wf());
            assert(vals(p@)[i] == p@[i].val());
        }
        assert(extended(vals(p@), nn) == extended(vals(r@), nn));
    }
    r
}

} // verus!
