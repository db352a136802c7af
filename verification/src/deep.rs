//! The DEEP composition polynomial.
//!
//! The prover binds the trace and composition polynomials to the sampled
//! out-of-domain point `z` by forming, for every trace polynomial and
//! frame offset, the exact quotient `(t_j(X) - t_j(z g^m)) / (X - z g^m)`,
//! and for each half of the composition polynomial the quotient at `z^2`;
//! the DEEP polynomial is their linear combination under the sampled
//! coefficients.

use vstd::prelude::*;
use crate::field::{Fe, all_wf, vals, prime, pow_mod, fe_mul, fe_pow};
use crate::poly::{poly_eval, div_linear_spec, sub_const_spec, poly_add_spec, poly_scale_spec,
    poly_eval_at, poly_div_linear, poly_sub_const, poly_add, poly_scale};

verus! {

/// The out-of-domain point shifted by the `off`-th power of the trace
/// primitive root: `z * g^off`.
pub open spec fn ood_point(z: int, g: int, off: nat) -> int {
    (z * pow_mod(g, off)) % prime()
}

/// One DEEP trace quotient: `(t(X) - t(z g^off)) / (X - z g^off)`.
pub open spec fn trace_term_poly(tp: Seq<int>, z: int, g: int, off: nat) -> Seq<int> {
    let pt = ood_point(z, g, off);
    div_linear_spec(sub_const_spec(tp, poly_eval(tp, pt)), pt)
}

/// The sum of the first `k` scaled DEEP trace quotients, in the fixed
/// order: polynomial index outer, offset index inner, with the flat
/// coefficient position `i * offsets.len() + j`.
pub open spec fn trace_terms_accum(tps: Seq<Seq<int>>, z: int, g: int, offsets: Seq<usize>,
    lambdas: Seq<int>, k: int) -> Seq<int>
    decreases k,
{
    if k <= 0 || offsets.len() == 0 {
        Seq::empty()
    } else {
        let i = (k - 1) / offsets.len() as int;
        let j = (k - 1) % offsets.len() as int;
        poly_add_spec(trace_terms_accum(tps, z, g, offsets, lambdas, k - 1),
            poly_scale_spec(lambdas[k - 1], trace_term_poly(tps[i], z, g,
                offsets[j] as nat)))
    }
}

/// The DEEP composition polynomial: the scaled trace quotients plus the
/// two scaled composition-half quotients at `z^2`.
pub open spec fn deep_poly_spec(tps: Seq<Seq<int>>, he: Seq<int>, ho: Seq<int>, z: int,
    g: int, offsets: Seq<usize>, lambdas: Seq<int>, gamma1: int, gamma2: int) -> Seq<int> {
    let z2 = (z * z) % prime();
    let u1 = div_linear_spec(sub_const_spec(he, poly_eval(he, z2)), z2);
    let u2 = div_linear_spec(sub_const_spec(ho, poly_eval(ho, z2)), z2);
    let tt = trace_terms_accum(tps, z, g, offsets, lambdas,
        (tps.len() * offsets.len()) as int);
    poly_add_spec(poly_add_spec(tt, poly_scale_spec(gamma1, u1)),
        poly_scale_spec(gamma2, u2))
}

/// All polynomials of the sequence have well-formed coefficients.
pub open spec fn polys_wf(s: Seq<Vec<Fe>>) -> bool {
    forall|i: int| 0 <= i < s.len() ==> all_wf((#[trigger] s[i])@)
}

/// The coefficient values of a sequence of polynomials.
pub open spec fn polys_vals(s: Seq<Vec<Fe>>) -> Seq<Seq<int>> {
    s.map_values(|p: Vec<Fe>| vals(p@))
}

/// One DEEP trace quotient, computed.
fn trace_term(tp: &Vec<Fe>, z: &Fe, g: &Fe, off: usize) -> (r: Vec<Fe>)
    requires
        all_wf(tp@),
        z.wf(),
        g.wf(),
        off <= 0xffffffffffffffff,
    ensures
        all_wf(r@),
        vals(r@) == trace_term_poly(vals(tp@), z.val(), g.val(), off as nat),
{
    let pt = fe_mul(z, &fe_pow(g, off as u64));
    let ev = poly_eval_at(tp, &pt);
    let num = poly_sub_const(tp, &ev);
    poly_div_linear(&num, &pt)
}

/// Build the DEEP composition polynomial from the trace polynomials, the
/// two composition halves, the out-of-domain point and the sampled
/// coefficients.
pub fn compute_deep_composition_poly(trace_polys: &Vec<Vec<Fe>>, he: &Vec<Fe>, ho: &Vec<Fe>,
    z: &Fe, g: &Fe, offsets: &Vec<usize>, gamma1: &Fe, gamma2: &Fe, lambdas: &Vec<Fe>)
    -> (r: Vec<Fe>)
    requires
        polys_wf(trace_polys@),
        all_wf(he@),
        all_wf(ho@),
        z.wf(),
        g.wf(),
        gamma1.wf(),
        gamma2.wf(),
        all_wf(lambdas@),
        offsets@.len() >= 1,
        lambdas@.len() == trace_polys@.len() * offsets@.len(),
    ensures
        all_wf(r@),
        vals(r@) == deep_poly_spec(polys_vals(trace_polys@), vals(he@), vals(ho@), z.val(),
            g.val(), offsets@, vals(lambdas@), gamma1.val(), gamma2.val()),
{
    let w = trace_polys.len();
    let m_count = offsets.len();
    let lam_len = lambdas.len();
    let ghost tps = polys_vals(trace_polys@);
    let ghost lam = vals(lambdas@);
    let mut acc: Vec<Fe> = Vec::new();
    proof {
        assert(vals(acc@) =~= trace_terms_accum(tps, z.val(), g.val(), offsets@, lam, 0));
    }
    let mut i: usize = 0;
    while i < w
        invariant
            0 <= i <= w,
            w == trace_polys@.len(),
            m_count == offsets@.len(),
            m_count >= 1,
            tps == polys_vals(trace_polys@),
            lam == vals(lambdas@),
            lambdas@.len() == w * m_count,
            lambdas@.len() <= usize::MAX,
            polys_wf(trace_polys@),
            all_wf(he@),
            all_wf(ho@),
            z.wf(),
            g.wf(),
            all_wf(lambdas@),
            all_wf(acc@),
            vals(acc@) == trace_terms_accum(tps, z.val(), g.val(), offsets@, lam,
                (i * m_count) as int),
        decreases w - i,
    {
        proof {
            vstd::arithmetic::mul::lemma_mul_inequality(i as int, w as int, m_count as int);
        }
        let mut j: usize = 0;
        while j < m_count
            invariant
                0 <= j <= m_count,
                0 <= i < w,
                w == trace_polys@.len(),
                m_count == offsets@.len(),
                m_count >= 1,
                tps == polys_vals(trace_polys@),
                lam == vals(lambdas@),
                lambdas@.len() == w * m_count,
                lambdas@.len() <= usize::MAX,
                polys_wf(trace_polys@),
                z.wf(),
                g.wf(),
                all_wf(lambdas@),
                all_wf(acc@),
                i * m_count + j <= w * m_count,
                vals(acc@) == trace_terms_accum(tps, z.val(), g.val(), offsets@, lam,
                    (i * m_count + j) as int),
            decreases m_count - j,
        {
            proof {
                assert(i * m_count + j < w * m_count) by (nonlinear_arith)
                    requires
                        0 <= i < w,
                        0 <= j < m_count,
                ;
            }
            let flat = i * m_count + j;
            proof {
                assert(all_wf(trace_polys@[i as int]@));
                assert(tps[i as int] == vals(trace_polys@[i as int]@));
            }
            let tt = trace_term(&trace_polys[i], z, g, offsets[j]);
            proof {
                assert(lambdas@[flat as int].wf());
                assert(lam[flat as int] == lambdas@[flat as int].val());
            }
            let scaled = poly_scale(&lambdas[flat], &tt);
            acc = poly_add(&acc, &scaled);
            proof {
                let k = flat + 1;
                assert((k - 1) / m_count as int == i && (k - 1) % m_count as int == j)
                    by (nonlinear_arith)
                    requires
                        0 <= i,
                        0 <= j < m_count,
                        m_count >= 1,
                        k - 1 == i * m_count + j,
                ;
                assert(vals(acc@) == trace_terms_accum(tps, z.val(), g.val(), offsets@, lam,
                    k as int));
            }
            j = j + 1;
        }
        i = i + 1;
        proof {
            assert(((i - 1) * m_count + m_count) == i * m_count) by (nonlinear_arith)
                requires
                    i >= 1,
            ;
        }
    }
    let z2 = fe_mul(z, z);
    let ev1 = poly_eval_at(he, &z2);
    let u1 = poly_div_linear(&poly_sub_const(he, &ev1), &z2);
    let ev2 = poly_eval_at(ho, &z2);
    let u2 = poly_div_linear(&poly_sub_const(ho, &ev2), &z2);
    let s1 = poly_scale(gamma1, &u1);
    let s2 = poly_scale(gamma2, &u2);
    let r = poly_add(&poly_add(&acc, &s1), &s2);
    proof {
        assert(i * m_count == w * m_count);
    }
    r
}

/// The running sum of scaled trace quotients never grows past `l - 1`
/// coefficients when every trace polynomial has at most `l`.
proof fn lemma_trace_terms_accum_len(tps: Seq<Seq<int>>, z: int, g: int, offsets: Seq<usize>,
    lambdas: Seq<int>, k: int, l: int)
    requires
        l >= 1,
        offsets.len() >= 1,
        k <= tps.len() * offsets.len(),
        forall|j: int| 0 <= j < tps.len() ==> (#[trigger] tps[j]).len() <= l,
    ensures
        trace_terms_accum(tps, z, g, offsets, lambdas, k).len() <= l - 1,
    decreases k,
{
    if k > 0 {
        lemma_trace_terms_accum_len(tps, z, g, offsets, lambdas, k - 1, l);
        let m = offsets.len() as int;
        let i = (k - 1) / m;
        vstd::arithmetic::div_mod::lemma_multiply_divide_lt(k - 1, m, tps.len() as int);
        assert(m * (tps.len() as int) == (tps.len() as int) * m) by (nonlinear_arith);
        assert(i < tps.len());
        vstd::arithmetic::div_mod::lemma_div_is_ordered_by_denominator(k - 1, 1, m);
        assert(i >= 0) by {
            vstd::arithmetic::div_mod::lemma_div_pos_is_pos(k - 1, m);
        }
        assert(tps[i].len() <= l);
        assert(trace_term_poly(tps[i], z, g, offsets[(k - 1) % m] as nat).len() <= l - 1);
    }
}

/// The DEEP composition polynomial has fewer coefficients than the bound
/// on its inputs: every quotient by a linear factor is one shorter than
/// its numerator.
pub proof fn lemma_deep_poly_spec_len(tps: Seq<Seq<int>>, he: Seq<int>, ho: Seq<int>, z: int,
    g: int, offsets: Seq<usize>, lambdas: Seq<int>, gamma1: int, gamma2: int, l: int)
    requires
        l >= 1,
        offsets.len() >= 1,
        forall|j: int| 0 <= j < tps.len() ==> (#[trigger] tps[j]).len() <= l,
        he.len() <= l,
        ho.len() <= l,
    ensures
        deep_poly_spec(tps, he, ho, z, g, offsets, lambdas, gamma1, gamma2).len() <= l - 1,
{
    vstd::arithmetic::mul::lemma_mul_nonnegative(tps.len() as int, offsets.len() as int);
    lemma_trace_terms_accum_len(tps, z, g, offsets, lambdas,
        (tps.len() * offsets.len()) as int, l);
}

} // verus!
