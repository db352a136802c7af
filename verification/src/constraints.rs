//! The constraint evaluator: composition-polynomial evaluations.
//!
//! On every point `x` of the LDE coset, each transition constraint
//! numerator is divided by its vanishing polynomial
//! `(x^L - 1) / prod (x - g^(L-e))` and each boundary constraint by its
//! linear divisor `(x - g^step)`; the quotients are combined with the
//! degree-adjusted challenge pairs into one evaluation of the composition
//! polynomial. The divisions are exact on the coset because no coset point
//! lies in the trace subgroup.

use vstd::prelude::*;
use vstd::arithmetic::power2::{pow2, lemma_pow2_pos, lemma_pow2_strictly_increases,
    lemma2_to64, lemma2_to64_rest};
use vstd::arithmetic::power::lemma1_pow;
use vstd::arithmetic::div_mod::{lemma_small_mod, lemma_mod_twice, lemma_add_mod_noop_right};
use crate::field::{Fe, all_wf, vals, prime, pow_mod, inv_mod, fe_from_u64, fe_pow, fe_mul,
    fe_add, fe_sub, fe_inv, lemma_inv_unique};
use crate::poly::omega_of;
use crate::air::{Air, TraceTable, Frame, BoundaryConstraint};
use crate::domain::{Domain, lemma_coset_disjoint_from_trace, lemma_pow_mod_compose};

verus! {

/// For reduced `a` and `b`, the field subtraction `a - b` is zero exactly
/// when `a == b`.
pub proof fn lemma_sub_mod_zero(a: int, b: int)
    requires
        0 <= a < prime(),
        0 <= b < prime(),
    ensures
        ((a - b + prime()) % prime() == 0) <==> (a == b),
{
    let p = prime();
    if a == b {
        assert((a - b + p) % p == p % p);
        lemma_mod_twice(0, p);
        assert(p % p == 0) by {
            vstd::arithmetic::div_mod::lemma_mod_self_0(p);
        }
    } else if a > b {
        lemma_add_mod_noop_right(a - b, p, p);
        vstd::arithmetic::div_mod::lemma_mod_self_0(p);
        assert((a - b + p) % p == (a - b + p % p) % p);
        lemma_small_mod((a - b) as nat, p as nat);
    } else {
        lemma_small_mod((a - b + p) as nat, p as nat);
    }
}

/// Every trace-subgroup point `g^s` has `L`-th power one.
pub proof fn lemma_subgroup_point_pow(d: Domain, s: int)
    requires
        d.wf(),
        0 <= s < d.trace_roots_of_unity@.len(),
    ensures
        pow_mod(vals(d.trace_roots_of_unity@)[s], pow2(d.root_order as nat)) == 1,
{
    let p = prime();
    let g = omega_of(d.root_order as nat);
    let ll = pow2(d.root_order as nat);
    assert(vals(d.trace_roots_of_unity@)[s] == pow_mod(g, s as nat));
    lemma_pow_mod_compose(g, s as nat, ll);
    lemma_pow_mod_compose(g, ll, s as nat);
    assert(pow_mod(pow_mod(g, s as nat), ll) == pow_mod(g, (s as nat) * ll));
    assert((s as nat) * ll == ll * (s as nat)) by (nonlinear_arith);
    assert(pow_mod(pow_mod(g, ll), s as nat) == pow_mod(g, ll * (s as nat)));
    assert(pow_mod(g, ll) == 1) by {
        assert(pow_mod(d.trace_primitive_root.val(), ll) == 1);
    }
    lemma1_pow(s as nat);
    lemma_small_mod(1, p as nat);
    assert(pow_mod(1, s as nat) == 1);
}

/// The frame of trace values a transition constraint reads at LDE index
/// `i`: row `m` is the LDE trace row at `(i + offsets[m] * blowup) mod n`.
pub open spec fn frame_vals_at(lde_cols: Seq<Seq<int>>, offsets: Seq<usize>, blowup: int,
    n: int, i: int) -> Seq<Seq<int>> {
    Seq::new(offsets.len(), |m: int| Seq::new(lde_cols.len(),
        |j: int| lde_cols[j][(i + offsets[m] * blowup) % n]))
}

/// The product of the exemption factors `x - g^(L-e)` for `e` from 1 to
/// `ex`, in the order the prover multiplies them.
pub open spec fn exemption_prod(x: int, roots: Seq<int>, l: int, ex: int) -> int
    decreases ex,
{
    if ex <= 0 {
        1
    } else {
        (exemption_prod(x, roots, l, ex - 1) * ((x - roots[l - ex] + prime()) % prime()))
            % prime()
    }
}

/// One degree-adjusted transition term
/// `(alpha * x^d + beta) * c * prod(x - g^(L-e)) / (x^L - 1)`.
pub open spec fn trans_term(x: int, c: int, alpha: int, beta: int, dadj: nat, den: int,
    num_inv: int) -> int {
    let factor = ((alpha * pow_mod(x, dadj)) % prime() + beta) % prime();
    let t1 = (c * den) % prime();
    let t2 = (t1 * num_inv) % prime();
    (t2 * factor) % prime()
}

/// The sum of the first `k` transition terms at `x`.
pub open spec fn trans_sum(x: int, cvals: Seq<int>, tcoeffs: Seq<(int, int)>, dadjs: Seq<u64>,
    exems: Seq<usize>, roots: Seq<int>, l: int, num_inv: int, k: int) -> int
    decreases k,
{
    if k <= 0 {
        0
    } else {
        (trans_sum(x, cvals, tcoeffs, dadjs, exems, roots, l, num_inv, k - 1)
            + trans_term(x, cvals[k - 1], tcoeffs[k - 1].0, tcoeffs[k - 1].1,
                dadjs[k - 1] as nat, exemption_prod(x, roots, l, exems[k - 1] as int),
                num_inv)) % prime()
    }
}

/// One degree-adjusted boundary term
/// `(alpha * x^e + beta) * (t_j(x) - v) / (x - g^step)`.
pub open spec fn bound_term(x: int, tval: int, c: BoundaryConstraint, alpha: int, beta: int,
    badj: nat, roots: Seq<int>) -> int {
    let factor = ((alpha * pow_mod(x, badj)) % prime() + beta) % prime();
    let numb = (tval - c.value.val() + prime()) % prime();
    let denb = (x - roots[c.step as int] + prime()) % prime();
    let t1 = (numb * inv_mod(denb)) % prime();
    (t1 * factor) % prime()
}

/// `start` plus the first `q` boundary terms at LDE index `i`.
pub open spec fn bound_sum(start: int, x: int, lde_cols: Seq<Seq<int>>, i: int,
    boundary: Seq<BoundaryConstraint>, bcoeffs: Seq<(int, int)>, badj: nat, roots: Seq<int>,
    q: int) -> int
    decreases q,
{
    if q <= 0 {
        start
    } else {
        (bound_sum(start, x, lde_cols, i, boundary, bcoeffs, badj, roots, q - 1)
            + bound_term(x, lde_cols[boundary[q - 1].col as int][i], boundary[q - 1],
                bcoeffs[boundary[q - 1].col as int].0, bcoeffs[boundary[q - 1].col as int].1,
                badj, roots)) % prime()
    }
}

/// The composition-polynomial evaluation at LDE index `i`: all transition
/// terms plus all boundary terms, over the constraint values `cvals`.
pub open spec fn comp_point(x: int, cvals: Seq<int>, lde_cols: Seq<Seq<int>>, i: int,
    tcoeffs: Seq<(int, int)>, bcoeffs: Seq<(int, int)>, dadjs: Seq<u64>, badj: nat,
    exems: Seq<usize>, boundary: Seq<BoundaryConstraint>, roots: Seq<int>, l: int) -> int {
    let num_inv = inv_mod((pow_mod(x, l as nat) - 1 + prime()) % prime());
    bound_sum(
        trans_sum(x, cvals, tcoeffs, dadjs, exems, roots, l, num_inv, cvals.len() as int),
        x, lde_cols, i, boundary, bcoeffs, badj, roots, boundary.len() as int)
}

/// Build the constraint frame at LDE index `i`.
pub fn build_frame(lde_trace: &TraceTable, offsets: &Vec<usize>, blowup: usize, i: usize)
    -> (r: Frame)
    requires
        lde_trace.wf(),
        lde_trace.n_rows() >= 1,
        blowup >= 1,
        i < lde_trace.n_rows(),
        forall|m: int| 0 <= m < offsets@.len()
            ==> (#[trigger] offsets@[m]) * blowup < lde_trace.n_rows(),
        lde_trace.n_rows() <= 0x4000000000000000,
    ensures
        r.wf(),
        r.rows@.len() == offsets@.len(),
        forall|m: int| 0 <= m < r.rows@.len() ==> (#[trigger] r.rows@[m]@).len()
            == lde_trace.columns@.len(),
        r.view_rows() == frame_vals_at(lde_trace.view_cols(), offsets@, blowup as int,
            lde_trace.n_rows(), i as int),
    {
    let n = lde_trace.columns[0].len();
    let mut rows: Vec<Vec<Fe>> = Vec::new();
    let mut m: usize = 0;
    while m < offsets.len()
        invariant
            0 <= m <= offsets@.len(),
            lde_trace.wf(),
            lde_trace.n_rows() >= 1,
            blowup >= 1,
            i < lde_trace.n_rows(),
            n == lde_trace.n_rows(),
            n <= 0x4000000000000000,
            forall|m0: int| 0 <= m0 < offsets@.len()
                ==> (#[trigger] offsets@[m0]) * blowup < lde_trace.n_rows(),
            rows@.len() == m,
            forall|m0: int| 0 <= m0 < m ==> all_wf(#[trigger] rows@[m0]@)
                && rows@[m0]@.len() == lde_trace.columns@.len()
                && vals(rows@[m0]@) == frame_vals_at(lde_trace.view_cols(), offsets@,
                    blowup as int, lde_trace.n_rows(), i as int)[m0],
        decreases offsets@.len() - m,
    {
        let idx64: u64 = ((i as u64) + (offsets[m] as u64) * (blowup as u64)) % (n as u64);
        let idx: usize = idx64 as usize;
        let row = lde_trace.get_row(idx);
        let ghost rows_old = rows@;
        rows.push(row);
        proof {
            let fv = frame_vals_at(lde_trace.view_cols(), offsets@, blowup as int,
                lde_trace.n_rows(), i as int);
            assert forall|m0: int| 0 <= m0 < rows@.len() implies all_wf(#[trigger] rows@[m0]@)
                && rows@[m0]@.len() == lde_trace.columns@.len()
                && vals(rows@[m0]@) == fv[m0] by {
                if m0 < m {
                    assert(rows@[m0] == rows_old[m0]);
                } else {
                    assert(vals(rows@[m0]@) =~= fv[m0]);
                }
            }
        }
        m = m + 1;
    }
    let f = Frame { rows };
    proof {
        assert(f.view_rows() =~= frame_vals_at(lde_trace.view_cols(), offsets@, blowup as int,
            lde_trace.n_rows(), i as int));
        assert forall|m0: int| 0 <= m0 < f.rows@.len() implies all_wf(#[trigger] f.rows@[m0]@)
            by {}
    }
    f
}

/// The product of the exemption factors at `x`.
fn exemption_product(x: &Fe, roots: &Vec<Fe>, ex: usize) -> (r: Fe)
    requires
        x.wf(),
        all_wf(roots@),
        ex <= roots@.len(),
    ensures
        r.wf(),
        r.val() == exemption_prod(x.val(), vals(roots@), roots@.len() as int, ex as int),
{
    let l = roots.len();
    let mut acc = fe_from_u64(1);
    proof {
        lemma_small_mod(1, prime() as nat);
    }
    let mut e: usize = 0;
    while e < ex
        invariant
            0 <= e <= ex,
            ex <= roots@.len(),
            l == roots@.len(),
            x.wf(),
            all_wf(roots@),
            acc.wf(),
            acc.val() == exemption_prod(x.val(), vals(roots@), l as int, e as int),
        decreases ex - e,
    {
        let factor = fe_sub(x, &roots[l - e - 1]);
        proof {
            assert(roots@[l - e - 1].wf());
            assert(vals(roots@)[l - e - 1] == roots@[l - e - 1].val());
        }
        acc = fe_mul(&acc, &factor);
        e = e + 1;
    }
    acc
}

/// The integer values of a sequence of challenge pairs.
pub open spec fn pair_vals(s: Seq<(Fe, Fe)>) -> Seq<(int, int)> {
    s.map_values(|p: (Fe, Fe)| (p.0.val(), p.1.val()))
}

/// Every challenge pair is well formed.
pub open spec fn pairs_wf(s: Seq<(Fe, Fe)>) -> bool {
    forall|i: int| 0 <= i < s.len() ==> (#[trigger] s[i]).0.wf() && s[i].1.wf()
}

/// The shape conditions under which the composition polynomial is
/// evaluated: all bookkeeping vectors have the lengths the context names,
/// the exemption counts and offsets stay inside the domains, and the trace
/// has the announced dimensions.
pub open spec fn eval_shape_ok<A: Air>(air: A, d: Domain, lde: TraceTable,
    tcoeffs: Seq<(Fe, Fe)>, bcoeffs: Seq<(Fe, Fe)>, boundary: Seq<BoundaryConstraint>,
    dadjs: Seq<u64>) -> bool {
    let ctx = air.ctx_spec();
    &&& lde.wf()
    &&& lde.columns@.len() == ctx.trace_columns
    &&& ctx.trace_columns >= 1
    &&& lde.n_rows() == d.lde_size()
    &&& tcoeffs.len() == ctx.num_transition_constraints
    &&& bcoeffs.len() == ctx.trace_columns
    &&& dadjs.len() == ctx.num_transition_constraints
    &&& ctx.transition_exemptions@.len() == ctx.num_transition_constraints
    &&& pairs_wf(tcoeffs)
    &&& pairs_wf(bcoeffs)
    &&& forall|k: int| 0 <= k < ctx.transition_exemptions@.len()
        ==> (#[trigger] ctx.transition_exemptions@[k]) <= d.interpolation_domain_size
    &&& forall|m: int| 0 <= m < ctx.transition_offsets@.len()
        ==> (#[trigger] ctx.transition_offsets@[m]) * d.blowup_factor < d.lde_size()
    &&& forall|q: int| 0 <= q < boundary.len() ==> (#[trigger] boundary[q]).value.wf()
        && boundary[q].col < ctx.trace_columns
        && boundary[q].step < d.interpolation_domain_size
}

/// The composition-polynomial evaluation at LDE index `i`, over whatever
/// the AIR's transition function answers on the frame there.
pub open spec fn comp_point_at<A: Air>(air: A, d: Domain, lde: TraceTable,
    tcoeffs: Seq<(int, int)>, bcoeffs: Seq<(int, int)>, boundary: Seq<BoundaryConstraint>,
    dadjs: Seq<u64>, badj: nat, i: int) -> int {
    let x = vals(d.lde_roots_of_unity_coset@)[i];
    comp_point(x,
        air.transition_spec(frame_vals_at(lde.view_cols(), air.ctx_spec().transition_offsets@,
            d.blowup_factor as int, d.lde_size(), i)),
        lde.view_cols(), i, tcoeffs, bcoeffs, dadjs, badj,
        air.ctx_spec().transition_exemptions@, boundary, vals(d.trace_roots_of_unity@),
        d.interpolation_domain_size as int)
}

/// Evaluate the composition polynomial at the LDE point with index `i`.
#[verifier::rlimit(60)]
fn composition_eval_at<A: Air>(air: &A, domain: &Domain, lde_trace: &TraceTable,
    transition_coeffs: &Vec<(Fe, Fe)>, boundary_coeffs: &Vec<(Fe, Fe)>,
    boundary: &Vec<BoundaryConstraint>, d_adjs: &Vec<u64>, b_adj: u64, i: usize) -> (r: Fe)
    requires
        air.wf(),
        domain.wf(),
        eval_shape_ok(*air, *domain, *lde_trace, transition_coeffs@, boundary_coeffs@,
            boundary@, d_adjs@),
        i < domain.lde_size(),
    ensures
        r.wf(),
        r.val() == comp_point_at(*air, *domain, *lde_trace, pair_vals(transition_coeffs@),
            pair_vals(boundary_coeffs@), boundary@, d_adjs@, b_adj as nat, i as int),
{
    let ghost ctx = air.ctx_spec();
    let ghost xv = vals(domain.lde_roots_of_unity_coset@)[i as int];
    let ghost roots = vals(domain.trace_roots_of_unity@);
    let ghost l_int = domain.interpolation_domain_size as int;
    let x = domain.lde_roots_of_unity_coset[i];
    proof {
        assert(domain.lde_roots_of_unity_coset@[i as int].wf());
        assert(xv == domain.lde_roots_of_unity_coset@[i as int].val());
    }
    let l = domain.interpolation_domain_size;
    let xl = fe_pow(&x, l as u64);
    let one = fe_from_u64(1);
    let num = fe_sub(&xl, &one);
    proof {
        lemma_coset_disjoint_from_trace(*domain, i as int);
        assert(xl.val() == pow_mod(xv, pow2(domain.root_order as nat)));
        lemma_sub_mod_zero(xl.val(), 1);
        assert(num.val() != 0);
    }
    let num_inv = fe_inv(&num);
    proof {
        lemma_inv_unique(num.val(), num_inv.val());
        assert(num_inv.val() == inv_mod((pow_mod(xv, l as nat) - 1 + prime()) % prime()));
    }
    proof {
        lemma_pow2_pos((domain.lde_root_order - domain.root_order) as nat);
        lemma_pow2_pos(domain.lde_root_order as nat);
        lemma2_to64();
        lemma2_to64_rest();
        if (domain.lde_root_order as nat) < 62 {
            lemma_pow2_strictly_increases(domain.lde_root_order as nat, 62);
        }
    }
    let frame = build_frame(lde_trace, &air.context().transition_offsets, domain.blowup_factor,
        i);
    let cvals = air.compute_transition(&frame);
    let ghost cv = air.transition_spec(frame_vals_at(lde_trace.view_cols(),
        ctx.transition_offsets@, domain.blowup_factor as int, domain.lde_size(), i as int));
    proof {
        assert(vals(cvals@) == cv);
    }
    let n_t = cvals.len();
    let mut acc = fe_from_u64(0);
    let mut k: usize = 0;
    while k < n_t
        invariant
            0 <= k <= n_t,
            air.wf(),
            domain.wf(),
            eval_shape_ok(*air, *domain, *lde_trace, transition_coeffs@, boundary_coeffs@,
                boundary@, d_adjs@),
            i < domain.lde_size(),
            x.wf(),
            x.val() == xv,
            l == domain.interpolation_domain_size,
            roots == vals(domain.trace_roots_of_unity@),
            l_int == domain.interpolation_domain_size as int,
            ctx == air.ctx_spec(),
            num_inv.wf(),
            num_inv.val() == inv_mod((pow_mod(xv, l as nat) - 1 + prime()) % prime()),
            all_wf(cvals@),
            cvals@.len() == ctx.num_transition_constraints,
            n_t == cvals@.len(),
            vals(cvals@) == cv,
            acc.wf(),
            acc.val() == trans_sum(xv, cv, pair_vals(transition_coeffs@), d_adjs@,
                ctx.transition_exemptions@, roots, l_int, num_inv.val(), k as int),
        decreases n_t - k,
    {
        let pair = transition_coeffs[k];
        let adj = fe_pow(&x, d_adjs[k]);
        let factor = fe_add(&fe_mul(&pair.0, &adj), &pair.1);
        let ex = air.context().transition_exemptions[k];
        let den = exemption_product(&x, &domain.trace_roots_of_unity, ex);
        let t1 = fe_mul(&cvals[k], &den);
        let t2 = fe_mul(&t1, &num_inv);
        let t3 = fe_mul(&t2, &factor);
        proof {
            assert(transition_coeffs@[k as int].0.wf() && transition_coeffs@[k as int].1.wf());
            assert(pair_vals(transition_coeffs@)[k as int]
                == (pair.0.val(), pair.1.val()));
            assert(cvals@[k as int].wf());
            assert(vals(cvals@)[k as int] == cvals@[k as int].val());
            assert(t3.val() == trans_term(xv, cv[k as int], pair.0.val(), pair.1.val(),
                d_adjs@[k as int] as nat,
                exemption_prod(xv, roots, l_int, ctx.transition_exemptions@[k as int] as int),
                num_inv.val()));
        }
        acc = fe_add(&acc, &t3);
        k = k + 1;
    }
    let ghost trans_total = acc.val();
    let n_b = boundary.len();
    let mut q: usize = 0;
    while q < n_b
        invariant
            0 <= q <= n_b,
            air.wf(),
            domain.wf(),
            eval_shape_ok(*air, *domain, *lde_trace, transition_coeffs@, boundary_coeffs@,
                boundary@, d_adjs@),
            i < domain.lde_size(),
            x.wf(),
            x.val() == xv,
            xv == vals(domain.lde_roots_of_unity_coset@)[i as int],
            l == domain.interpolation_domain_size,
            roots == vals(domain.trace_roots_of_unity@),
            l_int == domain.interpolation_domain_size as int,
            ctx == air.ctx_spec(),
            n_b == boundary@.len(),
            acc.wf(),
            acc.val() == bound_sum(trans_total, xv, lde_trace.view_cols(), i as int,
                boundary@, pair_vals(boundary_coeffs@), b_adj as nat, roots, q as int),
        decreases n_b - q,
    {
        let c = boundary[q];
        let tv = lde_trace.columns[c.col][i];
        let p_q = domain.trace_roots_of_unity[c.step];
        proof {
            assert(boundary@[q as int].value.wf());
            assert(lde_trace.columns@[c.col as int]@.len() == lde_trace.n_rows());
            assert(all_wf(lde_trace.columns@[c.col as int]@));
            assert(lde_trace.columns@[c.col as int]@[i as int].wf());
            assert(vals(lde_trace.columns@[c.col as int]@)[i as int] == tv.val());
            assert(lde_trace.view_cols()[c.col as int]
                == vals(lde_trace.columns@[c.col as int]@));
            assert(domain.trace_roots_of_unity@[c.step as int].wf());
            assert(roots[c.step as int] == p_q.val());
        }
        let numb = fe_sub(&tv, &c.value);
        let denb = fe_sub(&x, &p_q);
        proof {
            lemma_sub_mod_zero(x.val(), p_q.val());
            if x.val() == p_q.val() {
                lemma_coset_disjoint_from_trace(*domain, i as int);
                lemma_subgroup_point_pow(*domain, c.step as int);
                assert(false);
            }
            assert(denb.val() != 0);
        }
        let invb = fe_inv(&denb);
        proof {
            lemma_inv_unique(denb.val(), invb.val());
        }
        let adjb = fe_pow(&x, b_adj);
        let bpair = boundary_coeffs[c.col];
        proof {
            assert(boundary_coeffs@[c.col as int].0.wf()
                && boundary_coeffs@[c.col as int].1.wf());
            assert(pair_vals(boundary_coeffs@)[c.col as int]
                == (bpair.0.val(), bpair.1.val()));
        }
        let factorb = fe_add(&fe_mul(&bpair.0, &adjb), &bpair.1);
        let t1 = fe_mul(&numb, &invb);
        let t2 = fe_mul(&t1, &factorb);
        proof {
            assert(t2.val() == bound_term(xv, tv.val(), boundary@[q as int], bpair.0.val(),
                bpair.1.val(), b_adj as nat, roots));
        }
        acc = fe_add(&acc, &t2);
        q = q + 1;
    }
    proof {
        assert(acc.val() == comp_point_at(*air, *domain, *lde_trace,
            pair_vals(transition_coeffs@), pair_vals(boundary_coeffs@), boundary@, d_adjs@,
            b_adj as nat, i as int));
    }
    acc
}

/// Evaluate the composition polynomial on the whole LDE coset.
pub fn evaluate_composition_evals<A: Air>(air: &A, domain: &Domain, lde_trace: &TraceTable,
    transition_coeffs: &Vec<(Fe, Fe)>, boundary_coeffs: &Vec<(Fe, Fe)>,
    boundary: &Vec<BoundaryConstraint>, d_adjs: &Vec<u64>, b_adj: u64) -> (r: Vec<Fe>)
    requires
        air.wf(),
        domain.wf(),
        eval_shape_ok(*air, *domain, *lde_trace, transition_coeffs@, boundary_coeffs@,
            boundary@, d_adjs@),
    ensures
        all_wf(r@),
        r@.len() == domain.lde_size(),
        forall|i: int| 0 <= i < r@.len() ==> vals(r@)[i] == comp_point_at(*air, *domain,
            *lde_trace, pair_vals(transition_coeffs@), pair_vals(boundary_coeffs@), boundary@,
            d_adjs@, b_adj as nat, i),
{
    let n = domain.lde_roots_of_unity_coset.len();
    let mut r: Vec<Fe> = Vec::new();
    let mut i: usize = 0;
    while i < n
        invariant
            0 <= i <= n,
            air.wf(),
            domain.wf(),
            eval_shape_ok(*air, *domain, *lde_trace, transition_coeffs@, boundary_coeffs@,
                boundary@, d_adjs@),
            n == domain.lde_size(),
            all_wf(r@),
            r@.len() == i,
            forall|u: int| 0 <= u < i ==> vals(r@)[u] == comp_point_at(*air, *domain,
                *lde_trace, pair_vals(transition_coeffs@), pair_vals(boundary_coeffs@),
                boundary@, d_adjs@, b_adj as nat, u),
        decreases n - i,
    {
        let e = composition_eval_at(air, domain, lde_trace, transition_coeffs,
            boundary_coeffs, boundary, d_adjs, b_adj, i);
        let ghost r_old = r@;
        r.push(e);
        proof {
            assert forall|u: int| 0 <= u < r@.len() implies vals(r@)[u] == comp_point_at(
                *air, *domain, *lde_trace, pair_vals(transition_coeffs@),
                pair_vals(boundary_coeffs@), boundary@, d_adjs@, b_adj as nat, u) by {
                assert(vals(r@)[u] == r@[u].val());
                if u < i {
                    assert(r@[u] == r_old[u]);
                    assert(vals(r_old)[u] == r_old[u].val());
                }
            }
        }
        i = i + 1;
    }
    r
}

} // verus!
