//! The prover: the four Fiat-Shamir rounds and the proof assembly.
//!
//! Round 1 interpolates and low-degree-extends the trace and commits each
//! column; round 2 builds and commits the composition polynomial; round 3
//! evaluates everything at the sampled out-of-domain point; round 4 builds
//! the DEEP composition polynomial, runs FRI on it and opens the queried
//! positions. The transcript is absorbed and sampled in this fixed order,
//! which is what makes the proof deterministic.

use vstd::prelude::*;
use vstd::arithmetic::power2::{pow2, lemma_pow2_pos, lemma_pow2_strictly_increases,
    lemma2_to64};
use vstd::arithmetic::div_mod::{lemma_small_mod, lemma_mod_bound};
use vstd::arithmetic::mul::{lemma_mul_inequality, lemma_mul_strict_inequality};
use crate::field::{Fe, all_wf, vals, prime, pow_mod, fe_from_u64, fe_mul, fe_eq};
use crate::poly::{poly_eval, even_spec, odd_spec, omega_of, interpolate_offset_fft,
    evaluate_offset_fft, poly_even_odd, poly_eval_at};
use crate::merkle::{CommitTree, tree_leaves, merkle_root_of, merkle_path_of, merkle_commit,
    merkle_open};
use crate::transcript::{Transcript, transcript_new, transcript_append, challenge_fe,
    batch_sample_challenges, bytes32_to_vec, fe_bytes_to_vec};
use crate::air::{Air, AirContext, TraceTable};
use crate::domain::{Domain, domain_config_ok};
use crate::constraints::{pair_vals, pairs_wf, eval_shape_ok, comp_point_at,
    evaluate_composition_evals};
use crate::deep::{polys_wf, polys_vals, ood_point, deep_poly_spec,
    compute_deep_composition_poly};
use crate::fri::{FriLayer, fri_layer_ok, fri_fold_ok, decommit_ok, fri_commit_phase,
    fri_query_phase};
use crate::stark_proof::{StarkProof, DeepConsistencyCheck, FriDecommitment};
use crate::errors::ProverError;

verus! {

/// Multiplying a reduced value by one changes nothing.
proof fn lemma_one_mul(x: int)
    requires
        0 <= x < prime(),
    ensures
        (1 * x) % prime() == x,
{
    lemma_small_mod(x as nat, prime() as nat);
}

/// Start the Fiat-Shamir transcript for a new proof.
pub fn round_0_transcript_initialization() -> (t: Transcript)
    ensures
        crate::transcript::transcript_read(t) == Seq::<u8>::empty(),
{
    transcript_new()
}

/// A stub kept for the randomized-AIR round: the extended trace is not
/// committed in this design.
pub fn commit_extended_trace() {
}

/// Build one Merkle tree and root per column.
#[verifier::spinoff_prover]
pub fn batch_commit(cols: &Vec<Vec<Fe>>) -> (r: (Vec<CommitTree>, Vec<[u8; 32]>))
    requires
        forall|j: int| 0 <= j < cols@.len()
            ==> all_wf((#[trigger] cols@[j])@) && cols@[j]@.len() >= 1,
    ensures
        r.0@.len() == cols@.len(),
        r.1@.len() == cols@.len(),
        forall|j: int| 0 <= j < cols@.len()
            ==> tree_leaves(#[trigger] r.0@[j]) == vals(cols@[j]@)
                && r.1@[j]@ == merkle_root_of(vals(cols@[j]@)),
{
    let mut trees: Vec<CommitTree> = Vec::new();
    let mut roots: Vec<[u8; 32]> = Vec::new();
    let mut j: usize = 0;
    while j < cols.len()
        invariant
            0 <= j <= cols@.len(),
            forall|u: int| 0 <= u < cols@.len()
                ==> all_wf((#[trigger] cols@[u])@) && cols@[u]@.len() >= 1,
            trees@.len() == j,
            roots@.len() == j,
            forall|u: int| 0 <= u < j
                ==> tree_leaves(#[trigger] trees@[u]) == vals(cols@[u]@)
                    && roots@[u]@ == merkle_root_of(vals(cols@[u]@)),
        decreases cols@.len() - j,
    {
        let (tree, root) = merkle_commit(&cols[j]);
        trees.push(tree);
        roots.push(root);
        j = j + 1;
    }
    (trees, roots)
}

/// Evaluate a polynomial on the LDE coset by an offset FFT.
pub fn evaluate_polynomial_on_lde_domain(p: &Vec<Fe>, domain: &Domain) -> (r: Vec<Fe>)
    requires
        domain.wf(),
        all_wf(p@),
        p@.len() <= domain.interpolation_domain_size,
    ensures
        all_wf(r@),
        r@.len() == domain.lde_size(),
        forall|i: int| 0 <= i < r@.len() ==> vals(r@)[i]
            == poly_eval(vals(p@), domain.coset_point(i)),
{
    proof {
        lemma_pow2_pos(domain.root_order as nat);
        lemma_pow2_pos((domain.lde_root_order - domain.root_order) as nat);
    }
    evaluate_offset_fft(p, domain.blowup_factor, domain.interpolation_domain_size,
        &domain.coset_offset, domain.lde_root_order)
}

/// The first round's outputs: the interpolated trace polynomials, the
/// low-degree-extended trace, and one Merkle commitment per column.
pub struct Round1 {
    pub trace_polys: Vec<Vec<Fe>>,
    pub lde_trace: TraceTable,
    pub lde_trace_merkle_trees: Vec<CommitTree>,
    pub lde_trace_merkle_roots: Vec<[u8; 32]>,
}

/// The first round is consistent with the witness trace: each trace
/// polynomial interpolates its column over the trace subgroup, the LDE
/// trace holds its evaluations on the coset, and the commitments are over
/// those columns.
pub open spec fn round1_ok(d: Domain, trace: TraceTable, r1: Round1) -> bool {
    let w = trace.columns@.len();
    &&& r1.trace_polys@.len() == w
    &&& polys_wf(r1.trace_polys@)
    &&& forall|j: int| 0 <= j < w ==> (#[trigger] r1.trace_polys@[j])@.len()
        <= d.interpolation_domain_size
    &&& forall|j: int| 0 <= j < w ==> ((#[trigger] r1.trace_polys@[j])@.len() == 0
        || vals(r1.trace_polys@[j]@)[r1.trace_polys@[j]@.len() - 1] != 0)
    &&& forall|j: int, i: int| 0 <= j < w && 0 <= i < d.interpolation_domain_size
        ==> poly_eval(vals((#[trigger] r1.trace_polys@[j])@), #[trigger] d.trace_point(i))
            == trace.view_cols()[j][i]
    &&& r1.lde_trace.columns@.len() == w
    &&& r1.lde_trace.wf()
    &&& r1.lde_trace.n_rows() == d.lde_size()
    &&& forall|j: int, i: int| 0 <= j < w && 0 <= i < d.lde_size()
        ==> r1.lde_trace.view_cols()[j][i]
            == poly_eval(vals((#[trigger] r1.trace_polys@[j])@), #[trigger] d.coset_point(i))
    &&& r1.lde_trace_merkle_trees@.len() == w
    &&& r1.lde_trace_merkle_roots@.len() == w
    &&& forall|j: int| 0 <= j < w
        ==> tree_leaves(#[trigger] r1.lde_trace_merkle_trees@[j])
                == r1.lde_trace.view_cols()[j]
            && r1.lde_trace_merkle_roots@[j]@ == merkle_root_of(r1.lde_trace.view_cols()[j])
}

/// Interpolate each trace column, extend it to the LDE coset and commit
/// to every extended column.
pub fn commit_original_trace(trace: &TraceTable, domain: &Domain) -> (r: Round1)
    requires
        domain.wf(),
        trace.wf(),
        trace.columns@.len() >= 1,
        trace.n_rows() == domain.interpolation_domain_size,
    ensures
        round1_ok(*domain, *trace, r),
{
    let w = trace.columns.len();
    let one = fe_from_u64(1);
    let mut trace_polys: Vec<Vec<Fe>> = Vec::new();
    let mut lde_cols: Vec<Vec<Fe>> = Vec::new();
    proof {
        lemma_pow2_pos(domain.root_order as nat);
        lemma_pow2_pos((domain.lde_root_order - domain.root_order) as nat);
    }
    let mut j: usize = 0;
    while j < w
        invariant
            0 <= j <= w,
            w == trace.columns@.len(),
            domain.wf(),
            trace.wf(),
            trace.n_rows() == domain.interpolation_domain_size,
            one.wf(),
            one.val() == 1,
            trace_polys@.len() == j,
            lde_cols@.len() == j,
            polys_wf(trace_polys@),
            forall|u: int| 0 <= u < j ==> (#[trigger] trace_polys@[u])@.len()
                <= domain.interpolation_domain_size,
            forall|u: int| 0 <= u < j ==> ((#[trigger] trace_polys@[u])@.len() == 0
                || vals(trace_polys@[u]@)[trace_polys@[u]@.len() - 1] != 0),
            forall|u: int, i: int| 0 <= u < j && 0 <= i < domain.interpolation_domain_size
                ==> poly_eval(vals((#[trigger] trace_polys@[u])@),
                    #[trigger] domain.trace_point(i)) == trace.view_cols()[u][i],
            forall|u: int| 0 <= u < j ==> all_wf((#[trigger] lde_cols@[u])@)
                && lde_cols@[u]@.len() == domain.lde_size(),
            forall|u: int, i: int| 0 <= u < j && 0 <= i < domain.lde_size()
                ==> vals((#[trigger] lde_cols@[u])@)[i]
                    == poly_eval(vals(trace_polys@[u]@), #[trigger] domain.coset_point(i)),
        decreases w - j,
    {
        let col = &trace.columns[j];
        proof {
            assert(trace.columns@[j as int]@.len() == trace.n_rows());
            assert(all_wf(trace.columns@[j as int]@));
        }
        let tp = interpolate_offset_fft(col, &one, domain.root_order);
        proof {
            assert forall|i: int| 0 <= i < domain.interpolation_domain_size implies
                poly_eval(vals(tp@), domain.trace_point(i))
                    == trace.view_cols()[j as int][i] by {
                lemma_mod_bound(
                    vstd::arithmetic::power::pow(omega_of(domain.root_order as nat), i as nat),
                    prime());
                lemma_one_mul(pow_mod(omega_of(domain.root_order as nat), i as nat));
                assert((1 * pow_mod(omega_of(domain.root_order as nat), i as nat)) % prime()
                    == domain.trace_point(i));
                assert(vals(trace.columns@[j as int]@)[i]
                    == trace.view_cols()[j as int][i]);
            }
        }
        let lde_col = evaluate_polynomial_on_lde_domain(&tp, domain);
        let ghost tp_old = trace_polys@;
        let ghost lc_old = lde_cols@;
        trace_polys.push(tp);
        lde_cols.push(lde_col);
        j = j + 1;
    }
    let lde_trace = TraceTable::new_from_cols(lde_cols);
    proof {
        lemma_pow2_pos(domain.lde_root_order as nat);
        assert(lde_trace.wf()) by {
            assert forall|u: int| 0 <= u < lde_trace.columns@.len() implies
                (#[trigger] lde_trace.columns@[u]@).len() == lde_trace.n_rows()
                    && all_wf(lde_trace.columns@[u]@) by {
                assert(lde_trace.columns@[0]@.len() == domain.lde_size());
            }
        }
    }
    let (lde_trace_merkle_trees, lde_trace_merkle_roots) = batch_commit(&lde_trace.columns);
    let r = Round1 {
        trace_polys,
        lde_trace,
        lde_trace_merkle_trees,
        lde_trace_merkle_roots,
    };
    proof {
        assert forall|u: int| 0 <= u < r.lde_trace.columns@.len() implies
            r.lde_trace.view_cols()[u] == vals(r.lde_trace.columns@[u]@) by {}
        assert forall|u: int, i: int| 0 <= u < trace.columns@.len()
            && 0 <= i < domain.lde_size() implies r.lde_trace.view_cols()[u][i]
            == poly_eval(vals((#[trigger] r.trace_polys@[u])@), #[trigger] domain.coset_point(i))
            by {
            assert(vals((r.lde_trace.columns@[u])@)[i]
                == poly_eval(vals(r.trace_polys@[u]@), domain.coset_point(i)));
        }
    }
    r
}

/// Commit the original trace; the extended (randomized) trace commitment
/// is a stub in this design.
pub fn round_1_randomized_air_with_preprocessing(trace: &TraceTable, domain: &Domain)
    -> (r: Round1)
    requires
        domain.wf(),
        trace.wf(),
        trace.columns@.len() >= 1,
        trace.n_rows() == domain.interpolation_domain_size,
    ensures
        round1_ok(*domain, *trace, r),
{
    let round_1_result = commit_original_trace(trace, domain);
    commit_extended_trace();
    round_1_result
}

/// The degree a transition term reaches before adjustment: the constraint
/// degree times the trace-polynomial degree, minus its vanishing degree.
pub open spec fn trans_term_deg(deg: int, ex: int, l: int) -> int {
    deg * (l - 1) - (l - ex)
}

/// The largest term degree among the first `k` transition terms and the
/// boundary terms (degree `l - 2`): the composition degree target.
pub open spec fn max_term_deg(degs: Seq<usize>, exems: Seq<usize>, l: int, k: int) -> int
    decreases k,
{
    if k <= 0 {
        l - 2
    } else {
        let td = trans_term_deg(degs[k - 1] as int, exems[k - 1] as int, l);
        let prev = max_term_deg(degs, exems, l, k - 1);
        if td > prev {
            td
        } else {
            prev
        }
    }
}

/// The target degree every composition term is raised to.
pub open spec fn comp_degree_bound(ctx: AirContext) -> int {
    max_term_deg(ctx.transition_degrees@, ctx.transition_exemptions@,
        ctx.trace_length as int, ctx.transition_degrees@.len() as int)
}

/// The degree adjustment of transition constraint `k`.
pub open spec fn d_adj_val(ctx: AirContext, k: int) -> int {
    comp_degree_bound(ctx) - trans_term_deg(ctx.transition_degrees@[k] as int,
        ctx.transition_exemptions@[k] as int, ctx.trace_length as int)
}

/// The degree adjustments of all transition constraints.
pub open spec fn d_adjs_spec(ctx: AirContext) -> Seq<u64> {
    Seq::new(ctx.transition_degrees@.len(), |k: int| d_adj_val(ctx, k) as u64)
}

/// The degree adjustment of every boundary term.
pub open spec fn b_adj_spec(ctx: AirContext) -> int {
    comp_degree_bound(ctx) - (ctx.trace_length - 2)
}

/// One transition constraint's bookkeeping entry is usable: degree and
/// exemption count at least one, exemptions within the trace, and the
/// term degree within the machine's range.
pub open spec fn degree_entry_ok(ctx: AirContext, k: int) -> bool {
    &&& 1 <= ctx.transition_degrees@[k]
    &&& 1 <= ctx.transition_exemptions@[k] <= ctx.trace_length
    &&& (ctx.transition_degrees@[k] as int) * (ctx.trace_length - 1) <= 0xffffffffffffffff
}

/// The constraint bookkeeping of the AIR is usable.
pub open spec fn degrees_ok(ctx: AirContext) -> bool {
    &&& ctx.transition_degrees@.len() == ctx.num_transition_constraints
    &&& ctx.transition_exemptions@.len() == ctx.num_transition_constraints
    &&& forall|k: int| 0 <= k < ctx.num_transition_constraints
        ==> #[trigger] degree_entry_ok(ctx, k)
}

/// Compute the degree adjustments of all transition terms and of the
/// boundary terms. Fails exactly when the bookkeeping is unusable.
fn compute_degree_adjustments(ctx: &AirContext) -> (r: Result<(Vec<u64>, u64), ProverError>)
    requires
        ctx.trace_length >= 2,
    ensures
        match r {
            Ok(adj) => {
                &&& degrees_ok(*ctx)
                &&& adj.0@ == d_adjs_spec(*ctx)
                &&& adj.1 as int == b_adj_spec(*ctx)
            },
            Err(e) => {
                &&& !degrees_ok(*ctx)
                &&& e == ProverError::Configuration
            },
        },
{
    let l = ctx.trace_length;
    let n_t = ctx.num_transition_constraints;
    if ctx.transition_degrees.len() != n_t || ctx.transition_exemptions.len() != n_t {
        return Err(ProverError::Configuration);
    }
    let mut tds: Vec<u64> = Vec::new();
    let mut max_d: u64 = (l - 2) as u64;
    let mut k: usize = 0;
    while k < n_t
        invariant
            0 <= k <= n_t,
            l == ctx.trace_length,
            l >= 2,
            ctx.transition_degrees@.len() == n_t,
            ctx.transition_exemptions@.len() == n_t,
            tds@.len() == k,
            forall|u: int| 0 <= u < k ==> #[trigger] degree_entry_ok(*ctx, u),
            forall|u: int| 0 <= u < k ==> (#[trigger] tds@[u]) as int
                == trans_term_deg(ctx.transition_degrees@[u] as int,
                    ctx.transition_exemptions@[u] as int, l as int),
            forall|u: int| 0 <= u < k ==> (#[trigger] tds@[u]) <= max_d,
            max_d as int == max_term_deg(ctx.transition_degrees@, ctx.transition_exemptions@,
                l as int, k as int),
        decreases n_t - k,
    {
        let deg = ctx.transition_degrees[k];
        let ex = ctx.transition_exemptions[k];
        if deg < 1 || ex < 1 || ex > l {
            proof {
                assert(!degree_entry_ok(*ctx, k as int));
            }
            return Err(ProverError::Configuration);
        }
        proof {
            assert((deg as int) * ((l - 1) as int)
                < 0x100000000000000000000000000000000) by (nonlinear_arith)
                requires
                    0 <= deg <= 0xffffffffffffffff,
                    0 <= l - 1 <= 0xffffffffffffffff,
            ;
        }
        let prod: u128 = (deg as u128) * ((l - 1) as u128);
        if prod > 0xffffffffffffffffu128 {
            proof {
                assert(!degree_entry_ok(*ctx, k as int));
            }
            return Err(ProverError::Configuration);
        }
        proof {
            lemma_mul_inequality(1, deg as int, (l - 1) as int);
            assert((l - ex) as int <= (l - 1) as int);
            assert(degree_entry_ok(*ctx, k as int));
        }
        let td64: u64 = (prod as u64) - ((l - ex) as u64);
        if td64 > max_d {
            max_d = td64;
        }
        tds.push(td64);
        k = k + 1;
    }
    let mut d_adjs: Vec<u64> = Vec::new();
    let mut k2: usize = 0;
    while k2 < n_t
        invariant
            0 <= k2 <= n_t,
            l == ctx.trace_length,
            l >= 2,
            ctx.transition_degrees@.len() == n_t,
            ctx.transition_exemptions@.len() == n_t,
            tds@.len() == n_t,
            forall|u: int| 0 <= u < n_t ==> #[trigger] degree_entry_ok(*ctx, u),
            forall|u: int| 0 <= u < n_t ==> (#[trigger] tds@[u]) as int
                == trans_term_deg(ctx.transition_degrees@[u] as int,
                    ctx.transition_exemptions@[u] as int, l as int),
            forall|u: int| 0 <= u < n_t ==> (#[trigger] tds@[u]) <= max_d,
            max_d as int == comp_degree_bound(*ctx),
            d_adjs@.len() == k2,
            forall|u: int| 0 <= u < k2 ==> (#[trigger] d_adjs@[u]) as int == d_adj_val(*ctx, u),
        decreases n_t - k2,
    {
        d_adjs.push(max_d - tds[k2]);
        k2 = k2 + 1;
    }
    proof {
        assert(max_term_deg(ctx.transition_degrees@, ctx.transition_exemptions@, l as int,
            0) == l - 2);
        assert(max_d as int >= l - 2) by {
            lemma_max_term_deg_grows(ctx.transition_degrees@, ctx.transition_exemptions@,
                l as int, n_t as int);
        }
        assert(d_adjs@ =~= d_adjs_spec(*ctx));
    }
    let b_adj: u64 = max_d - ((l - 2) as u64);
    Ok((d_adjs, b_adj))
}

/// The maximum term degree never drops below its boundary-term base.
proof fn lemma_max_term_deg_grows(degs: Seq<usize>, exems: Seq<usize>, l: int, k: int)
    ensures
        max_term_deg(degs, exems, l, k) >= l - 2,
    decreases k,
{
    if k > 0 {
        lemma_max_term_deg_grows(degs, exems, l, k - 1);
    }
}

/// The second round's outputs: the composition polynomial split into its
/// even and odd halves, their LDE evaluations and their commitments.
pub struct Round2 {
    /// The coefficient values of the full composition polynomial.
    pub comp_poly: Ghost<Seq<int>>,
    pub composition_poly_even: Vec<Fe>,
    pub lde_composition_poly_even_evaluations: Vec<Fe>,
    pub composition_poly_odd: Vec<Fe>,
    pub lde_composition_poly_odd_evaluations: Vec<Fe>,
    pub composition_poly_merkle_trees: Vec<CommitTree>,
    pub composition_poly_roots: Vec<[u8; 32]>,
}

/// The second round is consistent with the LDE trace and the sampled
/// challenge pairs: the composition polynomial interpolates the combined
/// constraint evaluations on the coset, the halves are its even- and
/// odd-indexed coefficients, and the commitments are over the halves'
/// coset evaluations.
pub open spec fn round2_ok<A: Air>(air: A, d: Domain, lde_trace: TraceTable,
    tcoeffs: Seq<(Fe, Fe)>, bcoeffs: Seq<(Fe, Fe)>, r2: Round2) -> bool {
    let ctx = air.ctx_spec();
    &&& r2.comp_poly@.len() <= d.lde_size()
    &&& forall|i: int| 0 <= i < r2.comp_poly@.len() ==> 0 <= #[trigger] r2.comp_poly@[i]
        < prime()
    &&& (r2.comp_poly@.len() == 0 || r2.comp_poly@[r2.comp_poly@.len() - 1] != 0)
    &&& forall|i: int| 0 <= i < d.lde_size()
        ==> poly_eval(r2.comp_poly@, #[trigger] d.coset_point(i))
            == comp_point_at(air, d, lde_trace, pair_vals(tcoeffs), pair_vals(bcoeffs),
                air.boundary_spec(), d_adjs_spec(ctx), b_adj_spec(ctx) as nat, i)
    &&& all_wf(r2.composition_poly_even@)
    &&& all_wf(r2.composition_poly_odd@)
    &&& vals(r2.composition_poly_even@) == even_spec(r2.comp_poly@)
    &&& vals(r2.composition_poly_odd@) == odd_spec(r2.comp_poly@)
    &&& r2.composition_poly_even@.len() <= d.interpolation_domain_size
    &&& r2.composition_poly_odd@.len() <= d.interpolation_domain_size
    &&& all_wf(r2.lde_composition_poly_even_evaluations@)
    &&& all_wf(r2.lde_composition_poly_odd_evaluations@)
    &&& r2.lde_composition_poly_even_evaluations@.len() == d.lde_size()
    &&& r2.lde_composition_poly_odd_evaluations@.len() == d.lde_size()
    &&& forall|i: int| 0 <= i < d.lde_size()
        ==> vals(r2.lde_composition_poly_even_evaluations@)[i]
            == poly_eval(vals(r2.composition_poly_even@), #[trigger] d.coset_point(i))
        && vals(r2.lde_composition_poly_odd_evaluations@)[i]
            == poly_eval(vals(r2.composition_poly_odd@), d.coset_point(i))
    &&& r2.composition_poly_merkle_trees@.len() == 2
    &&& r2.composition_poly_roots@.len() == 2
    &&& tree_leaves(r2.composition_poly_merkle_trees@[0])
        == vals(r2.lde_composition_poly_even_evaluations@)
    &&& tree_leaves(r2.composition_poly_merkle_trees@[1])
        == vals(r2.lde_composition_poly_odd_evaluations@)
    &&& r2.composition_poly_roots@[0]@
        == merkle_root_of(vals(r2.lde_composition_poly_even_evaluations@))
    &&& r2.composition_poly_roots@[1]@
        == merkle_root_of(vals(r2.lde_composition_poly_odd_evaluations@))
}

/// The internal failure the second round can hit: the reduced, trimmed
/// polynomial that interpolates the combined constraint evaluations on the
/// coset has an even or odd half that does not fit the interpolation
/// domain (the trace supplied constraints of too high a degree).
pub open spec fn round2_halves_overflow<A: Air>(air: A, d: Domain, lde: TraceTable,
    tcoeffs: Seq<(Fe, Fe)>, bcoeffs: Seq<(Fe, Fe)>) -> bool {
    let ctx = air.ctx_spec();
    exists|h: Seq<int>|
        #![trigger even_spec(h)]
        h.len() <= d.lde_size()
        && (forall|i: int| 0 <= i < h.len() ==> 0 <= #[trigger] h[i] < prime())
        && (h.len() == 0 || h[h.len() - 1] != 0)
        && (forall|i: int| 0 <= i < d.lde_size() ==> poly_eval(h, #[trigger] d.coset_point(i))
            == comp_point_at(air, d, lde, pair_vals(tcoeffs), pair_vals(bcoeffs),
                air.boundary_spec(), d_adjs_spec(ctx), b_adj_spec(ctx) as nat, i))
        && (even_spec(h).len() > d.interpolation_domain_size
            || odd_spec(h).len() > d.interpolation_domain_size)
}

/// Build the composition polynomial from the constraint evaluations on
/// the coset, split it and commit both halves.
pub fn round_2_compute_composition_polynomial<A: Air>(air: &A, domain: &Domain,
    round_1_result: &Round1, transition_coeffs: &Vec<(Fe, Fe)>,
    boundary_coeffs: &Vec<(Fe, Fe)>) -> (r: Result<Round2, ProverError>)
    requires
        air.wf(),
        domain.wf(),
        domain.interpolation_domain_size == air.ctx_spec().trace_length,
        round_1_result.lde_trace.wf(),
        round_1_result.lde_trace.columns@.len() == air.ctx_spec().trace_columns,
        air.ctx_spec().trace_columns >= 1,
        round_1_result.lde_trace.n_rows() == domain.lde_size(),
        transition_coeffs@.len() == air.ctx_spec().num_transition_constraints,
        boundary_coeffs@.len() == air.ctx_spec().trace_columns,
        pairs_wf(transition_coeffs@),
        pairs_wf(boundary_coeffs@),
        forall|m: int| 0 <= m < air.ctx_spec().transition_offsets@.len()
            ==> (#[trigger] air.ctx_spec().transition_offsets@[m])
                < air.ctx_spec().trace_length,
    ensures
        match r {
            Ok(r2) => {
                &&& degrees_ok(air.ctx_spec())
                &&& round2_ok(*air, *domain, round_1_result.lde_trace, transition_coeffs@,
                    boundary_coeffs@, r2)
            },
            Err(e) => {
                &&& e == ProverError::Configuration || e == ProverError::InternalInvariant
                &&& e == ProverError::Configuration ==> !degrees_ok(air.ctx_spec())
                &&& e == ProverError::InternalInvariant ==> round2_halves_overflow(*air,
                    *domain, round_1_result.lde_trace, transition_coeffs@,
                    boundary_coeffs@)
            },
        },
{
    proof {
        lemma_pow2_pos(domain.root_order as nat);
        lemma_pow2_pos((domain.lde_root_order - domain.root_order) as nat);
        lemma2_to64();
        if domain.root_order > 1 {
            lemma_pow2_strictly_increases(1, domain.root_order as nat);
        }
        assert(domain.interpolation_domain_size >= 2);
    }
    let adj = match compute_degree_adjustments(air.context()) {
        Ok(adj) => adj,
        Err(_) => {
            return Err(ProverError::Configuration);
        },
    };
    let d_adjs = adj.0;
    let b_adj = adj.1;
    let boundary = air.boundary_constraints();
    proof {
        assert forall|m: int| 0 <= m < air.ctx_spec().transition_offsets@.len() implies
            (#[trigger] air.ctx_spec().transition_offsets@[m]) * domain.blowup_factor
                < domain.lde_size() by {
            lemma_mul_strict_inequality(air.ctx_spec().transition_offsets@[m] as int,
                domain.interpolation_domain_size as int, domain.blowup_factor as int);
        }
        let ctx = air.ctx_spec();
        assert(d_adjs@.len() == ctx.num_transition_constraints);
        assert forall|k: int| 0 <= k < ctx.transition_exemptions@.len() implies
            (#[trigger] ctx.transition_exemptions@[k]) <= domain.interpolation_domain_size
            by {
            assert(degree_entry_ok(ctx, k));
        }
        assert(eval_shape_ok(*air, *domain, round_1_result.lde_trace, transition_coeffs@,
            boundary_coeffs@, boundary@, d_adjs@));
    }
    let evals = evaluate_composition_evals(air, domain, &round_1_result.lde_trace,
        transition_coeffs, boundary_coeffs, &boundary, &d_adjs, b_adj);
    let comp = interpolate_offset_fft(&evals, &domain.coset_offset, domain.lde_root_order);
    proof {
        // the interpolant reproduces the combined constraint evaluations at
        // every coset point
        assert forall|i: int| 0 <= i < domain.lde_size() implies
            poly_eval(vals(comp@), #[trigger] domain.coset_point(i))
                == comp_point_at(*air, *domain, round_1_result.lde_trace,
                    pair_vals(transition_coeffs@), pair_vals(boundary_coeffs@),
                    air.boundary_spec(), d_adjs_spec(air.ctx_spec()),
                    b_adj_spec(air.ctx_spec()) as nat, i) by {
            assert(poly_eval(vals(comp@), domain.coset_point(i)) == vals(evals@)[i]);
            assert(vals(evals@)[i] == comp_point_at(*air, *domain,
                round_1_result.lde_trace, pair_vals(transition_coeffs@),
                pair_vals(boundary_coeffs@), boundary@, d_adjs@, b_adj as nat, i));
        }
        assert forall|i: int| 0 <= i < vals(comp@).len() implies
            0 <= #[trigger] vals(comp@)[i] < prime() by {
            assert(comp@[i].wf());
            assert(vals(comp@)[i] == comp@[i].val());
        }
    }
    let halves = poly_even_odd(&comp);
    let he = halves.0;
    let ho = halves.1;
    if he.len() > domain.interpolation_domain_size
        || ho.len() > domain.interpolation_domain_size {
        proof {
            let h = vals(comp@);
            assert(even_spec(h).len() > domain.interpolation_domain_size
                || odd_spec(h).len() > domain.interpolation_domain_size);
            assert(round2_halves_overflow(*air, *domain, round_1_result.lde_trace,
                transition_coeffs@, boundary_coeffs@));
        }
        return Err(ProverError::InternalInvariant);
    }
    let lde_he = evaluate_polynomial_on_lde_domain(&he, domain);
    let lde_ho = evaluate_polynomial_on_lde_domain(&ho, domain);
    proof {
        lemma_pow2_pos(domain.lde_root_order as nat);
    }
    let (tree_e, root_e) = merkle_commit(&lde_he);
    let (tree_o, root_o) = merkle_commit(&lde_ho);
    let mut composition_poly_merkle_trees: Vec<CommitTree> = Vec::new();
    composition_poly_merkle_trees.push(tree_e);
    composition_poly_merkle_trees.push(tree_o);
    let mut composition_poly_roots: Vec<[u8; 32]> = Vec::new();
    composition_poly_roots.push(root_e);
    composition_poly_roots.push(root_o);
    let r2 = Round2 {
        comp_poly: Ghost(vals(comp@)),
        composition_poly_even: he,
        lde_composition_poly_even_evaluations: lde_he,
        composition_poly_odd: ho,
        lde_composition_poly_odd_evaluations: lde_ho,
        composition_poly_merkle_trees,
        composition_poly_roots,
    };
    proof {
        assert(r2.comp_poly@ == vals(comp@));
    }
    Ok(r2)
}

/// The third round's outputs: the out-of-domain evaluations of the trace
/// polynomials and of the two composition halves.
pub struct Round3 {
    pub trace_ood_frame_evaluations: Vec<Vec<Fe>>,
    pub composition_poly_ood_evaluations: Vec<Fe>,
}

/// The third round holds exactly the values of the committed polynomials
/// at the out-of-domain point: `H_1(z^2)`, `H_2(z^2)`, and the trace frame
/// `t_j(z * g^m)` for every column `j` and offset `m`.
pub open spec fn round3_ok(d: Domain, r1: Round1, r2: Round2, z: Fe, offsets: Seq<usize>,
    r3: Round3) -> bool {
    let z2 = (z.val() * z.val()) % prime();
    let g = omega_of(d.root_order as nat);
    &&& r3.composition_poly_ood_evaluations@.len() == 2
    &&& all_wf(r3.composition_poly_ood_evaluations@)
    &&& vals(r3.composition_poly_ood_evaluations@)[0]
        == poly_eval(vals(r2.composition_poly_even@), z2)
    &&& vals(r3.composition_poly_ood_evaluations@)[1]
        == poly_eval(vals(r2.composition_poly_odd@), z2)
    &&& r3.trace_ood_frame_evaluations@.len() == offsets.len()
    &&& forall|m: int| 0 <= m < offsets.len()
        ==> (#[trigger] r3.trace_ood_frame_evaluations@[m])@.len() == r1.trace_polys@.len()
            && all_wf(r3.trace_ood_frame_evaluations@[m]@)
    &&& forall|m: int, j: int| 0 <= m < offsets.len() && 0 <= j < r1.trace_polys@.len()
        ==> vals((#[trigger] r3.trace_ood_frame_evaluations@[m])@)[j]
            == poly_eval(vals((#[trigger] r1.trace_polys@[j])@),
                ood_point(z.val(), g, offsets[m] as nat))
}

/// Evaluate every trace polynomial at `z * g^m` for each frame offset `m`.
pub fn get_trace_evaluations(trace_polys: &Vec<Vec<Fe>>, z: &Fe, offsets: &Vec<usize>,
    g: &Fe) -> (r: Vec<Vec<Fe>>)
    requires
        polys_wf(trace_polys@),
        z.wf(),
        g.wf(),
    ensures
        r@.len() == offsets@.len(),
        forall|m: int| 0 <= m < offsets@.len() ==> (#[trigger] r@[m])@.len()
            == trace_polys@.len() && all_wf(r@[m]@),
        forall|m: int, j: int| 0 <= m < offsets@.len() && 0 <= j < trace_polys@.len()
            ==> vals((#[trigger] r@[m])@)[j] == poly_eval(vals((#[trigger] trace_polys@[j])@),
                (z.val() * pow_mod(g.val(), offsets@[m] as nat)) % prime()),
{
    let mut r: Vec<Vec<Fe>> = Vec::new();
    let mut m: usize = 0;
    while m < offsets.len()
        invariant
            0 <= m <= offsets@.len(),
            polys_wf(trace_polys@),
            z.wf(),
            g.wf(),
            r@.len() == m,
            forall|u: int| 0 <= u < m ==> (#[trigger] r@[u])@.len() == trace_polys@.len()
                && all_wf(r@[u]@),
            forall|u: int, j: int| 0 <= u < m && 0 <= j < trace_polys@.len()
                ==> vals((#[trigger] r@[u])@)[j]
                    == poly_eval(vals((#[trigger] trace_polys@[j])@),
                        (z.val() * pow_mod(g.val(), offsets@[u] as nat)) % prime()),
        decreases offsets@.len() - m,
    {
        let pt = fe_mul(z, &crate::field::fe_pow(g, offsets[m] as u64));
        let mut row: Vec<Fe> = Vec::new();
        let mut j: usize = 0;
        while j < trace_polys.len()
            invariant
                0 <= j <= trace_polys@.len(),
                polys_wf(trace_polys@),
                pt.wf(),
                pt.val() == (z.val() * pow_mod(g.val(), offsets@[m as int] as nat)) % prime(),
                z.wf(),
                g.wf(),
                0 <= m < offsets@.len(),
                row@.len() == j,
                all_wf(row@),
                forall|u: int| 0 <= u < j ==> vals(row@)[u]
                    == poly_eval(vals((#[trigger] trace_polys@[u])@), pt.val()),
            decreases trace_polys@.len() - j,
        {
            proof {
                assert(all_wf(trace_polys@[j as int]@));
            }
            let ev = poly_eval_at(&trace_polys[j], &pt);
            let ghost row_old = row@;
            row.push(ev);
            proof {
                assert forall|u: int| 0 <= u < row@.len() implies vals(row@)[u]
                    == poly_eval(vals((#[trigger] trace_polys@[u])@), pt.val()) by {
                    assert(vals(row@)[u] == row@[u].val());
                    if u < j {
                        assert(row@[u] == row_old[u]);
                        assert(vals(row_old)[u] == row_old[u].val());
                    }
                }
            }
            j = j + 1;
        }
        r.push(row);
        m = m + 1;
    }
    r
}

/// Evaluate the composition halves at `z^2` and the trace polynomials on
/// the out-of-domain frame.
pub fn round_3_evaluate_polynomials_in_out_of_domain_element<A: Air>(air: &A,
    domain: &Domain, round_1_result: &Round1, round_2_result: &Round2, z: &Fe)
    -> (r: Round3)
    requires
        air.wf(),
        domain.wf(),
        z.wf(),
        polys_wf(round_1_result.trace_polys@),
        all_wf(round_2_result.composition_poly_even@),
        all_wf(round_2_result.composition_poly_odd@),
    ensures
        round3_ok(*domain, *round_1_result, *round_2_result, *z,
            air.ctx_spec().transition_offsets@, r),
{
    let z_squared = fe_mul(z, z);
    let ev_e = poly_eval_at(&round_2_result.composition_poly_even, &z_squared);
    let ev_o = poly_eval_at(&round_2_result.composition_poly_odd, &z_squared);
    let mut composition_poly_ood_evaluations: Vec<Fe> = Vec::new();
    composition_poly_ood_evaluations.push(ev_e);
    composition_poly_ood_evaluations.push(ev_o);
    let ctx = air.context();
    let trace_ood_frame_evaluations = get_trace_evaluations(&round_1_result.trace_polys, z,
        &ctx.transition_offsets, &domain.trace_primitive_root);
    let r = Round3 {
        trace_ood_frame_evaluations,
        composition_poly_ood_evaluations,
    };
    proof {
        assert(vals(r.composition_poly_ood_evaluations@)[0] == ev_e.val());
        assert(vals(r.composition_poly_ood_evaluations@)[1] == ev_o.val());
    }
    r
}

/// Whether a vector of field elements holds the given value.
fn contains_val(v: &Vec<Fe>, x: &Fe) -> (r: bool)
    requires
        all_wf(v@),
        x.wf(),
    ensures
        r <==> vals(v@).contains(x.val()),
{
    let mut i: usize = 0;
    while i < v.len()
        invariant
            0 <= i <= v@.len(),
            all_wf(v@),
            x.wf(),
            forall|u: int| 0 <= u < i ==> vals(v@)[u] != x.val(),
        decreases v@.len() - i,
    {
        proof {
            assert(v@[i as int].wf());
            assert(vals(v@)[i as int] == v@[i as int].val());
        }
        if fe_eq(&v[i], x) {
            proof {
                assert(vals(v@)[i as int] == x.val());
            }
            return true;
        }
        i = i + 1;
    }
    proof {
        if vals(v@).contains(x.val()) {
            let u = choose|u: int| 0 <= u < vals(v@).len() && vals(v@)[u] == x.val();
            assert(false);
        }
    }
    false
}

/// Whether the `k`-th challenge drawn from state `s` lies outside both
/// excluded sets, so that rejection sampling accepts it.
pub open spec fn z_attempt_ok(s: Seq<u8>, coset: Seq<int>, roots: Seq<int>, k: nat) -> bool {
    let z = crate::transcript::fe_challenge_of(crate::transcript::chained_state(s, k));
    !coset.contains(z) && !roots.contains(z)
}

/// Sample the out-of-domain point `z`: a field challenge rejected until it
/// lies outside both the LDE coset and the trace subgroup. The result is
/// the first acceptable challenge in the deterministic sample chain. Gives
/// up after a fixed number of attempts, which a sound hash makes all but
/// impossible.
pub fn sample_z_ood(lde_roots_of_unity_coset: &Vec<Fe>, trace_roots_of_unity: &Vec<Fe>,
    t: &mut Transcript) -> (r: Result<Fe, ProverError>)
    requires
        all_wf(lde_roots_of_unity_coset@),
        all_wf(trace_roots_of_unity@),
    ensures
        match r {
            Ok(z) => {
                &&& z.wf()
                &&& !vals(lde_roots_of_unity_coset@).contains(z.val())
                &&& !vals(trace_roots_of_unity@).contains(z.val())
                &&& exists|k: nat| k < 128 && z.val() == crate::transcript::fe_challenge_of(
                        #[trigger] crate::transcript::chained_state(
                            crate::transcript::transcript_read(*old(t)), k))
                    && (forall|u: nat| u < k ==> !z_attempt_ok(
                        crate::transcript::transcript_read(*old(t)),
                        vals(lde_roots_of_unity_coset@), vals(trace_roots_of_unity@), u))
                    && crate::transcript::transcript_read(*final(t))
                        == crate::transcript::chained_state(
                            crate::transcript::transcript_read(*old(t)), (k + 1) as nat)
            },
            Err(e) => {
                &&& e == ProverError::InternalInvariant
                &&& forall|u: nat| u < 128 ==> !z_attempt_ok(
                    crate::transcript::transcript_read(*old(t)),
                    vals(lde_roots_of_unity_coset@), vals(trace_roots_of_unity@), u)
            },
        },
{
    let ghost s0 = crate::transcript::transcript_read(*t);
    let ghost coset = vals(lde_roots_of_unity_coset@);
    let ghost roots = vals(trace_roots_of_unity@);
    let mut attempt: usize = 0;
    while attempt < 128
        invariant
            0 <= attempt <= 128,
            s0 == crate::transcript::transcript_read(*old(t)),
            all_wf(lde_roots_of_unity_coset@),
            all_wf(trace_roots_of_unity@),
            coset == vals(lde_roots_of_unity_coset@),
            roots == vals(trace_roots_of_unity@),
            crate::transcript::transcript_read(*t)
                == crate::transcript::chained_state(s0, attempt as nat),
            forall|u: nat| u < attempt ==> !z_attempt_ok(s0, coset, roots, u),
        decreases 128 - attempt,
    {
        let z = challenge_fe(t);
        let in_coset = contains_val(lde_roots_of_unity_coset, &z);
        let in_subgroup = contains_val(trace_roots_of_unity, &z);
        proof {
            assert(crate::transcript::chained_state(s0, (attempt + 1) as nat)
                == crate::transcript::sample_of(crate::transcript::chained_state(s0,
                    attempt as nat)));
        }
        if !in_coset && !in_subgroup {
            proof {
                assert(z.val() == crate::transcript::fe_challenge_of(
                    crate::transcript::chained_state(s0, attempt as nat)));
                let os = crate::transcript::transcript_read(*old(t));
                assert(s0 == os);
                assert(exists|k: nat| k < 128 && z.val()
                    == crate::transcript::fe_challenge_of(
                        #[trigger] crate::transcript::chained_state(os, k))
                    && (forall|u: nat| u < k ==> !z_attempt_ok(os,
                        vals(lde_roots_of_unity_coset@), vals(trace_roots_of_unity@), u))
                    && crate::transcript::transcript_read(*t)
                        == crate::transcript::chained_state(os, (k + 1) as nat)) by {
                    assert(z.val() == crate::transcript::fe_challenge_of(
                        crate::transcript::chained_state(os, attempt as nat))
                        && (forall|u: nat| u < attempt as nat ==> !z_attempt_ok(os,
                            vals(lde_roots_of_unity_coset@), vals(trace_roots_of_unity@), u))
                        && crate::transcript::transcript_read(*t)
                            == crate::transcript::chained_state(os, (attempt + 1) as nat));
                }
            }
            return Ok(z);
        }
        proof {
            assert(!z_attempt_ok(s0, coset, roots, attempt as nat));
        }
        attempt = attempt + 1;
    }
    proof {
        let os = crate::transcript::transcript_read(*old(t));
        assert forall|u: nat| u < 128 implies !z_attempt_ok(os,
            vals(lde_roots_of_unity_coset@), vals(trace_roots_of_unity@), u) by {
            assert(!z_attempt_ok(s0, coset, roots, u));
        }
    }
    Err(ProverError::InternalInvariant)
}

/// The deep consistency openings are the trace and composition columns at
/// the shared index, with their authentication paths.
pub open spec fn dcc_ok(d: Domain, r1: Round1, r2: Round2, index: int,
    c: DeepConsistencyCheck) -> bool {
    let w = r1.lde_trace.columns@.len();
    &&& c.lde_trace_merkle_proofs@.len() == w
    &&& forall|j: int| 0 <= j < w ==> (#[trigger] c.lde_trace_merkle_proofs@[j])@.map_values(
        |a: [u8; 32]| a@) == merkle_path_of(r1.lde_trace.view_cols()[j], index)
    &&& c.lde_trace_evaluations@.len() == w
    &&& all_wf(c.lde_trace_evaluations@)
    &&& forall|j: int| 0 <= j < w ==> vals(c.lde_trace_evaluations@)[j]
        == r1.lde_trace.view_cols()[j][index]
    &&& c.lde_composition_poly_proofs@.len() == 2
    &&& c.lde_composition_poly_proofs@[0]@.map_values(|a: [u8; 32]| a@)
        == merkle_path_of(vals(r2.lde_composition_poly_even_evaluations@), index)
    &&& c.lde_composition_poly_proofs@[1]@.map_values(|a: [u8; 32]| a@)
        == merkle_path_of(vals(r2.lde_composition_poly_odd_evaluations@), index)
    &&& c.lde_composition_poly_evaluations@.len() == 2
    &&& all_wf(c.lde_composition_poly_evaluations@)
    &&& vals(c.lde_composition_poly_evaluations@)[0]
        == vals(r2.lde_composition_poly_even_evaluations@)[index]
    &&& vals(c.lde_composition_poly_evaluations@)[1]
        == vals(r2.lde_composition_poly_odd_evaluations@)[index]
}

/// Open every trace column and both composition columns at the first
/// query's index.
pub fn build_deep_consistency_check(domain: &Domain, round_1_result: &Round1,
    round_2_result: &Round2, index_to_open: usize) -> (r: DeepConsistencyCheck)
    requires
        domain.wf(),
        round_1_result.lde_trace.wf(),
        round_1_result.lde_trace.n_rows() == domain.lde_size(),
        round_1_result.lde_trace.columns@.len() >= 1,
        round_1_result.lde_trace_merkle_trees@.len()
            == round_1_result.lde_trace.columns@.len(),
        forall|j: int| 0 <= j < round_1_result.lde_trace.columns@.len()
            ==> tree_leaves(#[trigger] round_1_result.lde_trace_merkle_trees@[j])
                == round_1_result.lde_trace.view_cols()[j],
        index_to_open < domain.lde_size(),
        all_wf(round_2_result.lde_composition_poly_even_evaluations@),
        all_wf(round_2_result.lde_composition_poly_odd_evaluations@),
        round_2_result.lde_composition_poly_even_evaluations@.len() == domain.lde_size(),
        round_2_result.lde_composition_poly_odd_evaluations@.len() == domain.lde_size(),
        round_2_result.composition_poly_merkle_trees@.len() == 2,
        tree_leaves(round_2_result.composition_poly_merkle_trees@[0])
            == vals(round_2_result.lde_composition_poly_even_evaluations@),
        tree_leaves(round_2_result.composition_poly_merkle_trees@[1])
            == vals(round_2_result.lde_composition_poly_odd_evaluations@),
    ensures
        dcc_ok(*domain, *round_1_result, *round_2_result, index_to_open as int, r),
{
    let index = index_to_open;
    let w = round_1_result.lde_trace.columns.len();
    let mut lde_trace_merkle_proofs: Vec<Vec<[u8; 32]>> = Vec::new();
    let mut j: usize = 0;
    while j < w
        invariant
            0 <= j <= w,
            w == round_1_result.lde_trace.columns@.len(),
            domain.wf(),
            round_1_result.lde_trace.wf(),
            round_1_result.lde_trace.n_rows() == domain.lde_size(),
            round_1_result.lde_trace_merkle_trees@.len() == w,
            forall|u: int| 0 <= u < w
                ==> tree_leaves(#[trigger] round_1_result.lde_trace_merkle_trees@[u])
                    == round_1_result.lde_trace.view_cols()[u],
            index < domain.lde_size(),
            lde_trace_merkle_proofs@.len() == j,
            forall|u: int| 0 <= u < j ==> (#[trigger] lde_trace_merkle_proofs@[u])@
                .map_values(|a: [u8; 32]| a@)
                == merkle_path_of(round_1_result.lde_trace.view_cols()[u], index as int),
        decreases w - j,
    {
        proof {
            assert(round_1_result.lde_trace.view_cols()[j as int]
                == vals(round_1_result.lde_trace.columns@[j as int]@));
            assert(round_1_result.lde_trace.columns@[j as int]@.len()
                == round_1_result.lde_trace.n_rows());
        }
        let path = merkle_open(&round_1_result.lde_trace_merkle_trees[j], index);
        lde_trace_merkle_proofs.push(path);
        j = j + 1;
    }
    let lde_trace_evaluations = round_1_result.lde_trace.get_row(index);
    let mut lde_composition_poly_proofs: Vec<Vec<[u8; 32]>> = Vec::new();
    let p0 = merkle_open(&round_2_result.composition_poly_merkle_trees[0], index);
    let p1 = merkle_open(&round_2_result.composition_poly_merkle_trees[1], index);
    lde_composition_poly_proofs.push(p0);
    lde_composition_poly_proofs.push(p1);
    let mut lde_composition_poly_evaluations: Vec<Fe> = Vec::new();
    let e0 = round_2_result.lde_composition_poly_even_evaluations[index];
    let e1 = round_2_result.lde_composition_poly_odd_evaluations[index];
    lde_composition_poly_evaluations.push(e0);
    lde_composition_poly_evaluations.push(e1);
    let r = DeepConsistencyCheck {
        lde_trace_merkle_proofs,
        lde_composition_poly_proofs,
        lde_trace_evaluations,
        lde_composition_poly_evaluations,
    };
    proof {
        assert(round_2_result.lde_composition_poly_even_evaluations@[index as int].wf());
        assert(round_2_result.lde_composition_poly_odd_evaluations@[index as int].wf());
        assert(vals(r.lde_composition_poly_evaluations@)[0] == e0.val());
        assert(vals(r.lde_composition_poly_evaluations@)[1] == e1.val());
        assert(vals(round_2_result.lde_composition_poly_even_evaluations@)[index as int]
            == e0.val());
        assert(vals(round_2_result.lde_composition_poly_odd_evaluations@)[index as int]
            == e1.val());
    }
    r
}

/// The fourth round's outputs: the FRI transcript of the DEEP composition
/// polynomial, the query openings and the deep consistency openings.
pub struct Round4 {
    pub fri_last_value: Fe,
    pub fri_layers_merkle_roots: Vec<[u8; 32]>,
    pub deep_consistency_check: DeepConsistencyCheck,
    pub query_list: Vec<FriDecommitment>,
    /// The FRI layers, kept for the statement of what the round computed.
    pub fri_layers: Ghost<Seq<FriLayer>>,
    /// The query indexes the transcript sampled.
    pub query_iotas: Ghost<Seq<int>>,
    /// The sampled DEEP coefficients: the trace coefficients, then the two
    /// composition coefficients.
    pub deep_coeffs: Ghost<(Seq<int>, int, int)>,
    /// The challenge of the final fold, which yields the last value.
    pub final_zeta: Ghost<int>,
}

/// The fourth round is consistent with the earlier rounds: the FRI layers
/// start from the DEEP composition polynomial built with the sampled
/// coefficients, each layer folds the one before it and commits its
/// evaluations on the squared coset, the queries open the layers at the
/// sampled indexes, and the deep consistency check opens all commitments
/// at the first query's index.
pub open spec fn round4_ok(d: Domain, r1: Round1, r2: Round2, z: Fe, offsets: Seq<usize>,
    number_of_queries: int, r4: Round4) -> bool {
    &&& r4.fri_layers@.len() == d.lde_root_order
    &&& forall|s: int| 0 <= s < r4.fri_layers@.len()
        ==> fri_layer_ok(#[trigger] r4.fri_layers@[s], (d.lde_root_order - s) as nat,
            pow_mod(d.coset_offset.val(), pow2(s as nat)))
    &&& forall|s: int| 0 < s < r4.fri_layers@.len()
        ==> fri_fold_ok(r4.fri_layers@[s - 1], #[trigger] r4.fri_layers@[s])
    &&& r4.fri_layers@[0].poly@ == deep_poly_spec(polys_vals(r1.trace_polys@),
        vals(r2.composition_poly_even@), vals(r2.composition_poly_odd@), z.val(),
        omega_of(d.root_order as nat), offsets, r4.deep_coeffs@.0, r4.deep_coeffs@.1,
        r4.deep_coeffs@.2)
    &&& r4.fri_layers_merkle_roots@.len() == d.lde_root_order
    &&& forall|s: int| 0 <= s < r4.fri_layers_merkle_roots@.len()
        ==> (#[trigger] r4.fri_layers_merkle_roots@[s])@
            == merkle_root_of(vals(r4.fri_layers@[s].evaluations@))
    &&& r4.fri_last_value.wf()
    &&& r4.fri_last_value.val() == crate::fri::last_fold_value(
        r4.fri_layers@[d.lde_root_order - 1].poly@, r4.final_zeta@)
    &&& r4.query_list@.len() == number_of_queries
    &&& r4.query_iotas@.len() == number_of_queries
    &&& forall|q: int| 0 <= q < r4.query_list@.len()
        ==> decommit_ok(r4.fri_layers@, #[trigger] r4.query_list@[q], r4.query_iotas@[q])
    &&& number_of_queries > 0 ==> 0 <= r4.query_iotas@[0] < d.lde_size()
        && dcc_ok(d, r1, r2, r4.query_iotas@[0], r4.deep_consistency_check)
}

/// The challenges of the fourth round are the deterministic continuation
/// of the Fiat-Shamir chain from the state `s0` the round starts in: the
/// DEEP coefficients first, then one fold challenge per FRI layer, then
/// the query indexes.
#[verifier::opaque]
pub open spec fn round4_challenges_ok(ctx: AirContext, s0: Seq<u8>, r4: Round4) -> bool {
    let n_lam = (ctx.trace_columns * ctx.transition_offsets@.len()) as nat;
    let s_fri = crate::transcript::chained_state(s0, (n_lam + 2) as nat);
    let roots = r4.fri_layers_merkle_roots@;
    let s_query = crate::fri::fri_state(s_fri, roots, roots.len() as int)
        + r4.fri_last_value.bytes@;
    &&& r4.deep_coeffs@.0 == crate::transcript::chained_challenges(s0, n_lam)
    &&& r4.deep_coeffs@.1 == crate::transcript::fe_challenge_of(
        crate::transcript::chained_state(s0, n_lam))
    &&& r4.deep_coeffs@.2 == crate::transcript::fe_challenge_of(
        crate::transcript::chained_state(s0, (n_lam + 1) as nat))
    &&& forall|s: int| 0 < s < r4.fri_layers@.len() ==> (#[trigger] r4.fri_layers@[s]).zeta@
        == crate::transcript::fe_challenge_of(crate::fri::fri_state(s_fri, roots, s - 1)
            + roots[s - 1]@)
    &&& r4.final_zeta@ == crate::transcript::fe_challenge_of(crate::fri::fri_state(s_fri,
        roots, roots.len() - 1) + roots[roots.len() - 1]@)
    &&& forall|q: int| 0 <= q < r4.query_iotas@.len() ==> #[trigger] r4.query_iotas@[q]
        == crate::transcript::index_challenge_of(crate::transcript::chained_state(s_query,
            q as nat)) % (r4.fri_layers@[0].evaluations@.len() as int)
}

/// Sample the DEEP coefficients and build the DEEP composition polynomial;
/// it always fits the LDE coset, since every quotient is shorter than the
/// trace length.
#[verifier::spinoff_prover]
fn build_deep_polynomial<A: Air>(air: &A, domain: &Domain, round_1_result: &Round1,
    round_2_result: &Round2, z: &Fe, t: &mut Transcript)
    -> (r: (Vec<Fe>, Ghost<Seq<int>>, Ghost<int>, Ghost<int>))
    requires
        air.wf(),
        domain.wf(),
        z.wf(),
        polys_wf(round_1_result.trace_polys@),
        round_1_result.trace_polys@.len() == air.ctx_spec().trace_columns,
        forall|j: int| 0 <= j < round_1_result.trace_polys@.len()
            ==> (#[trigger] round_1_result.trace_polys@[j])@.len()
                <= domain.interpolation_domain_size,
        all_wf(round_2_result.composition_poly_even@),
        all_wf(round_2_result.composition_poly_odd@),
        round_2_result.composition_poly_even@.len() <= domain.interpolation_domain_size,
        round_2_result.composition_poly_odd@.len() <= domain.interpolation_domain_size,
        air.ctx_spec().transition_offsets@.len() >= 1,
        air.ctx_spec().trace_columns * air.ctx_spec().transition_offsets@.len()
            <= usize::MAX,
    ensures
        all_wf(r.0@),
        vals(r.0@) == deep_poly_spec(polys_vals(round_1_result.trace_polys@),
            vals(round_2_result.composition_poly_even@),
            vals(round_2_result.composition_poly_odd@), z.val(),
            omega_of(domain.root_order as nat), air.ctx_spec().transition_offsets@, r.1@,
            r.2@, r.3@),
        r.0@.len() <= pow2(domain.lde_root_order as nat),
        r.1@ == crate::transcript::chained_challenges(
            crate::transcript::transcript_read(*old(t)), (air.ctx_spec().trace_columns
                * air.ctx_spec().transition_offsets@.len()) as nat),
        r.2@ == crate::transcript::fe_challenge_of(crate::transcript::chained_state(
            crate::transcript::transcript_read(*old(t)), (air.ctx_spec().trace_columns
                * air.ctx_spec().transition_offsets@.len()) as nat)),
        r.3@ == crate::transcript::fe_challenge_of(crate::transcript::chained_state(
            crate::transcript::transcript_read(*old(t)), (air.ctx_spec().trace_columns
                * air.ctx_spec().transition_offsets@.len() + 1) as nat)),
        crate::transcript::transcript_read(*final(t)) == crate::transcript::chained_state(
            crate::transcript::transcript_read(*old(t)), (air.ctx_spec().trace_columns
                * air.ctx_spec().transition_offsets@.len() + 2) as nat),
{
    let ctx = air.context();
    let n_lambdas = ctx.trace_columns * ctx.transition_offsets.len();
    let lambdas = batch_sample_challenges(t, n_lambdas);
    proof {
        assert(vals(lambdas@).len() == lambdas@.len());
        assert(lambdas@.len() == n_lambdas);
    }
    let gamma_1 = challenge_fe(t);
    let gamma_2 = challenge_fe(t);
    let deep_composition_poly = compute_deep_composition_poly(&round_1_result.trace_polys,
        &round_2_result.composition_poly_even, &round_2_result.composition_poly_odd, z,
        &domain.trace_primitive_root, &ctx.transition_offsets, &gamma_1, &gamma_2, &lambdas);
    proof {
        assert(deep_composition_poly@.len() <= pow2(domain.lde_root_order as nat)) by {
            lemma_pow2_pos(domain.root_order as nat);
            assert forall|j: int| 0 <= j < polys_vals(round_1_result.trace_polys@).len()
                implies (#[trigger] polys_vals(round_1_result.trace_polys@)[j]).len()
                    <= domain.interpolation_domain_size as int by {
                assert(polys_vals(round_1_result.trace_polys@)[j]
                    == vals(round_1_result.trace_polys@[j]@));
            }
            crate::deep::lemma_deep_poly_spec_len(polys_vals(round_1_result.trace_polys@),
                vals(round_2_result.composition_poly_even@),
                vals(round_2_result.composition_poly_odd@), z.val(),
                omega_of(domain.root_order as nat), ctx.transition_offsets@, vals(lambdas@),
                gamma_1.val(), gamma_2.val(), domain.interpolation_domain_size as int);
            if domain.root_order < domain.lde_root_order {
                lemma_pow2_strictly_increases(domain.root_order as nat,
                    domain.lde_root_order as nat);
            }
        }
    }
    (deep_composition_poly, Ghost(vals(lambdas@)), Ghost(gamma_1.val()),
        Ghost(gamma_2.val()))
}

/// Sample the DEEP coefficients, build the DEEP composition polynomial,
/// run the FRI commit and query phases on it, and open the deep
/// consistency positions.
#[verifier::rlimit(100)]
#[verifier::spinoff_prover]
pub fn round_4_compute_and_run_fri_on_the_deep_composition_polynomial<A: Air>(air: &A,
    domain: &Domain, round_1_result: &Round1, round_2_result: &Round2, z: &Fe,
    t: &mut Transcript) -> (r4: Round4)
    requires
        air.wf(),
        domain.wf(),
        z.wf(),
        polys_wf(round_1_result.trace_polys@),
        round_1_result.trace_polys@.len() == air.ctx_spec().trace_columns,
        forall|j: int| 0 <= j < round_1_result.trace_polys@.len()
            ==> (#[trigger] round_1_result.trace_polys@[j])@.len()
                <= domain.interpolation_domain_size,
        round_1_result.lde_trace.wf(),
        round_1_result.lde_trace.n_rows() == domain.lde_size(),
        round_1_result.lde_trace.columns@.len() >= 1,
        round_1_result.lde_trace_merkle_trees@.len()
            == round_1_result.lde_trace.columns@.len(),
        forall|j: int| 0 <= j < round_1_result.lde_trace.columns@.len()
            ==> tree_leaves(#[trigger] round_1_result.lde_trace_merkle_trees@[j])
                == round_1_result.lde_trace.view_cols()[j],
        all_wf(round_2_result.composition_poly_even@),
        all_wf(round_2_result.composition_poly_odd@),
        round_2_result.composition_poly_even@.len() <= domain.interpolation_domain_size,
        round_2_result.composition_poly_odd@.len() <= domain.interpolation_domain_size,
        all_wf(round_2_result.lde_composition_poly_even_evaluations@),
        all_wf(round_2_result.lde_composition_poly_odd_evaluations@),
        round_2_result.lde_composition_poly_even_evaluations@.len() == domain.lde_size(),
        round_2_result.lde_composition_poly_odd_evaluations@.len() == domain.lde_size(),
        round_2_result.composition_poly_merkle_trees@.len() == 2,
        tree_leaves(round_2_result.composition_poly_merkle_trees@[0])
            == vals(round_2_result.lde_composition_poly_even_evaluations@),
        tree_leaves(round_2_result.composition_poly_merkle_trees@[1])
            == vals(round_2_result.lde_composition_poly_odd_evaluations@),
        air.ctx_spec().transition_offsets@.len() >= 1,
        air.ctx_spec().trace_columns * air.ctx_spec().transition_offsets@.len()
            <= usize::MAX,
        1 <= air.ctx_spec().options.fri_number_of_queries,
    ensures
        round4_ok(*domain, *round_1_result, *round_2_result, *z,
            air.ctx_spec().transition_offsets@,
            air.ctx_spec().options.fri_number_of_queries as int, r4),
        round4_challenges_ok(air.ctx_spec(), crate::transcript::transcript_read(*old(t)),
            r4),
{
    let ctx = air.context();
    let deep = build_deep_polynomial(air, domain, round_1_result, round_2_result, z, t);
    let deep_composition_poly = deep.0;
    let ghost lam = deep.1@;
    let ghost gamma_1v = deep.2@;
    let ghost gamma_2v = deep.3@;
    let n = domain.lde_roots_of_unity_coset.len();
    let fri = fri_commit_phase(deep_composition_poly, &domain.coset_offset,
        domain.lde_root_order, n, t);
    let fri_last_value = fri.0;
    let fri_layers = fri.1;
    let fri_layers_merkle_roots = fri.2;
    let ghost final_zeta = fri.3@;
    proof {
        lemma_pow2_pos(domain.lde_root_order as nat);
        assert forall|s: int| 0 <= s < fri_layers@.len() implies
            all_wf((#[trigger] fri_layers@[s]).evaluations@)
                && tree_leaves(fri_layers@[s].merkle_tree) == vals(fri_layers@[s].evaluations@)
                && fri_layers@[s].evaluations@.len() >= 1 by {
            assert(fri_layer_ok(fri_layers@[s], (domain.lde_root_order - s) as nat,
                pow_mod(domain.coset_offset.val(), pow2(s as nat))));
            lemma_pow2_pos((domain.lde_root_order - s) as nat);
        }
    }
    let queries = fri_query_phase(&fri_layers, ctx.options.fri_number_of_queries, t);
    let query_list = queries.0;
    let iota_0 = queries.1;
    let ghost iotas = queries.2@;
    proof {
        assert(fri_layers@[0].evaluations@.len() == pow2(domain.lde_root_order as nat));
    }
    let deep_consistency_check = build_deep_consistency_check(domain, round_1_result,
        round_2_result, iota_0);
    let r4 = Round4 {
        fri_last_value,
        fri_layers_merkle_roots,
        deep_consistency_check,
        query_list,
        fri_layers: Ghost(fri_layers@),
        query_iotas: Ghost(iotas),
        deep_coeffs: Ghost((lam, gamma_1v, gamma_2v)),
        final_zeta: Ghost(final_zeta),
    };
    proof {
        assert(decommit_ok(fri_layers@, r4.query_list@[0], iota_0 as int));
        assert(r4.query_iotas@[0] == iota_0 as int);
        assert(round4_challenges_ok(air.ctx_spec(),
            crate::transcript::transcript_read(*old(t)), r4)) by {
            reveal(round4_challenges_ok);
        }
    }
    r4
}

/// Everything one run of the prover computed, for stating what the proof
/// contains.
pub struct ProverRun {
    pub domain: Domain,
    pub round1: Round1,
    pub boundary_coeffs: Vec<(Fe, Fe)>,
    pub transition_coeffs: Vec<(Fe, Fe)>,
    pub round2: Round2,
    pub z: Fe,
    pub round3: Round3,
    pub round4: Round4,
}

/// The shape conditions on the trace and the AIR bookkeeping that the
/// prover checks before doing any work.
pub open spec fn prove_shape_ok(ctx: AirContext, trace: TraceTable) -> bool {
    &&& trace.columns@.len() == ctx.trace_columns
    &&& ctx.trace_columns >= 1
    &&& trace.n_rows() == ctx.trace_length
    &&& ctx.transition_offsets@.len() >= 1
    &&& forall|m: int| 0 <= m < ctx.transition_offsets@.len()
        ==> (#[trigger] ctx.transition_offsets@[m]) < ctx.trace_length
    &&& ctx.trace_columns * ctx.transition_offsets@.len() <= usize::MAX
    &&& 1 <= ctx.options.fri_number_of_queries <= 256
}

/// The bytes of the first `j` Merkle roots, in absorb order.
pub open spec fn absorbed_roots(roots: Seq<[u8; 32]>, j: int) -> Seq<u8>
    decreases j,
{
    if j <= 0 {
        Seq::empty()
    } else {
        absorbed_roots(roots, j - 1) + roots[j - 1]@
    }
}

/// The bytes of the first `j` values of one out-of-domain frame row, in
/// absorb order.
pub open spec fn row_bytes(row: Seq<Fe>, j: int) -> Seq<u8>
    decreases j,
{
    if j <= 0 {
        Seq::empty()
    } else {
        row_bytes(row, j - 1) + row[j - 1].bytes@
    }
}

/// The bytes of the first `m` out-of-domain frame rows, in absorb order.
pub open spec fn frame_bytes(rows: Seq<Vec<Fe>>, m: int) -> Seq<u8>
    decreases m,
{
    if m <= 0 {
        Seq::empty()
    } else {
        frame_bytes(rows, m - 1) + row_bytes(rows[m - 1]@, rows[m - 1]@.len() as int)
    }
}

/// Everything the third round absorbs: the two out-of-domain composition
/// values, then every frame row in order.
pub open spec fn ood_bytes(r3: Round3) -> Seq<u8> {
    r3.composition_poly_ood_evaluations@[0].bytes@
        + r3.composition_poly_ood_evaluations@[1].bytes@
        + frame_bytes(r3.trace_ood_frame_evaluations@,
            r3.trace_ood_frame_evaluations@.len() as int)
}

/// The transcript state after the four challenge batches of round 2 are
/// drawn: the absorbed trace roots, then two boundary and two transition
/// batches.
pub open spec fn state_after_coeffs(ctx: AirContext, roots: Seq<[u8; 32]>) -> Seq<u8> {
    let w = ctx.trace_columns as nat;
    let ntc = ctx.num_transition_constraints as nat;
    crate::transcript::chained_state(crate::transcript::chained_state(
        crate::transcript::chained_state(crate::transcript::chained_state(
            absorbed_roots(roots, roots.len() as int), w), w), ntc), ntc)
}

/// The boundary and transition challenge pairs are the four batches drawn
/// in order after absorbing the trace roots.
pub open spec fn coeffs_chain_ok(ctx: AirContext, roots: Seq<[u8; 32]>, bc: Seq<(Fe, Fe)>,
    tc: Seq<(Fe, Fe)>) -> bool {
    let w = ctx.trace_columns as nat;
    let ntc = ctx.num_transition_constraints as nat;
    let s1 = absorbed_roots(roots, roots.len() as int);
    let s2 = crate::transcript::chained_state(s1, w);
    let s3 = crate::transcript::chained_state(s2, w);
    let s4 = crate::transcript::chained_state(s3, ntc);
    &&& forall|i: int| 0 <= i < w ==> (#[trigger] bc[i]).0.val()
        == crate::transcript::chained_challenges(s1, w)[i]
        && bc[i].1.val() == crate::transcript::chained_challenges(s2, w)[i]
    &&& forall|i: int| 0 <= i < ntc ==> (#[trigger] tc[i]).0.val()
        == crate::transcript::chained_challenges(s3, ntc)[i]
        && tc[i].1.val() == crate::transcript::chained_challenges(s4, ntc)[i]
}

/// The transcript state after the two composition roots are absorbed.
pub open spec fn state_after_round2(ctx: AirContext, roots: Seq<[u8; 32]>,
    comp_roots: Seq<[u8; 32]>) -> Seq<u8> {
    state_after_coeffs(ctx, roots) + comp_roots[0]@ + comp_roots[1]@
}

/// Everything the prover computes before the out-of-domain point is
/// sampled: the domain, the committed trace, and the challenge pairs,
/// consistent with the trace and the transcript chain.
pub open spec fn prover_prefix_ok<A: Air>(air: A, trace: TraceTable, d: Domain, r1: Round1,
    bc: Vec<(Fe, Fe)>, tc: Vec<(Fe, Fe)>) -> bool {
    let ctx = air.ctx_spec();
    &&& d.wf()
    &&& d.interpolation_domain_size == ctx.trace_length
    &&& d.blowup_factor == ctx.options.blowup_factor as int
    &&& d.coset_offset.val() == ctx.options.coset_offset as int
    &&& round1_ok(d, trace, r1)
    &&& bc@.len() == ctx.trace_columns
    &&& tc@.len() == ctx.num_transition_constraints
    &&& pairs_wf(bc@)
    &&& pairs_wf(tc@)
    &&& coeffs_chain_ok(ctx, r1.lde_trace_merkle_roots@, bc@, tc@)
}

/// The later challenges of one run continue the deterministic Fiat-Shamir
/// chain: the out-of-domain point is the first acceptable challenge after
/// absorbing the composition roots, and the fourth round's challenges
/// follow from the state after the out-of-domain evaluations.
pub open spec fn run_challenges_ok<A: Air>(air: A, run: ProverRun) -> bool {
    let ctx = air.ctx_spec();
    let s6 = state_after_round2(ctx, run.round1.lde_trace_merkle_roots@,
        run.round2.composition_poly_roots@);
    exists|k: nat| k < 128 && run.z.val() == crate::transcript::fe_challenge_of(
            #[trigger] crate::transcript::chained_state(s6, k))
        && (forall|u: nat| u < k ==> !z_attempt_ok(s6,
            vals(run.domain.lde_roots_of_unity_coset@),
            vals(run.domain.trace_roots_of_unity@), u))
        && round4_challenges_ok(ctx, crate::transcript::chained_state(s6, (k + 1) as nat)
            + ood_bytes(run.round3), run.round4)
}

/// One prover run is consistent from end to end: the domain fits the AIR,
/// every round is consistent with the rounds before it, and the
/// out-of-domain point lies outside both evaluation domains.
pub open spec fn prover_run_ok<A: Air>(air: A, trace: TraceTable, run: ProverRun) -> bool {
    let ctx = air.ctx_spec();
    &&& prover_prefix_ok(air, trace, run.domain, run.round1, run.boundary_coeffs,
        run.transition_coeffs)
    &&& round2_ok(air, run.domain, run.round1.lde_trace, run.transition_coeffs@,
        run.boundary_coeffs@, run.round2)
    &&& run.z.wf()
    &&& !vals(run.domain.lde_roots_of_unity_coset@).contains(run.z.val())
    &&& !vals(run.domain.trace_roots_of_unity@).contains(run.z.val())
    &&& round3_ok(run.domain, run.round1, run.round2, run.z, ctx.transition_offsets@,
        run.round3)
    &&& round4_ok(run.domain, run.round1, run.round2, run.z, ctx.transition_offsets@,
        ctx.options.fri_number_of_queries as int, run.round4)
    &&& run_challenges_ok(air, run)
}

/// The proof is assembled from the run's rounds, field for field.
pub open spec fn proof_matches_run(p: StarkProof, run: ProverRun) -> bool {
    &&& p.lde_trace_merkle_roots@ == run.round1.lde_trace_merkle_roots@
    &&& p.composition_poly_roots@ == run.round2.composition_poly_roots@
    &&& p.fri_layers_merkle_roots@ == run.round4.fri_layers_merkle_roots@
    &&& p.fri_last_value == run.round4.fri_last_value
    &&& p.trace_ood_frame_evaluations@ == run.round3.trace_ood_frame_evaluations@
    &&& p.composition_poly_ood_evaluations@
        == run.round3.composition_poly_ood_evaluations@
    &&& p.deep_consistency_check == run.round4.deep_consistency_check
    &&& p.query_list@ == run.round4.query_list@
}

/// Produce a STARK proof that the trace satisfies the AIR.
///
/// The transcript is absorbed in the canonical order: the trace roots,
/// then the composition roots, then the out-of-domain evaluations, with
/// every challenge sampled in between as the four rounds demand. Fails
/// with a configuration error exactly on parameters the protocol cannot
/// run with; an internal-invariant error signals a failed sanity check.
#[verifier::rlimit(100)]
#[verifier::spinoff_prover]
pub fn prove<A: Air>(trace: &TraceTable, air: &A) -> (r: Result<StarkProof, ProverError>)
    requires
        air.wf(),
        trace.wf(),
    ensures
        r matches Ok(p) ==> domain_config_ok(air.ctx_spec()) && degrees_ok(air.ctx_spec())
            && prove_shape_ok(air.ctx_spec(), *trace),
        r matches Ok(p) ==> exists|run: ProverRun| prover_run_ok(*air, *trace, run)
            && #[trigger] proof_matches_run(p, run),
        r matches Err(e) ==> e == ProverError::Configuration
            || e == ProverError::InternalInvariant,
        r matches Err(e) && e == ProverError::Configuration
            ==> !(domain_config_ok(air.ctx_spec()) && degrees_ok(air.ctx_spec())
                && prove_shape_ok(air.ctx_spec(), *trace)),
        r matches Err(e) && e == ProverError::InternalInvariant
            ==> exists|d: Domain, r1: Round1, bc: Vec<(Fe, Fe)>, tc: Vec<(Fe, Fe)>|
                #[trigger] prover_prefix_ok(*air, *trace, d, r1, bc, tc)
                && (round2_halves_overflow(*air, d, r1.lde_trace, tc@, bc@)
                    || exists|r2: Round2| round2_ok(*air, d, r1.lde_trace, tc@, bc@, r2)
                        && (forall|u: nat| u < 128 ==> !z_attempt_ok(state_after_round2(
                            air.ctx_spec(), r1.lde_trace_merkle_roots@,
                            r2.composition_poly_roots@),
                            vals(d.lde_roots_of_unity_coset@),
                            vals(d.trace_roots_of_unity@), u))),
{
    let ctx = air.context();
    // shape checks: the trace matches the context and the bookkeeping is
    // usable
    if trace.columns.len() != ctx.trace_columns || ctx.trace_columns < 1 {
        return Err(ProverError::Configuration);
    }
    if trace.columns[0].len() != ctx.trace_length {
        return Err(ProverError::Configuration);
    }
    if ctx.transition_offsets.len() < 1 {
        return Err(ProverError::Configuration);
    }
    let mut m: usize = 0;
    while m < ctx.transition_offsets.len()
        invariant
            0 <= m <= ctx.transition_offsets@.len(),
            ctx == air.ctx_spec(),
            air.wf(),
            forall|u: int| 0 <= u < m
                ==> (#[trigger] ctx.transition_offsets@[u]) < ctx.trace_length,
        decreases ctx.transition_offsets@.len() - m,
    {
        if ctx.transition_offsets[m] >= ctx.trace_length {
            return Err(ProverError::Configuration);
        }
        m = m + 1;
    }
    proof {
        assert((ctx.trace_columns as int) * (ctx.transition_offsets@.len() as int)
            < 0x100000000000000000000000000000000) by (nonlinear_arith)
            requires
                0 <= ctx.trace_columns <= 0xffffffffffffffff,
                0 <= ctx.transition_offsets@.len() <= 0xffffffffffffffff,
        ;
    }
    let prod_wm: u128 = (ctx.trace_columns as u128) * (ctx.transition_offsets.len() as u128);
    if prod_wm > usize::MAX as u128 {
        return Err(ProverError::Configuration);
    }
    if ctx.options.fri_number_of_queries < 1 || ctx.options.fri_number_of_queries > 256 {
        return Err(ProverError::Configuration);
    }

    let domain = match Domain::new(air) {
        Ok(d) => d,
        Err(_) => {
            return Err(ProverError::Configuration);
        },
    };

    let mut transcript = round_0_transcript_initialization();

    // Round 1: commit the trace columns and absorb their roots.
    let round_1_result = round_1_randomized_air_with_preprocessing(trace, &domain);
    proof {
        assert(crate::transcript::transcript_read(transcript)
            =~= absorbed_roots(round_1_result.lde_trace_merkle_roots@, 0));
    }
    let mut j: usize = 0;
    while j < round_1_result.lde_trace_merkle_roots.len()
        invariant
            0 <= j <= round_1_result.lde_trace_merkle_roots@.len(),
            crate::transcript::transcript_read(transcript)
                == absorbed_roots(round_1_result.lde_trace_merkle_roots@, j as int),
        decreases round_1_result.lde_trace_merkle_roots@.len() - j,
    {
        let root_vec = bytes32_to_vec(&round_1_result.lde_trace_merkle_roots[j]);
        transcript_append(&mut transcript, &root_vec);
        j = j + 1;
    }
    let ghost s1 = absorbed_roots(round_1_result.lde_trace_merkle_roots@,
        round_1_result.lde_trace_merkle_roots@.len() as int);

    // Round 2: sample the boundary and transition challenge pairs, in that
    // order, and commit the composition polynomial halves.
    let boundary_coeffs_alphas = batch_sample_challenges(&mut transcript, ctx.trace_columns);
    let boundary_coeffs_betas = batch_sample_challenges(&mut transcript, ctx.trace_columns);
    proof {
        assert(vals(boundary_coeffs_alphas@).len() == boundary_coeffs_alphas@.len());
        assert(vals(boundary_coeffs_betas@).len() == boundary_coeffs_betas@.len());
    }
    let boundary_coeffs = zip_pairs(&boundary_coeffs_alphas, &boundary_coeffs_betas);
    let transition_coeffs_alphas = batch_sample_challenges(&mut transcript,
        ctx.num_transition_constraints);
    let transition_coeffs_betas = batch_sample_challenges(&mut transcript,
        ctx.num_transition_constraints);
    proof {
        assert(vals(transition_coeffs_alphas@).len() == transition_coeffs_alphas@.len());
        assert(vals(transition_coeffs_betas@).len() == transition_coeffs_betas@.len());
    }
    let transition_coeffs = zip_pairs(&transition_coeffs_alphas, &transition_coeffs_betas);
    let ghost w_n = ctx.trace_columns as nat;
    let ghost nt_n = ctx.num_transition_constraints as nat;
    let ghost s2 = crate::transcript::chained_state(s1, w_n);
    let ghost s3 = crate::transcript::chained_state(s2, w_n);
    let ghost s4 = crate::transcript::chained_state(s3, nt_n);
    let ghost s5 = crate::transcript::chained_state(s4, nt_n);
    proof {
        assert(crate::transcript::transcript_read(transcript) == s5);
        assert forall|i: int| 0 <= i < w_n implies
            (#[trigger] boundary_coeffs@[i]).0.val()
                == crate::transcript::chained_challenges(s1, w_n)[i]
            && boundary_coeffs@[i].1.val()
                == crate::transcript::chained_challenges(s2, w_n)[i] by {
            assert(boundary_coeffs@[i].0 == boundary_coeffs_alphas@[i]);
            assert(vals(boundary_coeffs_alphas@)[i] == boundary_coeffs_alphas@[i].val());
            assert(vals(boundary_coeffs_betas@)[i] == boundary_coeffs_betas@[i].val());
        }
        assert forall|i: int| 0 <= i < nt_n implies
            (#[trigger] transition_coeffs@[i]).0.val()
                == crate::transcript::chained_challenges(s3, nt_n)[i]
            && transition_coeffs@[i].1.val()
                == crate::transcript::chained_challenges(s4, nt_n)[i] by {
            assert(transition_coeffs@[i].0 == transition_coeffs_alphas@[i]);
            assert(vals(transition_coeffs_alphas@)[i] == transition_coeffs_alphas@[i].val());
            assert(vals(transition_coeffs_betas@)[i] == transition_coeffs_betas@[i].val());
        }
        assert(coeffs_chain_ok(air.ctx_spec(), round_1_result.lde_trace_merkle_roots@,
            boundary_coeffs@, transition_coeffs@));
        assert(prover_prefix_ok(*air, *trace, domain, round_1_result, boundary_coeffs,
            transition_coeffs));
        assert(s5 == state_after_coeffs(air.ctx_spec(),
            round_1_result.lde_trace_merkle_roots@));
    }
    let round_2_result = match round_2_compute_composition_polynomial(air, &domain,
        &round_1_result, &transition_coeffs, &boundary_coeffs) {
        Ok(r2) => r2,
        Err(e) => {
            proof {
                if e == ProverError::InternalInvariant {
                    assert(round2_halves_overflow(*air, domain, round_1_result.lde_trace,
                        transition_coeffs@, boundary_coeffs@));
                }
            }
            return Err(e);
        },
    };
    let root_e = bytes32_to_vec(&round_2_result.composition_poly_roots[0]);
    transcript_append(&mut transcript, &root_e);
    let root_o = bytes32_to_vec(&round_2_result.composition_poly_roots[1]);
    transcript_append(&mut transcript, &root_o);
    let ghost s6 = s5 + round_2_result.composition_poly_roots@[0]@
        + round_2_result.composition_poly_roots@[1]@;
    proof {
        assert(crate::transcript::transcript_read(transcript) =~= s6);
    }

    // Round 3: sample the out-of-domain point and absorb the evaluations.
    let z = match sample_z_ood(&domain.lde_roots_of_unity_coset,
        &domain.trace_roots_of_unity, &mut transcript) {
        Ok(z) => z,
        Err(_) => {
            proof {
                assert(s6 == state_after_round2(air.ctx_spec(),
                    round_1_result.lde_trace_merkle_roots@,
                    round_2_result.composition_poly_roots@));
                assert(round2_ok(*air, domain, round_1_result.lde_trace,
                    transition_coeffs@, boundary_coeffs@, round_2_result));
                assert forall|u: nat| u < 128 implies !z_attempt_ok(state_after_round2(
                    air.ctx_spec(), round_1_result.lde_trace_merkle_roots@,
                    round_2_result.composition_poly_roots@),
                    vals(domain.lde_roots_of_unity_coset@),
                    vals(domain.trace_roots_of_unity@), u) by {
                    assert(!z_attempt_ok(s6, vals(domain.lde_roots_of_unity_coset@),
                        vals(domain.trace_roots_of_unity@), u));
                }
            }
            return Err(ProverError::InternalInvariant);
        },
    };
    let ghost kz: nat = choose|k: nat| k < 128 && z.val()
        == crate::transcript::fe_challenge_of(
            #[trigger] crate::transcript::chained_state(s6, k))
        && (forall|u: nat| u < k ==> !z_attempt_ok(s6,
            vals(domain.lde_roots_of_unity_coset@), vals(domain.trace_roots_of_unity@), u))
        && crate::transcript::transcript_read(transcript)
            == crate::transcript::chained_state(s6, (k + 1) as nat);
    let round_3_result = round_3_evaluate_polynomials_in_out_of_domain_element(air, &domain,
        &round_1_result, &round_2_result, &z);
    let ev_e = fe_bytes_to_vec(&round_3_result.composition_poly_ood_evaluations[0]);
    transcript_append(&mut transcript, &ev_e);
    let ev_o = fe_bytes_to_vec(&round_3_result.composition_poly_ood_evaluations[1]);
    transcript_append(&mut transcript, &ev_o);
    let ghost base0 = crate::transcript::chained_state(s6, (kz + 1) as nat)
        + round_3_result.composition_poly_ood_evaluations@[0].bytes@
        + round_3_result.composition_poly_ood_evaluations@[1].bytes@;
    proof {
        assert(crate::transcript::transcript_read(transcript) =~= base0);
        assert(crate::transcript::transcript_read(transcript) =~= base0
            + frame_bytes(round_3_result.trace_ood_frame_evaluations@, 0));
    }
    let mut m2: usize = 0;
    while m2 < round_3_result.trace_ood_frame_evaluations.len()
        invariant
            0 <= m2 <= round_3_result.trace_ood_frame_evaluations@.len(),
            forall|u: int| 0 <= u < round_3_result.trace_ood_frame_evaluations@.len()
                ==> all_wf((#[trigger] round_3_result.trace_ood_frame_evaluations@[u])@),
            crate::transcript::transcript_read(transcript) == base0
                + frame_bytes(round_3_result.trace_ood_frame_evaluations@, m2 as int),
        decreases round_3_result.trace_ood_frame_evaluations@.len() - m2,
    {
        let row = &round_3_result.trace_ood_frame_evaluations[m2];
        let ghost rows = round_3_result.trace_ood_frame_evaluations@;
        let mut j2: usize = 0;
        while j2 < row.len()
            invariant
                0 <= j2 <= row@.len(),
                all_wf(row@),
                0 <= m2 < rows.len(),
                rows == round_3_result.trace_ood_frame_evaluations@,
                row@ == rows[m2 as int]@,
                crate::transcript::transcript_read(transcript) == base0
                    + frame_bytes(rows, m2 as int) + row_bytes(row@, j2 as int),
            decreases row@.len() - j2,
        {
            proof {
                assert(row@[j2 as int].wf());
            }
            let ev = fe_bytes_to_vec(&row[j2]);
            transcript_append(&mut transcript, &ev);
            proof {
                assert(crate::transcript::transcript_read(transcript) =~= base0
                    + frame_bytes(rows, m2 as int) + row_bytes(row@, (j2 + 1) as int));
            }
            j2 = j2 + 1;
        }
        proof {
            assert(frame_bytes(rows, (m2 + 1) as int) =~= frame_bytes(rows, m2 as int)
                + row_bytes(rows[m2 as int]@, rows[m2 as int]@.len() as int));
            assert(crate::transcript::transcript_read(transcript) =~= base0
                + frame_bytes(rows, (m2 + 1) as int));
        }
        m2 = m2 + 1;
    }
    proof {
        assert(crate::transcript::transcript_read(transcript)
            =~= crate::transcript::chained_state(s6, (kz + 1) as nat)
                + ood_bytes(round_3_result));
    }

    // Round 4: the DEEP composition polynomial, FRI, and the openings.
    let round_4_result = round_4_compute_and_run_fri_on_the_deep_composition_polynomial(
        air, &domain, &round_1_result, &round_2_result, &z, &mut transcript);

    let ghost run = ProverRun {
        domain: domain,
        round1: round_1_result,
        boundary_coeffs: boundary_coeffs,
        transition_coeffs: transition_coeffs,
        round2: round_2_result,
        z: z,
        round3: round_3_result,
        round4: round_4_result,
    };
    proof {
        assert(run_challenges_ok(*air, run)) by {
            assert(run.round1.lde_trace_merkle_roots@
                == round_1_result.lde_trace_merkle_roots@);
            assert(run.round2.composition_poly_roots@
                == round_2_result.composition_poly_roots@);
            assert(s6 == state_after_round2(air.ctx_spec(),
                run.round1.lde_trace_merkle_roots@, run.round2.composition_poly_roots@));
            assert(kz < 128 && run.z.val() == crate::transcript::fe_challenge_of(
                crate::transcript::chained_state(s6, kz))
                && (forall|u: nat| u < kz ==> !z_attempt_ok(s6,
                    vals(run.domain.lde_roots_of_unity_coset@),
                    vals(run.domain.trace_roots_of_unity@), u))
                && round4_challenges_ok(air.ctx_spec(),
                    crate::transcript::chained_state(s6, (kz + 1) as nat)
                        + ood_bytes(run.round3), run.round4));
        }
        assert(prover_run_ok(*air, *trace, run));
    }
    let p = StarkProof {
        lde_trace_merkle_roots: round_1_result.lde_trace_merkle_roots,
        composition_poly_roots: round_2_result.composition_poly_roots,
        fri_layers_merkle_roots: round_4_result.fri_layers_merkle_roots,
        fri_last_value: round_4_result.fri_last_value,
        trace_ood_frame_evaluations: round_3_result.trace_ood_frame_evaluations,
        composition_poly_ood_evaluations: round_3_result.composition_poly_ood_evaluations,
        deep_consistency_check: round_4_result.deep_consistency_check,
        query_list: round_4_result.query_list,
    };
    let res: Result<StarkProof, ProverError> = Ok(p);
    proof {
        assert(exists|run2: ProverRun| prover_run_ok(*air, *trace, run2)
            && #[trigger] proof_matches_run(res->Ok_0, run2)) by {
            assert(prover_run_ok(*air, *trace, run));
            assert(proof_matches_run(res->Ok_0, run));
        }
    }
    res
}

/// Zip two equally long challenge vectors into pairs.
fn zip_pairs(alphas: &Vec<Fe>, betas: &Vec<Fe>) -> (r: Vec<(Fe, Fe)>)
    requires
        alphas@.len() == betas@.len(),
        all_wf(alphas@),
        all_wf(betas@),
    ensures
        r@.len() == alphas@.len(),
        pairs_wf(r@),
        forall|i: int| 0 <= i < r@.len()
            ==> (#[trigger] r@[i]).0 == alphas@[i] && r@[i].1 == betas@[i],
{
    let mut r: Vec<(Fe, Fe)> = Vec::new();
    let mut i: usize = 0;
    while i < alphas.len()
        invariant
            0 <= i <= alphas@.len(),
            alphas@.len() == betas@.len(),
            all_wf(alphas@),
            all_wf(betas@),
            r@.len() == i,
            forall|u: int| 0 <= u < i
                ==> (#[trigger] r@[u]).0 == alphas@[u] && r@[u].1 == betas@[u],
        decreases alphas@.len() - i,
    {
        r.push((alphas[i], betas[i]));
        i = i + 1;
    }
    proof {
        assert forall|u: int| 0 <= u < r@.len() implies (#[trigger] r@[u]).0.wf()
            && r@[u].1.wf() by {
            assert(alphas@[u].wf());
            assert(betas@[u].wf());
        }
    }
    r
}

} // verus!
