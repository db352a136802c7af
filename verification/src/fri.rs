//! The FRI prover: commit-phase folding and query-phase openings.
//!
//! Starting from the DEEP polynomial on the LDE coset, each round commits
//! to the evaluations, samples a folding challenge `zeta`, folds the
//! polynomial to `even + zeta * odd` and squares the domain (the offset is
//! squared and the root order drops by one), until the domain would have
//! length one; the last fold's constant closes the commit phase.

use vstd::prelude::*;
use vstd::arithmetic::power::pow;
use vstd::arithmetic::power2::{pow2, lemma_pow2_adds, lemma_pow2_pos, lemma2_to64};
use crate::field::{Fe, all_wf, vals, prime, pow_mod, fe_from_u64, fe_mul, fe_pow};
use crate::poly::{poly_eval, even_spec, odd_spec, poly_add_spec, poly_scale_spec, omega_of,
    evaluate_offset_fft, get_root_of_unity, poly_even_odd, poly_add, poly_scale};
use crate::merkle::{CommitTree, tree_leaves, merkle_root_of, merkle_path_of, merkle_commit,
    merkle_open};
use crate::transcript::{Transcript, transcript_append, challenge_fe, challenge_index,
    bytes32_to_vec, fe_bytes_to_vec};
use crate::stark_proof::FriDecommitment;
use crate::domain::lemma_pow_mod_compose;

verus! {

/// One FRI layer: a polynomial (kept as a ghost sequence of coefficient
/// values), its evaluations on the layer's coset, and their commitment.
pub struct FriLayer {
    /// The coefficient values of the layer's polynomial.
    pub poly: Ghost<Seq<int>>,
    /// The folding challenge that produced this layer (zero for layer 0).
    pub zeta: Ghost<int>,
    /// The layer's evaluation coset.
    pub domain: Vec<Fe>,
    /// The evaluations of the polynomial on the coset.
    pub evaluations: Vec<Fe>,
    pub merkle_tree: CommitTree,
    pub root: [u8; 32],
}

/// A layer is internally consistent for a coset of size `2^order` with
/// the given offset.
pub open spec fn fri_layer_ok(l: FriLayer, order: nat, offset: int) -> bool {
    &&& l.domain@.len() == pow2(order)
    &&& l.evaluations@.len() == pow2(order)
    &&& all_wf(l.domain@)
    &&& all_wf(l.evaluations@)
    &&& l.poly@.len() <= pow2(order)
    &&& forall|i: int| 0 <= i < l.domain@.len() ==> vals(l.domain@)[i]
        == (offset * pow_mod(omega_of(order), i as nat)) % prime()
    &&& forall|i: int| 0 <= i < l.evaluations@.len() ==> vals(l.evaluations@)[i]
        == poly_eval(l.poly@, vals(l.domain@)[i])
    &&& tree_leaves(l.merkle_tree) == vals(l.evaluations@)
    &&& l.root@ == merkle_root_of(vals(l.evaluations@))
}

/// The transcript state after the first `j` FRI rounds: each round absorbs
/// that layer's root and then samples its fold challenge.
pub open spec fn fri_state(s0: Seq<u8>, roots: Seq<[u8; 32]>, j: int) -> Seq<u8>
    decreases j,
{
    if j <= 0 {
        s0
    } else {
        crate::transcript::sample_of(fri_state(s0, roots, j - 1) + roots[j - 1]@)
    }
}

/// The state only depends on the roots the rounds have absorbed so far.
proof fn lemma_fri_state_prefix(s0: Seq<u8>, a: Seq<[u8; 32]>, b: Seq<[u8; 32]>, j: int)
    requires
        forall|i: int| 0 <= i < j ==> a[i] == b[i],
    ensures
        fri_state(s0, a, j) == fri_state(s0, b, j),
    decreases j,
{
    if j > 0 {
        lemma_fri_state_prefix(s0, a, b, j - 1);
    }
}

/// The constant the final fold collapses to: the constant coefficient of
/// the last layer's polynomial folded once more with the final challenge.
pub open spec fn last_fold_value(last_poly: Seq<int>, zeta: int) -> int {
    let folded = poly_add_spec(even_spec(last_poly), poly_scale_spec(zeta,
        odd_spec(last_poly)));
    if folded.len() >= 1 {
        folded[0]
    } else {
        0
    }
}

/// The polynomial of layer `s + 1` is layer `s` folded with the later
/// layer's challenge: `even + zeta * odd`.
pub open spec fn fri_fold_ok(prev: FriLayer, next: FriLayer) -> bool {
    next.poly@ == poly_add_spec(even_spec(prev.poly@),
        poly_scale_spec(next.zeta@, odd_spec(prev.poly@)))
}

/// Build one FRI layer: evaluate the polynomial on the coset of size
/// `2^order` with the given offset, and commit to the evaluations.
fn build_fri_layer(p: &Vec<Fe>, offset: &Fe, order: u32, n: usize, Ghost(zeta): Ghost<int>)
    -> (r: FriLayer)
    requires
        all_wf(p@),
        offset.wf(),
        1 <= order <= 62,
        n == pow2(order as nat),
        p@.len() <= pow2(order as nat),
    ensures
        fri_layer_ok(r, order as nat, offset.val()),
        r.poly@ == vals(p@),
        r.zeta@ == zeta,
{
    proof {
        lemma_pow2_pos(order as nat);
    }
    let w = get_root_of_unity(order);
    let mut domain: Vec<Fe> = Vec::new();
    let mut i: usize = 0;
    while i < n
        invariant
            0 <= i <= n,
            w.wf(),
            w.val() == omega_of(order as nat),
            offset.wf(),
            all_wf(domain@),
            domain@.len() == i,
            forall|u: int| 0 <= u < i ==> vals(domain@)[u]
                == (offset.val() * pow_mod(omega_of(order as nat), u as nat)) % prime(),
        decreases n - i,
    {
        let e = fe_mul(offset, &fe_pow(&w, i as u64));
        let ghost d_old = domain@;
        domain.push(e);
        proof {
            assert forall|u: int| 0 <= u < domain@.len() implies vals(domain@)[u]
                == (offset.val() * pow_mod(omega_of(order as nat), u as nat)) % prime() by {
                assert(vals(domain@)[u] == domain@[u].val());
                if u < i {
                    assert(domain@[u] == d_old[u]);
                    assert(vals(d_old)[u] == d_old[u].val());
                }
            }
        }
        i = i + 1;
    }
    let evaluations = evaluate_offset_fft(p, 1, n, offset, order);
    let (merkle_tree, root) = merkle_commit(&evaluations);
    proof {
        assert forall|u: int| 0 <= u < evaluations@.len() implies vals(evaluations@)[u]
            == poly_eval(vals(p@), vals(domain@)[u]) by {
            assert(vals(evaluations@)[u] == poly_eval(vals(p@),
                (offset.val() * pow_mod(omega_of(order as nat), u as nat)) % prime()));
        }
    }
    FriLayer {
        poly: Ghost(vals(p@)),
        zeta: Ghost(zeta),
        domain,
        evaluations,
        merkle_tree,
        root,
    }
}

/// The FRI commit phase: fold the polynomial down to a constant,
/// committing each layer's evaluations and absorbing each root and the
/// final value into the transcript.
pub fn fri_commit_phase(p0: Vec<Fe>, coset_offset: &Fe, kappa: u32, n0: usize,
    t: &mut Transcript) -> (r: (Fe, Vec<FriLayer>, Vec<[u8; 32]>, Ghost<int>))
    requires
        all_wf(p0@),
        coset_offset.wf(),
        1 <= kappa <= 62,
        n0 == pow2(kappa as nat),
        p0@.len() <= pow2(kappa as nat),
    ensures
        r.0.wf(),
        r.1@.len() == kappa,
        r.2@.len() == kappa,
        r.1@[0].poly@ == vals(p0@),
        forall|s: int| 0 <= s < r.1@.len()
            ==> fri_layer_ok(#[trigger] r.1@[s], (kappa - s) as nat,
                pow_mod(coset_offset.val(), pow2(s as nat))),
        forall|s: int| 0 < s < r.1@.len() ==> fri_fold_ok(r.1@[s - 1], #[trigger] r.1@[s]),
        forall|s: int| 0 <= s < r.1@.len() ==> (#[trigger] r.2@[s])@
            == merkle_root_of(vals(r.1@[s].evaluations@)),
        r.0.val() == last_fold_value(r.1@[kappa - 1].poly@, r.3@),
        forall|s: int| 0 < s < r.1@.len() ==> (#[trigger] r.1@[s]).zeta@
            == crate::transcript::fe_challenge_of(fri_state(
                crate::transcript::transcript_read(*old(t)), r.2@, s - 1) + r.2@[s - 1]@),
        r.3@ == crate::transcript::fe_challenge_of(fri_state(
            crate::transcript::transcript_read(*old(t)), r.2@, kappa - 1)
            + r.2@[kappa - 1]@),
        crate::transcript::transcript_read(*final(t)) == fri_state(
            crate::transcript::transcript_read(*old(t)), r.2@, kappa as int) + r.0.bytes@,
{
    let ghost s0g = crate::transcript::transcript_read(*t);
    let ghost p0v = vals(p0@);
    let ghost h = coset_offset.val();
    let mut layers: Vec<FriLayer> = Vec::new();
    let mut roots: Vec<[u8; 32]> = Vec::new();
    let mut poly = p0;
    let mut offset = *coset_offset;
    let ghost mut pending_zeta: int = 0int;
    let mut n_cur: usize = n0;
    let mut s: u32 = 0;
    proof {
        lemma2_to64();
        assert(pow(h, 1nat) == h) by {
            vstd::arithmetic::power::lemma_pow1(h);
        }
        vstd::arithmetic::div_mod::lemma_small_mod(h as nat, prime() as nat);
        assert(pow_mod(h, pow2(0)) == h);
    }
    while s < kappa
        invariant
            0 <= s <= kappa,
            1 <= kappa <= 62,
            all_wf(poly@),
            poly@.len() <= pow2((kappa - s) as nat),
            offset.wf(),
            offset.val() == pow_mod(h, pow2(s as nat)),
            n_cur == pow2((kappa - s) as nat),
            layers@.len() == s,
            roots@.len() == s,
            s0g == crate::transcript::transcript_read(*old(t)),
            crate::transcript::transcript_read(*t) == fri_state(s0g, roots@, s as int),
            s == 0 ==> vals(poly@) == p0v,
            s > 0 ==> layers@[0].poly@ == p0v,
            s > 0 ==> pending_zeta == crate::transcript::fe_challenge_of(
                fri_state(s0g, roots@, s - 1) + roots@[s - 1]@),
            forall|u: int| 0 < u < s ==> (#[trigger] layers@[u]).zeta@
                == crate::transcript::fe_challenge_of(fri_state(s0g, roots@, u - 1)
                    + roots@[u - 1]@),
            forall|u: int| 0 <= u < s ==> fri_layer_ok(#[trigger] layers@[u],
                (kappa - u) as nat, pow_mod(h, pow2(u as nat))),
            forall|u: int| 0 < u < s ==> fri_fold_ok(layers@[u - 1], #[trigger] layers@[u]),
            forall|u: int| 0 <= u < s ==> (#[trigger] roots@[u])@
                == merkle_root_of(vals(layers@[u].evaluations@)),
            s > 0 ==> vals(poly@) == poly_add_spec(even_spec(layers@[s - 1].poly@),
                poly_scale_spec(pending_zeta, odd_spec(layers@[s - 1].poly@))),
        decreases kappa - s,
    {
        let layer = build_fri_layer(&poly, &offset, kappa - s, n_cur, Ghost(pending_zeta));
        let root_copy = layer.root;
        let root_vec = bytes32_to_vec(&root_copy);
        transcript_append(t, &root_vec);
        let zeta = challenge_fe(t);
        let (even, odd) = poly_even_odd(&poly);
        let folded = poly_add(&even, &poly_scale(&zeta, &odd));
        proof {
            // the fold halves the coefficient count
            lemma_pow2_adds((kappa - s - 1) as nat, 1);
            lemma2_to64();
            assert(pow2((kappa - s) as nat) == 2 * pow2((kappa - s - 1) as nat));
            assert(vals(folded@).len() <= pow2((kappa - s - 1) as nat));
            assert(folded@.len() <= pow2((kappa - s - 1) as nat));
        }
        let ghost layers_old = layers@;
        let ghost roots_old = roots@;
        layers.push(layer);
        roots.push(root_copy);
        poly = folded;
        proof {
            lemma_fri_state_prefix(s0g, roots_old, roots@, s as int);
            assert(fri_state(s0g, roots@, (s + 1) as int)
                == crate::transcript::sample_of(fri_state(s0g, roots@, s as int)
                    + roots@[s as int]@));
            assert(roots@[s as int]@ == root_copy@);
            assert(crate::transcript::transcript_read(*t)
                == crate::transcript::sample_of(fri_state(s0g, roots@, s as int)
                    + root_copy@));
            assert forall|u: int| 0 < u < s + 1 implies (#[trigger] layers@[u]).zeta@
                == crate::transcript::fe_challenge_of(fri_state(s0g, roots@, u - 1)
                    + roots@[u - 1]@) by {
                lemma_fri_state_prefix(s0g, roots_old, roots@, u - 1);
                if u < s {
                    assert(layers@[u] == layers_old[u]);
                    assert(roots@[u - 1] == roots_old[u - 1]);
                } else {
                    assert(layers@[u] == layer);
                }
            }
        }
        proof {
            pending_zeta = zeta.val();
            // squaring the offset doubles the exponent
            let m = pow2(s as nat);
            lemma_pow_mod_compose(h, m, 2);
            vstd::arithmetic::power::lemma_pow1(pow_mod(h, m));
            vstd::arithmetic::power::lemma_pow_adds(pow_mod(h, m), 1nat, 1nat);
            assert(pow(pow_mod(h, m), 2) == pow_mod(h, m) * pow_mod(h, m));
            assert(pow_mod(pow_mod(h, m), 2)
                == (pow_mod(h, m) * pow_mod(h, m)) % prime());
            lemma_pow2_adds(s as nat, 1);
            lemma2_to64();
            assert(m * 2 == pow2((s + 1) as nat));
        }
        offset = fe_mul(&offset, &offset);
        proof {
            lemma_pow2_adds((kappa - s - 1) as nat, 1);
            lemma2_to64();
            assert(pow2((kappa - s) as nat) == 2 * pow2((kappa - s - 1) as nat));
        }
        n_cur = n_cur / 2;
        s = s + 1;
    }
    let last_value = if poly.len() >= 1 { poly[0] } else { fe_from_u64(0) };
    let lv_bytes = fe_bytes_to_vec(&last_value);
    transcript_append(t, &lv_bytes);
    proof {
        assert(poly@.len() >= 1 ==> poly@[0].wf());
        assert(poly@.len() >= 1 ==> vals(poly@)[0] == poly@[0].val());
    }
    (last_value, layers, roots, Ghost(pending_zeta))
}

/// One opening of a layer at a position: the evaluation there and its
/// authentication path.
pub open spec fn opening_ok(l: FriLayer, pos: int, value: Fe, path: Seq<[u8; 32]>) -> bool {
    &&& value.wf()
    &&& value.val() == vals(l.evaluations@)[pos]
    &&& path.map_values(|a: [u8; 32]| a@) == merkle_path_of(vals(l.evaluations@), pos)
}

/// One FRI decommitment is consistent with the layers for the query index
/// `iota`: the first layer is opened at `iota`, and every layer at the
/// symmetric partner of `iota` in its own domain.
pub open spec fn decommit_ok(layers: Seq<FriLayer>, q: FriDecommitment, iota: int) -> bool {
    &&& layers.len() >= 1
    &&& 0 <= iota < layers[0].evaluations@.len()
    &&& opening_ok(layers[0], iota, q.first_layer_evaluation, q.first_layer_auth_path@)
    &&& q.layers_evaluations_sym@.len() == layers.len()
    &&& q.layers_auth_paths_sym@.len() == layers.len()
    &&& forall|s: int| 0 <= s < layers.len() ==> opening_ok(#[trigger] layers[s],
        (iota + layers[s].evaluations@.len() / 2) % (layers[s].evaluations@.len() as int),
        q.layers_evaluations_sym@[s], q.layers_auth_paths_sym@[s]@)
}

/// Open one layer at a position.
fn open_layer(l: &FriLayer, pos: usize) -> (r: (Fe, Vec<[u8; 32]>))
    requires
        all_wf(l.evaluations@),
        tree_leaves(l.merkle_tree) == vals(l.evaluations@),
        pos < l.evaluations@.len(),
    ensures
        opening_ok(*l, pos as int, r.0, r.1@),
{
    let value = l.evaluations[pos];
    let path = merkle_open(&l.merkle_tree, pos);
    proof {
        assert(l.evaluations@[pos as int].wf());
        assert(vals(l.evaluations@)[pos as int] == l.evaluations@[pos as int].val());
    }
    (value, path)
}

/// The FRI query phase: for each query, sample an index, open the first
/// layer there, and open every layer at the symmetric partner. Answers the
/// query list and the first query's index, which drives the deep
/// consistency opening.
pub fn fri_query_phase(layers: &Vec<FriLayer>, number_of_queries: usize, t: &mut Transcript)
    -> (r: (Vec<FriDecommitment>, usize, Ghost<Seq<int>>))
    requires
        layers@.len() >= 1,
        number_of_queries >= 1,
        forall|s: int| 0 <= s < layers@.len() ==> all_wf((#[trigger] layers@[s]).evaluations@)
            && tree_leaves(layers@[s].merkle_tree) == vals(layers@[s].evaluations@)
            && layers@[s].evaluations@.len() >= 1,
    ensures
        r.0@.len() == number_of_queries,
        r.1 < layers@[0].evaluations@.len(),
        r.2@.len() == number_of_queries,
        forall|q: int| 0 <= q < r.0@.len()
            ==> decommit_ok(layers@, #[trigger] r.0@[q], r.2@[q]),
        r.2@[0] == r.1 as int,
        decommit_ok(layers@, r.0@[0], r.1 as int),
        forall|q: int| 0 <= q < r.2@.len() ==> #[trigger] r.2@[q]
            == crate::transcript::index_challenge_of(crate::transcript::chained_state(
                crate::transcript::transcript_read(*old(t)), q as nat))
                % (layers@[0].evaluations@.len() as int),
        crate::transcript::transcript_read(*final(t)) == crate::transcript::chained_state(
            crate::transcript::transcript_read(*old(t)), number_of_queries as nat),
{
    let ghost s0 = crate::transcript::transcript_read(*t);
    let n0 = layers[0].evaluations.len();
    let mut query_list: Vec<FriDecommitment> = Vec::new();
    let ghost mut iotas: Seq<int> = Seq::empty();
    let mut iota0: usize = 0;
    let mut q: usize = 0;
    while q < number_of_queries
        invariant
            0 <= q <= number_of_queries,
            layers@.len() >= 1,
            n0 == layers@[0].evaluations@.len(),
            n0 >= 1,
            forall|s: int| 0 <= s < layers@.len()
                ==> all_wf((#[trigger] layers@[s]).evaluations@)
                    && tree_leaves(layers@[s].merkle_tree) == vals(layers@[s].evaluations@)
                    && layers@[s].evaluations@.len() >= 1,
            query_list@.len() == q,
            iotas.len() == q,
            s0 == crate::transcript::transcript_read(*old(t)),
            crate::transcript::transcript_read(*t)
                == crate::transcript::chained_state(s0, q as nat),
            forall|u: int| 0 <= u < q
                ==> decommit_ok(layers@, #[trigger] query_list@[u], iotas[u]),
            forall|u: int| 0 <= u < q ==> #[trigger] iotas[u]
                == crate::transcript::index_challenge_of(
                    crate::transcript::chained_state(s0, u as nat)) % (n0 as int),
            q > 0 ==> iota0 < n0 && iotas[0] == iota0 as int
                && decommit_ok(layers@, query_list@[0], iota0 as int),
        decreases number_of_queries - q,
    {
        let iota64 = challenge_index(t, n0 as u64);
        let iota = iota64 as usize;
        proof {
            assert(iota < n0);
        }
        let (first_layer_evaluation, first_layer_auth_path) = open_layer(&layers[0], iota);
        let mut layers_evaluations_sym: Vec<Fe> = Vec::new();
        let mut layers_auth_paths_sym: Vec<Vec<[u8; 32]>> = Vec::new();
        let mut s: usize = 0;
        while s < layers.len()
            invariant
                0 <= s <= layers@.len(),
                layers@.len() >= 1,
                iota < n0,
                n0 == layers@[0].evaluations@.len(),
                forall|u: int| 0 <= u < layers@.len()
                    ==> all_wf((#[trigger] layers@[u]).evaluations@)
                        && tree_leaves(layers@[u].merkle_tree)
                            == vals(layers@[u].evaluations@)
                        && layers@[u].evaluations@.len() >= 1,
                layers_evaluations_sym@.len() == s,
                layers_auth_paths_sym@.len() == s,
                forall|u: int| 0 <= u < s ==> opening_ok(#[trigger] layers@[u],
                    (iota + layers@[u].evaluations@.len() / 2)
                        % (layers@[u].evaluations@.len() as int),
                    layers_evaluations_sym@[u], layers_auth_paths_sym@[u]@),
            decreases layers@.len() - s,
        {
            let len_s = layers[s].evaluations.len();
            let half = len_s / 2;
            let reduced = iota % len_s;
            let index_sym = if reduced >= len_s - half {
                reduced - (len_s - half)
            } else {
                reduced + half
            };
            proof {
                let n_s = len_s as int;
                vstd::arithmetic::div_mod::lemma_mod_bound(iota as int, n_s);
                vstd::arithmetic::div_mod::lemma_add_mod_noop(iota as int, n_s / 2, n_s);
                vstd::arithmetic::div_mod::lemma_small_mod((len_s / 2) as nat, len_s as nat);
                if reduced + half >= len_s {
                    vstd::arithmetic::div_mod::lemma_mod_add_multiples_vanish(
                        reduced + half - n_s, n_s);
                    vstd::arithmetic::div_mod::lemma_small_mod(
                        (reduced + half - len_s) as nat, len_s as nat);
                } else {
                    vstd::arithmetic::div_mod::lemma_small_mod((reduced + half) as nat,
                        len_s as nat);
                }
                assert(index_sym == (iota + n_s / 2) % n_s);
            }
            let (evaluation_sym, auth_path_sym) = open_layer(&layers[s], index_sym);
            layers_evaluations_sym.push(evaluation_sym);
            layers_auth_paths_sym.push(auth_path_sym);
            s = s + 1;
        }
        let qd = FriDecommitment {
            layers_auth_paths_sym,
            layers_evaluations_sym,
            first_layer_evaluation,
            first_layer_auth_path,
        };
        proof {
            assert(decommit_ok(layers@, qd, iota as int));
        }
        if q == 0 {
            iota0 = iota;
        }
        let ghost ql_old = query_list@;
        query_list.push(qd);
        proof {
            iotas = iotas.push(iota as int);
            assert forall|u: int| 0 <= u < query_list@.len() implies
                decommit_ok(layers@, #[trigger] query_list@[u], iotas[u]) by {
                if u < q {
                    assert(query_list@[u] == ql_old[u]);
                }
            }
        }
        q = q + 1;
    }
    (query_list, iota0, Ghost(iotas))
}

} // verus!
