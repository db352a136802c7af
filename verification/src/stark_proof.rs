//! The proof object the prover emits.

use vstd::prelude::*;
use crate::field::Fe;

verus! {

/// Openings of every trace column and both composition columns at one
/// shared LDE position, binding the FRI queries to the commitments.
#[derive(Clone, Debug, PartialEq, Eq)]
pub struct DeepConsistencyCheck {
    /// One authentication path per trace column.
    pub lde_trace_merkle_proofs: Vec<Vec<[u8; 32]>>,
    /// The opened trace row.
    pub lde_trace_evaluations: Vec<Fe>,
    /// One authentication path per composition column.
    pub lde_composition_poly_proofs: Vec<Vec<[u8; 32]>>,
    /// The opened composition-column values.
    pub lde_composition_poly_evaluations: Vec<Fe>,
}

/// One FRI query: the first-layer opening and, for every layer, the
/// opening of the symmetric partner.
#[derive(Clone, Debug, PartialEq, Eq)]
pub struct FriDecommitment {
    pub layers_auth_paths_sym: Vec<Vec<[u8; 32]>>,
    pub layers_evaluations_sym: Vec<Fe>,
    pub first_layer_evaluation: Fe,
    pub first_layer_auth_path: Vec<[u8; 32]>,
}

/// A STARK proof: commitments, out-of-domain evaluations and the FRI
/// transcript with query openings.
#[derive(Clone, Debug, PartialEq, Eq)]
pub struct StarkProof {
    /// One Merkle root per trace column.
    pub lde_trace_merkle_roots: Vec<[u8; 32]>,
    /// The roots of the two composition halves, `H_1` then `H_2`.
    pub composition_poly_roots: Vec<[u8; 32]>,
    /// One Merkle root per FRI layer.
    pub fri_layers_merkle_roots: Vec<[u8; 32]>,
    /// The constant the final FRI fold collapses to.
    pub fri_last_value: Fe,
    /// The out-of-domain trace frame: row `m` holds `t_j(z * g^m)`.
    pub trace_ood_frame_evaluations: Vec<Vec<Fe>>,
    /// `H_1(z^2)` then `H_2(z^2)`.
    pub composition_poly_ood_evaluations: Vec<Fe>,
    pub deep_consistency_check: DeepConsistencyCheck,
    pub query_list: Vec<FriDecommitment>,
}

} // verus!
