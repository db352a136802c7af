//! Merkle commitments over columns of field elements.
//!
//! Trees are built and opened by `lambdaworks_crypto` with a Keccak-256
//! leaf and node hash. A tree is modelled by the sequence of leaf values it
//! was built over; the root and the authentication paths are deterministic
//! functions of those leaves.

use vstd::prelude::*;
use crate::field::{Fe, all_wf, vals};
use lambdaworks_crypto::merkle_tree::backends::field_element::FieldElementBackend;
use lambdaworks_crypto::merkle_tree::merkle::MerkleTree;
use lambdaworks_math::field::element::FieldElement;
use lambdaworks_math::field::fields::fft_friendly::stark_252_prime_field::Stark252PrimeField;
use lambdaworks_math::traits::ByteConversion;
use sha3::Keccak256;

verus! {

/// A Merkle tree over one column of field elements, built by
/// `lambdaworks_crypto` with Keccak-256.
#[verifier::external_body]
pub struct CommitTree {
    inner: MerkleTree<FieldElementBackend<Stark252PrimeField, Keccak256, 32>>,
}

/// The field values of the leaves the tree was built over.
pub uninterp spec fn tree_leaves(t: CommitTree) -> Seq<int>;

/// The 32-byte Merkle root over the given leaf values: a pure function of
/// the leaves, since the hash is deterministic.
pub uninterp spec fn merkle_root_of(leaves: Seq<int>) -> Seq<u8>;

/// The authentication path (sibling hashes, leaf to root) for the leaf at
/// `pos` in a tree over the given leaf values.
pub uninterp spec fn merkle_path_of(leaves: Seq<int>, pos: int) -> Seq<Seq<u8>>;

/// Relies on `MerkleTree::build` with the Keccak-256 field-element backend:
/// it hashes the leaves and fails only on an empty slice, and its root is a
/// function of the leaf values.
#[verifier::external_body]
pub(crate) fn merkle_commit(leaves: &Vec<Fe>) -> (r: (CommitTree, [u8; 32]))
    requires
        all_wf(leaves@),
        leaves@.len() >= 1,
    ensures
        tree_leaves(r.0) == vals(leaves@),
        r.1@ == merkle_root_of(vals(leaves@)),
{
    let data: Vec<FieldElement<Stark252PrimeField>> = leaves.iter().map(
        |c| FieldElement::from_bytes_be(&c.bytes).unwrap()).collect();
    let tree = MerkleTree::<FieldElementBackend<Stark252PrimeField, Keccak256, 32>>::build(
        &data).unwrap();
    let root = tree.root;
    (CommitTree { inner: tree }, root)
}

/// Relies on `MerkleTree::get_proof_by_pos`, which returns the sibling
/// hashes from the leaf at `pos` up to the root and fails only out of
/// bounds; the path is a function of the leaf values and the position.
#[verifier::external_body]
pub(crate) fn merkle_open(t: &CommitTree, pos: usize) -> (path: Vec<[u8; 32]>)
    requires
        pos < tree_leaves(*t).len(),
    ensures
        path@.map_values(|a: [u8; 32]| a@) == merkle_path_of(tree_leaves(*t), pos as int),
{
    t.inner.get_proof_by_pos(pos).unwrap().merkle_path
}

} // verus!
