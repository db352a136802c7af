//! The errors the prover surfaces.

use vstd::prelude::*;

verus! {

/// Why the prover refused to produce a proof.
#[derive(Clone, Copy, Debug, PartialEq, Eq)]
pub enum ProverError {
    /// The proof options or the trace shape are invalid: the trace length
    /// or blowup factor is not a power of two that fits the machine, or
    /// the coset offset is zero or inside the root-of-unity subgroup.
    Configuration,
    /// The field cannot supply a root of unity of the required order.
    Arithmetic,
    /// An internal invariant failed.
    InternalInvariant,
}

} // verus!
