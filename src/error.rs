use vstd::prelude::*;

use crate::table::Table;

verus! {

/// The ways in which proving or verification can fail.
#[derive(Debug, Clone, Copy, PartialEq, Eq, Structural)]
pub enum CtlError {
    /// The challenge set carried by a proof differs from the one replayed
    /// from the proof's own commitments.
    ChallengeMismatch,
    /// The single-table verifier rejected the proof of this table.
    TableProofInvalid(Table),
    /// The grand products of some lookup relation do not agree.
    CrossTableLookupInconsistent,
    /// A trace does not have the shape its table expects.
    MalformedTrace,
    /// Limbs handed to the packing step are of odd number or fewer than two.
    InputPackingError,
}

} // verus!
