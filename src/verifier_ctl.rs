use vstd::prelude::*;

use crate::challenges::{GrandProductChallenge, GrandProductChallengeSet, check_challenges};
use crate::cross_table_lookup::{CrossTableLookup, lookups_consistent, verify_cross_table_lookups};
use crate::error::CtlError;
use crate::table::{Table, NUM_TABLES};

verus! {

/// What verification reports, from the challenge set carried by the proof, the
/// one replayed from its commitments, the single-table verdicts in table order
/// and the global lookup check. The first failing stage decides the error.
pub open spec fn verification_outcome(
    asserted: Seq<GrandProductChallenge>,
    recomputed: Seq<GrandProductChallenge>,
    table_ok: Seq<bool>,
    lookups_ok: bool,
) -> Result<(), CtlError> {
    if asserted != recomputed {
        Err(CtlError::ChallengeMismatch)
    } else if !table_ok[0] {
        Err(CtlError::TableProofInvalid(Table::KeccakPermutation))
    } else if !table_ok[1] {
        Err(CtlError::TableProofInvalid(Table::KeccakSponge))
    } else if !table_ok[2] {
        Err(CtlError::TableProofInvalid(Table::KeccakXor))
    } else if !lookups_ok {
        Err(CtlError::CrossTableLookupInconsistent)
    } else {
        Ok(())
    }
}

/// Decides a proof: the carried challenges must equal the replayed ones, each
/// table's proof must have been accepted, in table order, and the lookup
/// relations must hold over the tables' final running-product openings.
pub fn verify_proof(
    asserted: &GrandProductChallengeSet,
    recomputed: &GrandProductChallengeSet,
    table_ok: &[bool; NUM_TABLES],
    ctls: &Vec<CrossTableLookup>,
    ctl_zs_last: &[Vec<u64>; NUM_TABLES],
    num_challenges: usize,
) -> (r: Result<(), CtlError>)
    ensures
        r == verification_outcome(
            asserted.challenges@,
            recomputed.challenges@,
            table_ok@,
            lookups_consistent(ctls@, ctl_zs_last@, num_challenges as nat),
        ),
        r is Ok <==> asserted.challenges@ == recomputed.challenges@
            && table_ok@[0] && table_ok@[1] && table_ok@[2]
            && lookups_consistent(ctls@, ctl_zs_last@, num_challenges as nat),
        asserted.challenges@ != recomputed.challenges@ ==> r == Err::<(), CtlError>(CtlError::ChallengeMismatch),
{
    if let Err(e) = check_challenges(asserted, recomputed) {
        return Err(e);
    }
    let order = Table::all();
    let mut k: usize = 0;
    while k < NUM_TABLES
        invariant
            k <= NUM_TABLES,
            forall|j: int| 0 <= j < NUM_TABLES ==> order[j] == Table::spec_at(j as nat),
            forall|j: int| 0 <= j < k ==> table_ok@[j],
            asserted.challenges@ == recomputed.challenges@,
        decreases NUM_TABLES - k,
    {
        if !table_ok[k] {
            return Err(CtlError::TableProofInvalid(order[k]));
        }
        k = k + 1;
    }
    let r = verify_cross_table_lookups(ctls, ctl_zs_last, num_challenges);
    assert(table_ok@[0] && table_ok@[1] && table_ok@[2]);
    match r {
        Ok(()) => Ok(()),
        Err(e) => Err(e),
    }
}

} // verus!
