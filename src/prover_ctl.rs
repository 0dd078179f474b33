use vstd::prelude::*;

use crate::error::CtlError;
use crate::keccak_permutation::NUM_INPUTS;
use crate::packing::{packable, packed, u32_to_u64_reverse};
use crate::table::Table;

verus! {

/// A sponge state handed to the permutation table is well formed when it
/// holds the 32-bit limbs of every lane.
pub open spec fn state_fits(state: Seq<u32>) -> bool {
    state.len() == 2 * NUM_INPUTS
}

/// The error that a malformed sponge state gives: limbs that cannot be paired
/// are a packing error, a wrong number of lanes a malformed trace.
pub open spec fn state_error(state: Seq<u32>) -> CtlError {
    if packable(state.len()) { CtlError::MalformedTrace } else { CtlError::InputPackingError }
}

/// Turns the per-block sponge states, as 32-bit limbs, into the 64-bit lanes
/// that the permutation table takes as inputs.
pub fn permutation_inputs(sponge_states: &Vec<Vec<u32>>) -> (r: Result<Vec<Vec<u64>>, CtlError>)
    ensures
        r is Ok <==> forall|k: int| 0 <= k < sponge_states@.len() ==> state_fits(#[trigger] sponge_states@[k]@),
        r matches Ok(lanes) ==> lanes@.len() == sponge_states@.len()
            && forall|k: int| 0 <= k < lanes@.len() ==> (#[trigger] lanes@[k])@.len() == NUM_INPUTS
                && forall|i: int| 0 <= i < NUM_INPUTS ==> lanes@[k]@[i] as int == #[trigger] packed(sponge_states@[k]@)[i],
        r matches Err(e) ==> exists|k: int| 0 <= k < sponge_states@.len()
            && !state_fits(#[trigger] sponge_states@[k]@)
            && e == state_error(sponge_states@[k]@)
            && forall|j: int| 0 <= j < k ==> state_fits(#[trigger] sponge_states@[j]@),
{
    let mut out: Vec<Vec<u64>> = Vec::new();
    let mut k: usize = 0;
    while k < sponge_states.len()
        invariant
            k <= sponge_states@.len(),
            out@.len() == k,
            forall|j: int| 0 <= j < k ==> state_fits(#[trigger] sponge_states@[j]@),
            forall|j: int| 0 <= j < k ==> (#[trigger] out@[j])@.len() == NUM_INPUTS
                && forall|i: int| 0 <= i < NUM_INPUTS ==> out@[j]@[i] as int == #[trigger] packed(sponge_states@[j]@)[i],
        decreases sponge_states@.len() - k,
    {
        let state = &sponge_states[k];
        match u32_to_u64_reverse(state.as_slice()) {
            Err(e) => {
                return Err(e);
            },
            Ok(lanes) => {
                if lanes.len() != NUM_INPUTS {
                    return Err(CtlError::MalformedTrace);
                }
                out.push(lanes);
            },
        }
        k = k + 1;
    }
    Ok(out)
}

/// One step of the proving pipeline.
#[derive(Debug, Clone, Copy, PartialEq, Eq, Structural)]
pub enum ProverStep {
    /// Commit to the trace of the table.
    CommitTrace(Table),
    /// Absorb the Merkle cap of the table's commitment into the transcript.
    ObserveCap(Table),
    /// Draw this many grand-product challenges from the transcript.
    DrawChallenges(usize),
    /// Build the lookup data of every table from the traces and challenges.
    BuildCtlData,
    /// Prove the table on the shared transcript; only the sponge table takes
    /// the public inputs.
    ProveTable { table: Table, public_inputs: bool },
}

/// The proving pipeline: every stage visits the tables in the fixed order,
/// and the challenges are drawn once, after every cap has been absorbed and
/// before any table is proved.
pub open spec fn schedule(num_challenges: usize) -> Seq<ProverStep> {
    seq![
        ProverStep::CommitTrace(Table::KeccakPermutation),
        ProverStep::CommitTrace(Table::KeccakSponge),
        ProverStep::CommitTrace(Table::KeccakXor),
        ProverStep::ObserveCap(Table::KeccakPermutation),
        ProverStep::ObserveCap(Table::KeccakSponge),
        ProverStep::ObserveCap(Table::KeccakXor),
        ProverStep::DrawChallenges(num_challenges),
        ProverStep::BuildCtlData,
        ProverStep::ProveTable { table: Table::KeccakPermutation, public_inputs: false },
        ProverStep::ProveTable { table: Table::KeccakSponge, public_inputs: true },
        ProverStep::ProveTable { table: Table::KeccakXor, public_inputs: false },
    ]
}

/// The steps that proving runs, in order.
pub fn proving_schedule(num_challenges: usize) -> (r: Vec<ProverStep>)
    ensures
        r@ == schedule(num_challenges),
{
    let order = Table::all();
    let mut r: Vec<ProverStep> = Vec::new();
    let mut k: usize = 0;
    while k < 3
        invariant
            k <= 3,
            forall|j: int| 0 <= j < 3 ==> order[j] == Table::spec_at(j as nat),
            r@ == schedule(num_challenges).take(k as int),
        decreases 3 - k,
    {
        r.push(ProverStep::CommitTrace(order[k]));
        k = k + 1;
        assert(r@ =~= schedule(num_challenges).take(k as int));
    }
    k = 0;
    while k < 3
        invariant
            k <= 3,
            forall|j: int| 0 <= j < 3 ==> order[j] == Table::spec_at(j as nat),
            r@ == schedule(num_challenges).take(3 + k),
        decreases 3 - k,
    {
        r.push(ProverStep::ObserveCap(order[k]));
        k = k + 1;
        assert(r@ =~= schedule(num_challenges).take(3 + k));
    }
    r.push(ProverStep::DrawChallenges(num_challenges));
    r.push(ProverStep::BuildCtlData);
    k = 0;
    while k < 3
        invariant
            k <= 3,
            forall|j: int| 0 <= j < 3 ==> order[j] == Table::spec_at(j as nat),
            r@ == schedule(num_challenges).take(8 + k),
        decreases 3 - k,
    {
        let table = order[k];
        let public_inputs = match table {
            Table::KeccakSponge => true,
            _ => false,
        };
        r.push(ProverStep::ProveTable { table, public_inputs });
        k = k + 1;
        assert(r@ =~= schedule(num_challenges).take(8 + k));
    }
    assert(r@ =~= schedule(num_challenges));
    r
}

} // verus!
