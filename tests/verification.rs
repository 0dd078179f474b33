use keccak_ctl::challenges::{
    challenge_set_from_draws, check_challenges, transcript_observations, GrandProductChallenge,
    GrandProductChallengeSet,
};
use keccak_ctl::cross_table_lookup::{verify_cross_table_lookups, CrossTableLookup, TableWithColumns};
use keccak_ctl::field::ORDER;
use keccak_ctl::prover_ctl::{proving_schedule, ProverStep};
use keccak_ctl::{verify_proof, CtlError, Table};

fn side(table: Table) -> TableWithColumns {
    TableWithColumns { table, columns: vec![], filter_column: None }
}

/// Permutation and xor together are looked up in the sponge.
fn relations() -> Vec<CrossTableLookup> {
    vec![CrossTableLookup {
        looking_tables: vec![side(Table::KeccakPermutation), side(Table::KeccakXor)],
        looked_table: side(Table::KeccakSponge),
    }]
}

fn set(v: &[(u64, u64)]) -> GrandProductChallengeSet {
    GrandProductChallengeSet {
        challenges: v.iter().map(|&(beta, gamma)| GrandProductChallenge { beta, gamma }).collect(),
    }
}

#[test]
fn consistent_lookups_pass() {
    let zs = [vec![3u64, 5], vec![21u64, 10], vec![7u64, 2]];
    assert_eq!(verify_cross_table_lookups(&relations(), &zs, 2), Ok(()));
}

#[test]
fn lookup_products_compare_as_field_elements() {
    let zs = [vec![ORDER - 1], vec![1u64], vec![ORDER - 1]];
    assert_eq!(verify_cross_table_lookups(&relations(), &zs, 1), Ok(()));
}

#[test]
fn tampered_opening_is_inconsistent() {
    let zs = [vec![3u64, 5], vec![21u64, 10 ^ 1], vec![7u64, 2]];
    assert_eq!(
        verify_cross_table_lookups(&relations(), &zs, 2),
        Err(CtlError::CrossTableLookupInconsistent)
    );
}

#[test]
fn missing_or_extra_openings_are_inconsistent() {
    let short = [vec![3u64], vec![21u64, 10], vec![7u64, 2]];
    assert_eq!(
        verify_cross_table_lookups(&relations(), &short, 2),
        Err(CtlError::CrossTableLookupInconsistent)
    );
    let long = [vec![3u64, 5, 1], vec![21u64, 10], vec![7u64, 2]];
    assert_eq!(
        verify_cross_table_lookups(&relations(), &long, 2),
        Err(CtlError::CrossTableLookupInconsistent)
    );
}

#[test]
fn verify_reports_first_failing_stage() {
    let zs = [vec![3u64], vec![21u64], vec![7u64]];
    let a = set(&[(1, 2)]);
    let b = set(&[(1, 2)]);
    assert_eq!(verify_proof(&a, &b, &[true, true, true], &relations(), &zs, 1), Ok(()));
    let flipped = set(&[(1, 3)]);
    assert_eq!(
        verify_proof(&flipped, &b, &[true, false, true], &relations(), &zs, 1),
        Err(CtlError::ChallengeMismatch)
    );
    assert_eq!(
        verify_proof(&a, &b, &[true, false, false], &relations(), &zs, 1),
        Err(CtlError::TableProofInvalid(Table::KeccakSponge))
    );
    let bad = [vec![3u64], vec![22u64], vec![7u64]];
    assert_eq!(
        verify_proof(&a, &b, &[true, true, true], &relations(), &bad, 1),
        Err(CtlError::CrossTableLookupInconsistent)
    );
}

#[test]
fn challenge_sets_must_match() {
    assert_eq!(check_challenges(&set(&[(1, 2)]), &set(&[(1, 2)])), Ok(()));
    assert_eq!(check_challenges(&set(&[(1, 2)]), &set(&[(1, 2), (3, 4)])), Err(CtlError::ChallengeMismatch));
    assert_eq!(check_challenges(&set(&[(0, 2)]), &set(&[(1, 2)])), Err(CtlError::ChallengeMismatch));
}

#[test]
fn draws_pair_into_challenges() {
    let s = challenge_set_from_draws(&vec![10, 11, 12, 13]);
    assert_eq!(s.challenges, vec![
        GrandProductChallenge { beta: 10, gamma: 11 },
        GrandProductChallenge { beta: 12, gamma: 13 },
    ]);
    let again = challenge_set_from_draws(&vec![10, 11, 12, 13]);
    assert_eq!(s.challenges, again.challenges);
}

#[test]
fn caps_are_observed_in_table_order() {
    let caps = [vec![1u64, 2], vec![3u64, 4], vec![5u64, 6]];
    assert_eq!(transcript_observations(&caps), vec![1, 2, 3, 4, 5, 6]);
    assert_eq!(transcript_observations(&caps), transcript_observations(&caps));
    let swapped = [caps[1].clone(), caps[0].clone(), caps[2].clone()];
    assert_ne!(transcript_observations(&swapped), transcript_observations(&caps));
}

#[test]
fn schedule_commits_observes_then_proves_in_order() {
    let steps = proving_schedule(2);
    assert_eq!(steps.len(), 11);
    assert_eq!(steps[0], ProverStep::CommitTrace(Table::KeccakPermutation));
    assert_eq!(steps[5], ProverStep::ObserveCap(Table::KeccakXor));
    assert_eq!(steps[6], ProverStep::DrawChallenges(2));
    assert_eq!(steps[7], ProverStep::BuildCtlData);
    assert_eq!(steps[9], ProverStep::ProveTable { table: Table::KeccakSponge, public_inputs: true });
    assert_eq!(steps[10], ProverStep::ProveTable { table: Table::KeccakXor, public_inputs: false });
    assert_eq!(Table::all().map(|t| t.index()), [0, 1, 2]);
}
