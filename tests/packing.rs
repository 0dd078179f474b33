use keccak_ctl::prover_ctl::permutation_inputs;
use keccak_ctl::{u32_to_u64_reverse, CtlError};

#[test]
fn packs_pairs_low_limb_first() {
    let limbs: Vec<u32> = vec![1, 2, 3, 4];
    let words = u32_to_u64_reverse(&limbs).unwrap();
    assert_eq!(words, vec![(2u64 << 32) | 1, (4u64 << 32) | 3]);
    assert_eq!(words, vec![0x0000_0002_0000_0001, 0x0000_0004_0000_0003]);
}

#[test]
fn packs_full_width_limbs() {
    let limbs: Vec<u32> = vec![0xdead_beef, 0xffff_ffff];
    assert_eq!(u32_to_u64_reverse(&limbs), Ok(vec![0xffff_ffff_dead_beef]));
}

#[test]
fn packing_rejects_odd_length() {
    let limbs: Vec<u32> = vec![1, 2, 3];
    assert_eq!(u32_to_u64_reverse(&limbs), Err(CtlError::InputPackingError));
}

#[test]
fn packing_rejects_short_input() {
    assert_eq!(u32_to_u64_reverse(&[]), Err(CtlError::InputPackingError));
    assert_eq!(u32_to_u64_reverse(&[7]), Err(CtlError::InputPackingError));
}

#[test]
fn permutation_inputs_pack_every_state() {
    let state: Vec<u32> = (0..50u32).collect();
    let lanes = permutation_inputs(&vec![state.clone(), state]).unwrap();
    assert_eq!(lanes.len(), 2);
    assert_eq!(lanes[0].len(), 25);
    assert_eq!(lanes[0][0], (1u64 << 32) | 0);
    assert_eq!(lanes[1][24], (49u64 << 32) | 48);
}

#[test]
fn permutation_inputs_reject_bad_states() {
    let good: Vec<u32> = vec![0; 50];
    assert_eq!(permutation_inputs(&vec![good.clone(), vec![0; 49]]), Err(CtlError::InputPackingError));
    assert_eq!(permutation_inputs(&vec![good, vec![0; 48]]), Err(CtlError::MalformedTrace));
    assert_eq!(permutation_inputs(&vec![]), Ok(vec![]));
}
