use keccak_ctl::column::Column;
use keccak_ctl::field::{add_mod, mul_mod, ORDER};
use keccak_ctl::keccak_permutation::{filter_values, generate_step_rows, NUM_ROUNDS};
use keccak_ctl::{ctl_data, ctl_filter, CtlError};

#[test]
fn ctl_data_lists_input_then_output_limbs() {
    let cols = ctl_data();
    assert_eq!(cols.len(), 100);
    assert_eq!(cols[0].linear_combination, vec![(24usize, 1u64)]);
    assert_eq!(cols[49].linear_combination, vec![(73usize, 1u64)]);
    assert_eq!(cols[50].linear_combination, vec![(74usize, 1u64)]);
    assert_eq!(cols[99].linear_combination, vec![(123usize, 1u64)]);
    assert!(cols.iter().all(|c| c.constant == 0));
}

#[test]
fn ctl_filter_is_last_round_indicator() {
    let f = ctl_filter();
    assert_eq!(f.linear_combination, vec![(NUM_ROUNDS - 1, 1u64)]);
    assert_eq!(f.constant, 0);
}

#[test]
fn filter_is_one_on_last_row_of_each_block() {
    let rows = generate_step_rows(2 * NUM_ROUNDS);
    let values = filter_values(&rows).unwrap();
    assert_eq!(values.len(), 48);
    for (r, v) in values.iter().enumerate() {
        let expected = if r == 23 || r == 47 { 1 } else { 0 };
        assert_eq!(*v, expected, "row {}", r);
    }
    assert_eq!(values.iter().filter(|v| **v == 1).count(), 2);
}

#[test]
fn step_rows_follow_round_schedule() {
    let rows = generate_step_rows(26);
    assert_eq!(rows[0][0], 1);
    assert_eq!(rows[25][1], 1);
    assert_eq!(rows[25].iter().sum::<u64>(), 1);
}

#[test]
fn filter_rejects_narrow_rows() {
    let rows = vec![vec![0u64; NUM_ROUNDS], vec![0u64; NUM_ROUNDS - 1]];
    assert_eq!(filter_values(&rows), Err(CtlError::MalformedTrace));
}

#[test]
fn column_eval_weighted_sum_mod_order() {
    let c = Column { linear_combination: vec![(0, 3), (2, 5)], constant: 7 };
    let row = vec![10u64, 99, 4];
    assert_eq!(c.eval(&row), 3 * 10 + 5 * 4 + 7);
    let wrap = Column { linear_combination: vec![(0, 2)], constant: 0 };
    assert_eq!(wrap.eval(&vec![ORDER - 1]), ORDER - 2);
}

#[test]
fn field_ops_reduce_mod_order() {
    assert_eq!(add_mod(ORDER - 1, 2), 1);
    assert_eq!(mul_mod(ORDER - 1, ORDER - 1), 1);
    assert_eq!(mul_mod(1u64 << 32, 1u64 << 32), (1u64 << 32) - 1);
}
