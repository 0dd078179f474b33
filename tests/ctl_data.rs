use keccak_ctl::challenges::{GrandProductChallenge, GrandProductChallengeSet};
use keccak_ctl::column::Column;
use keccak_ctl::ctl_data::{ctl_z_columns, partial_products};
use keccak_ctl::cross_table_lookup::{verify_cross_table_lookups, CrossTableLookup, TableWithColumns};
use keccak_ctl::field::ORDER;
use keccak_ctl::Table;

fn col(reg: usize) -> Column {
    Column { linear_combination: vec![(reg, 1)], constant: 0 }
}

#[test]
fn combine_is_gamma_plus_powers_of_beta() {
    let ch = GrandProductChallenge { beta: 10, gamma: 7 };
    assert_eq!(ch.combine(&vec![1, 2, 3]), 1 + 10 * 2 + 100 * 3 + 7);
    assert_eq!(ch.combine(&vec![]), 7);
    let wrap = GrandProductChallenge { beta: 2, gamma: 0 };
    assert_eq!(wrap.combine(&vec![0, ORDER - 1]), ORDER - 2);
}

#[test]
fn partial_products_skip_unselected_rows() {
    let trace = vec![vec![1u64, 5], vec![0u64, 9], vec![1u64, 2]];
    let ch = GrandProductChallenge { beta: 3, gamma: 1 };
    let z = partial_products(&trace, &vec![col(1)], &Some(col(0)), &ch);
    assert_eq!(z, vec![6, 6, 18]);
    let all = partial_products(&trace, &vec![col(1)], &None, &ch);
    assert_eq!(all, vec![6, 60, 180]);
}

#[test]
fn equal_multisets_give_consistent_openings() {
    // Looking side selects tuples 4 and 6; looked side holds 6 and 4 in another order.
    let looking_trace = vec![vec![1u64, 4], vec![0u64, 8], vec![1u64, 6]];
    let looked_trace = vec![vec![6u64], vec![4u64]];
    let looking = TableWithColumns { table: Table::KeccakPermutation, columns: vec![col(1)], filter_column: Some(col(0)) };
    let looked = TableWithColumns { table: Table::KeccakSponge, columns: vec![col(0)], filter_column: None };
    let set = GrandProductChallengeSet {
        challenges: vec![GrandProductChallenge { beta: 5, gamma: 11 }, GrandProductChallenge { beta: 2, gamma: 3 }],
    };
    let za = ctl_z_columns(&looking_trace, &looking, &set);
    let zb = ctl_z_columns(&looked_trace, &looked, &set);
    let last = |cols: &Vec<Vec<u64>>| cols.iter().map(|c| *c.last().unwrap()).collect::<Vec<u64>>();
    let zs = [last(&za), last(&zb), vec![]];
    assert_eq!(zs[0], vec![15 * 17, 7 * 9]);
    let ctls = vec![CrossTableLookup { looking_tables: vec![looking], looked_table: looked }];
    assert_eq!(verify_cross_table_lookups(&ctls, &zs, 2), Ok(()));
}
