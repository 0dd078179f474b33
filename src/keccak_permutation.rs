use vstd::prelude::*;

use crate::column::Column;
use crate::error::CtlError;

verus! {

/// Rounds of Keccak-f[1600]; a permutation occupies one block of this many rows.
pub const NUM_ROUNDS: usize = 24;

/// 64-bit lanes of the Keccak state.
pub const NUM_INPUTS: usize = 25;

/// Registers at the front of a permutation row that the lookup reads: the
/// round-step indicators, then the input limbs, then the output limbs. The
/// registers after these hold the round computation itself.
pub const NUM_LOOKUP_REGISTERS: usize = 124;

/// Register of the indicator that is 1 on round `i` of a block.
pub open spec fn reg_step(i: int) -> int {
    i
}

/// Register of 32-bit input limb `i`.
pub open spec fn reg_input_limb(i: int) -> int {
    NUM_ROUNDS + i
}

/// Register of 32-bit output limb `i`.
pub open spec fn reg_output_limb(i: int) -> int {
    NUM_ROUNDS + 2 * NUM_INPUTS + i
}

/// The round-step indicators of row `r`: register `i` is 1 exactly when the
/// row is round `i` of its block.
pub open spec fn step_row(r: int) -> Seq<u64> {
    Seq::new(NUM_ROUNDS as nat, |i: int| if r % (NUM_ROUNDS as int) == i { 1u64 } else { 0u64 })
}

/// The value that the lookup filter takes on row `r` of a permutation trace.
pub open spec fn filter_at(r: int) -> int {
    if r % (NUM_ROUNDS as int) == NUM_ROUNDS - 1 { 1 } else { 0 }
}

/// The lookup tuple of the permutation table: the input limbs, then the
/// output limbs, each as an unweighted single register.
pub fn ctl_data() -> (r: Vec<Column>)
    ensures
        r@.len() == 4 * NUM_INPUTS,
        forall|i: int| 0 <= i < 2 * NUM_INPUTS
            ==> (#[trigger] r@[i]).is_single(reg_input_limb(i) as usize),
        forall|i: int| 0 <= i < 2 * NUM_INPUTS
            ==> (#[trigger] r@[2 * NUM_INPUTS + i]).is_single(reg_output_limb(i) as usize),
        forall|i: int| 0 <= i < r@.len() ==> (#[trigger] r@[i]).reads_within(NUM_LOOKUP_REGISTERS as nat),
{
    let mut inputs: Vec<usize> = Vec::new();
    let mut outputs: Vec<usize> = Vec::new();
    let mut i: usize = 0;
    while i < 2 * NUM_INPUTS
        invariant
            i <= 2 * NUM_INPUTS,
            inputs@.len() == i,
            outputs@.len() == i,
            forall|k: int| 0 <= k < i ==> inputs@[k] == reg_input_limb(k),
            forall|k: int| 0 <= k < i ==> outputs@[k] == reg_output_limb(k),
        decreases 2 * NUM_INPUTS - i,
    {
        inputs.push(NUM_ROUNDS + i);
        outputs.push(NUM_ROUNDS + 2 * NUM_INPUTS + i);
        i = i + 1;
    }
    let mut res = Column::singles(&inputs);
    let mut tail = Column::singles(&outputs);
    let ghost head_cols = res@;
    let ghost tail_cols = tail@;
    res.append(&mut tail);
    assert(res@ == head_cols + tail_cols);
    assert forall|i: int| 0 <= i < res@.len() implies (#[trigger] res@[i]).reads_within(NUM_LOOKUP_REGISTERS as nat) by {
        let lc = res@[i].linear_combination@;
        let reg: usize = if i < 2 * NUM_INPUTS { inputs@[i] } else { outputs@[i - 2 * NUM_INPUTS] };
        if i < 2 * NUM_INPUTS {
            assert(head_cols[i].is_single(inputs@[i]));
            assert(inputs@[i] == reg_input_limb(i));
        } else {
            assert(tail_cols[i - 2 * NUM_INPUTS].is_single(outputs@[i - 2 * NUM_INPUTS]));
            assert(outputs@[i - 2 * NUM_INPUTS] == reg_output_limb(i - 2 * NUM_INPUTS));
        }
        assert(res@[i].is_single(reg));
        assert(reg < NUM_LOOKUP_REGISTERS);
        assert(lc =~= seq![(reg, 1u64)]);
        assert(lc[0].0 == reg);
    }
    assert forall|i: int| 0 <= i < 2 * NUM_INPUTS
        implies (#[trigger] res@[2 * NUM_INPUTS + i]).is_single(reg_output_limb(i) as usize) by {
        assert(tail_cols[i].is_single(outputs@[i]));
    }
    res
}

/// The lookup filter of the permutation table: the indicator of the last
/// round, so that each block contributes its final row alone.
pub fn ctl_filter() -> (r: Column)
    ensures
        r.is_single(reg_step(NUM_ROUNDS - 1) as usize),
        r.reads_within(NUM_ROUNDS as nat),
{
    Column::single(NUM_ROUNDS - 1)
}

/// The round-step indicator registers of a trace of `height` rows.
pub fn generate_step_rows(height: usize) -> (r: Vec<Vec<u64>>)
    ensures
        r@.len() == height,
        forall|k: int| 0 <= k < height ==> (#[trigger] r@[k])@ == step_row(k as int),
{
    let mut rows: Vec<Vec<u64>> = Vec::new();
    let mut k: usize = 0;
    while k < height
        invariant
            k <= height,
            rows@.len() == k,
            forall|j: int| 0 <= j < k ==> (#[trigger] rows@[j])@ == step_row(j as int),
        decreases height - k,
    {
        let round = k % NUM_ROUNDS;
        let mut row: Vec<u64> = Vec::new();
        let mut i: usize = 0;
        while i < NUM_ROUNDS
            invariant
                i <= NUM_ROUNDS,
                round == k % NUM_ROUNDS,
                row@.len() == i,
                forall|j: int| 0 <= j < i ==> row@[j] == step_row(k as int)[j],
            decreases NUM_ROUNDS - i,
        {
            row.push(if round == i { 1u64 } else { 0u64 });
            i = i + 1;
        }
        assert(row@ =~= step_row(k as int));
        rows.push(row);
        k = k + 1;
    }
    rows
}

/// Evaluates the lookup filter on every row of a permutation trace.
pub fn filter_values(trace: &Vec<Vec<u64>>) -> (r: Result<Vec<u64>, CtlError>)
    ensures
        r is Ok <==> forall|k: int| 0 <= k < trace@.len() ==> (#[trigger] trace@[k])@.len() >= NUM_ROUNDS,
        r matches Ok(v) ==> v@.len() == trace@.len()
            && forall|k: int| 0 <= k < v@.len()
                ==> v@[k] as int == #[trigger] trace@[k]@[NUM_ROUNDS - 1] as int % (crate::field::ORDER as int),
        r matches Err(e) ==> e == CtlError::MalformedTrace,
{
    let filter = ctl_filter();
    let mut out: Vec<u64> = Vec::new();
    let mut k: usize = 0;
    while k < trace.len()
        invariant
            k <= trace@.len(),
            out@.len() == k,
            filter.is_single((NUM_ROUNDS - 1) as usize),
            filter.reads_within(NUM_ROUNDS as nat),
            forall|j: int| 0 <= j < k ==> (#[trigger] trace@[j])@.len() >= NUM_ROUNDS,
            forall|j: int| 0 <= j < k
                ==> out@[j] as int == #[trigger] trace@[j]@[NUM_ROUNDS - 1] as int % (crate::field::ORDER as int),
        decreases trace@.len() - k,
    {
        if trace[k].len() < NUM_ROUNDS {
            return Err(CtlError::MalformedTrace);
        }
        let v = filter.eval(&trace[k]);
        proof {
            let lc = filter.linear_combination@;
            assert(lc.drop_last() =~= Seq::<(usize, u64)>::empty());
            assert(crate::column::lc_sum(lc.drop_last(), trace@[k as int]@) == 0);
            assert(crate::column::lc_sum(lc, trace@[k as int]@) == trace@[k as int]@[NUM_ROUNDS - 1] as int);
        }
        out.push(v);
        k = k + 1;
    }
    Ok(out)
}

/// On a trace whose step registers follow the round schedule and whose
/// height is a multiple of the round count, the filter is 1 on exactly one
/// row of each block, the block's last, and 0 on every other row.
pub proof fn lemma_filter_exclusive(height: int)
    requires
        height >= 0,
        height % (NUM_ROUNDS as int) == 0,
    ensures
        forall|r: int| 0 <= r < height ==> (#[trigger] step_row(r))[NUM_ROUNDS - 1] as int == filter_at(r),
        forall|r: int| 0 <= r < height ==> (#[trigger] filter_at(r) == 1 <==> r % (NUM_ROUNDS as int) == NUM_ROUNDS - 1),
        forall|f: Column, r: int| f.is_single((NUM_ROUNDS - 1) as usize) && 0 <= r < height
            ==> #[trigger] f.value(step_row(r)) == filter_at(r),
        forall|b: int| 0 <= b < height / (NUM_ROUNDS as int) ==> {
            &&& b * NUM_ROUNDS + NUM_ROUNDS - 1 < height
            &&& #[trigger] filter_at(b * NUM_ROUNDS + NUM_ROUNDS - 1) == 1
            &&& forall|r: int| b * NUM_ROUNDS <= r < (b + 1) * NUM_ROUNDS && #[trigger] filter_at(r) == 1
                ==> r == b * NUM_ROUNDS + NUM_ROUNDS - 1
        },
{
    assert forall|f: Column, r: int| f.is_single((NUM_ROUNDS - 1) as usize) && 0 <= r < height
        implies #[trigger] f.value(step_row(r)) == filter_at(r) by {
        let lc = f.linear_combination@;
        assert(lc.drop_last() =~= Seq::<(usize, u64)>::empty());
        assert(crate::column::lc_sum(lc.drop_last(), step_row(r)) == 0);
        assert(crate::column::lc_sum(lc, step_row(r)) == filter_at(r));
        vstd::arithmetic::div_mod::lemma_small_mod(filter_at(r) as nat, crate::field::ORDER as nat);
    }
    assert forall|b: int| 0 <= b < height / (NUM_ROUNDS as int) implies {
        &&& b * NUM_ROUNDS + NUM_ROUNDS - 1 < height
        &&& #[trigger] filter_at(b * NUM_ROUNDS + NUM_ROUNDS - 1) == 1
        &&& forall|r: int| b * NUM_ROUNDS <= r < (b + 1) * NUM_ROUNDS && #[trigger] filter_at(r) == 1
            ==> r == b * NUM_ROUNDS + NUM_ROUNDS - 1
    } by {
        assert((b + 1) * 24 <= height) by (nonlinear_arith)
            requires 0 <= b < height / 24, height % 24 == 0, height >= 0;
        assert((b * 24 + 23) % 24 == 23) by (nonlinear_arith)
            requires b >= 0;
        assert forall|r: int| b * NUM_ROUNDS <= r < (b + 1) * NUM_ROUNDS && #[trigger] filter_at(r) == 1
            implies r == b * NUM_ROUNDS + NUM_ROUNDS - 1 by {
            assert(r % 24 == r - b * 24) by (nonlinear_arith)
                requires b * 24 <= r < (b + 1) * 24, b >= 0;
        }
    }
}

} // verus!
