use vstd::prelude::*;

use crate::challenges::{GrandProductChallenge, GrandProductChallengeSet};
use crate::cross_table_lookup::TableWithColumns;
use crate::column::Column;
use crate::field::{add_mod, fe, lemma_fe_add, lemma_fe_mul, mul_mod};

verus! {

/// `values[0] + beta * values[1] + beta^2 * values[2] + ...`, before reduction.
pub open spec fn horner(values: Seq<u64>, beta: u64) -> int
    decreases values.len(),
{
    if values.len() == 0 {
        0
    } else {
        values[0] + beta * horner(values.drop_first(), beta)
    }
}

/// The field element that a challenge compresses a tuple into.
pub open spec fn combined(ch: GrandProductChallenge, values: Seq<u64>) -> int {
    fe(horner(values, ch.beta) + ch.gamma)
}

/// The tuple that `columns` read from `row`.
pub open spec fn tuple_of(columns: Seq<Column>, row: Seq<u64>) -> Seq<u64> {
    Seq::new(columns.len(), |i: int| columns[i].value(row) as u64)
}

/// Every column, and the filter if any, reads registers that every row has,
/// and the filter is 0 or 1 on every row.
pub open spec fn lookup_side_fits(trace: Seq<Vec<u64>>, columns: Seq<Column>, filter: Option<Column>) -> bool {
    &&& forall|r: int, i: int| 0 <= r < trace.len() && 0 <= i < columns.len()
        ==> (#[trigger] columns[i]).reads_within((#[trigger] trace[r])@.len())
    &&& forall|r: int| 0 <= r < trace.len() ==> match filter {
        Some(f) => f.reads_within((#[trigger] trace[r])@.len())
            && (f.value(trace[r]@) == 0 || f.value(trace[r]@) == 1),
        None => true,
    }
}

/// Whether `row` takes part in the lookup.
pub open spec fn selected(filter: Option<Column>, row: Seq<u64>) -> bool {
    match filter {
        Some(f) => f.value(row) == 1,
        None => true,
    }
}

/// The factor that row `row` contributes to the running product.
pub open spec fn factor(columns: Seq<Column>, filter: Option<Column>, ch: GrandProductChallenge, row: Seq<u64>) -> int {
    if selected(filter, row) { combined(ch, tuple_of(columns, row)) } else { 1 }
}

/// The running product over the first `k` rows.
pub open spec fn running_product(
    trace: Seq<Vec<u64>>,
    columns: Seq<Column>,
    filter: Option<Column>,
    ch: GrandProductChallenge,
    k: int,
) -> int
    decreases k,
{
    if k <= 0 {
        1
    } else {
        fe(running_product(trace, columns, filter, ch, k - 1) * factor(columns, filter, ch, trace[k - 1]@))
    }
}

impl GrandProductChallenge {
    /// Compresses a tuple: `gamma + sum_i beta^i * values[i]`.
    pub fn combine(&self, values: &Vec<u64>) -> (r: u64)
        ensures
            r as int == combined(*self, values@),
    {
        let mut acc: u64 = 0;
        let mut i: usize = values.len();
        while i > 0
            invariant
                i <= values@.len(),
                acc as int == fe(horner(values@.subrange(i as int, values@.len() as int), self.beta)),
            decreases i,
        {
            let ghost tail = values@.subrange(i as int, values@.len() as int);
            let ghost longer = values@.subrange(i - 1, values@.len() as int);
            let m = mul_mod(acc, self.beta);
            proof {
                assert(longer.drop_first() =~= tail);
                assert(longer[0] == values@[i - 1]);
                lemma_fe_mul(horner(tail, self.beta), self.beta as int);
                assert(fe(horner(tail, self.beta)) * self.beta == self.beta * fe(horner(tail, self.beta)))
                    by (nonlinear_arith);
                assert(horner(tail, self.beta) * self.beta == self.beta * horner(tail, self.beta))
                    by (nonlinear_arith);
                lemma_fe_add(self.beta * horner(tail, self.beta), values@[i - 1] as int);
                lemma_fe_add(values@[i - 1] as int, self.beta * horner(tail, self.beta));
                assert(fe(fe(self.beta * horner(tail, self.beta)) + values@[i - 1])
                    == fe(horner(longer, self.beta)));
            }
            acc = add_mod(m, values[i - 1]);
            i = i - 1;
        }
        assert(values@.subrange(0, values@.len() as int) =~= values@);
        proof {
            lemma_fe_add(horner(values@, self.beta), self.gamma as int);
        }
        add_mod(acc, self.gamma)
    }
}

/// The running-product column of one side of a lookup under one challenge:
/// entry `k` is the product of the factors of rows `0..=k`, where a row that
/// the filter selects contributes its compressed tuple and any other row 1.
pub fn partial_products(
    trace: &Vec<Vec<u64>>,
    columns: &Vec<Column>,
    filter: &Option<Column>,
    challenge: &GrandProductChallenge,
) -> (r: Vec<u64>)
    requires
        lookup_side_fits(trace@, columns@, *filter),
    ensures
        r@.len() == trace@.len(),
        forall|k: int| 0 <= k < r@.len()
            ==> r@[k] as int == running_product(trace@, columns@, *filter, *challenge, k + 1),
{
    let mut res: Vec<u64> = Vec::new();
    let mut prod: u64 = 1;
    let mut k: usize = 0;
    while k < trace.len()
        invariant
            lookup_side_fits(trace@, columns@, *filter),
            k <= trace@.len(),
            res@.len() == k,
            prod as int == running_product(trace@, columns@, *filter, *challenge, k as int),
            forall|j: int| 0 <= j < k
                ==> res@[j] as int == running_product(trace@, columns@, *filter, *challenge, j + 1),
        decreases trace@.len() - k,
    {
        let row = &trace[k];
        let take = match filter {
            Some(f) => f.eval(row) == 1,
            None => true,
        };
        if take {
            let mut tuple: Vec<u64> = Vec::new();
            let mut i: usize = 0;
            while i < columns.len()
                invariant
                    lookup_side_fits(trace@, columns@, *filter),
                    k < trace@.len(),
                    row == &trace@[k as int],
                    i <= columns@.len(),
                    tuple@ =~= tuple_of(columns@, row@).take(i as int),
                decreases columns@.len() - i,
            {
                assert(columns@[i as int].reads_within(trace@[k as int]@.len()));
                let v = columns[i].eval(row);
                tuple.push(v);
                i = i + 1;
                assert(tuple@ =~= tuple_of(columns@, row@).take(i as int));
            }
            assert(tuple@ =~= tuple_of(columns@, row@));
            let f = challenge.combine(&tuple);
            proof {
                lemma_fe_mul(running_product(trace@, columns@, *filter, *challenge, k as int), f as int);
            }
            prod = mul_mod(prod, f);
            proof {
                if k == 0 {
                    assert(running_product(trace@, columns@, *filter, *challenge, 0) == 1);
                }
                vstd::arithmetic::div_mod::lemma_mod_bound(running_product(trace@, columns@, *filter, *challenge, k as int), crate::field::ORDER as int);
            }
        } else {
            proof {
                assert(factor(columns@, *filter, *challenge, trace@[k as int]@) == 1);
                assert(running_product(trace@, columns@, *filter, *challenge, k as int)
                    == fe(running_product(trace@, columns@, *filter, *challenge, k as int) * 1)) by {
                    if k > 0 {
                        vstd::arithmetic::div_mod::lemma_mod_twice(
                            running_product(trace@, columns@, *filter, *challenge, k as int - 1)
                                * factor(columns@, *filter, *challenge, trace@[k as int - 1]@),
                            crate::field::ORDER as int);
                    } else {
                        vstd::arithmetic::div_mod::lemma_small_mod(1, crate::field::ORDER as nat);
                    }
                }
            }
        }
        res.push(prod);
        k = k + 1;
    }
    res
}

/// The running-product column of a lookup side under one challenge, as the
/// prover commits it.
pub open spec fn z_column(
    trace: Seq<Vec<u64>>,
    columns: Seq<Column>,
    filter: Option<Column>,
    ch: GrandProductChallenge,
) -> Seq<u64> {
    Seq::new(trace.len(), |k: int| running_product(trace, columns, filter, ch, k + 1) as u64)
}

/// The lookup data of one side of a relation: its running-product column
/// under each challenge of the shared set, in the order of the set.
pub fn ctl_z_columns(
    trace: &Vec<Vec<u64>>,
    side: &TableWithColumns,
    challenges: &GrandProductChallengeSet,
) -> (r: Vec<Vec<u64>>)
    requires
        lookup_side_fits(trace@, side.columns@, side.filter_column),
    ensures
        r@.len() == challenges.challenges@.len(),
        forall|c: int| 0 <= c < r@.len() ==> (#[trigger] r@[c])@
            == z_column(trace@, side.columns@, side.filter_column, challenges.challenges@[c]),
{
    let mut out: Vec<Vec<u64>> = Vec::new();
    let mut c: usize = 0;
    while c < challenges.challenges.len()
        invariant
            lookup_side_fits(trace@, side.columns@, side.filter_column),
            c <= challenges.challenges@.len(),
            out@.len() == c,
            forall|j: int| 0 <= j < c ==> (#[trigger] out@[j])@
                == z_column(trace@, side.columns@, side.filter_column, challenges.challenges@[j]),
        decreases challenges.challenges@.len() - c,
    {
        let z = partial_products(trace, &side.columns, &side.filter_column, &challenges.challenges[c]);
        proof {
            let ch = challenges.challenges@[c as int];
            assert forall|k: int| 0 <= k < z@.len() implies
                z@[k] == #[trigger] z_column(trace@, side.columns@, side.filter_column, ch)[k] by {
                lemma_running_product_bound(trace@, side.columns@, side.filter_column, ch, k + 1);
            }
            assert(z@ =~= z_column(trace@, side.columns@, side.filter_column, ch));
        }
        out.push(z);
        c = c + 1;
    }
    out
}

pub proof fn lemma_running_product_bound(
    trace: Seq<Vec<u64>>,
    columns: Seq<Column>,
    filter: Option<Column>,
    ch: GrandProductChallenge,
    k: int,
)
    ensures
        0 <= running_product(trace, columns, filter, ch, k) < crate::field::ORDER,
{
    if k > 0 {
        vstd::arithmetic::div_mod::lemma_mod_bound(
            running_product(trace, columns, filter, ch, k - 1) * factor(columns, filter, ch, trace[k - 1]@),
            crate::field::ORDER as int,
        );
    }
}

} // verus!
