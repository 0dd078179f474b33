use vstd::prelude::*;

use crate::field::{add_mod, fe, lemma_fe_add, mul_mod};

verus! {

/// One coordinate of a lookup tuple: a linear combination of the registers
/// of a row, plus a constant, over the field.
#[derive(Debug)]
pub struct Column {
    /// Pairs of register index and weight.
    pub linear_combination: Vec<(usize, u64)>,
    pub constant: u64,
}

/// The weighted sum of the registers named by `lc`, before reduction.
pub open spec fn lc_sum(lc: Seq<(usize, u64)>, row: Seq<u64>) -> int
    decreases lc.len(),
{
    if lc.len() == 0 {
        0
    } else {
        lc_sum(lc.drop_last(), row) + lc.last().1 * row[lc.last().0 as int]
    }
}

impl Column {
    /// Every register that the column reads lies below `width`.
    pub open spec fn reads_within(&self, width: nat) -> bool {
        forall|k: int| 0 <= k < self.linear_combination@.len()
            ==> (#[trigger] self.linear_combination@[k]).0 < width
    }

    /// The field element that the column takes on `row`.
    pub open spec fn value(&self, row: Seq<u64>) -> int {
        fe(lc_sum(self.linear_combination@, row) + self.constant)
    }

    /// The column is register `reg` itself, with weight one and no constant.
    pub open spec fn is_single(&self, reg: usize) -> bool {
        self.linear_combination@ == seq![(reg, 1u64)] && self.constant == 0
    }

    /// The column that reads register `reg` unweighted.
    pub fn single(reg: usize) -> (r: Column)
        ensures
            r.is_single(reg),
    {
        let mut lc: Vec<(usize, u64)> = Vec::new();
        lc.push((reg, 1u64));
        assert(lc@ =~= seq![(reg, 1u64)]);
        Column { linear_combination: lc, constant: 0 }
    }

    /// One unweighted column for each register of `regs`, in order.
    pub fn singles(regs: &Vec<usize>) -> (r: Vec<Column>)
        ensures
            r@.len() == regs@.len(),
            forall|i: int| 0 <= i < regs@.len() ==> (#[trigger] r@[i]).is_single(regs@[i]),
    {
        let mut r: Vec<Column> = Vec::new();
        let mut i: usize = 0;
        while i < regs.len()
            invariant
                i <= regs@.len(),
                r@.len() == i,
                forall|k: int| 0 <= k < i ==> (#[trigger] r@[k]).is_single(regs@[k]),
            decreases regs@.len() - i,
        {
            r.push(Column::single(regs[i]));
            i = i + 1;
        }
        r
    }

    /// Evaluates the column on one row of a trace.
    pub fn eval(&self, row: &Vec<u64>) -> (r: u64)
        requires
            self.reads_within(row@.len()),
        ensures
            r as int == self.value(row@),
    {
        let lc = &self.linear_combination;
        let mut acc: u64 = 0;
        let mut k: usize = 0;
        while k < lc.len()
            invariant
                k <= lc@.len(),
                lc == &self.linear_combination,
                self.reads_within(row@.len()),
                acc as int == fe(lc_sum(lc@.take(k as int), row@)),
            decreases lc@.len() - k,
        {
            let (reg, w) = lc[k];
            assert(lc@[k as int].0 < row@.len());
            let term = mul_mod(w, row[reg]);
            proof {
                let pre = lc@.take(k as int);
                let next = lc@.take(k as int + 1);
                assert(next.drop_last() =~= pre);
                assert(next.last() == (reg, w));
                lemma_fe_add(lc_sum(pre, row@), w * row@[reg as int]);
                assert(fe(fe(lc_sum(pre, row@)) + fe(w * row@[reg as int]))
                    == fe(lc_sum(next, row@)));
            }
            acc = add_mod(acc, term);
            k = k + 1;
        }
        assert(lc@.take(lc@.len() as int) =~= lc@);
        proof {
            lemma_fe_add(lc_sum(lc@, row@), self.constant as int);
            assert(fe(fe(lc_sum(lc@, row@)) + fe(self.constant as int))
                == fe(lc_sum(lc@, row@) + self.constant));
        }
        let c = self.constant % crate::field::ORDER;
        add_mod(acc, c)
    }
}

} // verus!
