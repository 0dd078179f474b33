use vstd::prelude::*;

verus! {

/// Number of tables bound together by the lookup argument.
pub const NUM_TABLES: usize = 3;

/// The tables of the proof, in the fixed order used for indexing, for
/// committing and for the transcript.
#[derive(Debug, Clone, Copy, PartialEq, Eq, Hash, Structural)]
pub enum Table {
    KeccakPermutation,
    KeccakSponge,
    KeccakXor,
}

impl Table {
    /// Position of the table in the fixed order.
    pub open spec fn spec_index(self) -> nat {
        match self {
            Table::KeccakPermutation => 0,
            Table::KeccakSponge => 1,
            Table::KeccakXor => 2,
        }
    }

    /// The table at position `i` of the fixed order.
    pub open spec fn spec_at(i: nat) -> Table
        recommends
            i < NUM_TABLES,
    {
        if i == 0 {
            Table::KeccakPermutation
        } else if i == 1 {
            Table::KeccakSponge
        } else {
            Table::KeccakXor
        }
    }

    pub fn index(self) -> (r: usize)
        ensures
            r == self.spec_index(),
            r < NUM_TABLES,
            Table::spec_at(r as nat) == self,
    {
        match self {
            Table::KeccakPermutation => 0,
            Table::KeccakSponge => 1,
            Table::KeccakXor => 2,
        }
    }

    /// All tables, in the fixed order.
    pub fn all() -> (r: [Table; 3])
        ensures
            forall|i: int| 0 <= i < NUM_TABLES ==> r[i] == Table::spec_at(i as nat),
            forall|i: int| 0 <= i < NUM_TABLES ==> (#[trigger] r[i]).spec_index() == i,
    {
        [Table::KeccakPermutation, Table::KeccakSponge, Table::KeccakXor]
    }
}

} // verus!
