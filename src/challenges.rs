use vstd::prelude::*;

use crate::error::CtlError;
use crate::table::{Table, NUM_TABLES};

verus! {

/// One grand-product challenge: the tuple of a row is compressed with powers
/// of `beta`, and `gamma` is added before the running product.
#[derive(Debug, Clone, Copy, PartialEq, Eq, Structural)]
pub struct GrandProductChallenge {
    pub beta: u64,
    pub gamma: u64,
}

/// The challenges shared by the lookup arguments of all tables.
#[derive(Debug)]
pub struct GrandProductChallengeSet {
    pub challenges: Vec<GrandProductChallenge>,
}

/// The field elements that the transcript absorbs when the trace commitments
/// are observed in the table order `order`: each table's Merkle cap in turn.
pub open spec fn observed(caps: Seq<Vec<u64>>, order: Seq<Table>) -> Seq<u64>
    decreases order.len(),
{
    if order.len() == 0 {
        Seq::empty()
    } else {
        observed(caps, order.drop_last()) + caps[order.last().spec_index() as int]@
    }
}

/// The fixed table order.
pub open spec fn canonical_order() -> Seq<Table> {
    seq![Table::KeccakPermutation, Table::KeccakSponge, Table::KeccakXor]
}

/// The challenges formed from the values drawn from the transcript: each
/// consecutive pair gives one challenge, `beta` first.
pub open spec fn pair_draws(draws: Seq<u64>) -> Seq<GrandProductChallenge> {
    Seq::new(draws.len() / 2, |i: int| GrandProductChallenge { beta: draws[2 * i], gamma: draws[2 * i + 1] })
}

/// The values that the transcript absorbs before the lookup challenges are
/// drawn: the Merkle caps of the three trace commitments, in the fixed order.
pub fn transcript_observations(caps: &[Vec<u64>; NUM_TABLES]) -> (r: Vec<u64>)
    ensures
        r@ == observed(caps@, canonical_order()),
{
    let mut r: Vec<u64> = Vec::new();
    let order = Table::all();
    let mut k: usize = 0;
    while k < NUM_TABLES
        invariant
            k <= NUM_TABLES,
            forall|j: int| 0 <= j < NUM_TABLES ==> order[j] == Table::spec_at(j as nat),
            forall|j: int| 0 <= j < NUM_TABLES ==> (#[trigger] order[j]).spec_index() == j,
            r@ == observed(caps@, canonical_order().take(k as int)),
        decreases NUM_TABLES - k,
    {
        let cap = &caps[order[k].index()];
        let mut j: usize = 0;
        let ghost start = r@;
        while j < cap.len()
            invariant
                j <= cap@.len(),
                r@ == start + cap@.take(j as int),
            decreases cap@.len() - j,
        {
            r.push(cap[j]);
            j = j + 1;
            assert(r@ =~= start + cap@.take(j as int));
        }
        proof {
            assert(cap@.take(cap@.len() as int) =~= cap@);
            assert(canonical_order().take(k + 1).drop_last() =~= canonical_order().take(k as int));
            assert(canonical_order().take(k + 1).last() == Table::spec_at(k as nat));
        }
        k = k + 1;
    }
    assert(canonical_order().take(3) =~= canonical_order());
    r
}

/// Forms the challenge set from the values drawn from the transcript.
pub fn challenge_set_from_draws(draws: &Vec<u64>) -> (r: GrandProductChallengeSet)
    ensures
        r.challenges@ == pair_draws(draws@),
{
    let mut out: Vec<GrandProductChallenge> = Vec::new();
    let len = draws.len();
    let half = len / 2;
    let mut i: usize = 0;
    while i < half
        invariant
            len == draws@.len(),
            half == len / 2,
            i <= half,
            out@ =~= pair_draws(draws@).take(i as int),
        decreases half - i,
    {
        assert(2 * i + 1 < draws@.len());
        out.push(GrandProductChallenge { beta: draws[2 * i], gamma: draws[2 * i + 1] });
        i = i + 1;
        assert(out@ =~= pair_draws(draws@).take(i as int));
    }
    assert(pair_draws(draws@).take(half as int) =~= pair_draws(draws@));
    GrandProductChallengeSet { challenges: out }
}

/// Compares the challenge set carried by a proof with the one replayed from
/// its commitments.
pub fn check_challenges(
    asserted: &GrandProductChallengeSet,
    recomputed: &GrandProductChallengeSet,
) -> (r: Result<(), CtlError>)
    ensures
        r is Ok <==> asserted.challenges@ == recomputed.challenges@,
        r matches Err(e) ==> e == CtlError::ChallengeMismatch,
{
    let a = &asserted.challenges;
    let b = &recomputed.challenges;
    if a.len() != b.len() {
        return Err(CtlError::ChallengeMismatch);
    }
    let mut i: usize = 0;
    while i < a.len()
        invariant
            a == &asserted.challenges,
            b == &recomputed.challenges,
            a@.len() == b@.len(),
            i <= a@.len(),
            forall|k: int| 0 <= k < i ==> a@[k] == b@[k],
        decreases a@.len() - i,
    {
        if a[i] != b[i] {
            assert(a@[i as int] != b@[i as int]);
            return Err(CtlError::ChallengeMismatch);
        }
        i = i + 1;
    }
    assert(a@ =~= b@);
    Ok(())
}

proof fn lemma_observed_blocks(caps: Seq<Vec<u64>>, order: Seq<Table>, len: nat)
    requires
        caps.len() == NUM_TABLES,
        forall|j: int| 0 <= j < NUM_TABLES ==> (#[trigger] caps[j])@.len() == len,
    ensures
        observed(caps, order).len() == order.len() * len,
        forall|k: int| 0 <= k < order.len()
            ==> observed(caps, order).subrange(k * len, k * len + len) == caps[(#[trigger] order[k]).spec_index() as int]@,
    decreases order.len(),
{
    if order.len() == 0 {
        assert(0 * len == 0) by (nonlinear_arith);
    } else {
        let prev = order.drop_last();
        lemma_observed_blocks(caps, prev, len);
        let first = observed(caps, prev);
        let last = caps[order.last().spec_index() as int]@;
        assert(order.last().spec_index() < NUM_TABLES);
        assert(last.len() == len);
        let m = prev.len();
        assert(order.len() * len == m * len + len) by (nonlinear_arith)
            requires order.len() == m + 1;
        assert forall|k: int| 0 <= k < order.len()
            implies observed(caps, order).subrange(k * len, k * len + len) == caps[(#[trigger] order[k]).spec_index() as int]@ by {
            lemma_block_of_concat(first, last, m, len, k);
            if k < m {
                assert(prev[k] == order[k]);
            }
        }
    }
}

proof fn lemma_block_of_concat(first: Seq<u64>, last: Seq<u64>, m: nat, len: nat, k: int)
    requires
        first.len() == m * len,
        last.len() == len,
        0 <= k <= m,
    ensures
        k < m ==> (first + last).subrange(k * len, k * len + len) == first.subrange(k * len, k * len + len),
        k == m ==> (first + last).subrange(k * len, k * len + len) == last,
{
    if k < m {
        assert(k * len + len <= m * len) by (nonlinear_arith)
            requires k < m, k >= 0;
        assert(0 <= k * len) by (nonlinear_arith)
            requires k >= 0;
        assert((first + last).subrange(k * len, k * len + len) =~= first.subrange(k * len, k * len + len));
    } else {
        assert((first + last).subrange(k * len, k * len + len) =~= last);
    }
}

/// The values absorbed by the transcript depend on the order in which the
/// commitments are observed: with caps of one size, any order of the three
/// tables that puts at some position a cap different from the one the fixed
/// order puts there absorbs a different sequence.
pub proof fn lemma_order_sensitive(caps: Seq<Vec<u64>>, order: Seq<Table>, k: int)
    requires
        caps.len() == NUM_TABLES,
        forall|j: int| 0 <= j < NUM_TABLES ==> (#[trigger] caps[j])@.len() == caps[0]@.len(),
        order.len() == NUM_TABLES,
        0 <= k < NUM_TABLES,
        caps[order[k].spec_index() as int]@ != caps[canonical_order()[k].spec_index() as int]@,
    ensures
        observed(caps, order) != observed(caps, canonical_order()),
{
    let len = caps[0]@.len();
    lemma_observed_blocks(caps, order, len);
    lemma_observed_blocks(caps, canonical_order(), len);
    assert(observed(caps, order).subrange(k * len, k * len + len) == caps[order[k].spec_index() as int]@);
    assert(observed(caps, canonical_order()).subrange(k * len, k * len + len)
        == caps[canonical_order()[k].spec_index() as int]@);
}

} // verus!
