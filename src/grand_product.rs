use vstd::prelude::*;

use crate::challenges::GrandProductChallenge;
use crate::column::Column;
use crate::ctl_data::{combined, factor, running_product, selected, tuple_of, lemma_running_product_bound};
use crate::cross_table_lookup::{count, lookups_consistent, relation_tables, uses, z_index, z_at, looking_product, relation_holds, in_range, CrossTableLookup};
use crate::field::{fe, lemma_fe_mul, ORDER};
use crate::table::{Table, NUM_TABLES};

verus! {

/// The tuples of the rows among the first `k` that the filter selects, in row order.
pub open spec fn selected_tuples(trace: Seq<Vec<u64>>, columns: Seq<Column>, filter: Option<Column>, k: int) -> Seq<Seq<u64>>
    decreases k,
{
    if k <= 0 {
        Seq::empty()
    } else if selected(filter, trace[k - 1]@) {
        selected_tuples(trace, columns, filter, k - 1).push(tuple_of(columns, trace[k - 1]@))
    } else {
        selected_tuples(trace, columns, filter, k - 1)
    }
}

/// The product, in the field, of the compressed tuples.
pub open spec fn tuple_product(ch: GrandProductChallenge, ts: Seq<Seq<u64>>) -> int
    decreases ts.len(),
{
    if ts.len() == 0 {
        1
    } else {
        fe(tuple_product(ch, ts.drop_last()) * combined(ch, ts.last()))
    }
}

proof fn lemma_fe_swap(a: int, x: int, y: int)
    ensures
        fe(fe(a * x) * y) == fe(fe(a * y) * x),
{
    lemma_fe_mul(a * x, y);
    lemma_fe_mul(a * y, x);
    assert((a * x) * y == (a * y) * x) by (nonlinear_arith);
}

proof fn lemma_product_remove(ch: GrandProductChallenge, s: Seq<Seq<u64>>, j: int)
    requires
        0 <= j < s.len(),
    ensures
        tuple_product(ch, s) == fe(tuple_product(ch, s.remove(j)) * combined(ch, s[j])),
    decreases s.len(),
{
    if j == s.len() - 1 {
        assert(s.remove(j) =~= s.drop_last());
    } else {
        let d = s.drop_last();
        lemma_product_remove(ch, d, j);
        assert(s.remove(j).drop_last() =~= d.remove(j));
        assert(s.remove(j).last() == s.last());
        lemma_fe_swap(tuple_product(ch, d.remove(j)), combined(ch, s[j]), combined(ch, s.last()));
    }
}

proof fn lemma_product_permutation(ch: GrandProductChallenge, a: Seq<Seq<u64>>, b: Seq<Seq<u64>>)
    requires
        a.to_multiset() == b.to_multiset(),
    ensures
        tuple_product(ch, a) == tuple_product(ch, b),
    decreases a.len(),
{
    broadcast use vstd::seq_lib::group_to_multiset_ensures;
    if a.len() == 0 {
        a.to_multiset_ensures();
        b.to_multiset_ensures();
        assert(b.len() == 0);
    } else {
        let x = a.last();
        let d = a.drop_last();
        assert(a =~= d.push(x));
        assert(a.to_multiset().count(x) > 0);
        assert(b.contains(x));
        let j = choose|j: int| 0 <= j < b.len() && b[j] == x;
        assert(d.to_multiset() =~= a.to_multiset().remove(x));
        lemma_product_permutation(ch, d, b.remove(j));
        lemma_product_remove(ch, b, j);
    }
}

proof fn lemma_running_is_product(
    trace: Seq<Vec<u64>>,
    columns: Seq<Column>,
    filter: Option<Column>,
    ch: GrandProductChallenge,
    k: int,
)
    requires
        0 <= k <= trace.len(),
    ensures
        running_product(trace, columns, filter, ch, k) == tuple_product(ch, selected_tuples(trace, columns, filter, k)),
    decreases k,
{
    if k > 0 {
        lemma_running_is_product(trace, columns, filter, ch, k - 1);
        let prev = selected_tuples(trace, columns, filter, k - 1);
        let rp = running_product(trace, columns, filter, ch, k - 1);
        if selected(filter, trace[k - 1]@) {
            assert(selected_tuples(trace, columns, filter, k).drop_last() =~= prev);
        } else {
            assert(factor(columns, filter, ch, trace[k - 1]@) == 1);
            lemma_running_product_bound(trace, columns, filter, ch, k - 1);
            vstd::arithmetic::div_mod::lemma_small_mod(rp as nat, ORDER as nat);
        }
    }
}

/// Completeness of the lookup argument: when the rows that the looking side
/// selects carry the same multiset of tuples as the rows that the looked side
/// selects, both running products end on the same value, under any challenge.
pub proof fn lemma_lookup_complete(
    looking_trace: Seq<Vec<u64>>,
    looking_columns: Seq<Column>,
    looking_filter: Option<Column>,
    looked_trace: Seq<Vec<u64>>,
    looked_columns: Seq<Column>,
    looked_filter: Option<Column>,
    ch: GrandProductChallenge,
)
    requires
        selected_tuples(looking_trace, looking_columns, looking_filter, looking_trace.len() as int).to_multiset()
            == selected_tuples(looked_trace, looked_columns, looked_filter, looked_trace.len() as int).to_multiset(),
    ensures
        running_product(looking_trace, looking_columns, looking_filter, ch, looking_trace.len() as int)
            == running_product(looked_trace, looked_columns, looked_filter, ch, looked_trace.len() as int),
{
    lemma_running_is_product(looking_trace, looking_columns, looking_filter, ch, looking_trace.len() as int);
    lemma_running_is_product(looked_trace, looked_columns, looked_filter, ch, looked_trace.len() as int);
    lemma_product_permutation(
        ch,
        selected_tuples(looking_trace, looking_columns, looking_filter, looking_trace.len() as int),
        selected_tuples(looked_trace, looked_columns, looked_filter, looked_trace.len() as int),
    );
}

/// The final value of the running product of a lookup side under each challenge.
pub open spec fn final_products(
    trace: Seq<Vec<u64>>,
    columns: Seq<Column>,
    filter: Option<Column>,
    challenges: Seq<GrandProductChallenge>,
) -> Seq<u64> {
    Seq::new(challenges.len(), |c: int| running_product(trace, columns, filter, challenges[c], trace.len() as int) as u64)
}

proof fn lemma_pair_counts(ctl: CrossTableLookup, n: nat, t: Table)
    requires
        ctl.looking_tables@.len() == 1,
    ensures
        count(relation_tables(ctl), t) == (if ctl.looking_tables@[0].table == t { 1nat } else { 0nat })
            + (if ctl.looked_table.table == t { 1nat } else { 0nat }),
        uses(seq![ctl], n, t) == n * count(relation_tables(ctl), t),
{
    let ta = ctl.looking_tables@[0].table;
    let tables = relation_tables(ctl);
    assert(tables.drop_last() =~= seq![ta]);
    assert(seq![ta].drop_last() =~= Seq::<Table>::empty());
    assert(count(Seq::<Table>::empty(), t) == 0);
    assert(count(seq![ta], t) == (if ta == t { 1nat } else { 0nat }));
    let g = seq![ctl];
    assert(g.drop_last() =~= Seq::<CrossTableLookup>::empty());
    assert(uses(Seq::<CrossTableLookup>::empty(), n, t) == 0);
    assert(g.last() == ctl);
}

/// Round trip of the lookup layer for a relation between two tables: when
/// the rows that the looking table selects carry the same multiset of tuples
/// as those that the looked table selects, the final values of the prover's
/// running products, placed as the two tables' openings, pass the verifier's
/// global check.
pub proof fn lemma_lookup_round_trip(
    ctl: CrossTableLookup,
    looking_trace: Seq<Vec<u64>>,
    looked_trace: Seq<Vec<u64>>,
    challenges: Seq<GrandProductChallenge>,
    zs: Seq<Vec<u64>>,
)
    requires
        ctl.looking_tables@.len() == 1,
        ctl.looking_tables@[0].table != ctl.looked_table.table,
        selected_tuples(looking_trace, ctl.looking_tables@[0].columns@, ctl.looking_tables@[0].filter_column,
            looking_trace.len() as int).to_multiset()
            == selected_tuples(looked_trace, ctl.looked_table.columns@, ctl.looked_table.filter_column,
            looked_trace.len() as int).to_multiset(),
        zs.len() == NUM_TABLES,
        zs[ctl.looking_tables@[0].table.spec_index() as int]@ == final_products(looking_trace,
            ctl.looking_tables@[0].columns@, ctl.looking_tables@[0].filter_column, challenges),
        zs[ctl.looked_table.table.spec_index() as int]@ == final_products(looked_trace,
            ctl.looked_table.columns@, ctl.looked_table.filter_column, challenges),
        forall|k: int| 0 <= k < NUM_TABLES && k != ctl.looking_tables@[0].table.spec_index()
            && k != ctl.looked_table.table.spec_index() ==> (#[trigger] zs[k])@.len() == 0,
    ensures
        lookups_consistent(seq![ctl], zs, challenges.len()),
{
    let g = seq![ctl];
    let n = challenges.len();
    let ta = ctl.looking_tables@[0].table;
    let tb = ctl.looked_table.table;
    let tables = relation_tables(ctl);
    assert(tables.drop_last() =~= seq![ta]);
    assert(seq![ta].drop_last() =~= Seq::<Table>::empty());
    assert(tables.last() == tb);
    assert(g.drop_last() =~= Seq::<CrossTableLookup>::empty());
    assert(g.take(0) =~= Seq::<CrossTableLookup>::empty());
    assert(tables.take(0) =~= Seq::<Table>::empty());
    assert(tables.take(1) =~= seq![ta]);
    assert forall|k: int| 0 <= k < NUM_TABLES implies (#[trigger] zs[k])@.len() == uses(g, n, Table::spec_at(k as nat)) by {
        let t = Table::spec_at(k as nat);
        lemma_pair_counts(ctl, n, t);
        assert(t.spec_index() == k);
        assert(n * 1 == n && n * 0 == 0) by (nonlinear_arith);
        if t == ta {
            assert(count(tables, t) == 1);
        } else if t == tb {
            assert(count(tables, t) == 1);
        } else {
            assert(count(tables, t) == 0);
            assert(k != ta.spec_index() && k != tb.spec_index());
        }
    }
    assert forall|i: int, c: int| 0 <= i < g.len() && 0 <= c < n implies #[trigger] relation_holds(g, zs, n, i, c) by {
        assert(i == 0);
        lemma_pair_counts(ctl, n, ta);
        lemma_pair_counts(ctl, n, tb);
        assert(count(tables.take(0), tb) == 0);
        assert(count(tables.take(1), tb) == count(seq![ta], tb));
        assert(seq![ta].drop_last() =~= Seq::<Table>::empty());
        assert(count(seq![ta], tb) == 0);
        assert(z_index(g, n, 0, c, 0) == c);
        assert(z_index(g, n, 0, c, 1) == c);
        assert(tables[0] == ta && tables[1] == tb);
        assert forall|p: int| 0 <= p < tables.len() implies
            #[trigger] z_index(g, n, 0, c, p) < zs[tables[p].spec_index() as int]@.len() by {
        }
        let ch = challenges[c];
        let ca = ctl.looking_tables@[0];
        lemma_lookup_complete(looking_trace, ca.columns@, ca.filter_column,
            looked_trace, ctl.looked_table.columns@, ctl.looked_table.filter_column, ch);
        lemma_running_product_bound(looking_trace, ca.columns@, ca.filter_column, ch, looking_trace.len() as int);
        let v = z_at(g, zs, n, 0, c, 0);
        assert(v as int == running_product(looking_trace, ca.columns@, ca.filter_column, ch, looking_trace.len() as int));
        assert(looking_product(g, zs, n, 0, c, 0) == 1);
        assert(looking_product(g, zs, n, 0, c, 1) == v);
    }
}

proof fn lemma_flip_changes_element(v: u64, bit: u64)
    requires
        v < ORDER,
        bit < 64,
    ensures
        fe((v ^ (1u64 << bit)) as int) != v as int,
{
    let w: u64 = v ^ (1u64 << bit);
    assert(w != v) by (bit_vector)
        requires w == v ^ (1u64 << bit), bit < 64;
    assert(w > v ==> w - v == (1u64 << bit)) by (bit_vector)
        requires w == v ^ (1u64 << bit), bit < 64;
    assert((1u64 << bit) != 0xffff_ffff_0000_0001u64) by (bit_vector)
        requires bit < 64;
    if w >= ORDER {
        vstd::arithmetic::div_mod::lemma_mod_add_multiples_vanish(w - ORDER, ORDER as int);
        vstd::arithmetic::div_mod::lemma_small_mod((w - ORDER) as nat, ORDER as nat);
    } else {
        vstd::arithmetic::div_mod::lemma_small_mod(w as nat, ORDER as nat);
    }
}

/// Tampering with an opening is caught: in a relation between two tables
/// whose openings are field elements in canonical form and pass the global
/// check, flipping any bit of one of the looked table's openings makes the
/// check fail.
pub proof fn lemma_tampered_opening_rejected(
    ctl: CrossTableLookup,
    zs: Seq<Vec<u64>>,
    tampered: Seq<Vec<u64>>,
    n: nat,
    c: int,
    bit: u64,
)
    requires
        ctl.looking_tables@.len() == 1,
        ctl.looking_tables@[0].table != ctl.looked_table.table,
        lookups_consistent(seq![ctl], zs, n),
        0 <= c < n,
        bit < 64,
        zs.len() == NUM_TABLES,
        tampered.len() == NUM_TABLES,
        forall|k: int, j: int| 0 <= k < NUM_TABLES && 0 <= j < zs[k]@.len() ==> (#[trigger] zs[k]@[j]) < ORDER,
        tampered[ctl.looked_table.table.spec_index() as int]@
            == zs[ctl.looked_table.table.spec_index() as int]@.update(
                c, zs[ctl.looked_table.table.spec_index() as int]@[c] ^ (1u64 << bit)),
        forall|k: int| 0 <= k < NUM_TABLES && k != ctl.looked_table.table.spec_index()
            ==> (#[trigger] tampered[k])@ == zs[k]@,
    ensures
        !lookups_consistent(seq![ctl], tampered, n),
{
    let g = seq![ctl];
    let ta = ctl.looking_tables@[0].table;
    let tb = ctl.looked_table.table;
    let tables = relation_tables(ctl);
    lemma_pair_counts(ctl, n, ta);
    lemma_pair_counts(ctl, n, tb);
    assert(g.take(0) =~= Seq::<CrossTableLookup>::empty());
    assert(uses(Seq::<CrossTableLookup>::empty(), n, ta) == 0);
    assert(uses(Seq::<CrossTableLookup>::empty(), n, tb) == 0);
    assert(tables.take(0) =~= Seq::<Table>::empty());
    assert(tables.take(1) =~= seq![ta]);
    assert(seq![ta].drop_last() =~= Seq::<Table>::empty());
    assert(count(seq![ta], tb) == 0);
    assert(tables[0] == ta && tables[1] == tb);
    assert(z_index(g, n, 0, c, 0) == c);
    assert(z_index(g, n, 0, c, 1) == c);
    assert(relation_holds(g, zs, n, 0, c));
    assert(in_range(g, zs, n, 0, c));
    assert(z_index(g, n, 0, c, 1) < zs[tb.spec_index() as int]@.len());
    let a = zs[ta.spec_index() as int]@[c];
    let v = zs[tb.spec_index() as int]@[c];
    assert(looking_product(g, zs, n, 0, c, 0) == 1);
    assert(looking_product(g, zs, n, 0, c, 1) == a);
    assert(looking_product(g, tampered, n, 0, c, 0) == 1);
    assert(looking_product(g, tampered, n, 0, c, 1) == a);
    assert(z_at(g, tampered, n, 0, c, 1) == v ^ (1u64 << bit));
    lemma_flip_changes_element(v, bit);
    vstd::arithmetic::div_mod::lemma_small_mod(v as nat, ORDER as nat);
    assert(!relation_holds(g, tampered, n, 0, c));
}

} // verus!
