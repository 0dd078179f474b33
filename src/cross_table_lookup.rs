use vstd::prelude::*;

use crate::column::Column;
use crate::error::CtlError;
use crate::field::{fe, lemma_fe_mul, mul_mod, ORDER};
use crate::table::{Table, NUM_TABLES};

verus! {

/// One side of a lookup relation: a table, the columns forming its tuple, and
/// the filter selecting the rows that take part.
#[derive(Debug)]
pub struct TableWithColumns {
    pub table: Table,
    pub columns: Vec<Column>,
    pub filter_column: Option<Column>,
}

/// A lookup relation: the tuples of every looking table, taken together, form
/// the same multiset as the tuples of the looked table.
#[derive(Debug)]
pub struct CrossTableLookup {
    pub looking_tables: Vec<TableWithColumns>,
    pub looked_table: TableWithColumns,
}

/// The tables of a relation in the order in which their openings are read:
/// the looking tables, then the looked table.
pub open spec fn relation_tables(ctl: CrossTableLookup) -> Seq<Table> {
    Seq::new(ctl.looking_tables@.len(), |j: int| ctl.looking_tables@[j].table).push(ctl.looked_table.table)
}

/// Number of entries of `tables` equal to `t`.
pub open spec fn count(tables: Seq<Table>, t: Table) -> nat
    decreases tables.len(),
{
    if tables.len() == 0 {
        0
    } else {
        count(tables.drop_last(), t) + if tables.last() == t { 1nat } else { 0nat }
    }
}

/// Number of openings of table `t` that the relations `ctls` use, each relation
/// once per challenge.
pub open spec fn uses(ctls: Seq<CrossTableLookup>, n: nat, t: Table) -> nat
    decreases ctls.len(),
{
    if ctls.len() == 0 {
        0
    } else {
        uses(ctls.drop_last(), n, t) + n * count(relation_tables(ctls.last()), t)
    }
}

/// Where, in the openings of its table, entry `p` of relation `i` under
/// challenge `c` reads its value: the openings of a table are consumed in the
/// order relation, then challenge, then entry.
pub open spec fn z_index(ctls: Seq<CrossTableLookup>, n: nat, i: int, c: int, p: int) -> int {
    let tables = relation_tables(ctls[i]);
    let t = tables[p];
    uses(ctls.take(i), n, t) + c * count(tables, t) + count(tables.take(p), t)
}

/// The opening read by entry `p` of relation `i` under challenge `c`.
pub open spec fn z_at(ctls: Seq<CrossTableLookup>, zs: Seq<Vec<u64>>, n: nat, i: int, c: int, p: int) -> u64 {
    zs[relation_tables(ctls[i])[p].spec_index() as int]@[z_index(ctls, n, i, c, p)]
}

/// Every opening that relation `i` reads under challenge `c` exists.
pub open spec fn in_range(ctls: Seq<CrossTableLookup>, zs: Seq<Vec<u64>>, n: nat, i: int, c: int) -> bool {
    forall|p: int| 0 <= p < relation_tables(ctls[i]).len()
        ==> #[trigger] z_index(ctls, n, i, c, p) < zs[relation_tables(ctls[i])[p].spec_index() as int]@.len()
}

/// Product of the openings of the first `p` looking entries of relation `i`.
pub open spec fn looking_product(ctls: Seq<CrossTableLookup>, zs: Seq<Vec<u64>>, n: nat, i: int, c: int, p: int) -> int
    decreases p,
{
    if p <= 0 {
        1
    } else {
        looking_product(ctls, zs, n, i, c, p - 1) * z_at(ctls, zs, n, i, c, p - 1)
    }
}

/// Under challenge `c`, the looking tables of relation `i` multiply to the
/// looked table's value.
pub open spec fn relation_holds(ctls: Seq<CrossTableLookup>, zs: Seq<Vec<u64>>, n: nat, i: int, c: int) -> bool {
    let last = ctls[i].looking_tables@.len() as int;
    &&& in_range(ctls, zs, n, i, c)
    &&& fe(looking_product(ctls, zs, n, i, c, last)) == fe(z_at(ctls, zs, n, i, c, last) as int)
}

/// The openings of the three tables are exactly those the relations use, and
/// every relation holds under every challenge.
pub open spec fn lookups_consistent(ctls: Seq<CrossTableLookup>, zs: Seq<Vec<u64>>, n: nat) -> bool {
    &&& forall|k: int| 0 <= k < NUM_TABLES ==> (#[trigger] zs[k])@.len() == uses(ctls, n, Table::spec_at(k as nat))
    &&& forall|i: int, c: int| 0 <= i < ctls.len() && 0 <= c < n ==> #[trigger] relation_holds(ctls, zs, n, i, c)
}

proof fn lemma_count_step(tables: Seq<Table>, p: int, t: Table)
    requires
        0 <= p < tables.len(),
    ensures
        count(tables.take(p + 1), t) == count(tables.take(p), t) + if tables[p] == t { 1nat } else { 0nat },
{
    assert(tables.take(p + 1).drop_last() =~= tables.take(p));
}

proof fn lemma_uses_step(ctls: Seq<CrossTableLookup>, n: nat, i: int, t: Table)
    requires
        0 <= i < ctls.len(),
    ensures
        uses(ctls.take(i + 1), n, t) == uses(ctls.take(i), n, t) + n * count(relation_tables(ctls[i]), t),
{
    assert(ctls.take(i + 1).drop_last() =~= ctls.take(i));
}

/// The global lookup check of the verifier: reads the final running-product
/// value of every relation from each table's openings and checks that the
/// looking side multiplies to the looked side, under every challenge.
pub fn verify_cross_table_lookups(
    ctls: &Vec<CrossTableLookup>,
    ctl_zs_last: &[Vec<u64>; NUM_TABLES],
    num_challenges: usize,
) -> (r: Result<(), CtlError>)
    ensures
        r is Ok <==> lookups_consistent(ctls@, ctl_zs_last@, num_challenges as nat),
        r matches Err(e) ==> e == CtlError::CrossTableLookupInconsistent,
{
    let ghost g = ctls@;
    let ghost zs = ctl_zs_last@;
    let ghost n = num_challenges as nat;
    let mut cur: Vec<usize> = vec![0usize, 0usize, 0usize];
    let mut i: usize = 0;
    while i < ctls.len()
        invariant
            g == ctls@,
            zs == ctl_zs_last@,
            n == num_challenges,
            i <= g.len(),
            cur@.len() == NUM_TABLES,
            forall|k: int| 0 <= k < NUM_TABLES ==> cur@[k] == uses(g.take(i as int), n, Table::spec_at(k as nat)),
            forall|k: int| 0 <= k < NUM_TABLES ==> cur@[k] <= zs[k]@.len(),
            forall|ii: int, c: int| 0 <= ii < i && 0 <= c < n ==> #[trigger] relation_holds(g, zs, n, ii, c),
        decreases g.len() - i,
    {
        let ctl = &ctls[i];
        let ghost tables = relation_tables(g[i as int]);
        let ghost base = cur@;
        let nl = ctl.looking_tables.len();
        let mut c: usize = 0;
        while c < num_challenges
            invariant
                g == ctls@,
                zs == ctl_zs_last@,
                n == num_challenges,
                i < g.len(),
                ctl == &g[i as int],
                tables == relation_tables(g[i as int]),
                nl == ctl.looking_tables@.len(),
                c <= n,
                cur@.len() == NUM_TABLES,
                base.len() == NUM_TABLES,
                forall|k: int| 0 <= k < NUM_TABLES ==> base[k] == uses(g.take(i as int), n, Table::spec_at(k as nat)),
                forall|k: int| 0 <= k < NUM_TABLES
                    ==> cur@[k] == base[k] + c * count(tables, Table::spec_at(k as nat)),
                forall|k: int| 0 <= k < NUM_TABLES ==> cur@[k] <= zs[k]@.len(),
                forall|ii: int, cc: int| 0 <= ii < i && 0 <= cc < n ==> #[trigger] relation_holds(g, zs, n, ii, cc),
                forall|cc: int| 0 <= cc < c ==> #[trigger] relation_holds(g, zs, n, i as int, cc),
            decreases n - c,
        {
            let mut prod: u64 = 1;
            let mut p: usize = 0;
            while p < nl
                invariant
                    g == ctls@,
                    zs == ctl_zs_last@,
                    n == num_challenges,
                    i < g.len(),
                    c < n,
                    ctl == &g[i as int],
                    tables == relation_tables(g[i as int]),
                    nl == ctl.looking_tables@.len(),
                    p <= nl,
                    cur@.len() == NUM_TABLES,
                    base.len() == NUM_TABLES,
                    forall|k: int| 0 <= k < NUM_TABLES ==> base[k] == uses(g.take(i as int), n, Table::spec_at(k as nat)),
                    forall|k: int| 0 <= k < NUM_TABLES
                        ==> cur@[k] == base[k] + c * count(tables, Table::spec_at(k as nat))
                            + count(tables.take(p as int), Table::spec_at(k as nat)),
                    forall|k: int| 0 <= k < NUM_TABLES ==> cur@[k] <= zs[k]@.len(),
                    forall|q: int| 0 <= q < p ==> #[trigger] z_index(g, n, i as int, c as int, q)
                        < zs[tables[q].spec_index() as int]@.len(),
                    prod as int == fe(looking_product(g, zs, n, i as int, c as int, p as int)),
                decreases nl - p,
            {
                let t = ctl.looking_tables[p].table.index();
                assert(tables[p as int] == ctl.looking_tables@[p as int].table);
                if cur[t] >= ctl_zs_last[t].len() {
                    assert(!in_range(g, zs, n, i as int, c as int)) by {
                        assert(z_index(g, n, i as int, c as int, p as int) >= zs[tables[p as int].spec_index() as int]@.len());
                    }
                    assert(!relation_holds(g, zs, n, i as int, c as int));
                    return Err(CtlError::CrossTableLookupInconsistent);
                }
                let z = ctl_zs_last[t][cur[t]];
                proof {
                    assert(z == z_at(g, zs, n, i as int, c as int, p as int));
                    lemma_fe_mul(looking_product(g, zs, n, i as int, c as int, p as int), z as int);
                    assert forall|k: int| 0 <= k < NUM_TABLES implies
                        #[trigger] count(tables.take(p + 1), Table::spec_at(k as nat))
                            == count(tables.take(p as int), Table::spec_at(k as nat))
                                + if k == t { 1nat } else { 0nat } by {
                        lemma_count_step(tables, p as int, Table::spec_at(k as nat));
                    }
                }
                prod = mul_mod(prod, z);
                let next = cur[t] + 1;
                cur.set(t, next);
                p = p + 1;
            }
            let t = ctl.looked_table.table.index();
            assert(tables[nl as int] == ctl.looked_table.table);
            if cur[t] >= ctl_zs_last[t].len() {
                assert(!in_range(g, zs, n, i as int, c as int)) by {
                    assert(z_index(g, n, i as int, c as int, nl as int) >= zs[tables[nl as int].spec_index() as int]@.len());
                }
                assert(!relation_holds(g, zs, n, i as int, c as int));
                return Err(CtlError::CrossTableLookupInconsistent);
            }
            let z = ctl_zs_last[t][cur[t]];
            proof {
                assert(z == z_at(g, zs, n, i as int, c as int, nl as int));
                assert forall|k: int| 0 <= k < NUM_TABLES implies
                    #[trigger] count(tables.take(nl + 1), Table::spec_at(k as nat))
                        == count(tables.take(nl as int), Table::spec_at(k as nat))
                            + if k == t { 1nat } else { 0nat } by {
                    lemma_count_step(tables, nl as int, Table::spec_at(k as nat));
                }
                assert(tables.take(nl + 1) =~= tables);
                assert(in_range(g, zs, n, i as int, c as int));
            }
            let next = cur[t] + 1;
            cur.set(t, next);
            if prod != z % ORDER {
                assert(!relation_holds(g, zs, n, i as int, c as int));
                return Err(CtlError::CrossTableLookupInconsistent);
            }
            proof {
                assert forall|k: int| 0 <= k < NUM_TABLES implies
                    #[trigger] cur@[k] == base[k] + (c + 1) * count(tables, Table::spec_at(k as nat)) by {
                    assert((c + 1) * count(tables, Table::spec_at(k as nat))
                        == c * count(tables, Table::spec_at(k as nat)) + count(tables, Table::spec_at(k as nat)))
                        by (nonlinear_arith);
                }
            }
            c = c + 1;
        }
        proof {
            assert forall|k: int| 0 <= k < NUM_TABLES implies
                #[trigger] cur@[k] == uses(g.take(i + 1), n, Table::spec_at(k as nat)) by {
                lemma_uses_step(g, n, i as int, Table::spec_at(k as nat));
            }
        }
        i = i + 1;
    }
    assert(g.take(g.len() as int) =~= g);
    if cur[0] != ctl_zs_last[0].len() || cur[1] != ctl_zs_last[1].len() || cur[2] != ctl_zs_last[2].len() {
        return Err(CtlError::CrossTableLookupInconsistent);
    }
    Ok(())
}

} // verus!
