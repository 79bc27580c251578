//! The routing table: per network, an upper-triangular matrix of
//! reachability results, one entry per unordered switch pair including
//! self-pairs, recomputed on demand and published as named signals.
//!
//! An entry for the pair `(X, Y)` with `X <= Y` in switch-identifier order
//! publishes the same boolean to both directed signals "X reaches Y" and
//! "Y reaches X": the design treats reachability as symmetric by
//! construction, whichever direction the search actually ran.

use vstd::prelude::*;
use crate::reachability::{
    lemma_no_availability_no_reachability, lemma_self_reachability, reachable,
    switches_reachable,
};
use crate::signals::{signal_value, symmetric_signals, Signal, SignalWriter};
use crate::topology::NetworkTopology;

verus! {

/// One routing table entry: whether the two switches of an unordered pair,
/// named by their external identifiers, can currently communicate.
#[derive(Clone, Copy, PartialEq, Eq, Structural, Debug)]
pub struct RoutingTableEntry {
    pub lower_id: u8,
    pub upper_id: u8,
    pub reachable: bool,
}

/// The two directed signals an entry publishes, both carrying its boolean.
pub open spec fn entry_signals(e: RoutingTableEntry) -> Seq<Signal> {
    seq![
        Signal { from_id: e.lower_id, to_id: e.upper_id, value: e.reachable },
        Signal { from_id: e.upper_id, to_id: e.lower_id, value: e.reachable },
    ]
}

impl RoutingTableEntry {
    /// A fresh entry for the pair `(lower_id, upper_id)`, initially not
    /// reachable.
    pub fn new(lower_id: u8, upper_id: u8) -> (e: Self)
        ensures
            e == (RoutingTableEntry { lower_id, upper_id, reachable: false }),
    {
        RoutingTableEntry { lower_id, upper_id, reachable: false }
    }

    /// Stores a freshly computed reachability result.
    pub fn set_reachable(&mut self, reachable: bool)
        ensures
            *final(self) == (RoutingTableEntry { reachable, ..*old(self) }),
    {
        self.reachable = reachable;
    }

    /// Publishes the entry's boolean to both directed signals of its pair.
    pub fn publish(&self, writer: &mut SignalWriter)
        ensures
            final(writer).log() == old(writer).log() + entry_signals(*self),
    {
        writer.write(self.lower_id, self.upper_id, self.reachable);
        writer.write(self.upper_id, self.lower_id, self.reachable);
        proof {
            assert(final(writer).log() =~= old(writer).log() + entry_signals(*self));
        }
    }
}

/// How publishing one entry changes a signal: its two directed signals take
/// the entry's boolean, every other signal keeps its value.
proof fn lemma_signal_value_after_entry(log: Seq<Signal>, e: RoutingTableEntry, x: int, y: int)
    ensures
        signal_value(log + entry_signals(e), x, y) == if x == e.lower_id && y == e.upper_id {
            e.reachable
        } else if x == e.upper_id && y == e.lower_id {
            e.reachable
        } else {
            signal_value(log, x, y)
        },
{
    let s0 = Signal { from_id: e.lower_id, to_id: e.upper_id, value: e.reachable };
    let s1 = Signal { from_id: e.upper_id, to_id: e.lower_id, value: e.reachable };
    let full = log + entry_signals(e);
    let half = log.push(s0);
    assert(full.len() == log.len() + 2);
    assert(full.last() == s1);
    assert(full.drop_last() == half) by {
        assert(full.drop_last() =~= half);
    }
    assert(half.last() == s0);
    assert(half.drop_last() == log) by {
        assert(half.drop_last() =~= log);
    }
    if x == e.upper_id && y == e.lower_id {
        assert(signal_value(full, x, y) == e.reachable);
    } else {
        assert(signal_value(full, x, y) == signal_value(half, x, y));
        if x == e.lower_id && y == e.upper_id {
            assert(signal_value(half, x, y) == e.reachable);
        } else {
            assert(signal_value(half, x, y) == signal_value(log, x, y));
        }
    }
}

/// Publishing an entry writes the identical boolean to both directions of
/// its pair, so a symmetric bus stays symmetric.
proof fn lemma_publish_entry_preserves_symmetry(log: Seq<Signal>, e: RoutingTableEntry)
    requires
        symmetric_signals(log),
    ensures
        symmetric_signals(log + entry_signals(e)),
{
    let full = log + entry_signals(e);
    assert forall|x: int, y: int|
        signal_value(full, x, y) == signal_value(full, y, x) by {
        lemma_signal_value_after_entry(log, e, x, y);
        lemma_signal_value_after_entry(log, e, y, x);
    }
}

/// All signals of a row of entries, in publication order.
pub open spec fn row_signals(row: Seq<RoutingTableEntry>) -> Seq<Signal>
    decreases row.len(),
{
    if row.len() == 0 {
        Seq::empty()
    } else {
        row_signals(row.drop_last()) + entry_signals(row.last())
    }
}

/// All signals of a whole triangular table, in publication order.
pub open spec fn table_signals(table: Seq<Seq<RoutingTableEntry>>) -> Seq<Signal>
    decreases table.len(),
{
    if table.len() == 0 {
        Seq::empty()
    } else {
        table_signals(table.drop_last()) + row_signals(table.last())
    }
}

proof fn lemma_row_signals_step(row: Seq<RoutingTableEntry>, k: int)
    requires
        0 <= k < row.len(),
    ensures
        row_signals(row.take(k + 1)) == row_signals(row.take(k)) + entry_signals(row[k]),
{
    assert(row.take(k + 1).drop_last() =~= row.take(k));
    assert(row.take(k + 1).last() == row[k]);
}

proof fn lemma_table_signals_step(table: Seq<Seq<RoutingTableEntry>>, k: int)
    requires
        0 <= k < table.len(),
    ensures
        table_signals(table.take(k + 1)) == table_signals(table.take(k)) + row_signals(
            table[k],
        ),
{
    assert(table.take(k + 1).drop_last() =~= table.take(k));
    assert(table.take(k + 1).last() == table[k]);
}

proof fn lemma_publish_row_preserves_symmetry(log: Seq<Signal>, row: Seq<RoutingTableEntry>)
    requires
        symmetric_signals(log),
    ensures
        symmetric_signals(log + row_signals(row)),
    decreases row.len(),
{
    if row.len() == 0 {
        assert(log + row_signals(row) =~= log);
    } else {
        lemma_publish_row_preserves_symmetry(log, row.drop_last());
        lemma_publish_entry_preserves_symmetry(
            log + row_signals(row.drop_last()),
            row.last(),
        );
        assert(log + row_signals(row) =~= (log + row_signals(row.drop_last())) + entry_signals(
            row.last(),
        ));
    }
}

/// Publication never breaks the symmetry of the bus: after publishing any
/// routing table on a bus whose opposite directions agree, the "X reaches Y"
/// and "Y reaches X" signals are still always equal.
pub proof fn lemma_publication_symmetric(log: Seq<Signal>, table: Seq<Seq<RoutingTableEntry>>)
    requires
        symmetric_signals(log),
    ensures
        symmetric_signals(log + table_signals(table)),
    decreases table.len(),
{
    if table.len() == 0 {
        assert(log + table_signals(table) =~= log);
    } else {
        lemma_publication_symmetric(log, table.drop_last());
        lemma_publish_row_preserves_symmetry(
            log + table_signals(table.drop_last()),
            table.last(),
        );
        assert(log + table_signals(table) =~= (log + table_signals(table.drop_last()))
            + row_signals(table.last()));
    }
}

/// A bus with no writes at all is trivially symmetric: everything reads
/// `false`.
pub proof fn lemma_empty_log_symmetric()
    ensures
        symmetric_signals(Seq::<Signal>::empty()),
{
}

/// The mathematical contents of an executable triangular table.
pub open spec fn table_view(table: Seq<Vec<RoutingTableEntry>>) -> Seq<Seq<RoutingTableEntry>> {
    table.map_values(|row: Vec<RoutingTableEntry>| row@)
}

/// The triangular shape and pair labels of a routing table for the switches
/// named by `ids`, in ascending identifier order: row `y` holds one entry
/// per pair `(ids[y], ids[y + x])`, so there are exactly `n * (n + 1) / 2`
/// entries, one per unordered pair including self-pairs, and none for the
/// mirrored `(upper, lower)` order.
pub open spec fn table_shaped(table: Seq<Seq<RoutingTableEntry>>, ids: Seq<u8>) -> bool {
    &&& table.len() == ids.len()
    &&& forall|y: int| 0 <= y < table.len() ==> #[trigger] table[y].len() == ids.len() - y
    &&& forall|y: int, x: int|
        0 <= y < table.len() && 0 <= x < table[y].len() ==> (#[trigger] table[y][x]).lower_id
            == ids[y] && table[y][x].upper_id == ids[y + x]
}

/// The table holds, for every unordered pair, exactly the reachability
/// answer under availability `avail`.
pub open spec fn table_matches(
    table: Seq<Seq<RoutingTableEntry>>,
    adj: Seq<Seq<usize>>,
    avail: Seq<bool>,
    ids: Seq<u8>,
) -> bool {
    &&& table_shaped(table, ids)
    &&& table.len() == adj.len()
    &&& forall|y: int, x: int|
        0 <= y < table.len() && 0 <= x < table[y].len() ==> (#[trigger] table[y][x]).reachable
            == reachable(adj, avail, y, y + x)
}

/// Recomputation is deterministic, so republishing a network whose
/// availability has not changed flips nothing: any two tables that both
/// match the same topology, availability and identifiers are identical.
pub proof fn lemma_recompute_idempotent(
    t1: Seq<Seq<RoutingTableEntry>>,
    t2: Seq<Seq<RoutingTableEntry>>,
    adj: Seq<Seq<usize>>,
    avail: Seq<bool>,
    ids: Seq<u8>,
)
    requires
        table_matches(t1, adj, avail, ids),
        table_matches(t2, adj, avail, ids),
    ensures
        t1 == t2,
{
    assert forall|y: int| 0 <= y < t1.len() implies t1[y] =~= t2[y] by {
        assert forall|x: int| 0 <= x < t1[y].len() implies t1[y][x] == t2[y][x] by {
            assert(t1[y][x].lower_id == t2[y][x].lower_id);
            assert(t1[y][x].upper_id == t2[y][x].upper_id);
            assert(t1[y][x].reachable == t2[y][x].reachable);
        }
    }
    assert(t1 =~= t2);
}

/// Self-reachability materialized: in a table matching an availability,
/// the self-pair entry of every switch carries exactly that switch's
/// availability.
pub proof fn lemma_table_self_pairs(
    table: Seq<Seq<RoutingTableEntry>>,
    adj: Seq<Seq<usize>>,
    avail: Seq<bool>,
    ids: Seq<u8>,
)
    requires
        table_matches(table, adj, avail, ids),
        avail.len() == adj.len(),
    ensures
        forall|y: int| 0 <= y < table.len() ==> (#[trigger] table[y])[0].reachable == avail[y],
{
    assert forall|y: int|
        0 <= y < table.len() implies (#[trigger] table[y])[0].reachable == avail[y] by {
        assert(table[y].len() == ids.len() - y);
        assert(table[y][0].reachable == reachable(adj, avail, y, y));
        lemma_self_reachability(adj, avail, y);
    }
}

/// With no switch of the network available, every pair of a matching
/// table, self-pairs included, is not reachable.
pub proof fn lemma_no_power_table(
    table: Seq<Seq<RoutingTableEntry>>,
    adj: Seq<Seq<usize>>,
    avail: Seq<bool>,
    ids: Seq<u8>,
)
    requires
        table_matches(table, adj, avail, ids),
        forall|i: int| 0 <= i < avail.len() ==> !avail[i],
    ensures
        forall|y: int, x: int|
            0 <= y < table.len() && 0 <= x < table[y].len()
                ==> !(#[trigger] table[y][x]).reachable,
{
    assert forall|y: int, x: int|
        0 <= y < table.len() && 0 <= x < table[y].len()
        implies !(#[trigger] table[y][x]).reachable by {
        assert(table[y][x].reachable == reachable(adj, avail, y, y + x));
        lemma_no_availability_no_reachability(adj, avail, y, y + x);
    }
}

/// Publishes every entry of one triangular row, in order.
fn publish_row(row: &Vec<RoutingTableEntry>, writer: &mut SignalWriter)
    ensures
        final(writer).log() == old(writer).log() + row_signals(row@),
{
    let mut k: usize = 0;
    proof {
        assert(writer.log() + row_signals(row@.take(0)) =~= writer.log());
    }
    while k < row.len()
        invariant
            k <= row@.len(),
            writer.log() == old(writer).log() + row_signals(row@.take(k as int)),
        decreases row@.len() - k,
    {
        row[k].publish(writer);
        proof {
            lemma_row_signals_step(row@, k as int);
            assert(writer.log() =~= old(writer).log() + row_signals(row@.take(k + 1)));
        }
        k = k + 1;
    }
    proof {
        assert(row@.take(row@.len() as int) =~= row@);
    }
}

/// Publishes every entry of a whole triangular table, row by row.
pub fn publish_table(table: &Vec<Vec<RoutingTableEntry>>, writer: &mut SignalWriter)
    ensures
        final(writer).log() == old(writer).log() + table_signals(table_view(table@)),
{
    let mut y: usize = 0;
    proof {
        assert(writer.log() + table_signals(table_view(table@).take(0)) =~= writer.log());
    }
    while y < table.len()
        invariant
            y <= table@.len(),
            writer.log() == old(writer).log() + table_signals(table_view(table@).take(y as int)),
        decreases table@.len() - y,
    {
        publish_row(&table[y], writer);
        proof {
            lemma_table_signals_step(table_view(table@), y as int);
            assert(writer.log() =~= old(writer).log() + table_signals(
                table_view(table@).take(y + 1),
            ));
        }
        y = y + 1;
    }
    proof {
        assert(table_view(table@).take(table@.len() as int) =~= table_view(table@));
    }
}

/// A freshly constructed table for the switches named by `ids`: correctly
/// labeled triangular shape, every pair initially not reachable.
pub fn blank_routing_table(ids: &Vec<u8>) -> (table: Vec<Vec<RoutingTableEntry>>)
    ensures
        table_shaped(table_view(table@), ids@),
        forall|y: int, x: int|
            0 <= y < table_view(table@).len() && 0 <= x < table_view(table@)[y].len()
                ==> !(#[trigger] table_view(table@)[y][x]).reachable,
{
    let n = ids.len();
    let mut table: Vec<Vec<RoutingTableEntry>> = Vec::new();
    let mut y: usize = 0;
    while y < n
        invariant
            y <= n,
            n == ids@.len(),
            table@.len() == y,
            forall|r: int| 0 <= r < y ==> #[trigger] table_view(table@)[r].len() == n - r,
            forall|r: int, x: int|
                0 <= r < y && 0 <= x < table_view(table@)[r].len() ==> (#[trigger] table_view(
                    table@,
                )[r][x]).lower_id == ids@[r] && table_view(table@)[r][x].upper_id == ids@[r + x]
                    && !table_view(table@)[r][x].reachable,
        decreases n - y,
    {
        let mut row: Vec<RoutingTableEntry> = Vec::new();
        let mut x: usize = 0;
        while x < n - y
            invariant
                y < n,
                x <= n - y,
                n == ids@.len(),
                row@.len() == x,
                forall|j: int|
                    0 <= j < x ==> (#[trigger] row@[j]).lower_id == ids@[y as int]
                        && row@[j].upper_id == ids@[y + j] && !row@[j].reachable,
            decreases n - y - x,
        {
            row.push(RoutingTableEntry::new(ids[y], ids[y + x]));
            x = x + 1;
        }
        let ghost previous_rows = table_view(table@);
        table.push(row);
        proof {
            assert(forall|r: int|
                0 <= r < y ==> #[trigger] table_view(table@)[r] == previous_rows[r]);
            assert(table_view(table@)[y as int] == row@);
        }
        y = y + 1;
    }
    table
}

/// The full recomputation sweep: for every unordered pair `(X, Y)` with
/// `X <= Y` in switch-identifier order, run the reachability search with
/// source `X` and target `Y` and store the boolean into that pair's entry.
pub fn compute_routing_table(
    network: &NetworkTopology,
    availability: &Vec<bool>,
    ids: &Vec<u8>,
) -> (table: Vec<Vec<RoutingTableEntry>>)
    requires
        network.wf(),
        availability@.len() == network.spec_node_count(),
        ids@.len() == network.spec_node_count(),
    ensures
        table_matches(table_view(table@), network.adj(), availability@, ids@),
{
    let n = network.node_count();
    let mut table: Vec<Vec<RoutingTableEntry>> = Vec::new();
    let mut y: usize = 0;
    while y < n
        invariant
            y <= n,
            n == network.spec_node_count(),
            network.wf(),
            availability@.len() == n,
            ids@.len() == n,
            table@.len() == y,
            forall|r: int| 0 <= r < y ==> #[trigger] table_view(table@)[r].len() == n - r,
            forall|r: int, x: int|
                0 <= r < y && 0 <= x < table_view(table@)[r].len() ==> (#[trigger] table_view(
                    table@,
                )[r][x]).lower_id == ids@[r] && table_view(table@)[r][x].upper_id == ids@[r + x]
                    && table_view(table@)[r][x].reachable == reachable(
                    network.adj(),
                    availability@,
                    r,
                    r + x,
                ),
        decreases n - y,
    {
        let mut row: Vec<RoutingTableEntry> = Vec::new();
        let mut x: usize = 0;
        while x < n - y
            invariant
                y < n,
                x <= n - y,
                n == network.spec_node_count(),
                network.wf(),
                availability@.len() == n,
                ids@.len() == n,
                row@.len() == x,
                forall|j: int|
                    0 <= j < x ==> (#[trigger] row@[j]).lower_id == ids@[y as int]
                        && row@[j].upper_id == ids@[y + j] && row@[j].reachable == reachable(
                        network.adj(),
                        availability@,
                        y as int,
                        y + j,
                    ),
            decreases n - y - x,
        {
            let mut entry = RoutingTableEntry::new(ids[y], ids[y + x]);
            entry.set_reachable(switches_reachable(availability, network, y, y + x));
            row.push(entry);
            x = x + 1;
        }
        let ghost previous_rows = table_view(table@);
        table.push(row);
        proof {
            assert(forall|r: int|
                0 <= r < y ==> #[trigger] table_view(table@)[r] == previous_rows[r]);
            assert(table_view(table@)[y as int] == row@);
        }
        y = y + 1;
    }
    table
}

} // verus!
