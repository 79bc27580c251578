//! The network controller: owns all sixteen AFDX switches, both redundant
//! network topologies and both routing tables, and drives the per-tick
//! update/publish cycle.
//!
//! Each tick, every switch is advanced with its freshly derived
//! availability; if any switch of a network reports an availability change,
//! that network's entire routing table is recomputed by repeated
//! breadth-first search, and the publish flag is raised for the tick.

use vstd::prelude::*;
use crate::reachability::{
    adjacency_in_bounds, adjacency_symmetric, edge, lemma_reachable_step,
    lemma_reachable_symmetric, lemma_reachable_trans, lemma_self_reachability, reachable,
};
use crate::routing::{
    blank_routing_table, compute_routing_table, lemma_publication_symmetric, publish_table,
    table_matches, table_shaped, table_signals, table_view, RoutingTableEntry,
};
use crate::signals::{symmetric_signals, Signal, SignalWriter};
use crate::switch::AvionicsFullDuplexSwitch;
use crate::topology::NetworkTopology;

verus! {

/// The wiring shared by both redundant networks: the neighbors of each of
/// the eight switches, by dense index.  Both networks are wired
/// identically; they differ only in which physical switches (and hence
/// which external identifiers) sit at the dense indices.
pub open spec fn a380_network_adjacency() -> Seq<Seq<usize>> {
    seq![
        seq![1usize, 2, 7],
        seq![0usize, 3, 7],
        seq![0usize, 3, 4, 6, 7],
        seq![1usize, 2, 5, 6, 7],
        seq![2usize, 5, 6],
        seq![3usize, 4, 6],
        seq![2usize, 3, 4, 5],
        seq![0usize, 1, 2, 3],
    ]
}

/// External identifiers of the first network's switches, in dense-index
/// order.  Identifiers are labels with gaps, not array positions.
pub open spec fn network_a_switch_ids() -> Seq<u8> {
    seq![1u8, 2, 3, 4, 5, 6, 7, 9]
}

/// External identifiers of the second network's switches.
pub open spec fn network_b_switch_ids() -> Seq<u8> {
    seq![11u8, 12, 13, 14, 15, 16, 17, 19]
}

/// The shared wiring is well formed: all neighbor indices are in bounds
/// and the adjacency is symmetric, as undirected wiring must be.
pub proof fn lemma_a380_adjacency_wf()
    ensures
        adjacency_in_bounds(a380_network_adjacency()),
        adjacency_symmetric(a380_network_adjacency()),
{
    let adj = a380_network_adjacency();
    assert(adjacency_in_bounds(adj));
    assert forall|a: int, b: int| edge(adj, a, b) implies edge(adj, b, a) by {
        let k = choose|k: int| 0 <= k < adj[a].len() && adj[a][k] == b;
        assert(adj[a][k] == b);
    }
}

/// With every switch of a network available, the shared wiring connects
/// every pair of switches, self-pairs included: the topology is fully
/// connected.
pub proof fn lemma_a380_fully_connected(avail: Seq<bool>)
    requires
        avail.len() == 8,
        forall|i: int| 0 <= i < 8 ==> avail[i],
    ensures
        forall|x: int, y: int|
            0 <= x < 8 && 0 <= y < 8 ==> reachable(a380_network_adjacency(), avail, x, y),
{
    let adj = a380_network_adjacency();
    lemma_a380_adjacency_wf();
    lemma_self_reachability(adj, avail, 0);
    assert(edge(adj, 0, 1)) by {
        assert(adj[0][0] == 1);
    }
    lemma_reachable_step(adj, avail, 0, 0, 1);
    assert(edge(adj, 0, 2)) by {
        assert(adj[0][1] == 2);
    }
    lemma_reachable_step(adj, avail, 0, 0, 2);
    assert(edge(adj, 0, 7)) by {
        assert(adj[0][2] == 7);
    }
    lemma_reachable_step(adj, avail, 0, 0, 7);
    assert(edge(adj, 1, 3)) by {
        assert(adj[1][1] == 3);
    }
    lemma_reachable_step(adj, avail, 0, 1, 3);
    assert(edge(adj, 2, 4)) by {
        assert(adj[2][2] == 4);
    }
    lemma_reachable_step(adj, avail, 0, 2, 4);
    assert(edge(adj, 3, 5)) by {
        assert(adj[3][2] == 5);
    }
    lemma_reachable_step(adj, avail, 0, 3, 5);
    assert(edge(adj, 2, 6)) by {
        assert(adj[2][3] == 6);
    }
    lemma_reachable_step(adj, avail, 0, 2, 6);
    assert forall|x: int, y: int|
        0 <= x < 8 && 0 <= y < 8 implies reachable(adj, avail, x, y) by {
        assert(reachable(adj, avail, 0, x));
        assert(reachable(adj, avail, 0, y));
        lemma_reachable_symmetric(adj, avail, 0, x);
        lemma_reachable_trans(adj, avail, x, 0, y);
    }
}

/// Full-power scenario materialized: a table matching an all-available
/// network on the shared wiring answers `true` for every pair, self-pairs
/// included.
pub proof fn lemma_full_power_table(table: Seq<Seq<RoutingTableEntry>>, avail: Seq<bool>, ids: Seq<u8>)
    requires
        table_matches(table, a380_network_adjacency(), avail, ids),
        avail.len() == 8,
        forall|i: int| 0 <= i < 8 ==> avail[i],
    ensures
        forall|y: int, x: int|
            0 <= y < table.len() && 0 <= x < table[y].len()
                ==> (#[trigger] table[y][x]).reachable,
{
    lemma_a380_fully_connected(avail);
    assert forall|y: int, x: int|
        0 <= y < table.len() && 0 <= x < table[y].len()
        implies (#[trigger] table[y][x]).reachable by {
        assert(table[y][x].reachable == reachable(a380_network_adjacency(), avail, y, y + x));
    }
}

/// A three-neighbor adjacency row.
fn neighbor_row3(a: usize, b: usize, c: usize) -> (row: Vec<usize>)
    ensures
        row@ == seq![a, b, c],
{
    let mut row: Vec<usize> = Vec::new();
    row.push(a);
    row.push(b);
    row.push(c);
    proof {
        assert(row@ =~= seq![a, b, c]);
    }
    row
}

/// A four-neighbor adjacency row.
fn neighbor_row4(a: usize, b: usize, c: usize, d: usize) -> (row: Vec<usize>)
    ensures
        row@ == seq![a, b, c, d],
{
    let mut row: Vec<usize> = Vec::new();
    row.push(a);
    row.push(b);
    row.push(c);
    row.push(d);
    proof {
        assert(row@ =~= seq![a, b, c, d]);
    }
    row
}

/// A five-neighbor adjacency row.
fn neighbor_row5(a: usize, b: usize, c: usize, d: usize, e: usize) -> (row: Vec<usize>)
    ensures
        row@ == seq![a, b, c, d, e],
{
    let mut row: Vec<usize> = Vec::new();
    row.push(a);
    row.push(b);
    row.push(c);
    row.push(d);
    row.push(e);
    proof {
        assert(row@ =~= seq![a, b, c, d, e]);
    }
    row
}

/// Builds the topology both redundant networks are wired with.
pub fn a380_network_topology() -> (t: NetworkTopology)
    ensures
        t.wf(),
        t.adj() == a380_network_adjacency(),
        t.spec_node_count() == 8,
{
    let mut adjacency: Vec<Vec<usize>> = Vec::new();
    adjacency.push(neighbor_row3(1, 2, 7));
    adjacency.push(neighbor_row3(0, 3, 7));
    adjacency.push(neighbor_row5(0, 3, 4, 6, 7));
    adjacency.push(neighbor_row5(1, 2, 5, 6, 7));
    adjacency.push(neighbor_row3(2, 5, 6));
    adjacency.push(neighbor_row3(3, 4, 6));
    adjacency.push(neighbor_row4(2, 3, 4, 5));
    adjacency.push(neighbor_row4(0, 1, 2, 3));
    proof {
        assert(adjacency@.map_values(|row: Vec<usize>| row@) =~= a380_network_adjacency());
        lemma_a380_adjacency_wf();
    }
    NetworkTopology::from_adjacency(adjacency)
}

/// The external identifiers of one network's switches, in dense order.
fn switch_id_vec(first: bool) -> (ids: Vec<u8>)
    ensures
        first ==> ids@ == network_a_switch_ids(),
        !first ==> ids@ == network_b_switch_ids(),
{
    let mut ids: Vec<u8> = Vec::new();
    let base: u8 = if first { 0 } else { 10 };
    ids.push(base + 1);
    ids.push(base + 2);
    ids.push(base + 3);
    ids.push(base + 4);
    ids.push(base + 5);
    ids.push(base + 6);
    ids.push(base + 7);
    ids.push(base + 9);
    proof {
        if first {
            assert(ids@ =~= network_a_switch_ids());
        } else {
            assert(ids@ =~= network_b_switch_ids());
        }
    }
    ids
}

/// Any switch of the window `[offset, offset + 8)` reports an availability
/// change for the tick: its freshly derived availability differs from the
/// value it held when the tick began.
pub open spec fn network_update_required(
    switches: Seq<AvionicsFullDuplexSwitch>,
    availability: Seq<bool>,
    offset: int,
) -> bool {
    exists|i: int|
        offset <= i < offset + 8 && availability[i] != (#[trigger] switches[i]).availability()
}

/// The eight availability booleans of one network's switches.
fn network_availability(availability: &Vec<bool>, offset: usize) -> (v: Vec<bool>)
    requires
        offset + 8 <= availability@.len(),
    ensures
        v@ == availability@.subrange(offset as int, offset as int + 8),
{
    let total = availability.len();
    let mut v: Vec<bool> = Vec::new();
    let mut k: usize = 0;
    while k < 8
        invariant
            k <= 8,
            total == availability@.len(),
            offset + 8 <= total,
            v@.len() == k,
            forall|j: int| 0 <= j < k ==> v@[j] == availability@[offset + j],
        decreases 8 - k,
    {
        v.push(availability[offset + k]);
        k = k + 1;
    }
    proof {
        assert(v@ =~= availability@.subrange(offset as int, offset as int + 8));
    }
    v
}

/// The aggregate: all sixteen AFDX switches partitioned eight/eight across
/// the two redundant networks, the two topologies, the two routing tables,
/// and the tick-level publish flag.
pub struct A380AvionicsDataCommunicationNetwork {
    afdx_switches: Vec<AvionicsFullDuplexSwitch>,
    network_a: NetworkTopology,
    network_b: NetworkTopology,
    switch_ids_a: Vec<u8>,
    switch_ids_b: Vec<u8>,
    routing_table_a: Vec<Vec<RoutingTableEntry>>,
    routing_table_b: Vec<Vec<RoutingTableEntry>>,
    publish_routing_table: bool,
}

impl A380AvionicsDataCommunicationNetwork {
    /// The sixteen switches: dense indices `0..8` belong to the first
    /// network, `8..16` to the second.
    pub closed spec fn switches(&self) -> Seq<AvionicsFullDuplexSwitch> {
        self.afdx_switches@
    }

    /// The first network's routing table contents.
    pub closed spec fn table_a(&self) -> Seq<Seq<RoutingTableEntry>> {
        table_view(self.routing_table_a@)
    }

    /// The second network's routing table contents.
    pub closed spec fn table_b(&self) -> Seq<Seq<RoutingTableEntry>> {
        table_view(self.routing_table_b@)
    }

    /// Whether the next `write` call will publish the tables.
    pub closed spec fn publish_pending(&self) -> bool {
        self.publish_routing_table
    }

    /// Structural invariant: sixteen switches, both networks wired with the
    /// well-formed shared topology, and both tables triangular with the
    /// correct pair labels.
    pub closed spec fn wf(&self) -> bool {
        &&& self.afdx_switches@.len() == 16
        &&& self.network_a.wf()
        &&& self.network_a.adj() == a380_network_adjacency()
        &&& self.network_b.wf()
        &&& self.network_b.adj() == a380_network_adjacency()
        &&& self.switch_ids_a@ == network_a_switch_ids()
        &&& self.switch_ids_b@ == network_b_switch_ids()
        &&& table_shaped(self.table_a(), network_a_switch_ids())
        &&& table_shaped(self.table_b(), network_b_switch_ids())
    }

    /// A freshly constructed network: every switch unpowered, every pair
    /// not reachable, and the publish flag raised so that the initial
    /// state is published once.
    pub fn new() -> (net: Self)
        ensures
            net.wf(),
            net.switches().len() == 16,
            forall|i: int|
                0 <= i < 16 ==> !(#[trigger] net.switches()[i]).availability()
                    && !net.switches()[i].previous_availability(),
            forall|y: int, x: int|
                0 <= y < net.table_a().len() && 0 <= x < net.table_a()[y].len()
                    ==> !(#[trigger] net.table_a()[y][x]).reachable,
            forall|y: int, x: int|
                0 <= y < net.table_b().len() && 0 <= x < net.table_b()[y].len()
                    ==> !(#[trigger] net.table_b()[y][x]).reachable,
            net.publish_pending(),
    {
        let mut afdx_switches: Vec<AvionicsFullDuplexSwitch> = Vec::new();
        let mut i: usize = 0;
        while i < 16
            invariant
                i <= 16,
                afdx_switches@.len() == i,
                forall|j: int|
                    0 <= j < i ==> !(#[trigger] afdx_switches@[j]).availability()
                        && !afdx_switches@[j].previous_availability(),
            decreases 16 - i,
        {
            afdx_switches.push(AvionicsFullDuplexSwitch::new());
            i = i + 1;
        }
        let switch_ids_a = switch_id_vec(true);
        let switch_ids_b = switch_id_vec(false);
        let routing_table_a = blank_routing_table(&switch_ids_a);
        let routing_table_b = blank_routing_table(&switch_ids_b);
        A380AvionicsDataCommunicationNetwork {
            afdx_switches,
            network_a: a380_network_topology(),
            network_b: a380_network_topology(),
            switch_ids_a,
            switch_ids_b,
            routing_table_a,
            routing_table_b,
            publish_routing_table: true,
        }
    }

    /// One tick: every switch is advanced with its freshly derived
    /// availability first; then, for each network in which some switch
    /// reported a change, the whole routing table is recomputed by
    /// breadth-first search against the new availability; a table whose
    /// network reported no change is left untouched.  The publish flag is
    /// set exactly when either network recomputed.
    pub fn update(&mut self, availability: &Vec<bool>)
        requires
            old(self).wf(),
            availability@.len() == 16,
        ensures
            final(self).wf(),
            forall|i: int|
                0 <= i < 16 ==> (#[trigger] final(self).switches()[i]).availability()
                    == availability@[i] && final(self).switches()[i].previous_availability()
                    == old(self).switches()[i].availability(),
            final(self).publish_pending() == (network_update_required(
                old(self).switches(),
                availability@,
                0,
            ) || network_update_required(old(self).switches(), availability@, 8)),
            network_update_required(old(self).switches(), availability@, 0) ==> table_matches(
                final(self).table_a(),
                a380_network_adjacency(),
                availability@.subrange(0, 8),
                network_a_switch_ids(),
            ),
            !network_update_required(old(self).switches(), availability@, 0)
                ==> final(self).table_a() == old(self).table_a(),
            network_update_required(old(self).switches(), availability@, 8) ==> table_matches(
                final(self).table_b(),
                a380_network_adjacency(),
                availability@.subrange(8, 16),
                network_b_switch_ids(),
            ),
            !network_update_required(old(self).switches(), availability@, 8)
                ==> final(self).table_b() == old(self).table_b(),
    {
        let ghost entry_state = *self;
        let mut update_network_a = false;
        let mut update_network_b = false;

        let mut i: usize = 0;
        while i < 16
            invariant
                i <= 16,
                self.afdx_switches@.len() == 16,
                availability@.len() == 16,
                self.network_a == entry_state.network_a,
                self.network_b == entry_state.network_b,
                self.switch_ids_a == entry_state.switch_ids_a,
                self.switch_ids_b == entry_state.switch_ids_b,
                self.routing_table_a == entry_state.routing_table_a,
                self.routing_table_b == entry_state.routing_table_b,
                self.publish_routing_table == entry_state.publish_routing_table,
                forall|j: int| i <= j < 16 ==> self.afdx_switches@[j] == entry_state.switches()[j],
                forall|j: int|
                    0 <= j < i ==> (#[trigger] self.afdx_switches@[j]).availability()
                        == availability@[j] && self.afdx_switches@[j].previous_availability()
                        == entry_state.switches()[j].availability(),
                update_network_a == exists|j: int|
                    0 <= j < i && j < 8 && availability@[j] != (#[trigger] entry_state.switches()[
                        j
                    ]).availability(),
                update_network_b == exists|j: int|
                    8 <= j < i && availability@[j] != (#[trigger] entry_state.switches()[
                        j
                    ]).availability(),
            decreases 16 - i,
        {
            let mut switch = self.afdx_switches[i];
            switch.update(availability[i]);
            let required = switch.routing_update_required();
            self.afdx_switches.set(i, switch);
            if required {
                if i >= 8 {
                    update_network_b = true;
                } else {
                    update_network_a = true;
                }
            }
            proof {
                assert(required == (availability@[i as int] != entry_state.switches()[
                    i as int
                ].availability()));
            }
            i = i + 1;
        }

        if update_network_a {
            let network_availability_a = network_availability(availability, 0);
            self.routing_table_a = compute_routing_table(
                &self.network_a,
                &network_availability_a,
                &self.switch_ids_a,
            );
        }
        if update_network_b {
            let network_availability_b = network_availability(availability, 8);
            self.routing_table_b = compute_routing_table(
                &self.network_b,
                &network_availability_b,
                &self.switch_ids_b,
            );
        }
        self.publish_routing_table = update_network_a || update_network_b;
    }

    /// Publishes every entry of both routing tables, both directions of
    /// every pair, if and only if the publish flag is raised for the tick.
    pub fn write(&self, writer: &mut SignalWriter)
        ensures
            self.publish_pending() ==> final(writer).log() == old(writer).log() + table_signals(
                self.table_a(),
            ) + table_signals(self.table_b()),
            !self.publish_pending() ==> final(writer).log() == old(writer).log(),
    {
        if self.publish_routing_table {
            publish_table(&self.routing_table_a, writer);
            publish_table(&self.routing_table_b, writer);
        }
    }

    /// Published pairs stay symmetric: after `write` extends a bus whose
    /// opposite directions agree, the "X reaches Y" and "Y reaches X"
    /// signals are still always equal, for all pairs of both networks.
    pub proof fn lemma_write_symmetric(&self, log: Seq<Signal>)
        requires
            symmetric_signals(log),
        ensures
            symmetric_signals(
                log + table_signals(self.table_a()) + table_signals(self.table_b()),
            ),
    {
        lemma_publication_symmetric(log, self.table_a());
        lemma_publication_symmetric(log + table_signals(self.table_a()), self.table_b());
    }
}

} // verus!
