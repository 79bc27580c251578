//! Static network topology: which switches are physically wired to which.
//!
//! One immutable adjacency table per redundant network, built once at
//! construction and never mutated.  Nodes are dense indices `0..node_count`;
//! the mapping from dense index to the externally visible switch identifier
//! lives with the routing table that publishes results.

use vstd::prelude::*;
use crate::reachability::{adjacency_in_bounds, adjacency_symmetric, edge};

verus! {

/// Immutable mapping from a dense switch index to the dense indices of its
/// directly wired neighbors.
pub struct NetworkTopology {
    adjacency: Vec<Vec<usize>>,
}

impl NetworkTopology {
    /// The adjacency table, row `i` listing the neighbors of dense index `i`.
    pub closed spec fn adj(&self) -> Seq<Seq<usize>> {
        self.adjacency@.map_values(|row: Vec<usize>| row@)
    }

    /// Every listed neighbor is a valid dense index, and wiring is
    /// undirected: if X neighbors Y then Y neighbors X.
    pub open spec fn wf(&self) -> bool {
        &&& adjacency_in_bounds(self.adj())
        &&& adjacency_symmetric(self.adj())
    }

    pub open spec fn spec_node_count(&self) -> nat {
        self.adj().len()
    }

    /// Number of switches in this network.
    pub fn node_count(&self) -> (n: usize)
        ensures
            n == self.spec_node_count(),
    {
        self.adjacency.len()
    }

    /// The directly wired neighbors of a switch.  Calling this with an
    /// invalid dense index is a programmer error, excluded by contract.
    pub fn neighbors(&self, node: usize) -> (nbrs: &Vec<usize>)
        requires
            node < self.spec_node_count(),
        ensures
            nbrs@ == self.adj()[node as int],
    {
        &self.adjacency[node]
    }

    /// Builds a topology from a raw adjacency table.
    pub fn from_adjacency(adjacency: Vec<Vec<usize>>) -> (t: Self)
        requires
            adjacency_in_bounds(adjacency@.map_values(|row: Vec<usize>| row@)),
            adjacency_symmetric(adjacency@.map_values(|row: Vec<usize>| row@)),
        ensures
            t.wf(),
            t.adj() == adjacency@.map_values(|row: Vec<usize>| row@),
    {
        NetworkTopology { adjacency }
    }
}

} // verus!
