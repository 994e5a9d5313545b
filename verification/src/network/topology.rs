//! Which nodes of a network can reach each other directly.

use vstd::prelude::*;
use crate::network::adjacency::{connected, linked, Adjacency};

verus! {

/// The shape of a network.
pub enum Topology {
    /// Every node is joined to every other.
    FullyConnected,
    /// Nodes are joined as the graph says.
    Adjacency(Adjacency),
}

impl Topology {
    /// The topology has a node for `id`.
    pub open spec fn has_node(&self, id: u32) -> bool {
        match self {
            Topology::FullyConnected => true,
            Topology::Adjacency(adj) => adj.index_of().contains_key(id),
        }
    }

    /// The nodes of two ids are joined.
    pub open spec fn joins(&self, a: u32, b: u32) -> bool {
        match self {
            Topology::FullyConnected => true,
            Topology::Adjacency(adj) => linked(adj.edges(), adj.index_of()[a], adj.index_of()[b]),
        }
    }

    /// A path leads from the node of one id to that of another.
    pub open spec fn reaches(&self, a: u32, b: u32) -> bool {
        match self {
            Topology::FullyConnected => true,
            Topology::Adjacency(adj) => connected(adj.edges(), adj.index_of()[a], adj.index_of()[b]),
        }
    }

    /// Whether the topology has a node for `id`.
    pub fn knows(&self, id: u32) -> (r: bool)
        ensures
            r == self.has_node(id),
    {
        match self {
            Topology::FullyConnected => true,
            Topology::Adjacency(adj) => adj.knows(id),
        }
    }

    /// Whether the nodes of `a` and `b` are joined.
    pub fn has_edge(&self, a: u32, b: u32) -> (r: bool)
        requires
            self.has_node(a),
            self.has_node(b),
        ensures
            r == self.joins(a, b),
    {
        match self {
            Topology::FullyConnected => true,
            Topology::Adjacency(adj) => adj.has_edge(a, b),
        }
    }

    /// Whether a path leads from the node of `a` to that of `b`.
    pub fn has_path_between(&self, a: u32, b: u32) -> (r: bool)
        requires
            self.has_node(a),
            self.has_node(b),
        ensures
            r == self.reaches(a, b),
    {
        match self {
            Topology::FullyConnected => true,
            Topology::Adjacency(adj) => adj.has_path_between(a, b),
        }
    }
}

} // verus!
