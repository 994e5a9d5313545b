//! Which nodes of a network are connected: an undirected graph of node ids.

use vstd::prelude::*;
use petgraph::graph::{Graph, NodeIndex};
use petgraph::Undirected;
use crate::sorted_map::{lemma_entries_map_at, SortedMap};

verus! {

/// The weight of an edge, which carries nothing.
#[derive(Clone, Copy, Debug, PartialEq, Eq, Hash, Structural)]
pub struct UnitEdge;

#[verifier::external_type_specification]
#[verifier::external_body]
#[verifier::reject_recursive_types(N)]
#[verifier::reject_recursive_types(E)]
#[verifier::reject_recursive_types(Ty)]
#[verifier::reject_recursive_types(Ix)]
pub struct ExGraph<N, E, Ty, Ix>(Graph<N, E, Ty, Ix>);

#[verifier::external_type_specification]
#[verifier::external_body]
pub struct ExUndirected(Undirected);

/// The node weights of a graph, by node index.
pub uninterp spec fn graph_nodes(g: Graph<u32, UnitEdge, Undirected, u32>) -> Seq<u32>;

/// The edges of a graph, by edge index, each as the node indices it joins.
pub uninterp spec fn graph_edges(g: Graph<u32, UnitEdge, Undirected, u32>) -> Seq<(u32, u32)>;

/// Some edge joins `a` and `b`, in either order.
pub open spec fn linked(edges: Seq<(u32, u32)>, a: u32, b: u32) -> bool {
    exists|i: int| 0 <= i < edges.len() && (edges[i] == (a, b) || edges[i] == (b, a))
}

/// A path of edges leads from `a` to `b` (a node is connected to itself).
pub open spec fn connected(edges: Seq<(u32, u32)>, a: u32, b: u32) -> bool {
    exists|p: Seq<u32>|
        p.len() > 0 && p[0] == a && p.last() == b && forall|i: int|
            0 <= i < p.len() - 1 ==> #[trigger] linked(edges, p[i], p[i + 1])
}

/// `Graph::new_undirected`: an undirected graph with no nodes and no edges.
#[verifier::external_body]
fn graph_new() -> (g: Graph<u32, UnitEdge, Undirected, u32>)
    ensures
        graph_nodes(g) == Seq::<u32>::empty(),
        graph_edges(g) == Seq::<(u32, u32)>::empty(),
{
    Graph::new_undirected()
}

/// `Graph::add_node`: appends a node with weight `w`, whose index is the
/// old node count. It panics when the count has reached the largest index.
#[verifier::external_body]
fn graph_add_node(g: &mut Graph<u32, UnitEdge, Undirected, u32>, w: u32) -> (i: u32)
    requires
        graph_nodes(*old(g)).len() < u32::MAX,
    ensures
        graph_nodes(*final(g)) == graph_nodes(*old(g)).push(w),
        graph_edges(*final(g)) == graph_edges(*old(g)),
        i == graph_nodes(*old(g)).len(),
{
    g.add_node(w).index() as u32
}

/// `Graph::add_edge`: appends an edge from `a` to `b`, whose index is the
/// old edge count. It panics when a node index is out of bounds or the
/// edge count has reached the largest index.
#[verifier::external_body]
fn graph_add_edge(g: &mut Graph<u32, UnitEdge, Undirected, u32>, a: u32, b: u32) -> (e: u32)
    requires
        a < graph_nodes(*old(g)).len(),
        b < graph_nodes(*old(g)).len(),
        graph_edges(*old(g)).len() < u32::MAX,
    ensures
        graph_edges(*final(g)) == graph_edges(*old(g)).push((a, b)),
        graph_nodes(*final(g)) == graph_nodes(*old(g)),
        e == graph_edges(*old(g)).len(),
{
    g.add_edge(NodeIndex::new(a as usize), NodeIndex::new(b as usize), UnitEdge).index() as u32
}

/// `Graph::contains_edge` on an undirected graph: whether an edge joins
/// `a` and `b`, in either order.
#[verifier::external_body]
fn graph_contains_edge(g: &Graph<u32, UnitEdge, Undirected, u32>, a: u32, b: u32) -> (r: bool)
    ensures
        r == linked(graph_edges(*g), a, b),
{
    g.contains_edge(NodeIndex::new(a as usize), NodeIndex::new(b as usize))
}

/// `Graph::neighbors` on an undirected graph: the indices of the nodes that
/// an edge joins to `a`, as many times as such edges occur.
#[verifier::external_body]
fn graph_neighbors(g: &Graph<u32, UnitEdge, Undirected, u32>, a: u32) -> (r: Vec<u32>)
    ensures
        forall|x: u32| r@.contains(x) <==> linked(graph_edges(*g), a, x),
{
    g.neighbors(NodeIndex::new(a as usize)).map(|i| i.index() as u32).collect()
}

/// Indexing a graph by a node index: the weight of that node. It panics
/// when the index is out of bounds.
#[verifier::external_body]
fn graph_node_weight(g: &Graph<u32, UnitEdge, Undirected, u32>, i: u32) -> (w: u32)
    requires
        i < graph_nodes(*g).len(),
    ensures
        w == graph_nodes(*g)[i as int],
{
    g[NodeIndex::new(i as usize)]
}

/// `petgraph::algo::has_path_connecting`: whether a path of edges leads
/// from `a` to `b`. Its depth-first search panics when `a` is out of
/// bounds.
#[verifier::external_body]
fn graph_has_path(g: &Graph<u32, UnitEdge, Undirected, u32>, a: u32, b: u32) -> (r: bool)
    requires
        a < graph_nodes(*g).len(),
    ensures
        r == connected(graph_edges(*g), a, b),
{
    petgraph::algo::has_path_connecting(g, NodeIndex::new(a as usize), NodeIndex::new(b as usize), None)
}

/// An undirected graph over node ids, with the index of each id's node.
pub struct Adjacency {
    graph: Graph<u32, UnitEdge, Undirected, u32>,
    indices: SortedMap<u32, u32>,
}

impl Adjacency {
    /// The node weights, by node index.
    pub closed spec fn nodes(&self) -> Seq<u32> {
        graph_nodes(self.graph)
    }

    /// The edges, by edge index.
    pub closed spec fn edges(&self) -> Seq<(u32, u32)> {
        graph_edges(self.graph)
    }

    /// The node index of each known id.
    pub closed spec fn index_of(&self) -> Map<u32, u32> {
        self.indices@
    }

    /// Each known id indexes a node of that weight, and every edge joins
    /// two nodes of the graph.
    #[verifier::type_invariant]
    spec fn inv(&self) -> bool {
        &&& forall|id: u32| #[trigger]
            self.indices@.contains_key(id) ==> self.indices@[id] < graph_nodes(self.graph).len()
                && graph_nodes(self.graph)[self.indices@[id] as int] == id
        &&& forall|i: int|
            0 <= i < graph_edges(self.graph).len() ==> (#[trigger] graph_edges(self.graph)[i]).0
                < graph_nodes(self.graph).len() && graph_edges(self.graph)[i].1 < graph_nodes(
                self.graph,
            ).len()
    }

    /// No nodes and no edges.
    pub fn new() -> (a: Self)
        ensures
            a.nodes() == Seq::<u32>::empty(),
            a.edges() == Seq::<(u32, u32)>::empty(),
            a.index_of() == Map::<u32, u32>::empty(),
    {
        Adjacency { graph: graph_new(), indices: SortedMap::new() }
    }

    /// Add a node for `peer_id`, which from now on stands for the id.
    pub fn add_node(&mut self, peer_id: u32)
        requires
            old(self).nodes().len() < u32::MAX,
        ensures
            final(self).nodes() == old(self).nodes().push(peer_id),
            final(self).edges() == old(self).edges(),
            final(self).index_of() == old(self).index_of().insert(
                peer_id,
                old(self).nodes().len() as u32,
            ),
    {
        proof {
            use_type_invariant(&*self);
        }
        let mut indices = SortedMap::new();
        std::mem::swap(&mut indices, &mut self.indices);
        let mut graph = graph_new();
        std::mem::swap(&mut graph, &mut self.graph);
        let index = graph_add_node(&mut graph, peer_id);
        indices.insert(peer_id, index);
        self.graph = graph;
        self.indices = indices;
    }

    /// Add an edge between the nodes of two known ids, returning its index.
    pub fn add_edge(&mut self, from: u32, to: u32) -> (e: u32)
        requires
            old(self).index_of().contains_key(from),
            old(self).index_of().contains_key(to),
            old(self).edges().len() < u32::MAX,
        ensures
            final(self).edges() == old(self).edges().push(
                (old(self).index_of()[from], old(self).index_of()[to]),
            ),
            final(self).nodes() == old(self).nodes(),
            final(self).index_of() == old(self).index_of(),
            e == old(self).edges().len(),
    {
        proof {
            use_type_invariant(&*self);
        }
        let a = self.get_node(from);
        let b = self.get_node(to);
        let mut indices = SortedMap::new();
        std::mem::swap(&mut indices, &mut self.indices);
        let mut graph = graph_new();
        std::mem::swap(&mut graph, &mut self.graph);
        let e = graph_add_edge(&mut graph, a, b);
        self.graph = graph;
        self.indices = indices;
        e
    }

    /// Whether an edge joins the nodes of two known ids.
    pub fn has_edge(&self, from: u32, to: u32) -> (r: bool)
        requires
            self.index_of().contains_key(from),
            self.index_of().contains_key(to),
        ensures
            r == linked(self.edges(), self.index_of()[from], self.index_of()[to]),
    {
        let a = self.get_node(from);
        let b = self.get_node(to);
        graph_contains_edge(&self.graph, a, b) || graph_contains_edge(&self.graph, b, a)
    }

    /// Whether `peer_id` is known.
    pub fn knows(&self, peer_id: u32) -> (r: bool)
        ensures
            r == self.index_of().contains_key(peer_id),
    {
        self.indices.contains_key(&peer_id)
    }

    /// The node index of a known id.
    pub fn get_node(&self, peer_id: u32) -> (i: u32)
        requires
            self.index_of().contains_key(peer_id),
        ensures
            i == self.index_of()[peer_id],
            i < self.nodes().len(),
    {
        proof {
            use_type_invariant(self);
        }
        *self.indices.get(&peer_id).unwrap()
    }

    /// The ids of the nodes that an edge joins to the node of `peer_id`,
    /// each once, in increasing order.
    pub fn get_neighbors(&self, peer_id: u32) -> (r: Vec<u32>)
        requires
            self.index_of().contains_key(peer_id),
        ensures
            forall|id: u32|
                r@.contains(id) <==> exists|j: u32|
                    linked(self.edges(), self.index_of()[peer_id], j) && j < self.nodes().len()
                        && #[trigger] self.nodes()[j as int] == id,
            forall|i: int, k: int| 0 <= i < k < r@.len() ==> r@[i] < r@[k],
    {
        proof {
            use_type_invariant(self);
        }
        let a = self.get_node(peer_id);
        let ns = graph_neighbors(&self.graph, a);
        proof {
            assert forall|k: int| 0 <= k < ns@.len() implies (#[trigger] ns@[k]) < graph_nodes(self.graph).len() by {
                let x = ns@[k];
                assert(ns@.contains(x));
                let t = choose|t: int|
                    0 <= t < graph_edges(self.graph).len() && (graph_edges(self.graph)[t] == (a, x)
                        || graph_edges(self.graph)[t] == (x, a));
                assert(graph_edges(self.graph)[t].0 < graph_nodes(self.graph).len());
            }
        }
        let mut found: SortedMap<u32, ()> = SortedMap::new();
        let mut i: usize = 0;
        while i < ns.len()
            invariant
                i <= ns.len(),
                forall|x: u32| ns@.contains(x) <==> linked(graph_edges(self.graph), a, x),
                forall|id: u32|
                    found@.contains_key(id) <==> exists|k: int|
                        0 <= k < i && #[trigger] graph_nodes(self.graph)[ns@[k] as int] == id,
                forall|k: int| 0 <= k < ns@.len() ==> (#[trigger] ns@[k]) < graph_nodes(self.graph).len(),
            decreases ns.len() - i,
        {
            let j = ns[i];
            let w = graph_node_weight(&self.graph, j);
            found.insert(w, ());
            proof {
                assert forall|id: u32|
                    found@.contains_key(id) <==> exists|k: int|
                        0 <= k < i + 1 && #[trigger] graph_nodes(self.graph)[ns@[k] as int] == id by {
                    if id == w {
                        assert(graph_nodes(self.graph)[ns@[i as int] as int] == id);
                    }
                }
            }
            i = i + 1;
        }
        let n = found.len();
        let ghost es = found.entries();
        let mut r: Vec<u32> = Vec::new();
        let mut k: usize = 0;
        while k < n
            invariant
                k <= n,
                n == es.len(),
                es == found.entries(),
                found.wf(),
                r@ == es.take(k as int).map_values(|e: (u32, ())| e.0),
            decreases n - k,
        {
            let e = found.entry_at(k);
            r.push(e.0);
            proof {
                assert(es.take(k + 1).map_values(|e: (u32, ())| e.0) =~= es.take(k as int).map_values(
                    |e: (u32, ())| e.0,
                ).push(es[k as int].0));
            }
            k = k + 1;
        }
        proof {
            assert(es.take(n as int) =~= es);
            assert forall|id: u32|
                r@.contains(id) <==> exists|j: u32|
                    linked(self.edges(), self.index_of()[peer_id], j) && j < self.nodes().len()
                        && #[trigger] self.nodes()[j as int] == id by {
                if r@.contains(id) {
                    let t = choose|t: int| 0 <= t < r@.len() && r@[t] == id;
                    lemma_entries_map_at(es, t);
                    let kk = choose|kk: int| 0 <= kk < ns@.len() && #[trigger] graph_nodes(self.graph)[ns@[kk] as int] == id;
                    assert(ns@.contains(ns@[kk]));
                }
                if exists|j: u32|
                    linked(self.edges(), self.index_of()[peer_id], j) && j < self.nodes().len()
                        && #[trigger] self.nodes()[j as int] == id {
                    let j = choose|j: u32|
                        linked(self.edges(), self.index_of()[peer_id], j) && j < self.nodes().len()
                            && #[trigger] self.nodes()[j as int] == id;
                    assert(ns@.contains(j));
                    let kk = choose|kk: int| 0 <= kk < ns@.len() && ns@[kk] == j;
                    assert(graph_nodes(self.graph)[ns@[kk] as int] == id);
                    assert(found@.contains_key(id));
                    let t = choose|t: int| 0 <= t < es.len() && es[t].0 == id;
                    assert(r@[t] == id);
                }
            }
            assert forall|i: int, q: int| 0 <= i < q < r@.len() implies r@[i] < r@[q] by {
                assert(r@[i] == es[i].0 && r@[q] == es[q].0);
            }
        }
        r
    }

    /// Whether a path of edges leads from the node of one known id to that
    /// of another.
    pub fn has_path_between(&self, from: u32, to: u32) -> (r: bool)
        requires
            self.index_of().contains_key(from),
            self.index_of().contains_key(to),
        ensures
            r == connected(self.edges(), self.index_of()[from], self.index_of()[to]),
    {
        let a = self.get_node(from);
        let b = self.get_node(to);
        graph_has_path(&self.graph, a, b)
    }

    /// The graph.
    pub fn graph(&self) -> (g: &Graph<u32, UnitEdge, Undirected, u32>)
        ensures
            graph_nodes(*g) == self.nodes(),
            graph_edges(*g) == self.edges(),
    {
        &self.graph
    }
}

impl Default for Adjacency {
    fn default() -> (a: Self)
        ensures
            a.nodes() == Seq::<u32>::empty(),
            a.edges() == Seq::<(u32, u32)>::empty(),
            a.index_of() == Map::<u32, u32>::empty(),
    {
        Adjacency::new()
    }
}

} // verus!
