//! The panoptic state of a whole gossip network.

use vstd::prelude::*;
use crate::gossip_node::{
    gossip_node_next, ready_peer, GossipNodeError, NodeAction, NodeMachine, NodeState, PeerState,
};
use crate::machine::Machine;
use crate::sorted_map::{entries_map, keys_sorted, lemma_entries_map_at, SortedMap};

verus! {

/// An action taken at the given node.
#[derive(Clone, Copy, Debug, PartialEq, Eq, Hash, Structural)]
pub struct GossipAction(pub u32, pub NodeAction<bool>);

/// Every node's view of its peers.
pub struct GossipState {
    pub nodes: SortedMap<u32, NodeState>,
}

pub open spec fn gossip_view(nodes: Map<u32, NodeState>) -> Map<u32, Map<u32, PeerState>> {
    Map::new(|n: u32| nodes.contains_key(n), |n: u32| nodes[n]@)
}

impl View for GossipState {
    type V = Map<u32, Map<u32, PeerState>>;

    open spec fn view(&self) -> Map<u32, Map<u32, PeerState>> {
        gossip_view(self.nodes@)
    }
}

impl GossipState {
    pub fn new(nodes: SortedMap<u32, NodeState>) -> (s: Self)
        ensures
            s@ == gossip_view(nodes@),
    {
        GossipState { nodes }
    }
}

/// Why the network refused an action.
#[derive(Clone, Copy, Debug, PartialEq, Eq, Hash, Structural)]
pub enum GossipNetworkError {
    /// A node cannot add itself as a peer.
    SelfPeer,
    /// No such node.
    NoNode(u32),
    /// The node refused the action.
    Node(GossipNodeError),
}

/// One step of the network.
pub open spec fn gossip_network_next(s: Map<u32, Map<u32, PeerState>>, a: GossipAction) -> Result<
    Map<u32, Map<u32, PeerState>>,
    GossipNetworkError,
> {
    let GossipAction(node, action) = a;
    if action == NodeAction::<bool>::AddPeer(node) {
        Err(GossipNetworkError::SelfPeer)
    } else if !s.contains_key(node) {
        Err(GossipNetworkError::NoNode(node))
    } else {
        match gossip_node_next(s[node], action) {
            Ok(ns) => Ok(s.insert(node, ns)),
            Err(e) => Err(GossipNetworkError::Node(e)),
        }
    }
}

/// The machine of a gossip network.
pub struct GossipMachine {
    pub node_machine: NodeMachine,
}

impl GossipMachine {
    pub fn new() -> (m: Self) {
        GossipMachine { node_machine: NodeMachine::new() }
    }

    /// Every id below `num_ids` is a node whose peers are all the other ids.
    pub fn initial(&self, num_ids: u32) -> (s: GossipState)
        ensures
            forall|n: u32| s@.contains_key(n) <==> n < num_ids,
            forall|n: u32, p: u32|
                #[trigger] s@.contains_key(n) ==> (#[trigger] s@[n].contains_key(p) <==> (p < num_ids
                    && p != n)),
            forall|n: u32, p: u32|
                #[trigger] s@.contains_key(n) && #[trigger] s@[n].contains_key(p) ==> s@[n][p]
                    == ready_peer(),
    {
        let mut nodes: SortedMap<u32, NodeState> = SortedMap::new();
        let mut i: u32 = 0;
        while i < num_ids
            invariant
                i <= num_ids,
                forall|n: u32| nodes@.contains_key(n) <==> n < i,
                forall|n: u32, p: u32|
                    #[trigger] nodes@.contains_key(n) ==> (#[trigger] nodes@[n]@.contains_key(p) <==> (p
                        < num_ids && p != n)),
                forall|n: u32, p: u32|
                    #[trigger] nodes@.contains_key(n) && #[trigger] nodes@[n]@.contains_key(p)
                        ==> nodes@[n]@[p] == ready_peer(),
            decreases num_ids - i,
        {
            let mut peers: Vec<u32> = Vec::new();
            let mut j: u32 = 0;
            while j < num_ids
                invariant
                    j <= num_ids,
                    i < num_ids,
                    forall|p: u32| peers@.contains(p) <==> (p < j && p != i),
                decreases num_ids - j,
            {
                if j != i {
                    proof {
                        assert forall|p: u32| peers@.push(j).contains(p) <==> (p < j + 1 && p != i) by {
                            if p == j {
                                assert(peers@.push(j)[peers@.len() as int] == j);
                            }
                            if peers@.push(j).contains(p) && p != j {
                                let t = choose|t: int| 0 <= t < peers@.len() + 1 && peers@.push(j)[t] == p;
                                assert(peers@[t] == p);
                            }
                            if peers@.contains(p) {
                                let t = choose|t: int| 0 <= t < peers@.len() && peers@[t] == p;
                                assert(peers@.push(j)[t] == p);
                            }
                        }
                    }
                    peers.push(j);
                }
                j = j + 1;
            }
            let ghost pv = peers@;
            assert(forall|p: u32| pv.contains(p) <==> (p < num_ids && p != i));
            let ns = NodeState::new(peers);
            let ghost nsv = ns@;
            let ghost old_nodes = nodes@;
            nodes.insert(i, ns);
            proof {
                assert(nodes@[i]@ == nsv);
                assert forall|n: u32, p: u32|
                    #[trigger] nodes@.contains_key(n) implies (#[trigger] nodes@[n]@.contains_key(p) <==> (p
                        < num_ids && p != n)) by {
                    if n != i {
                        assert(old_nodes.contains_key(n));
                        assert(nodes@[n] == old_nodes[n]);
                        assert(old_nodes[n]@.contains_key(p) <==> (p < num_ids && p != n));
                    } else {
                        assert(nsv.contains_key(p) <==> pv.contains(p));
                    }
                }
                assert forall|n: u32, p: u32|
                    #[trigger] nodes@.contains_key(n) && #[trigger] nodes@[n]@.contains_key(p)
                        implies nodes@[n]@[p] == ready_peer() by {
                    if n != i {
                        assert(nodes@[n] == old_nodes[n]);
                        assert(old_nodes.contains_key(n) && old_nodes[n]@.contains_key(p));
                    }
                }
                assert forall|n: u32| nodes@.contains_key(n) <==> n < i + 1 by {
                    if n == i {
                        assert(nodes@.contains_key(i));
                    }
                }
            }
            i = i + 1;
        }
        GossipState { nodes }
    }
}

impl Machine for GossipMachine {
    type State = GossipState;
    type Action = GossipAction;
    type Fx = ();
    type Error = GossipNetworkError;

    open spec fn admissible(&self, state: GossipState, action: GossipAction) -> bool {
        true
    }

    fn is_admissible(&self, state: &GossipState, action: &GossipAction) -> (b: bool) {
        true
    }

    open spec fn outcome(
        &self,
        state: GossipState,
        action: GossipAction,
        r: Result<(GossipState, ()), GossipNetworkError>,
    ) -> bool {
        match gossip_network_next(state@, action) {
            Ok(m) => r is Ok && r->Ok_0.0@ == m,
            Err(e) => r == Err::<(GossipState, ()), GossipNetworkError>(e),
        }
    }

    fn transition(&self, state: GossipState, action: GossipAction) -> (r: Result<
        (GossipState, ()),
        GossipNetworkError,
    >)
    {
        let GossipAction(node, a) = action;
        let mut state = state;
        if let NodeAction::AddPeer(peer) = a {
            if node == peer {
                return Err(GossipNetworkError::SelfPeer);
            }
        }
        let ghost s0 = state.nodes@;
        let ns = match state.nodes.remove(&node) {
            Some(ns) => ns,
            None => {
                return Err(GossipNetworkError::NoNode(node));
            },
        };
        match self.node_machine.transition(ns, a) {
            Ok((ns2, ())) => {
                let ghost v = ns2@;
                state.nodes.insert(node, ns2);
                proof {
                    assert(gossip_view(state.nodes@) =~= gossip_view(s0).insert(node, v));
                }
                Ok((state, ()))
            },
            Err(e) => Err(GossipNetworkError::Node(e)),
        }
    }

    fn is_terminal(&self, _s: &GossipState) -> (b: bool)
        ensures
            !b,
    {
        false
    }
}

} // verus!
