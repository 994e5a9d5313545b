//! The projection of a network of node states onto the model of one op.

use vstd::prelude::*;
use crate::ids::{NodeId, Op, OpHash, OpView};
use crate::ops_model::{NetworkOp, NetworkOpEvent, NodeOpEvent, NodeOpPhase};
use crate::ops_system::{
    handled, vault_view, FetchDestination, NodeEvent, NodeState, OpData, OpDataView, OpOrigin, OpState,
    OpStateView,
};
use crate::sorted_map::{entries_map, keys_sorted, lemma_entries_map_at, MapKey, SortedMap};

verus! {

/// Projects node states onto the model of the given op.
pub struct NetworkOpProjection {
    pub op: Op,
}

/// The model phase of the op at a node with this vault.
pub open spec fn phase_of(vault: Map<OpHash, OpDataView>, h: OpHash) -> NodeOpPhase {
    if vault.contains_key(h) {
        match vault[h].state {
            OpStateView::Pending(_) => NodeOpPhase::Pending,
            OpStateView::Validated => NodeOpPhase::Validated,
            OpStateView::Rejected(_) => NodeOpPhase::Rejected,
            OpStateView::Integrated => NodeOpPhase::Integrated,
            OpStateView::MissingDeps(_) => arbitrary(),
        }
    } else {
        NodeOpPhase::Unseen
    }
}

/// The text of the reason given for a generated rejection.
pub open spec fn reason_text() -> Seq<char> {
    seq!['r', 'e', 'a', 's', 'o', 'n']
}

/// The op state a node is generated with for a model phase, if any.
pub open spec fn generated_state(p: NodeOpPhase) -> Option<OpStateView> {
    match p {
        // The origin is arbitrary.
        NodeOpPhase::Pending => Some(OpStateView::Pending(OpOrigin::Fetched)),
        NodeOpPhase::Validated => Some(OpStateView::Validated),
        NodeOpPhase::Rejected => Some(OpStateView::Rejected(reason_text())),
        NodeOpPhase::Integrated => Some(OpStateView::Integrated),
        NodeOpPhase::Unseen => None,
    }
}

/// The vault of a node generated for a model phase.
pub open spec fn generated_vault(op: OpView, p: NodeOpPhase) -> Map<OpHash, OpDataView> {
    match generated_state(p) {
        Some(st) => Map::empty().insert(op.hash, OpDataView { op, state: st }),
        None => Map::empty(),
    }
}

/// The model event for a node event, if the event concerns the op.
pub open spec fn mapped_event(op: OpView, event: NodeEvent) -> Option<NodeOpEvent> {
    match event {
        NodeEvent::SetOpState(h, st) => if h == op.hash {
            match st@ {
                OpStateView::Rejected(_) => Some(NodeOpEvent::Reject),
                OpStateView::Validated => Some(NodeOpEvent::Validate),
                OpStateView::Integrated => Some(NodeOpEvent::Integrate),
                _ => None,
            }
        } else {
            None
        },
        NodeEvent::StoreOp(o, FetchDestination::Vault) => if o@ == op {
            Some(NodeOpEvent::Store)
        } else {
            None
        },
        NodeEvent::SendOp(o, peer) => if o@ == op {
            Some(NodeOpEvent::Send(peer))
        } else {
            None
        },
        _ => None,
    }
}

fn same_op(a: &Op, b: &Op) -> (r: bool)
    ensures
        r == (a@ == b@),
{
    if a.hash != b.hash || a.deps.len() != b.deps.len() {
        proof {
            if a@ == b@ {
                assert(a.deps@.len() == b.deps@.len());
            }
        }
        return false;
    }
    let mut i: usize = 0;
    while i < a.deps.len()
        invariant
            i <= a.deps.len(),
            a.deps.len() == b.deps.len(),
            forall|j: int| 0 <= j < i ==> a.deps@[j] == b.deps@[j],
        decreases a.deps.len() - i,
    {
        if a.deps[i] != b.deps[i] {
            return false;
        }
        i = i + 1;
    }
    proof {
        assert(a.deps@ =~= b.deps@);
    }
    true
}

/// `ev` at `node` is the node event generated for the model event `e`.
pub open spec fn is_generated(op: OpView, e: NetworkOpEvent, node: NodeId, ev: NodeEvent) -> bool {
    match e.1 {
        NodeOpEvent::Author => false,
        NodeOpEvent::Store => node == e.0 && match ev {
            NodeEvent::StoreOp(o, FetchDestination::Vault) => o@ == op,
            _ => false,
        },
        NodeOpEvent::Validate => node == e.0 && match ev {
            NodeEvent::SetOpState(h, st) => h == op.hash && st@ == OpStateView::Validated,
            _ => false,
        },
        NodeOpEvent::Reject => node == e.0 && match ev {
            NodeEvent::SetOpState(h, st) => h == op.hash && st@ == OpStateView::Rejected(reason_text()),
            _ => false,
        },
        NodeOpEvent::Integrate => node == e.0 && match ev {
            NodeEvent::SetOpState(h, st) => h == op.hash && st@ == OpStateView::Integrated,
            _ => false,
        },
        NodeOpEvent::Send(peer) => node == peer && match ev {
            NodeEvent::SendOp(o, p) => o@ == op && p == peer,
            _ => false,
        },
    }
}

/// Some node other than `id` holds an op of hash `h`.
pub open spec fn authored_elsewhere(system: Map<NodeId, NodeState>, id: NodeId, h: OpHash) -> bool {
    exists|n: NodeId| n != id && system.contains_key(n) && #[trigger] system[n].vault@.contains_key(h)
}

fn held_elsewhere(system: &SortedMap<NodeId, NodeState>, id: &NodeId, h: &OpHash) -> (r: bool)
    ensures
        r == authored_elsewhere(system@, *id, *h),
{
    let ghost s = system.entries();
    let n = system.len();
    let mut i: usize = 0;
    while i < n
        invariant
            s == system.entries(),
            system@ == entries_map(s),
            keys_sorted(s),
            n == s.len(),
            i <= n,
            forall|j: int| 0 <= j < i ==> !(s[j].0 != *id && (#[trigger] s[j]).1.vault@.contains_key(*h)),
        decreases n - i,
    {
        let e = system.entry_at(i);
        if !e.0.key_same(id) && e.1.vault.contains_key(h) {
            proof {
                lemma_entries_map_at(s, i as int);
            }
            return true;
        }
        i = i + 1;
    }
    proof {
        if authored_elsewhere(system@, *id, *h) {
            let m = choose|m: NodeId| m != *id && system@.contains_key(m) && #[trigger] system@[m].vault@.contains_key(*h);
            let j = choose|j: int| 0 <= j < s.len() && s[j].0 == m;
            lemma_entries_map_at(s, j);
        }
    }
    false
}

impl NetworkOpProjection {
    /// The model state of the op over all nodes.
    pub fn map_state(&self, system: &SortedMap<NodeId, NodeState>) -> (r: Option<NetworkOp>)
        requires
            forall|n: NodeId|
                #[trigger] system@.contains_key(n) && system@[n].vault@.contains_key(self.op.hash)
                    ==> !(system@[n].vault@[self.op.hash].state@ is MissingDeps),
        ensures
            r is Some,
            forall|n: NodeId| r->0@.contains_key(n) <==> system@.contains_key(n),
            forall|n: NodeId|
                #[trigger] r->0@.contains_key(n) ==> r->0@[n] == phase_of(
                    vault_view(system@[n].vault@),
                    self.op.hash,
                ),
    {
        let ghost s = system.entries();
        let len = system.len();
        let mut nodes: SortedMap<NodeId, NodeOpPhase> = SortedMap::new();
        let mut i: usize = 0;
        while i < len
            invariant
                s == system.entries(),
                system@ == entries_map(s),
                keys_sorted(s),
                len == s.len(),
                i <= len,
                forall|n: NodeId|
                    #[trigger] system@.contains_key(n) && system@[n].vault@.contains_key(self.op.hash)
                        ==> !(system@[n].vault@[self.op.hash].state@ is MissingDeps),
                forall|n: NodeId| nodes@.contains_key(n) <==> exists|j: int| 0 <= j < i && #[trigger] s[j].0 == n,
                forall|n: NodeId|
                    #[trigger] nodes@.contains_key(n) ==> system@.contains_key(n) && nodes@[n] == phase_of(
                        vault_view(system@[n].vault@),
                        self.op.hash,
                    ),
            decreases len - i,
        {
            let e = system.entry_at(i);
            proof {
                lemma_entries_map_at(s, i as int);
            }
            let phase = match e.1.vault.get(&self.op.hash) {
                Some(d) => match &d.state {
                    OpState::Pending(_) => NodeOpPhase::Pending,
                    OpState::Validated => NodeOpPhase::Validated,
                    OpState::MissingDeps(_) => {
                        proof {
                            assert(system@.contains_key(e.0));
                            assert(false);
                        }
                        NodeOpPhase::Pending
                    },
                    OpState::Rejected(_) => NodeOpPhase::Rejected,
                    OpState::Integrated => NodeOpPhase::Integrated,
                },
                None => NodeOpPhase::Unseen,
            };
            nodes.insert(e.0, phase);
            proof {
                assert forall|n: NodeId| nodes@.contains_key(n) <==> exists|j: int| 0 <= j < i + 1 && #[trigger] s[j].0 == n by {
                    if n == e.0 {
                        assert(s[i as int].0 == n);
                    }
                }
            }
            i = i + 1;
        }
        proof {
            assert forall|n: NodeId| nodes@.contains_key(n) <==> system@.contains_key(n) by {
                if system@.contains_key(n) {
                    let j = choose|j: int| 0 <= j < s.len() && s[j].0 == n;
                    assert(s[j].0 == n);
                }
            }
        }
        Some(NetworkOp::new(nodes))
    }

    fn generated_op_data(&self, phase: NodeOpPhase) -> (r: Option<OpData>)
        ensures
            match generated_state(phase) {
                Some(st) => r is Some && r->0@ == (OpDataView { op: self.op@, state: st }),
                None => r is None,
            },
    {
        let state = match phase {
            // OpOrigin is arbitrary
            NodeOpPhase::Pending => OpState::Pending(OpOrigin::Fetched),
            NodeOpPhase::Validated => OpState::Validated,
            NodeOpPhase::Rejected => {
                let reason = "reason";
                proof {
                    reveal_strlit("reason");
                }
                let s = reason.to_string();
                proof {
                    assert(s@ =~= reason_text());
                }
                OpState::Rejected(s)
            },
            NodeOpPhase::Integrated => OpState::Integrated,
            NodeOpPhase::Unseen => {
                return None;
            },
        };
        Some(OpData { op: self.op.duplicate(), state })
    }

    /// A network whose nodes hold the op in the states that the model
    /// state gives them.
    pub fn gen_state(&self, state: &NetworkOp) -> (r: SortedMap<NodeId, NodeState>)
        ensures
            forall|n: NodeId| r@.contains_key(n) <==> state@.contains_key(n),
            forall|n: NodeId|
                #[trigger] r@.contains_key(n) ==> vault_view(r@[n].vault@) == generated_vault(
                    self.op@,
                    state@[n],
                ) && r@[n].cache@ == Map::<OpHash, Op>::empty(),
    {
        let ghost s = state.nodes.entries();
        let len = state.nodes.len();
        let mut sys: SortedMap<NodeId, NodeState> = SortedMap::new();
        let mut i: usize = 0;
        while i < len
            invariant
                s == state.nodes.entries(),
                state@ == entries_map(s),
                keys_sorted(s),
                len == s.len(),
                i <= len,
                forall|n: NodeId| sys@.contains_key(n) <==> exists|j: int| 0 <= j < i && #[trigger] s[j].0 == n,
                forall|n: NodeId|
                    #[trigger] sys@.contains_key(n) ==> state@.contains_key(n) && vault_view(sys@[n].vault@)
                        == generated_vault(self.op@, state@[n]) && sys@[n].cache@ == Map::<OpHash, Op>::empty(),
            decreases len - i,
        {
            let e = state.nodes.entry_at(i);
            proof {
                lemma_entries_map_at(s, i as int);
            }
            let mut node = NodeState::new();
            match self.generated_op_data(e.1) {
                Some(d) => {
                    let ghost dv = d@;
                    node.vault.insert(self.op.hash, d);
                    proof {
                        assert(vault_view(node.vault@) =~= generated_vault(self.op@, e.1));
                    }
                },
                None => {
                    proof {
                        assert(vault_view(node.vault@) =~= generated_vault(self.op@, e.1));
                    }
                },
            }
            sys.insert(e.0, node);
            proof {
                assert forall|n: NodeId| sys@.contains_key(n) <==> exists|j: int| 0 <= j < i + 1 && #[trigger] s[j].0 == n by {
                    if n == e.0 {
                        assert(s[i as int].0 == n);
                    }
                }
            }
            i = i + 1;
        }
        proof {
            assert forall|n: NodeId| sys@.contains_key(n) <==> state@.contains_key(n) by {
                if state@.contains_key(n) {
                    let j = choose|j: int| 0 <= j < s.len() && s[j].0 == n;
                    assert(s[j].0 == n);
                }
            }
        }
        sys
    }

    /// The node event that brings about the model event `e`. An authored op
    /// always gets a fresh hash, so no node event authors this op: `None`
    /// for `Author`. A send is generated at the node it goes to.
    pub fn gen_event(&self, e: NetworkOpEvent) -> (r: Option<(NodeId, NodeEvent)>)
        ensures
            match r {
                Some((node, ev)) => is_generated(self.op@, e, node, ev),
                None => e.1 is Author,
            },
    {
        let NetworkOpEvent(id, event) = e;
        match event {
            NodeOpEvent::Author => None,
            NodeOpEvent::Store => Some((id, NodeEvent::StoreOp(self.op.duplicate(), FetchDestination::Vault))),
            NodeOpEvent::Validate => Some((id, NodeEvent::SetOpState(self.op.hash, OpState::Validated))),
            NodeOpEvent::Reject => {
                let reason = "reason";
                proof {
                    reveal_strlit("reason");
                }
                let s = reason.to_string();
                proof {
                    assert(s@ =~= reason_text());
                }
                Some((id, NodeEvent::SetOpState(self.op.hash, OpState::Rejected(s))))
            },
            NodeOpEvent::Integrate => Some((id, NodeEvent::SetOpState(self.op.hash, OpState::Integrated))),
            NodeOpEvent::Send(peer) => Some((peer, NodeEvent::SendOp(self.op.duplicate(), peer))),
        }
    }

    /// Apply an event at node `id` to the network, authoring with the hash
    /// `fresh`. Two nodes never author the same op: an authoring event whose
    /// hash another node already holds is dropped, as is an event for a node
    /// that is not in the network.
    pub fn apply(&self, system: &mut SortedMap<NodeId, NodeState>, ev: (NodeId, NodeEvent), fresh: OpHash)
        ensures
            final(system)@.dom() == old(system)@.dom(),
            forall|n: NodeId| n != ev.0 && #[trigger] old(system)@.contains_key(n) ==> final(system)@[n] == old(system)@[n],
            old(system)@.contains_key(ev.0) ==> if ev.1 is AuthorOp && authored_elsewhere(old(system)@, ev.0, fresh) {
                final(system)@ == old(system)@
            } else {
                handled(old(system)@[ev.0], final(system)@[ev.0], ev.1, fresh)
            },
            !old(system)@.contains_key(ev.0) ==> final(system)@ == old(system)@,
    {
        let (id, event) = ev;
        if let NodeEvent::AuthorOp(_) = event {
            if held_elsewhere(system, &id, &fresh) {
                // Don't handle the unrealistic case of two nodes authoring the same op
                return;
            }
        }
        let ghost s0 = system@;
        match system.remove(&id) {
            Some(node) => {
                let mut node = node;
                node.handle_event(event, fresh);
                system.insert(id, node);
                proof {
                    assert(system@.dom() =~= s0.dom());
                }
            },
            None => {
                proof {
                    assert(system@ =~= s0);
                }
            },
        }
    }

    /// The model event for an event at node `id`, if it concerns the op.
    pub fn map_event(&self, id: NodeId, event: &NodeEvent) -> (r: Option<NetworkOpEvent>)
        requires
            event is SetOpState && event->SetOpState_0 == self.op.hash ==> !(event->SetOpState_1@ is Pending)
                && !(event->SetOpState_1@ is MissingDeps),
        ensures
            match mapped_event(self.op@, *event) {
                Some(e) => r == Some(NetworkOpEvent(id, e)),
                None => r is None,
            },
    {
        let n = match event {
            NodeEvent::SetOpState(h, st) => {
                if *h == self.op.hash {
                    match st {
                        OpState::Rejected(_) => Some(NodeOpEvent::Reject),
                        OpState::Validated => Some(NodeOpEvent::Validate),
                        OpState::Integrated => Some(NodeOpEvent::Integrate),
                        _ => None,
                    }
                } else {
                    None
                }
            },
            NodeEvent::StoreOp(o, FetchDestination::Vault) => if same_op(o, &self.op) {
                Some(NodeOpEvent::Store)
            } else {
                None
            },
            NodeEvent::SendOp(o, peer) => if same_op(o, &self.op) {
                Some(NodeOpEvent::Send(*peer))
            } else {
                None
            },
            _ => None,
        };
        match n {
            Some(e) => Some(NetworkOpEvent(id, e)),
            None => None,
        }
    }
}

/// Generating the node event for a model event and mapping it back gives
/// the model event again, for every event but authoring (which no node
/// event does to a given op) and a send between two different nodes (which
/// is generated at the receiver).
pub proof fn lemma_gen_then_map_event(op: OpView, e: NetworkOpEvent, generated: (NodeId, NodeEvent))
    requires
        is_generated(op, e, generated.0, generated.1),
        e.1 matches NodeOpEvent::Send(peer) ==> peer == e.0,
    ensures
        mapped_event(op, generated.1) == Some(e.1),
        generated.0 == e.0,
{
}

/// Generating a network from a model state and projecting it back gives
/// the model state again.
pub proof fn lemma_gen_then_map(op: OpView, p: NodeOpPhase)
    ensures
        phase_of(generated_vault(op, p), op.hash) == p,
{
}

} // verus!
