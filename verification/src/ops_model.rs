//! The model of one op across the nodes of a network, against which the
//! node implementation is checked.

use vstd::prelude::*;
use crate::ids::NodeId;
use crate::machine::Machine;
use crate::sorted_map::{entries_map, keys_sorted, lemma_entries_map_at, SortedMap};

verus! {

/// Where the op is at one node.
#[derive(Clone, Copy, Debug, PartialEq, Eq, Hash, Structural)]
pub enum NodeOpPhase {
    /// The node has not seen the op.
    Unseen,
    Pending,
    Validated,
    Rejected,
    Integrated,
}

impl Default for NodeOpPhase {
    fn default() -> (p: Self)
        ensures
            p == NodeOpPhase::Unseen,
    {
        NodeOpPhase::Unseen
    }
}

/// What can happen to the op at one node.
#[derive(Clone, Copy, Debug, PartialEq, Eq, Hash, Structural)]
pub enum NodeOpEvent {
    Author,
    Store,
    Validate,
    Reject,
    Integrate,
    /// Send the op to the given node.
    Send(NodeId),
}

/// Why a node refused an event.
#[derive(Clone, Copy, Debug, PartialEq, Eq, Hash, Structural)]
pub enum NodeOpError {
    DuplicateAuthorship,
    InvalidTransition(NodeOpPhase, NodeOpEvent),
}

/// The next phase of the op at one node.
pub open spec fn node_op_next(s: NodeOpPhase, e: NodeOpEvent) -> Result<NodeOpPhase, NodeOpError> {
    match (s, e) {
        // Receive the op
        (NodeOpPhase::Unseen, NodeOpEvent::Author) => Ok(NodeOpPhase::Pending),
        (NodeOpPhase::Unseen, NodeOpEvent::Store) => Ok(NodeOpPhase::Pending),
        // Store is idempotent
        (s, NodeOpEvent::Store) => Ok(s),
        // Duplicate authorship is an error
        (_, NodeOpEvent::Author) => Err(NodeOpError::DuplicateAuthorship),
        (NodeOpPhase::Pending, NodeOpEvent::Validate) => Ok(NodeOpPhase::Validated),
        (NodeOpPhase::Validated, NodeOpEvent::Validate) => Ok(NodeOpPhase::Validated),
        (NodeOpPhase::Pending, NodeOpEvent::Reject) => Ok(NodeOpPhase::Rejected),
        (NodeOpPhase::Rejected, NodeOpEvent::Reject) => Ok(NodeOpPhase::Rejected),
        (NodeOpPhase::Validated, NodeOpEvent::Integrate) => Ok(NodeOpPhase::Integrated),
        (NodeOpPhase::Integrated, _) => Ok(NodeOpPhase::Integrated),
        (NodeOpPhase::Rejected, _) => Ok(NodeOpPhase::Rejected),
        _ => Err(NodeOpError::InvalidTransition(s, e)),
    }
}

pub fn node_op_step(s: NodeOpPhase, e: NodeOpEvent) -> (r: Result<NodeOpPhase, NodeOpError>)
    ensures
        r == node_op_next(s, e),
{
    match (s, e) {
        (NodeOpPhase::Unseen, NodeOpEvent::Author) | (NodeOpPhase::Unseen, NodeOpEvent::Store) => Ok(
            NodeOpPhase::Pending,
        ),
        (s, NodeOpEvent::Store) => Ok(s),
        (_, NodeOpEvent::Author) => Err(NodeOpError::DuplicateAuthorship),
        (NodeOpPhase::Pending, NodeOpEvent::Validate) | (
            NodeOpPhase::Validated,
            NodeOpEvent::Validate,
        ) => Ok(NodeOpPhase::Validated),
        (NodeOpPhase::Pending, NodeOpEvent::Reject) | (NodeOpPhase::Rejected, NodeOpEvent::Reject) => Ok(
            NodeOpPhase::Rejected,
        ),
        (NodeOpPhase::Validated, NodeOpEvent::Integrate) => Ok(NodeOpPhase::Integrated),
        (NodeOpPhase::Integrated, _) => Ok(NodeOpPhase::Integrated),
        (NodeOpPhase::Rejected, _) => Ok(NodeOpPhase::Rejected),
        (state, action) => Err(NodeOpError::InvalidTransition(state, action)),
    }
}

/// The machine of the op at one node.
#[derive(Clone, Copy, Debug)]
pub struct NodeOpMachine;

impl Machine for NodeOpMachine {
    type State = NodeOpPhase;
    type Action = NodeOpEvent;
    type Fx = ();
    type Error = NodeOpError;

    open spec fn admissible(&self, state: NodeOpPhase, action: NodeOpEvent) -> bool {
        true
    }

    fn is_admissible(&self, state: &NodeOpPhase, action: &NodeOpEvent) -> (b: bool) {
        true
    }

    open spec fn outcome(
        &self,
        state: NodeOpPhase,
        t: NodeOpEvent,
        r: Result<(NodeOpPhase, ()), NodeOpError>,
    ) -> bool {
        match node_op_next(state, t) {
            Ok(n) => r == Ok::<(NodeOpPhase, ()), NodeOpError>((n, ())),
            Err(e) => r == Err::<(NodeOpPhase, ()), NodeOpError>(e),
        }
    }

    fn transition(&self, state: NodeOpPhase, t: NodeOpEvent) -> (r: Result<(NodeOpPhase, ()), NodeOpError>)
    {
        match node_op_step(state, t) {
            Ok(n) => Ok((n, ())),
            Err(e) => Err(e),
        }
    }

    fn is_terminal(&self, state: &NodeOpPhase) -> (b: bool)
        ensures
            b == (*state == NodeOpPhase::Integrated || *state == NodeOpPhase::Rejected),
    {
        match state {
            NodeOpPhase::Integrated | NodeOpPhase::Rejected => true,
            _ => false,
        }
    }
}

/// An event at the given node.
#[derive(Clone, Copy, Debug, PartialEq, Eq, Hash, Structural)]
pub struct NetworkOpEvent(pub NodeId, pub NodeOpEvent);

/// Why the network refused an event.
#[derive(Clone, Copy, Debug, PartialEq, Eq, Hash, Structural)]
pub enum NetworkOpError {
    /// A send can't happen until at least one node has integrated the op.
    NoneIntegrated,
    /// A node cannot send the op to itself.
    SendToSelf,
    /// Don't send the op twice.
    SendTwice,
    /// This model only handles one Author event.
    SecondAuthor,
    /// No such node.
    NoNode(NodeId),
    /// The node refused the event.
    Node(NodeOpError),
}

/// The phase of the op at every node.
pub struct NetworkOp {
    pub nodes: SortedMap<NodeId, NodeOpPhase>,
}

impl View for NetworkOp {
    type V = Map<NodeId, NodeOpPhase>;

    open spec fn view(&self) -> Map<NodeId, NodeOpPhase> {
        self.nodes@
    }
}

pub open spec fn any_integrated(s: Map<NodeId, NodeOpPhase>) -> bool {
    exists|n: NodeId| #[trigger] s.contains_key(n) && s[n] == NodeOpPhase::Integrated
}

pub open spec fn any_seen(s: Map<NodeId, NodeOpPhase>) -> bool {
    exists|n: NodeId| #[trigger] s.contains_key(n) && s[n] != NodeOpPhase::Unseen
}

/// One step of the network model.
pub open spec fn network_op_next(s: Map<NodeId, NodeOpPhase>, node_id: NodeId, event: NodeOpEvent) -> Result<
    Map<NodeId, NodeOpPhase>,
    NetworkOpError,
> {
    if event is Send && !any_integrated(s) {
        Err(NetworkOpError::NoneIntegrated)
    } else if event is Send && node_id == event->Send_0 {
        Err(NetworkOpError::SendToSelf)
    } else if event is Send && s[event->Send_0] != NodeOpPhase::Unseen {
        Err(NetworkOpError::SendTwice)
    } else {
        let s1 = if event is Send {
            s.insert(event->Send_0, NodeOpPhase::Pending)
        } else {
            s
        };
        if event is Author && any_seen(s1) {
            Err(NetworkOpError::SecondAuthor)
        } else if !s1.contains_key(node_id) {
            Err(NetworkOpError::NoNode(node_id))
        } else {
            match node_op_next(s1[node_id], event) {
                Ok(p) => Ok(s1.insert(node_id, p)),
                Err(e) => Err(NetworkOpError::Node(e)),
            }
        }
    }
}

/// All nodes integrated the op, or every node that saw it rejected it.
pub open spec fn network_op_terminal(s: Map<NodeId, NodeOpPhase>) -> bool {
    (forall|n: NodeId| #[trigger] s.contains_key(n) ==> s[n] == NodeOpPhase::Integrated) || ((forall|
        n: NodeId,
    | #[trigger] s.contains_key(n) ==> s[n] == NodeOpPhase::Unseen || s[n] == NodeOpPhase::Rejected)
        && any_seen(s))
}

struct Summary {
    integrated: bool,
    seen: bool,
    all_integrated: bool,
    all_unseen_or_rejected: bool,
}

fn summarize(nodes: &SortedMap<NodeId, NodeOpPhase>) -> (r: Summary)
    ensures
        r.integrated == any_integrated(nodes@),
        r.seen == any_seen(nodes@),
        r.all_integrated == (forall|n: NodeId| #[trigger] nodes@.contains_key(n) ==> nodes@[n] == NodeOpPhase::Integrated),
        r.all_unseen_or_rejected == (forall|n: NodeId| #[trigger] nodes@.contains_key(n) ==> nodes@[n]
            == NodeOpPhase::Unseen || nodes@[n] == NodeOpPhase::Rejected),
{
    let ghost s = nodes.entries();
    let len = nodes.len();
    let mut r = Summary { integrated: false, seen: false, all_integrated: true, all_unseen_or_rejected: true };
    let mut i: usize = 0;
    while i < len
        invariant
            s == nodes.entries(),
            nodes@ == entries_map(s),
            keys_sorted(s),
            len == s.len(),
            i <= len,
            r.integrated == exists|j: int| 0 <= j < i && (#[trigger] s[j]).1 == NodeOpPhase::Integrated,
            r.seen == exists|j: int| 0 <= j < i && (#[trigger] s[j]).1 != NodeOpPhase::Unseen,
            r.all_integrated == forall|j: int| 0 <= j < i ==> (#[trigger] s[j]).1 == NodeOpPhase::Integrated,
            r.all_unseen_or_rejected == forall|j: int| 0 <= j < i ==> (#[trigger] s[j]).1 == NodeOpPhase::Unseen || s[j].1 == NodeOpPhase::Rejected,
        decreases len - i,
    {
        let p = nodes.entry_at(i).1;
        match p {
            NodeOpPhase::Integrated => {
                r.integrated = true;
            },
            _ => {
                r.all_integrated = false;
            },
        }
        match p {
            NodeOpPhase::Unseen => {},
            _ => {
                r.seen = true;
            },
        }
        match p {
            NodeOpPhase::Unseen | NodeOpPhase::Rejected => {},
            _ => {
                r.all_unseen_or_rejected = false;
            },
        }
        proof {
            assert(s[i as int].1 == p);
        }
        i = i + 1;
    }
    proof {
        let m = nodes@;
        assert forall|j: int| 0 <= j < s.len() implies m.contains_key(#[trigger] s[j].0) && m[s[j].0] == s[j].1 by {
            lemma_entries_map_at(s, j);
        }
        assert forall|n: NodeId| #[trigger] m.contains_key(n) implies exists|j: int| 0 <= j < s.len() && s[j].0 == n && m[n] == s[j].1 by {
            let j = choose|j: int| 0 <= j < s.len() && s[j].0 == n;
            lemma_entries_map_at(s, j);
        }
        if r.integrated {
            let j = choose|j: int| 0 <= j < len && (#[trigger] s[j]).1 == NodeOpPhase::Integrated;
            assert(m.contains_key(s[j].0));
        }
        if r.seen {
            let j = choose|j: int| 0 <= j < len && (#[trigger] s[j]).1 != NodeOpPhase::Unseen;
            assert(m.contains_key(s[j].0));
        }
        if !r.all_integrated {
            let j = choose|j: int| 0 <= j < len && !((#[trigger] s[j]).1 == NodeOpPhase::Integrated);
            assert(m.contains_key(s[j].0));
        }
        if !r.all_unseen_or_rejected {
            let j = choose|j: int| 0 <= j < len && !((#[trigger] s[j]).1 == NodeOpPhase::Unseen || s[j].1 == NodeOpPhase::Rejected);
            assert(m.contains_key(s[j].0));
        }
    }
    r
}

impl NetworkOp {
    pub fn new(nodes: SortedMap<NodeId, NodeOpPhase>) -> (s: Self)
        ensures
            s@ == nodes@,
    {
        NetworkOp { nodes }
    }

    /// Every given node, none of which has seen the op.
    pub fn new_empty(ids: &[NodeId]) -> (s: Self)
        ensures
            forall|n: NodeId| s@.contains_key(n) <==> ids@.contains(n),
            forall|n: NodeId| #[trigger] s@.contains_key(n) ==> s@[n] == NodeOpPhase::Unseen,
    {
        let mut m: SortedMap<NodeId, NodeOpPhase> = SortedMap::new();
        let mut i: usize = 0;
        while i < ids.len()
            invariant
                i <= ids.len(),
                forall|n: NodeId| m@.contains_key(n) <==> ids@.take(i as int).contains(n),
                forall|n: NodeId| #[trigger] m@.contains_key(n) ==> m@[n] == NodeOpPhase::Unseen,
            decreases ids.len() - i,
        {
            let x = ids[i];
            m.insert(x, NodeOpPhase::Unseen);
            proof {
                let pre = ids@.take(i + 1);
                assert forall|n: NodeId| m@.contains_key(n) <==> #[trigger] pre.contains(n) by {
                    if pre.contains(n) {
                        let t = choose|t: int| 0 <= t < i + 1 && pre[t] == n;
                        if t < i {
                            assert(ids@.take(i as int)[t] == n);
                        }
                    }
                    if ids@.take(i as int).contains(n) {
                        let t = choose|t: int| 0 <= t < i && #[trigger] ids@.take(i as int)[t] == n;
                        assert(pre[t] == n);
                    }
                    if n == x {
                        assert(pre[i as int] == n);
                    }
                }
            }
            i = i + 1;
        }
        proof {
            assert(ids@.take(ids.len() as int) =~= ids@);
        }
        NetworkOp { nodes: m }
    }
}

/// The machine of the op across the network.
#[derive(Clone, Copy, Debug)]
pub struct NetworkOpMachine;

impl Machine for NetworkOpMachine {
    type State = NetworkOp;
    type Action = NetworkOpEvent;
    type Fx = ();
    type Error = NetworkOpError;

    /// Sending requires the receiver to be a node of the network.
    open spec fn admissible(&self, state: NetworkOp, action: NetworkOpEvent) -> bool {
        action.1 is Send && any_integrated(state@) && action.0 != action.1->Send_0
            ==> state@.contains_key(action.1->Send_0)
    }

    fn is_admissible(&self, state: &NetworkOp, action: &NetworkOpEvent) -> (b: bool) {
        match action.1 {
            NodeOpEvent::Send(id) => {
                let summary = summarize(&state.nodes);
                !summary.integrated || action.0 == id || state.nodes.contains_key(&id)
            },
            _ => true,
        }
    }

    open spec fn outcome(
        &self,
        state: NetworkOp,
        action: NetworkOpEvent,
        r: Result<(NetworkOp, ()), NetworkOpError>,
    ) -> bool {
        match network_op_next(state@, action.0, action.1) {
            Ok(m) => r is Ok && r->Ok_0.0@ == m,
            Err(e) => r == Err::<(NetworkOp, ()), NetworkOpError>(e),
        }
    }

    fn transition(&self, state: NetworkOp, action: NetworkOpEvent) -> (r: Result<(NetworkOp, ()), NetworkOpError>)
    {
        let NetworkOpEvent(node_id, event) = action;
        let mut state = state;
        let summary = summarize(&state.nodes);
        if let NodeOpEvent::Send(id) = event {
            if !summary.integrated {
                return Err(NetworkOpError::NoneIntegrated);
            }
            if node_id == id {
                return Err(NetworkOpError::SendToSelf);
            }
            match state.nodes.get(&id) {
                Some(NodeOpPhase::Unseen) => {},
                Some(_) => {
                    return Err(NetworkOpError::SendTwice);
                },
                None => {
                    proof {
                        assert(false);
                    }
                    return Err(NetworkOpError::NoNode(id));
                },
            }
            state.nodes.insert(id, NodeOpPhase::Pending);
        }
        if let NodeOpEvent::Author = event {
            if summary.seen {
                return Err(NetworkOpError::SecondAuthor);
            }
        }
        let current = match state.nodes.get(&node_id) {
            Some(p) => *p,
            None => {
                return Err(NetworkOpError::NoNode(node_id));
            },
        };
        match node_op_step(current, event) {
            Ok(p) => {
                state.nodes.insert(node_id, p);
                Ok((state, ()))
            },
            Err(e) => Err(NetworkOpError::Node(e)),
        }
    }

    fn is_terminal(&self, state: &NetworkOp) -> (b: bool)
        ensures
            b == network_op_terminal(state@),
    {
        let summary = summarize(&state.nodes);
        summary.all_integrated || (summary.all_unseen_or_rejected && summary.seen)
    }
}

/// A node that has finished with the op (integrated or rejected it) stays
/// in that phase whatever happens.
pub proof fn lemma_node_terminal_stays(s: NodeOpPhase, e: NodeOpEvent)
    requires
        s == NodeOpPhase::Integrated || s == NodeOpPhase::Rejected,
        node_op_next(s, e) is Ok,
    ensures
        node_op_next(s, e) == Ok::<NodeOpPhase, NodeOpError>(s),
{
}

/// Storing an op is idempotent once the node has it.
pub proof fn lemma_store_idempotent(s: NodeOpPhase)
    requires
        s != NodeOpPhase::Unseen,
    ensures
        node_op_next(s, NodeOpEvent::Store) == Ok::<NodeOpPhase, NodeOpError>(s),
{
}


/// A node that could validate a pending op could reject it instead.
pub proof fn lemma_reject_instead_of_validate(s: NodeOpPhase)
    requires
        node_op_next(s, NodeOpEvent::Validate) == Ok::<NodeOpPhase, NodeOpError>(NodeOpPhase::Validated),
        s != NodeOpPhase::Validated,
    ensures
        node_op_next(s, NodeOpEvent::Reject) == Ok::<NodeOpPhase, NodeOpError>(NodeOpPhase::Rejected),
{
}

} // verus!
