//! One op as seen by every node of a network of honest nodes.

use vstd::prelude::*;
use crate::machine::Machine;
use crate::single_op::{
    is_definitely_valid_spec, single_op_next, OpEvent, OpMachine, OpPhase, SingleOpError,
};
use crate::sorted_map::{entries_map, keys_sorted, lemma_entries_map_at, SortedMap};

verus! {

/// The phase of the op at every node.
pub struct NetworkState {
    pub nodes: SortedMap<u32, OpPhase>,
}

impl View for NetworkState {
    type V = Map<u32, OpPhase>;

    open spec fn view(&self) -> Map<u32, OpPhase> {
        self.nodes@
    }
}

impl NetworkState {
    pub fn new(nodes: SortedMap<u32, OpPhase>) -> (s: Self)
        ensures
            s@ == nodes@,
    {
        NetworkState { nodes }
    }

    /// Every given node, none of which has seen the op.
    pub fn new_empty(ids: &[u32]) -> (s: Self)
        ensures
            forall|n: u32| s@.contains_key(n) <==> ids@.contains(n),
            forall|n: u32| #[trigger] s@.contains_key(n) ==> s@[n] == OpPhase::Unseen,
    {
        let mut m: SortedMap<u32, OpPhase> = SortedMap::new();
        let mut i: usize = 0;
        while i < ids.len()
            invariant
                i <= ids.len(),
                forall|n: u32| m@.contains_key(n) <==> ids@.take(i as int).contains(n),
                forall|n: u32| #[trigger] m@.contains_key(n) ==> m@[n] == OpPhase::Unseen,
            decreases ids.len() - i,
        {
            let x = ids[i];
            m.insert(x, OpPhase::Unseen);
            proof {
                let pre = ids@.take(i + 1);
                assert forall|n: u32| m@.contains_key(n) <==> #[trigger] pre.contains(n) by {
                    if pre.contains(n) {
                        let t = choose|t: int| 0 <= t < i + 1 && pre[t] == n;
                        if t < i {
                            assert(ids@.take(i as int)[t] == n);
                        }
                    }
                    if ids@.take(i as int).contains(n) {
                        let t = choose|t: int| 0 <= t < i && #[trigger] ids@.take(i as int)[t] == n;
                        assert(pre[t] == n);
                    }
                    if n == x {
                        assert(pre[i as int] == n);
                    }
                }
            }
            i = i + 1;
        }
        proof {
            assert(ids@.take(ids.len() as int) =~= ids@);
        }
        NetworkState { nodes: m }
    }
}

/// An event at the given node.
#[derive(Clone, Copy, Debug, PartialEq, Eq, Hash, Structural)]
pub struct NetworkOpEvent(pub u32, pub OpEvent);

/// Why the network refused an event.
#[derive(Clone, Copy, Debug, PartialEq, Eq, Hash, Structural)]
pub enum NetworkSingleOpError {
    /// A send can't happen until at least one node has integrated the op.
    NoneIntegrated,
    /// A node cannot send the op to itself.
    SendToSelf,
    /// The receiver has already seen the op.
    SendTwice,
    /// This model only handles one Author event.
    SecondAuthor,
    /// No honest node will reject if other nodes have validated.
    HonestReject,
    /// No honest node will validate if other nodes have rejected.
    HonestValidate,
    /// No such node.
    NoNode(u32),
    /// The node refused the event.
    Op(SingleOpError),
}

pub open spec fn some_integrated(s: Map<u32, OpPhase>) -> bool {
    exists|n: u32| #[trigger] s.contains_key(n) && s[n] == OpPhase::Integrated
}

pub open spec fn some_seen(s: Map<u32, OpPhase>) -> bool {
    exists|n: u32| #[trigger] s.contains_key(n) && s[n] != OpPhase::Unseen
}

pub open spec fn some_definitely_valid(s: Map<u32, OpPhase>) -> bool {
    exists|n: u32| #[trigger] s.contains_key(n) && is_definitely_valid_spec(s[n])
}

pub open spec fn some_rejected(s: Map<u32, OpPhase>) -> bool {
    exists|n: u32| #[trigger] s.contains_key(n) && s[n] == OpPhase::Rejected
}

/// One step of the network on the state `s`.
pub open spec fn network_single_next(
    op_id: u32,
    s: Map<u32, OpPhase>,
    node_id: u32,
    event: OpEvent,
) -> Result<Map<u32, OpPhase>, NetworkSingleOpError> {
    if event is Send && !some_integrated(s) {
        Err(NetworkSingleOpError::NoneIntegrated)
    } else if event is Send && node_id == event->Send_0 {
        Err(NetworkSingleOpError::SendToSelf)
    } else if event is Send && s[event->Send_0] != OpPhase::Unseen {
        Err(NetworkSingleOpError::SendTwice)
    } else {
        let s1 = if event is Send {
            s.insert(event->Send_0, OpPhase::Pending)
        } else {
            s
        };
        if event is Author && some_seen(s1) {
            Err(NetworkSingleOpError::SecondAuthor)
        } else if event is Reject && some_definitely_valid(s1) {
            Err(NetworkSingleOpError::HonestReject)
        } else if event is Validate && some_rejected(s1) {
            Err(NetworkSingleOpError::HonestValidate)
        } else if !s1.contains_key(node_id) {
            Err(NetworkSingleOpError::NoNode(node_id))
        } else {
            match single_op_next(op_id, s1[node_id], event) {
                Ok(p) => Ok(s1.insert(node_id, p)),
                Err(e) => Err(NetworkSingleOpError::Op(e)),
            }
        }
    }
}

/// All nodes have integrated the op, or every node that saw it rejected it.
pub open spec fn network_single_terminal(s: Map<u32, OpPhase>) -> bool {
    (forall|n: u32| #[trigger] s.contains_key(n) ==> s[n] == OpPhase::Integrated) || ((forall|n: u32|
        #[trigger] s.contains_key(n) ==> s[n] == OpPhase::Unseen || s[n] == OpPhase::Rejected)
        && some_seen(s))
}

struct PhaseSummary {
    integrated: bool,
    seen: bool,
    definitely_valid: bool,
    rejected: bool,
    all_integrated: bool,
    all_unseen_or_rejected: bool,
}

fn summarize(nodes: &SortedMap<u32, OpPhase>) -> (r: PhaseSummary)
    ensures
        r.integrated == some_integrated(nodes@),
        r.seen == some_seen(nodes@),
        r.definitely_valid == some_definitely_valid(nodes@),
        r.rejected == some_rejected(nodes@),
        r.all_integrated == (forall|n: u32| #[trigger] nodes@.contains_key(n) ==> nodes@[n] == OpPhase::Integrated),
        r.all_unseen_or_rejected == (forall|n: u32| #[trigger] nodes@.contains_key(n) ==> nodes@[n]
            == OpPhase::Unseen || nodes@[n] == OpPhase::Rejected),
{
    let ghost s = nodes.entries();
    let len = nodes.len();
    let mut r = PhaseSummary {
        integrated: false,
        seen: false,
        definitely_valid: false,
        rejected: false,
        all_integrated: true,
        all_unseen_or_rejected: true,
    };
    let mut i: usize = 0;
    while i < len
        invariant
            s == nodes.entries(),
            nodes@ == entries_map(s),
            keys_sorted(s),
            len == s.len(),
            i <= len,
            r.integrated == exists|j: int| 0 <= j < i && (#[trigger] s[j]).1 == OpPhase::Integrated,
            r.seen == exists|j: int| 0 <= j < i && (#[trigger] s[j]).1 != OpPhase::Unseen,
            r.definitely_valid == exists|j: int| 0 <= j < i && is_definitely_valid_spec((#[trigger] s[j]).1),
            r.rejected == exists|j: int| 0 <= j < i && (#[trigger] s[j]).1 == OpPhase::Rejected,
            r.all_integrated == forall|j: int| 0 <= j < i ==> (#[trigger] s[j]).1 == OpPhase::Integrated,
            r.all_unseen_or_rejected == forall|j: int| 0 <= j < i ==> (#[trigger] s[j]).1 == OpPhase::Unseen || s[j].1 == OpPhase::Rejected,
        decreases len - i,
    {
        let p = nodes.entry_at(i).1;
        match p {
            OpPhase::Integrated => {
                r.integrated = true;
            },
            _ => {
                r.all_integrated = false;
            },
        }
        match p {
            OpPhase::Unseen => {},
            _ => {
                r.seen = true;
            },
        }
        if p.is_definitely_valid() {
            r.definitely_valid = true;
        }
        match p {
            OpPhase::Rejected => {
                r.rejected = true;
            },
            _ => {},
        }
        match p {
            OpPhase::Unseen | OpPhase::Rejected => {},
            _ => {
                r.all_unseen_or_rejected = false;
            },
        }
        proof {
            assert(s[i as int].1 == p);
        }
        i = i + 1;
    }
    proof {
        let m = nodes@;
        assert forall|j: int| 0 <= j < s.len() implies m.contains_key(#[trigger] s[j].0) && m[s[j].0] == s[j].1 by {
            lemma_entries_map_at(s, j);
        }
        assert forall|n: u32| #[trigger] m.contains_key(n) implies exists|j: int| 0 <= j < s.len() && s[j].0 == n && m[n] == s[j].1 by {
            let j = choose|j: int| 0 <= j < s.len() && s[j].0 == n;
            lemma_entries_map_at(s, j);
        }
        if r.integrated {
            let j = choose|j: int| 0 <= j < len && (#[trigger] s[j]).1 == OpPhase::Integrated;
            assert(m.contains_key(s[j].0));
        }
        if r.seen {
            let j = choose|j: int| 0 <= j < len && (#[trigger] s[j]).1 != OpPhase::Unseen;
            assert(m.contains_key(s[j].0));
        }
        if r.definitely_valid {
            let j = choose|j: int| 0 <= j < len && is_definitely_valid_spec((#[trigger] s[j]).1);
            assert(m.contains_key(s[j].0));
        }
        if r.rejected {
            let j = choose|j: int| 0 <= j < len && (#[trigger] s[j]).1 == OpPhase::Rejected;
            assert(m.contains_key(s[j].0));
        }
        if !r.all_integrated {
            let j = choose|j: int| 0 <= j < len && !((#[trigger] s[j]).1 == OpPhase::Integrated);
            assert(m.contains_key(s[j].0));
        }
        if !r.all_unseen_or_rejected {
            let j = choose|j: int| 0 <= j < len && !((#[trigger] s[j]).1 == OpPhase::Unseen || s[j].1 == OpPhase::Rejected);
            assert(m.contains_key(s[j].0));
        }
    }
    r
}

/// The machine of one op over a network of honest nodes.
pub struct NetworkMachine {
    pub sub: OpMachine,
}

impl NetworkMachine {
    pub fn new(sub: OpMachine) -> (m: Self)
        ensures
            m.sub == sub,
    {
        NetworkMachine { sub }
    }
}

impl Machine for NetworkMachine {
    type State = NetworkState;
    type Action = NetworkOpEvent;
    type Fx = ();
    type Error = NetworkSingleOpError;

    /// Sending requires the receiver to be a node of the network.
    open spec fn admissible(&self, state: NetworkState, action: NetworkOpEvent) -> bool {
        action.1 is Send && some_integrated(state@) && action.0 != action.1->Send_0
            ==> state@.contains_key(action.1->Send_0)
    }

    fn is_admissible(&self, state: &NetworkState, action: &NetworkOpEvent) -> (b: bool) {
        match action.1 {
            OpEvent::Send(id) => {
                let summary = summarize(&state.nodes);
                !summary.integrated || action.0 == id || state.nodes.contains_key(&id)
            },
            _ => true,
        }
    }

    open spec fn outcome(
        &self,
        state: NetworkState,
        action: NetworkOpEvent,
        r: Result<(NetworkState, ()), NetworkSingleOpError>,
    ) -> bool {
        match network_single_next(self.sub.id, state@, action.0, action.1) {
            Ok(m) => r is Ok && r->Ok_0.0@ == m,
            Err(e) => r == Err::<(NetworkState, ()), NetworkSingleOpError>(e),
        }
    }

    fn transition(&self, state: NetworkState, action: NetworkOpEvent) -> (r: Result<
        (NetworkState, ()),
        NetworkSingleOpError,
    >)
    {
        let NetworkOpEvent(node_id, event) = action;
        let mut state = state;
        let honest = true;
        let summary = summarize(&state.nodes);
        if let OpEvent::Send(id) = event {
            if !summary.integrated {
                return Err(NetworkSingleOpError::NoneIntegrated);
            }
            if node_id == id {
                return Err(NetworkSingleOpError::SendToSelf);
            }
            match state.nodes.get(&id) {
                Some(OpPhase::Unseen) => {},
                Some(_) => {
                    return Err(NetworkSingleOpError::SendTwice);
                },
                None => {
                    proof {
                        assert(false);
                    }
                    return Err(NetworkSingleOpError::NoNode(id));
                },
            }
            state.nodes.insert(id, OpPhase::Pending);
        }
        if let OpEvent::Author = event {
            if summary.seen {
                return Err(NetworkSingleOpError::SecondAuthor);
            }
        }
        if honest {
            if let OpEvent::Reject = event {
                if summary.definitely_valid {
                    return Err(NetworkSingleOpError::HonestReject);
                }
            }
            if let OpEvent::Validate(_) = event {
                if summary.rejected {
                    return Err(NetworkSingleOpError::HonestValidate);
                }
            }
        }
        let current = match state.nodes.get(&node_id) {
            Some(p) => *p,
            None => {
                return Err(NetworkSingleOpError::NoNode(node_id));
            },
        };
        match self.sub.step(current, event) {
            Ok(p) => {
                state.nodes.insert(node_id, p);
                Ok((state, ()))
            },
            Err(e) => Err(NetworkSingleOpError::Op(e)),
        }
    }

    fn is_terminal(&self, state: &NetworkState) -> (b: bool)
        ensures
            b == network_single_terminal(state@),
    {
        let summary = summarize(&state.nodes);
        summary.all_integrated || (summary.all_unseen_or_rejected && summary.seen)
    }
}

/// Honest nodes never disagree: no node rejects the op once another has
/// validated it, and no node validates it once another has rejected it.
pub proof fn lemma_honest_agreement(op_id: u32, s: Map<u32, OpPhase>, node_id: u32, event: OpEvent)
    requires
        network_single_next(op_id, s, node_id, event) is Ok,
    ensures
        event is Reject ==> !some_definitely_valid(s),
        event is Validate ==> !some_rejected(s),
{
}

/// The op is authored at most once across the whole network.
pub proof fn lemma_single_author(op_id: u32, s: Map<u32, OpPhase>, node_id: u32)
    requires
        some_seen(s),
    ensures
        network_single_next(op_id, s, node_id, OpEvent::Author) is Err,
{
}

} // verus!
