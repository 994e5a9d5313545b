//! A network of nodes, each tracking an op family, which receive ops from
//! one another.

use vstd::prelude::*;
use crate::machine::Machine;
use crate::op_family::{
    is_op_handled_spec, op_family_next, OpFamilyAction, OpFamilyError, OpFamilyMachine,
    OpFamilyPhase, OpFamilyState, OpId,
};
use crate::op_single::{op_single_next, OpAction, OpPhase, Outcome, ValidationType};
use crate::sorted_map::{entries_map, keys_sorted, lemma_entries_map_at, SortedMap};

verus! {

/// Where a received op is to be stored.
#[derive(Clone, Copy, Debug, PartialEq, Eq, Hash, Structural)]
pub enum OpSendTarget {
    Vault,
    Cache,
}

/// What can happen at one node of the network.
#[derive(Clone, Copy, Debug, PartialEq, Eq, Hash, Structural)]
pub enum OpNetworkAction {
    /// A family action on the node's own copy of an op.
    Local { op: OpId, action: OpFamilyAction },
    /// Receive an op from another node.
    Receive { op: OpId, from: u32, valid: bool, target: OpSendTarget },
}

/// Why a network transition was refused.
#[derive(Clone, Copy, Debug, PartialEq, Eq, Hash, Structural)]
pub enum OpNetworkError {
    /// The node is not part of the bounded network.
    NoNode(u32),
    /// The op is not covered by the family machine.
    NoOp(OpId),
    /// Every copy of every op of the awaited action has been rejected.
    AllDepsRejected,
    /// The sending node is unknown.
    NoSender(u32),
    /// The sender has no valid op of the action to serve.
    SenderNotIntegrated,
    /// Invalid ops are not currently handled.
    InvalidOp,
    /// The family transition was refused.
    Family(OpFamilyError),
}

/// The op family state of every node.
pub struct OpNetworkState {
    pub nodes: SortedMap<u32, OpFamilyState>,
}

/// The phases of every node, by node.
pub open spec fn network_view(nodes: Map<u32, OpFamilyState>) -> Map<
    u32,
    Map<OpId, OpFamilyPhase>,
> {
    Map::new(|n: u32| nodes.contains_key(n), |n: u32| nodes[n]@)
}

impl View for OpNetworkState {
    type V = Map<u32, Map<OpId, OpFamilyPhase>>;

    open spec fn view(&self) -> Map<u32, Map<OpId, OpFamilyPhase>> {
        network_view(self.nodes@)
    }
}

/// The machine of an op network.
pub struct OpNetworkMachine {
    pub inner: OpFamilyMachine,
    /// The nodes of the network; `None` admits a node when first seen.
    pub nodes: Option<SortedMap<u32, ()>>,
}

/// Some node other than the acting one holds an op of action `a` that has
/// not been integrated as rejected.
pub open spec fn any_not_rejected(others: Map<u32, Map<OpId, OpFamilyPhase>>, a: u32) -> bool {
    exists|n: u32, k: OpId|
        #![trigger others[n][k]]
        others.contains_key(n) && others[n].contains_key(k) && k.0 == a && others[n][k]
            != OpFamilyPhase::Op(OpPhase::Integrated(Outcome::Rejected))
}

/// The phase can serve as a valid copy of the op.
pub open spec fn is_servable(p: OpFamilyPhase) -> bool {
    p == OpFamilyPhase::Op(OpPhase::Integrated(Outcome::Accepted)) || p == OpFamilyPhase::Op(
        OpPhase::Validated(ValidationType::App),
    )
}

/// Some op of action `a` in `ns` can be served.
pub open spec fn any_servable(ns: Map<OpId, OpFamilyPhase>, a: u32) -> bool {
    exists|k: OpId| #![trigger ns[k]] ns.contains_key(k) && k.0 == a && is_servable(ns[k])
}

pub open spec fn lift_family(r: Result<Map<OpId, OpFamilyPhase>, OpFamilyError>) -> Result<
    Map<OpId, OpFamilyPhase>,
    OpNetworkError,
> {
    match r {
        Ok(m) => Ok(m),
        Err(e) => Err(OpNetworkError::Family(e)),
    }
}

/// The next family state of the acting node, whose peers are `others`. An
/// op the node does not hold yet must be covered by the family machine; one
/// it holds is taken up whatever the cover.
pub open spec fn node_next(
    machine: OpNetworkMachine,
    others: Map<u32, Map<OpId, OpFamilyPhase>>,
    ns: Map<OpId, OpFamilyPhase>,
    action: OpNetworkAction,
) -> Result<Map<OpId, OpFamilyPhase>, OpNetworkError> {
    match action {
        OpNetworkAction::Local { op, action: a } => {
            if !ns.contains_key(op) && !is_op_handled_spec(machine.inner, op) {
                Err(OpNetworkError::NoOp(op))
            } else {
                let ps = if ns.contains_key(op) {
                    ns[op]
                } else {
                    OpFamilyPhase::Op(OpPhase::Unseen)
                };
                let ns1 = ns.insert(op, ps);
                if ps is Awaiting && a == OpFamilyAction::Op(OpAction::Validate(ps->Awaiting_0)) {
                    if any_not_rejected(others, ps->Awaiting_1) {
                        Ok(ns.insert(op, OpFamilyPhase::Op(OpPhase::Validated(ps->Awaiting_0))))
                    } else {
                        Err(OpNetworkError::AllDepsRejected)
                    }
                } else {
                    lift_family(op_family_next(machine.inner, ns1, op, a))
                }
            }
        },
        OpNetworkAction::Receive { op, from, valid, target: _ } => {
            if !others.contains_key(from) {
                Err(OpNetworkError::NoSender(from))
            } else if !any_servable(others[from], op.0) {
                Err(OpNetworkError::SenderNotIntegrated)
            } else if !valid {
                Err(OpNetworkError::InvalidOp)
            } else {
                lift_family(
                    op_family_next(machine.inner, ns, op, OpFamilyAction::Op(OpAction::Store(false))),
                )
            }
        },
    }
}

/// One step of the network machine on the state `s`.
pub open spec fn op_network_next(
    machine: OpNetworkMachine,
    s: Map<u32, Map<OpId, OpFamilyPhase>>,
    node: u32,
    action: OpNetworkAction,
) -> Result<Map<u32, Map<OpId, OpFamilyPhase>>, OpNetworkError> {
    if !s.contains_key(node) && machine.nodes is Some {
        Err(OpNetworkError::NoNode(node))
    } else {
        let ns = if s.contains_key(node) {
            s[node]
        } else {
            Map::empty()
        };
        match node_next(machine, s.remove(node), ns, action) {
            Ok(ns2) => Ok(s.insert(node, ns2)),
            Err(e) => Err(e),
        }
    }
}

fn any_not_rejected_exec(others: &SortedMap<u32, OpFamilyState>, a: u32) -> (b: bool)
    ensures
        b == any_not_rejected(network_view(others@), a),
{
    let ghost v = network_view(others@);
    let ghost s = others.entries();
    let n = others.len();
    let mut i: usize = 0;
    while i < n
        invariant
            s == others.entries(),
            v == network_view(others@),
            others@ == entries_map(s),
            keys_sorted(s),
            n == s.len(),
            i <= n,
            forall|j: int, k: OpId|
                #![trigger s[j].1@[k]]
                0 <= j < i && s[j].1@.contains_key(k) && k.0 == a ==> s[j].1@[k]
                    == OpFamilyPhase::Op(OpPhase::Integrated(Outcome::Rejected)),
        decreases n - i,
    {
        let e = others.entry_at(i);
        let ops = &e.1;
        let ghost t = ops.0.entries();
        let m = ops.0.len();
        let mut j: usize = 0;
        while j < m
            invariant
                t == ops.0.entries(),
                ops@ == entries_map(t),
                keys_sorted(t),
                m == t.len(),
                j <= m,
                forall|jj: int| 0 <= jj < j && (#[trigger] t[jj]).0.0 == a ==> t[jj].1
                    == OpFamilyPhase::Op(OpPhase::Integrated(Outcome::Rejected)),
                s == others.entries(),
                v == network_view(others@),
                others@ == entries_map(s),
                keys_sorted(s),
                n == s.len(),
                i < n,
                *e == s[i as int],
                *ops == e.1,
            decreases m - j,
        {
            let f = ops.0.entry_at(j);
            if f.0.0 == a {
                match f.1 {
                    OpFamilyPhase::Op(OpPhase::Integrated(Outcome::Rejected)) => {},
                    _ => {
                        proof {
                            lemma_entries_map_at(s, i as int);
                            lemma_entries_map_at(t, j as int);
                            let nn = s[i as int].0;
                            let k = t[j as int].0;
                            assert(others@.contains_key(nn));
                            assert(others@[nn] == s[i as int].1);
                            assert(v.contains_key(nn));
                            assert(v[nn] == others@[nn]@);
                            assert(*ops == s[i as int].1);
                            assert(v[nn] == ops@);
                            assert(v[nn][k] != OpFamilyPhase::Op(OpPhase::Integrated(Outcome::Rejected)));
                        }
                        return true;
                    },
                }
            }
            j = j + 1;
        }
        proof {
            assert forall|k: OpId| #[trigger] s[i as int].1@.contains_key(k) && k.0 == a implies s[i as int].1@[k]
                == OpFamilyPhase::Op(OpPhase::Integrated(Outcome::Rejected)) by {
                let jj = choose|jj: int| 0 <= jj < t.len() && t[jj].0 == k;
                lemma_entries_map_at(t, jj);
            }
        }
        i = i + 1;
    }
    proof {
        if any_not_rejected(v, a) {
            let (nn, k) = choose|nn: u32, k: OpId|
                #![trigger v[nn][k]]
                v.contains_key(nn) && v[nn].contains_key(k) && k.0 == a && v[nn][k]
                    != OpFamilyPhase::Op(OpPhase::Integrated(Outcome::Rejected));
            let j = choose|j: int| 0 <= j < s.len() && s[j].0 == nn;
            lemma_entries_map_at(s, j);
            assert(s[j].1@[k] == OpFamilyPhase::Op(OpPhase::Integrated(Outcome::Rejected)));
        }
    }
    false
}

fn any_servable_exec(ns: &OpFamilyState, a: u32) -> (b: bool)
    ensures
        b == any_servable(ns@, a),
{
    let ghost t = ns.0.entries();
    let m = ns.0.len();
    let mut j: usize = 0;
    while j < m
        invariant
            t == ns.0.entries(),
            ns@ == entries_map(t),
            keys_sorted(t),
            m == t.len(),
            j <= m,
            forall|jj: int| 0 <= jj < j && (#[trigger] t[jj]).0.0 == a ==> !is_servable(t[jj].1),
        decreases m - j,
    {
        let f = ns.0.entry_at(j);
        if f.0.0 == a {
            match f.1 {
                OpFamilyPhase::Op(OpPhase::Integrated(Outcome::Accepted))
                | OpFamilyPhase::Op(OpPhase::Validated(ValidationType::App)) => {
                    proof {
                        lemma_entries_map_at(t, j as int);
                        assert(ns@[t[j as int].0] == t[j as int].1);
                    }
                    return true;
                },
                _ => {},
            }
        }
        j = j + 1;
    }
    proof {
        if any_servable(ns@, a) {
            let k = choose|k: OpId| #![trigger ns@[k]] ns@.contains_key(k) && k.0 == a && is_servable(ns@[k]);
            let jj = choose|jj: int| 0 <= jj < t.len() && t[jj].0 == k;
            lemma_entries_map_at(t, jj);
        }
    }
    false
}

fn node_set(ns: Vec<u32>) -> (r: SortedMap<u32, ()>)
    ensures
        forall|n: u32| r@.contains_key(n) <==> ns@.contains(n),
{
    let mut r: SortedMap<u32, ()> = SortedMap::new();
    let mut i: usize = 0;
    while i < ns.len()
        invariant
            i <= ns.len(),
            forall|n: u32| r@.contains_key(n) <==> ns@.take(i as int).contains(n),
        decreases ns.len() - i,
    {
        let x = ns[i];
        r.insert(x, ());
        proof {
            let pre = ns@.take(i + 1);
            assert forall|n: u32| r@.contains_key(n) <==> #[trigger] pre.contains(n) by {
                if pre.contains(n) {
                    let t = choose|t: int| 0 <= t < i + 1 && pre[t] == n;
                    if t < i {
                        assert(ns@.take(i as int)[t] == n);
                    }
                }
                if ns@.take(i as int).contains(n) {
                    let t = choose|t: int| 0 <= t < i && #[trigger] ns@.take(i as int)[t] == n;
                    assert(pre[t] == n);
                }
                if n == x {
                    assert(pre[i as int] == n);
                }
            }
        }
        i = i + 1;
    }
    proof {
        assert(ns@.take(ns.len() as int) =~= ns@);
    }
    r
}

impl OpNetworkMachine {
    /// A network that admits nodes as they are seen, covering every op.
    pub fn new() -> (m: Self)
        ensures
            m.nodes is None,
            m.inner.deps is None,
    {
        OpNetworkMachine { inner: OpFamilyMachine::new(), nodes: None }
    }

    /// A network of exactly the given nodes, covering exactly the given ops.
    pub fn new_bounded(nodes: Vec<u32>, ops: Vec<OpId>) -> (m: Self)
        ensures
            m.nodes is Some,
            forall|n: u32| m.nodes->0@.contains_key(n) <==> nodes@.contains(n),
            m.inner.deps is Some,
            forall|k: OpId| m.inner.deps->0@.contains_key(k) <==> ops@.contains(k),
    {
        OpNetworkMachine { inner: OpFamilyMachine::new_bounded(ops), nodes: Some(node_set(nodes)) }
    }

    /// Every node of a bounded network, with no op seen.
    pub fn initial(&self) -> (s: OpNetworkState)
        ensures
            forall|n: u32|
                s@.contains_key(n) <==> (self.nodes is Some && self.nodes->0@.contains_key(n)),
            forall|n: u32| #[trigger] s@.contains_key(n) ==> s@[n] == Map::<OpId, OpFamilyPhase>::empty(),
    {
        let mut nodes: SortedMap<u32, OpFamilyState> = SortedMap::new();
        match &self.nodes {
            None => {},
            Some(ns) => {
                let ghost t = ns.entries();
                let len = ns.len();
                let mut i: usize = 0;
                while i < len
                    invariant
                        t == ns.entries(),
                        ns@ == entries_map(t),
                        keys_sorted(t),
                        len == t.len(),
                        i <= len,
                        forall|n: u32|
                            nodes@.contains_key(n) <==> exists|j: int| 0 <= j < i && #[trigger] t[j].0 == n,
                        forall|n: u32| #[trigger] nodes@.contains_key(n) ==> nodes@[n]@ == Map::<OpId, OpFamilyPhase>::empty(),
                    decreases len - i,
                {
                    let n = ns.entry_at(i).0;
                    nodes.insert(n, self.inner.initial());
                    proof {
                        assert forall|nn: u32| nodes@.contains_key(nn) <==> exists|j: int| 0 <= j < i + 1 && #[trigger] t[j].0 == nn by {
                            if nn == n {
                                assert(t[i as int].0 == nn);
                            }
                        }
                    }
                    i = i + 1;
                }
                proof {
                    assert forall|n: u32| nodes@.contains_key(n) <==> ns@.contains_key(n) by {
                        if ns@.contains_key(n) {
                            let j = choose|j: int| 0 <= j < t.len() && t[j].0 == n;
                            assert(t[j].0 == n);
                        }
                        if nodes@.contains_key(n) {
                            let j = choose|j: int| 0 <= j < len && #[trigger] t[j].0 == n;
                            lemma_entries_map_at(t, j);
                        }
                    }
                }
            },
        }
        OpNetworkState { nodes }
    }

    fn node_step(
        &self,
        others: &SortedMap<u32, OpFamilyState>,
        node_state: OpFamilyState,
        action: OpNetworkAction,
    ) -> (r: Result<OpFamilyState, OpNetworkError>)
        ensures
            match node_next(*self, network_view(others@), node_state@, action) {
                Ok(m) => r is Ok && r->Ok_0@ == m,
                Err(e) => r == Err::<OpFamilyState, OpNetworkError>(e),
            },
    {
        let mut node_state = node_state;
        match action {
            OpNetworkAction::Local { op, action: a } => {
                let ghost ns0 = node_state@;
                // Coverage only matters for an op the node does not hold yet.
                if !node_state.0.contains_key(&op) && !self.inner.is_op_handled(&op) {
                    return Err(OpNetworkError::NoOp(op));
                }
                let op_state = match node_state.0.remove(&op) {
                    Some(p) => p,
                    None => OpFamilyPhase::Op(OpPhase::Unseen),
                };
                // If attempting to validate while awaiting, check whether any
                // node holds a non-rejected copy of the awaited action, which
                // means it is able to serve it up via a get request.
                let changed = match (op_state, a) {
                    (OpFamilyPhase::Awaiting(vt, dep_id), OpFamilyAction::Op(OpAction::Validate(vt2))) => {
                        if vt == vt2 {
                            if !any_not_rejected_exec(others, dep_id) {
                                return Err(OpNetworkError::AllDepsRejected);
                            }
                            node_state.0.insert(op, OpFamilyPhase::Op(OpPhase::Validated(vt)));
                            true
                        } else {
                            false
                        }
                    },
                    _ => false,
                };
                if changed {
                    proof {
                        assert(node_state@ =~= ns0.insert(op, OpFamilyPhase::Op(OpPhase::Validated(op_state->Awaiting_0))));
                    }
                    Ok(node_state)
                } else {
                    node_state.0.insert(op, op_state);
                    proof {
                        assert(node_state@ =~= ns0.insert(op, op_state));
                    }
                    match self.inner.transition(node_state, (op, a)) {
                        Ok((s, _)) => Ok(s),
                        Err(e) => Err(OpNetworkError::Family(e)),
                    }
                }
            },
            OpNetworkAction::Receive { op, from, valid, target: _ } => {
                // BUG: technically we should wait for validation before
                // receiving; only the validity of the op is required.
                let any_integrated = match others.get(&from) {
                    Some(from_state) => any_servable_exec(from_state, op.0),
                    None => {
                        return Err(OpNetworkError::NoSender(from));
                    },
                };
                if !any_integrated {
                    return Err(OpNetworkError::SenderNotIntegrated);
                }
                if !valid {
                    return Err(OpNetworkError::InvalidOp);
                }
                match self.inner.transition(
                    node_state,
                    (op, OpFamilyAction::Op(OpAction::Store(false))),
                ) {
                    Ok((s, _)) => Ok(s),
                    Err(e) => Err(OpNetworkError::Family(e)),
                }
            },
        }
    }
}

impl Machine for OpNetworkMachine {
    type State = OpNetworkState;
    type Action = (u32, OpNetworkAction);
    type Fx = ();
    type Error = OpNetworkError;

    open spec fn admissible(&self, state: OpNetworkState, action: (u32, OpNetworkAction)) -> bool {
        true
    }

    fn is_admissible(&self, state: &OpNetworkState, action: &(u32, OpNetworkAction)) -> (b: bool) {
        true
    }

    open spec fn outcome(
        &self,
        state: OpNetworkState,
        step: (u32, OpNetworkAction),
        r: Result<(OpNetworkState, ()), OpNetworkError>,
    ) -> bool {
        match op_network_next(*self, state@, step.0, step.1) {
            Ok(m) => r is Ok && r->Ok_0.0@ == m,
            Err(e) => r == Err::<(OpNetworkState, ()), OpNetworkError>(e),
        }
    }

    fn transition(&self, state: OpNetworkState, step: (u32, OpNetworkAction)) -> (r: Result<
        (OpNetworkState, ()),
        OpNetworkError,
    >)
    {
        let (node, action) = step;
        let mut state = state;
        let ghost s0 = state.nodes@;
        let node_state = match state.nodes.remove(&node) {
            Some(ns) => ns,
            None => {
                // If nodes aren't bounded, add a new node when seen
                if self.nodes.is_none() {
                    self.inner.initial()
                } else {
                    return Err(OpNetworkError::NoNode(node));
                }
            },
        };
        proof {
            assert(network_view(state.nodes@) =~= network_view(s0).remove(node));
        }
        let next = match self.node_step(&state.nodes, node_state, action) {
            Ok(ns) => ns,
            Err(e) => {
                return Err(e);
            },
        };
        let ghost next_view = next@;
        state.nodes.insert(node, next);
        proof {
            assert(network_view(state.nodes@) =~= network_view(s0).insert(node, next_view));
        }
        Ok((state, ()))
    }

    fn is_terminal(&self, s: &OpNetworkState) -> (b: bool)
        ensures
            b == (s.nodes@.len() == 0),
    {
        // Family states are never terminal, so only an empty network is.
        let n = s.nodes.len();
        let mut i: usize = 0;
        while i < n
            invariant
                n == s.nodes@.len(),
                n == s.nodes.entries().len(),
                i == 0,
            decreases n - i,
        {
            let e = s.nodes.entry_at(i);
            if !self.inner.is_terminal(&e.1) {
                return false;
            }
            i = i + 1;
        }
        true
    }
}


/// A node may receive an op from a peer that holds some op of the same
/// action in a phase from which it integrates as accepted (an op it has
/// app-validated, or one already integrated as accepted): such a receive is
/// never refused for the sender not having the op ready.
pub proof fn lemma_receive_from_ready_sender(
    machine: OpNetworkMachine,
    s: Map<u32, Map<OpId, OpFamilyPhase>>,
    node: u32,
    op: OpId,
    from: u32,
    valid: bool,
    target: OpSendTarget,
    k: OpId,
    p: OpPhase,
)
    requires
        node != from,
        s.contains_key(from),
        s[from].contains_key(k),
        k.0 == op.0,
        s[from][k] == OpFamilyPhase::Op(p),
        op_single_next(p, OpAction::Integrate) == Some(OpPhase::Integrated(Outcome::Accepted)),
    ensures
        op_network_next(machine, s, node, OpNetworkAction::Receive { op, from, valid, target })
            != Err::<Map<u32, Map<OpId, OpFamilyPhase>>, OpNetworkError>(OpNetworkError::SenderNotIntegrated),
{
    let others = s.remove(node);
    assert(others.contains_key(from));
    assert(others[from] == s[from]);
    assert(others[from][k] == OpFamilyPhase::Op(p));
    assert(is_servable(others[from][k]));
    assert(any_servable(others[from], op.0));
}

} // verus!
