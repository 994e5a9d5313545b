//! The state of a node that authors, stores, validates and integrates ops,
//! and the decisions a node takes on each step and on each message.

use vstd::prelude::*;
use crate::ids::{NodeId, Op, OpHash, OpView};
use crate::sorted_map::{entries_map, keys_sorted, lemma_entries_map_at, MapKey, SortedMap};

verus! {

/// How a node came to hold an op.
#[derive(Clone, Copy, Debug, PartialEq, Eq, Hash, Structural)]
pub enum OpOrigin {
    Authored,
    Fetched,
}

/// Where a node is with an op it holds.
#[derive(Debug, PartialEq, Eq)]
pub enum OpState {
    Pending(OpOrigin),
    Validated,
    MissingDeps(Vec<OpHash>),
    Rejected(String),
    Integrated,
}

/// An op state as a value.
pub enum OpStateView {
    Pending(OpOrigin),
    Validated,
    MissingDeps(Seq<OpHash>),
    Rejected(Seq<char>),
    Integrated,
}

impl View for OpState {
    type V = OpStateView;

    open spec fn view(&self) -> OpStateView {
        match self {
            OpState::Pending(o) => OpStateView::Pending(*o),
            OpState::Validated => OpStateView::Validated,
            OpState::MissingDeps(d) => OpStateView::MissingDeps(d@),
            OpState::Rejected(r) => OpStateView::Rejected(r@),
            OpState::Integrated => OpStateView::Integrated,
        }
    }
}

fn copy_hashes(v: &Vec<OpHash>) -> (r: Vec<OpHash>)
    ensures
        r@ == v@,
{
    let mut r: Vec<OpHash> = Vec::new();
    let mut i: usize = 0;
    while i < v.len()
        invariant
            i <= v.len(),
            r@ == v@.take(i as int),
        decreases v.len() - i,
    {
        r.push(v[i]);
        proof {
            assert(v@.take(i + 1) =~= v@.take(i as int).push(v@[i as int]));
        }
        i = i + 1;
    }
    proof {
        assert(v@.take(v.len() as int) =~= v@);
    }
    r
}

impl OpState {
    /// A copy of the state.
    pub fn duplicate(&self) -> (r: OpState)
        ensures
            r@ == self@,
    {
        match self {
            OpState::Pending(o) => OpState::Pending(*o),
            OpState::Validated => OpState::Validated,
            OpState::MissingDeps(d) => OpState::MissingDeps(copy_hashes(d)),
            OpState::Rejected(r) => OpState::Rejected(r.clone()),
            OpState::Integrated => OpState::Integrated,
        }
    }

    pub fn is_integrated(&self) -> (b: bool)
        ensures
            b == (self@ is Integrated),
    {
        match self {
            OpState::Integrated => true,
            _ => false,
        }
    }
}

/// An op held by a node, with its state.
pub struct OpData {
    pub op: Op,
    pub state: OpState,
}

pub struct OpDataView {
    pub op: OpView,
    pub state: OpStateView,
}

impl View for OpData {
    type V = OpDataView;

    open spec fn view(&self) -> OpDataView {
        OpDataView { op: self.op@, state: self.state@ }
    }
}

impl OpData {
    pub fn duplicate(&self) -> (r: OpData)
        ensures
            r@ == self@,
    {
        OpData { op: self.op.duplicate(), state: self.state.duplicate() }
    }
}

/// Where a fetched op is stored.
#[derive(Clone, Copy, Debug, PartialEq, Eq, Hash, Structural)]
pub enum FetchDestination {
    Vault,
    Cache,
}

/// What can happen at a node.
pub enum NodeEvent {
    /// Author an op that depends on up to this many held ops.
    AuthorOp(usize),
    /// Store an op.
    StoreOp(Op, FetchDestination),
    /// Move a held op to a new state.
    SetOpState(OpHash, OpState),
    /// Send an op to a peer.
    SendOp(Op, NodeId),
}

/// A message between nodes.
pub enum Message {
    Publish(Op),
    Gossip(Vec<Op>),
    FetchRequest(OpHash),
    FetchResponse(Op),
}

/// What a node holds: validated storage and a cache of fetched ops.
pub struct NodeState {
    pub vault: SortedMap<OpHash, OpData>,
    pub cache: SortedMap<OpHash, Op>,
}

pub open spec fn vault_view(m: Map<OpHash, OpData>) -> Map<OpHash, OpDataView> {
    Map::new(|k: OpHash| m.contains_key(k), |k: OpHash| m[k]@)
}

pub open spec fn cache_view(m: Map<OpHash, Op>) -> Map<OpHash, OpView> {
    Map::new(|k: OpHash| m.contains_key(k), |k: OpHash| m[k]@)
}

/// A state change that the node accepts.
pub open spec fn state_change_allowed(cur: OpStateView, next: OpStateView) -> bool {
    ||| cur is Pending && next is Validated
    ||| cur is Pending && next is Rejected
    ||| cur is Validated && next is Integrated
    ||| cur is MissingDeps && next is Validated
}

/// The held hashes that do not sort before `h`, in order.
pub open spec fn keys_not_before(s: Seq<(OpHash, OpData)>, h: OpHash) -> Seq<OpHash>
    decreases s.len(),
{
    if s.len() == 0 {
        Seq::empty()
    } else {
        let r = keys_not_before(s.drop_last(), h);
        if !s.last().0.key_lt(h) {
            r.push(s.last().0)
        } else {
            r
        }
    }
}

/// The deps of an op authored with hash `h`: the first `n` held hashes
/// that do not sort before `h`.
pub open spec fn author_deps(s: Seq<(OpHash, OpData)>, h: OpHash, n: nat) -> Seq<OpHash> {
    let ks = keys_not_before(s, h);
    if n <= ks.len() {
        ks.take(n as int)
    } else {
        ks
    }
}

/// How many held ops are integrated.
pub open spec fn count_integrated(s: Seq<(OpHash, OpData)>) -> nat
    decreases s.len(),
{
    if s.len() == 0 {
        0
    } else {
        count_integrated(s.drop_last()) + if s.last().1.state@ is Integrated {
            1nat
        } else {
            0nat
        }
    }
}

/// The vault after a request to move op `hash` to `state`: the op moves if
/// the node holds it and accepts the change, and nothing changes otherwise.
pub open spec fn set_state_vault(v: Map<OpHash, OpDataView>, hash: OpHash, state: OpStateView) -> Map<
    OpHash,
    OpDataView,
> {
    if v.contains_key(hash) && state_change_allowed(v[hash].state, state) {
        v.insert(hash, OpDataView { op: v[hash].op, state })
    } else {
        v
    }
}

/// No held op is waiting on missing deps.
pub open spec fn no_missing_deps(m: Map<OpHash, OpDataView>) -> bool {
    forall|k: OpHash| #[trigger] m.contains_key(k) ==> !(m[k].state is MissingDeps)
}

fn state_change_allowed_exec(cur: &OpState, next: &OpState) -> (b: bool)
    ensures
        b == state_change_allowed(cur@, next@),
{
    match (cur, next) {
        (OpState::Pending(_), OpState::Validated) => true,
        (OpState::Pending(_), OpState::Rejected(_)) => true,
        (OpState::Validated, OpState::Integrated) => true,
        (OpState::MissingDeps(_), OpState::Validated) => true,
        _ => false,
    }
}

/// What handling `event` does to a node: the state `new` after it, from
/// `old`, when an authored op gets the hash `fresh`.
pub open spec fn handled(old: NodeState, new: NodeState, event: NodeEvent, fresh: OpHash) -> bool {
    match event {
        NodeEvent::AuthorOp(num_deps) => new.cache@ == old.cache@
            && vault_view(new.vault@) == vault_view(old.vault@).insert(
            fresh,
            OpDataView {
                op: OpView {
                    hash: fresh,
                    deps: author_deps(old.vault.entries(), fresh, num_deps as nat),
                },
                state: OpStateView::Pending(OpOrigin::Authored),
            },
        ),
        NodeEvent::StoreOp(op, FetchDestination::Vault) => new.cache@ == old.cache@
            && vault_view(new.vault@) == vault_view(old.vault@).insert(
            op.hash,
            OpDataView { op: op@, state: OpStateView::Pending(OpOrigin::Fetched) },
        ),
        NodeEvent::StoreOp(op, FetchDestination::Cache) => new.vault@ == old.vault@
            && cache_view(new.cache@) == cache_view(old.cache@).insert(op.hash, op@),
        NodeEvent::SetOpState(hash, state) => new.cache@ == old.cache@
            && vault_view(new.vault@) == set_state_vault(
            vault_view(old.vault@),
            hash,
            state@,
        ),
        NodeEvent::SendOp(_, _) => new.vault@ == old.vault@ && new.cache@
            == old.cache@,
    }
}

impl NodeState {
    /// A node holding nothing.
    pub fn new() -> (s: Self)
        ensures
            s.vault@ == Map::<OpHash, OpData>::empty(),
            s.cache@ == Map::<OpHash, Op>::empty(),
    {
        NodeState { vault: SortedMap::new(), cache: SortedMap::new() }
    }

    /// How many held ops are integrated.
    pub fn num_integrated(&self) -> (n: usize)
        ensures
            n == count_integrated(self.vault.entries()),
    {
        let ghost s = self.vault.entries();
        let len = self.vault.len();
        let mut n: usize = 0;
        let mut i: usize = 0;
        while i < len
            invariant
                s == self.vault.entries(),
                len == s.len(),
                i <= len,
                n == count_integrated(s.take(i as int)),
                n <= i,
            decreases len - i,
        {
            proof {
                assert(s.take(i + 1).drop_last() =~= s.take(i as int));
            }
            if self.vault.entry_at(i).1.state.is_integrated() {
                n = n + 1;
            }
            i = i + 1;
        }
        proof {
            assert(s.take(len as int) =~= s);
        }
        n
    }

    /// A copy of the held op with hash `hash`.
    pub fn get_op(&self, hash: &OpHash) -> (r: Option<OpData>)
        ensures
            r is Some <==> self.vault@.contains_key(*hash),
            r is Some ==> r->0@ == self.vault@[*hash]@,
    {
        match self.vault.get(hash) {
            Some(d) => Some(d.duplicate()),
            None => None,
        }
    }

    /// The deps of an op authored with hash `hash`.
    fn collect_deps(&self, hash: &OpHash, num_deps: usize) -> (deps: Vec<OpHash>)
        ensures
            deps@ == author_deps(self.vault.entries(), *hash, num_deps as nat),
    {
        let ghost s = self.vault.entries();
        let len = self.vault.len();
        let mut deps: Vec<OpHash> = Vec::new();
        let mut i: usize = 0;
        while i < len && deps.len() < num_deps
            invariant
                s == self.vault.entries(),
                len == s.len(),
                i <= len,
                deps@ == keys_not_before(s.take(i as int), *hash),
                deps@.len() <= num_deps,
            decreases len - i,
        {
            let k = self.vault.entry_at(i).0;
            proof {
                assert(s.take(i + 1).drop_last() =~= s.take(i as int));
            }
            if !k.key_less(hash) {
                deps.push(k);
            }
            i = i + 1;
        }
        proof {
            lemma_keys_not_before_prefix(s, *hash, i as int);
            if deps.len() == num_deps {
                assert(keys_not_before(s, *hash).take(num_deps as int) =~= deps@);
            } else {
                assert(i == len);
                assert(s.take(len as int) =~= s);
            }
        }
        deps
    }

    /// Author a new op with hash `hash`, which depends on up to `num_deps`
    /// held ops whose hashes do not sort before it.
    pub fn author(&mut self, num_deps: usize, hash: OpHash)
        ensures
            final(self).cache@ == old(self).cache@,
            vault_view(final(self).vault@) == vault_view(old(self).vault@).insert(
                hash,
                OpDataView {
                    op: OpView { hash, deps: author_deps(old(self).vault.entries(), hash, num_deps as nat) },
                    state: OpStateView::Pending(OpOrigin::Authored),
                },
            ),
    {
        let ghost v0 = self.vault@;
        let deps = self.collect_deps(&hash, num_deps);
        let op = Op::new(hash, deps);
        let data = OpData { op, state: OpState::Pending(OpOrigin::Authored) };
        let ghost dv = data@;
        self.vault.insert(hash, data);
        proof {
            assert(vault_view(self.vault@) =~= vault_view(v0).insert(hash, dv));
        }
    }

    /// Store an op in the vault (as fetched and pending) or in the cache.
    pub fn store(&mut self, op: Op, destination: FetchDestination)
        ensures
            destination == FetchDestination::Vault ==> final(self).cache@ == old(self).cache@
                && vault_view(final(self).vault@) == vault_view(old(self).vault@).insert(
                op.hash,
                OpDataView { op: op@, state: OpStateView::Pending(OpOrigin::Fetched) },
            ),
            destination == FetchDestination::Cache ==> final(self).vault@ == old(self).vault@
                && cache_view(final(self).cache@) == cache_view(old(self).cache@).insert(op.hash, op@),
    {
        let ghost v0 = self.vault@;
        let ghost c0 = self.cache@;
        let ghost ov = op@;
        match destination {
            FetchDestination::Vault => {
                let h = op.hash;
                self.vault.insert(h, OpData { op, state: OpState::Pending(OpOrigin::Fetched) });
                proof {
                    assert(vault_view(self.vault@) =~= vault_view(v0).insert(
                        h,
                        OpDataView { op: ov, state: OpStateView::Pending(OpOrigin::Fetched) },
                    ));
                }
            },
            FetchDestination::Cache => {
                let h = op.hash;
                self.cache.insert(h, op);
                proof {
                    assert(cache_view(self.cache@) =~= cache_view(c0).insert(h, ov));
                }
            },
        }
    }

    /// Apply an event. An authored op gets the hash `fresh`.
    pub fn handle_event(&mut self, event: NodeEvent, fresh: OpHash)
        ensures
            handled(*old(self), *final(self), event, fresh),
    {
        match event {
            NodeEvent::AuthorOp(num_deps) => self.author(num_deps, fresh),
            NodeEvent::StoreOp(op, destination) => {
                self.store(op, destination);
            },
            NodeEvent::SetOpState(hash, state) => {
                let ghost v0 = self.vault@;
                match self.vault.remove(&hash) {
                    Some(data) => {
                        let ghost dv = data@;
                        if state_change_allowed_exec(&data.state, &state) {
                            let ghost sv = state@;
                            self.vault.insert(hash, OpData { op: data.op, state });
                            proof {
                                assert(vault_view(self.vault@) =~= vault_view(v0).insert(
                                    hash,
                                    OpDataView { op: dv.op, state: sv },
                                ));
                            }
                        } else {
                            self.vault.insert(hash, data);
                            proof {
                                assert(vault_view(self.vault@) =~= vault_view(v0));
                            }
                        }
                    },
                    None => {
                        proof {
                            assert(self.vault@ =~= v0);
                        }
                    },
                }
            },
            NodeEvent::SendOp(_, _) => {
                // not handled in the real system
            },
        }
    }
}

/// The ops whose state satisfies `pred`, in hash order.
pub open spec fn ops_where(s: Seq<(OpHash, OpData)>, pred: spec_fn(OpStateView) -> bool) -> Seq<OpView>
    decreases s.len(),
{
    if s.len() == 0 {
        Seq::empty()
    } else {
        let r = ops_where(s.drop_last(), pred);
        if pred(s.last().1.state@) {
            r.push(s.last().1.op@)
        } else {
            r
        }
    }
}

pub open spec fn is_pending(st: OpStateView) -> bool {
    st is Pending
}

pub open spec fn is_validated(st: OpStateView) -> bool {
    st is Validated
}

pub open spec fn is_integrated(st: OpStateView) -> bool {
    st is Integrated
}

/// Every dep of the op is held, in the vault or in the cache.
pub open spec fn deps_held(op: OpView, vault: Map<OpHash, OpData>, cache: Map<OpHash, Op>) -> bool {
    forall|i: int|
        0 <= i < op.deps.len() ==> vault.contains_key(#[trigger] op.deps[i]) || cache.contains_key(
            op.deps[i],
        )
}

/// The peer a reply goes to.
pub open spec fn reply_target(r: Option<(NodeId, Message)>) -> NodeId {
    match r {
        Some((n, _)) => n,
        None => arbitrary(),
    }
}

/// The message of a reply.
pub open spec fn reply_message(r: Option<(NodeId, Message)>) -> Message {
    match r {
        Some((_, m)) => m,
        None => arbitrary(),
    }
}

/// What a node does with its held ops on one step.
pub struct StepPlan {
    /// Pending ops, to be validated once the integration events are applied.
    pub to_validate: Vec<Op>,
    /// One integration event for each validated op.
    pub integrate: Vec<NodeEvent>,
    /// The validated ops, to be published to every peer.
    pub to_publish: Vec<Op>,
}

impl NodeState {
    /// Move ops through the validation pipeline: pending ops are to be
    /// validated, validated ops are to be integrated and published.
    pub fn plan_step(&self) -> (plan: StepPlan)
        requires
            no_missing_deps(vault_view(self.vault@)),
        ensures
            plan.to_validate@.map_values(|o: Op| o@) == ops_where(self.vault.entries(), |st: OpStateView| is_pending(st)),
            plan.to_publish@.map_values(|o: Op| o@) == ops_where(self.vault.entries(), |st: OpStateView| is_validated(st)),
            plan.integrate@.len() == plan.to_publish@.len(),
            forall|i: int|
                0 <= i < plan.integrate@.len() ==> (#[trigger] plan.integrate@[i]) is SetOpState
                    && plan.integrate@[i]->SetOpState_0 == plan.to_publish@[i].hash
                    && plan.integrate@[i]->SetOpState_1@ is Integrated,
    {
        let ghost s = self.vault.entries();
        let ghost pend = |st: OpStateView| is_pending(st);
        let ghost vald = |st: OpStateView| is_validated(st);
        let len = self.vault.len();
        let mut to_validate: Vec<Op> = Vec::new();
        let mut integrate: Vec<NodeEvent> = Vec::new();
        let mut to_publish: Vec<Op> = Vec::new();
        let mut i: usize = 0;
        while i < len
            invariant
                s == self.vault.entries(),
                len == s.len(),
                keys_sorted(s),
                self.vault@ == entries_map(s),
                no_missing_deps(vault_view(self.vault@)),
                i <= len,
                pend == (|st: OpStateView| is_pending(st)),
                vald == (|st: OpStateView| is_validated(st)),
                to_validate@.map_values(|o: Op| o@) == ops_where(s.take(i as int), pend),
                to_publish@.map_values(|o: Op| o@) == ops_where(s.take(i as int), vald),
                integrate@.len() == to_publish@.len(),
                forall|j: int|
                    0 <= j < integrate@.len() ==> (#[trigger] integrate@[j]) is SetOpState
                        && integrate@[j]->SetOpState_0 == to_publish@[j].hash
                        && integrate@[j]->SetOpState_1@ is Integrated,
            decreases len - i,
        {
            let e = self.vault.entry_at(i);
            proof {
                assert(s.take(i + 1).drop_last() =~= s.take(i as int));
                lemma_entries_map_at(s, i as int);
                assert(vault_view(self.vault@).contains_key(s[i as int].0));
            }
            let ghost tv = to_validate@;
            let ghost tp = to_publish@;
            match &e.1.state {
                OpState::Pending(_) => {
                    let op = e.1.op.duplicate();
                    to_validate.push(op);
                    proof {
                        assert(to_validate@.map_values(|o: Op| o@) =~= tv.map_values(|o: Op| o@).push(e.1.op@));
                    }
                },
                OpState::MissingDeps(_) => {
                    proof {
                        assert(false);
                    }
                },
                OpState::Validated => {
                    let h = e.1.op.hash;
                    integrate.push(NodeEvent::SetOpState(h, OpState::Integrated));
                    let op = e.1.op.duplicate();
                    to_publish.push(op);
                    proof {
                        assert(to_publish@.map_values(|o: Op| o@) =~= tp.map_values(|o: Op| o@).push(e.1.op@));
                        assert(to_publish@[to_publish@.len() - 1]@ == e.1.op@);
                    }
                },
                _ => {},
            }
            i = i + 1;
        }
        proof {
            assert(s.take(len as int) =~= s);
        }
        StepPlan { to_validate, integrate, to_publish }
    }

    fn holds(&self, h: &OpHash) -> (b: bool)
        ensures
            b == (self.vault@.contains_key(*h) || self.cache@.contains_key(*h)),
    {
        self.vault.contains_key(h) || self.cache.contains_key(h)
    }

    /// For each op to validate: validated if all of its deps are held,
    /// otherwise missing its deps.
    pub fn validation_events(&self, to_validate: &Vec<Op>) -> (events: Vec<NodeEvent>)
        ensures
            events@.len() == to_validate@.len(),
            forall|i: int|
                0 <= i < events@.len() ==> (#[trigger] events@[i]) is SetOpState
                    && events@[i]->SetOpState_0 == to_validate@[i].hash
                    && (deps_held(to_validate@[i]@, self.vault@, self.cache@) ==> events@[i]->SetOpState_1@ is Validated)
                    && (!deps_held(to_validate@[i]@, self.vault@, self.cache@) ==> events@[i]->SetOpState_1@
                        == OpStateView::MissingDeps(to_validate@[i].deps@)),
    {
        let mut events: Vec<NodeEvent> = Vec::new();
        let mut i: usize = 0;
        while i < to_validate.len()
            invariant
                i <= to_validate.len(),
                events@.len() == i,
                forall|j: int|
                    0 <= j < i ==> (#[trigger] events@[j]) is SetOpState
                        && events@[j]->SetOpState_0 == to_validate@[j].hash
                        && (deps_held(to_validate@[j]@, self.vault@, self.cache@) ==> events@[j]->SetOpState_1@ is Validated)
                        && (!deps_held(to_validate@[j]@, self.vault@, self.cache@) ==> events@[j]->SetOpState_1@
                            == OpStateView::MissingDeps(to_validate@[j].deps@)),
            decreases to_validate.len() - i,
        {
            let op = &to_validate[i];
            let mut all = true;
            let mut k: usize = 0;
            while k < op.deps.len()
                invariant
                    k <= op.deps.len(),
                    all == forall|t: int| 0 <= t < k ==> self.vault@.contains_key(#[trigger] op.deps@[t]) || self.cache@.contains_key(op.deps@[t]),
                decreases op.deps.len() - k,
            {
                if !self.holds(&op.deps[k]) {
                    all = false;
                }
                k = k + 1;
            }
            proof {
                let ov = to_validate@[i as int]@;
                assert(ov.deps == op.deps@);
                if all {
                    assert forall|t: int| 0 <= t < ov.deps.len() implies self.vault@.contains_key(#[trigger] ov.deps[t])
                        || self.cache@.contains_key(ov.deps[t]) by {
                        assert(ov.deps[t] == op.deps@[t]);
                    }
                } else {
                    let t = choose|t: int| 0 <= t < k && !(self.vault@.contains_key(#[trigger] op.deps@[t]) || self.cache@.contains_key(op.deps@[t]));
                    assert(ov.deps[t] == op.deps@[t]);
                }
                assert(all == deps_held(ov, self.vault@, self.cache@));
            }
            let ghost ev0 = events@;
            if all {
                events.push(NodeEvent::SetOpState(op.hash, OpState::Validated));
            } else {
                events.push(NodeEvent::SetOpState(op.hash, OpState::MissingDeps(copy_hashes(&op.deps))));
            }
            proof {
                assert forall|j: int| 0 <= j < i + 1 implies #[trigger] events@[j] == if j < i { ev0[j] } else { events@[i as int] } by {}
            }
            i = i + 1;
        }
        events
    }

    /// Every tenth step, the integrated ops to gossip to a random peer.
    pub fn gossip_ops(&self, t: usize) -> (r: Option<Vec<Op>>)
        ensures
            t % 10 == 0 <==> r is Some,
            r is Some ==> r->0@.map_values(|o: Op| o@) == ops_where(self.vault.entries(), |st: OpStateView| is_integrated(st)),
    {
        if t % 10 != 0 {
            return None;
        }
        let ghost s = self.vault.entries();
        let ghost intg = |st: OpStateView| is_integrated(st);
        let len = self.vault.len();
        let mut ops: Vec<Op> = Vec::new();
        let mut i: usize = 0;
        while i < len
            invariant
                s == self.vault.entries(),
                len == s.len(),
                i <= len,
                intg == (|st: OpStateView| is_integrated(st)),
                ops@.map_values(|o: Op| o@) == ops_where(s.take(i as int), intg),
            decreases len - i,
        {
            let e = self.vault.entry_at(i);
            proof {
                assert(s.take(i + 1).drop_last() =~= s.take(i as int));
            }
            let ghost ov = ops@;
            if e.1.state.is_integrated() {
                ops.push(e.1.op.duplicate());
                proof {
                    assert(ops@.map_values(|o: Op| o@) =~= ov.map_values(|o: Op| o@).push(e.1.op@));
                }
            }
            i = i + 1;
        }
        proof {
            assert(s.take(len as int) =~= s);
        }
        Some(ops)
    }

    /// The events and the reply with which a node answers a message from `from`.
    pub fn message_events(&self, from: NodeId, msg: Message) -> (r: (Vec<NodeEvent>, Option<(NodeId, Message)>))
        ensures
            match msg {
                Message::Publish(op) => r.0@.len() == 1 && r.0@[0] is StoreOp && r.0@[0]->StoreOp_0@ == op@
                    && r.0@[0]->StoreOp_1 == FetchDestination::Vault && r.1 is None,
                Message::Gossip(ops) => r.0@.len() == ops@.len() && r.1 is None && forall|i: int|
                    0 <= i < ops@.len() ==> (#[trigger] r.0@[i]) is StoreOp && r.0@[i]->StoreOp_0@ == ops@[i]@
                        && r.0@[i]->StoreOp_1 == FetchDestination::Vault,
                Message::FetchRequest(hash) => r.0@.len() == 0 && (r.1 is Some <==> (self.vault@.contains_key(hash)
                    && self.vault@[hash].state@ is Integrated)) && (r.1 is Some ==> reply_target(r.1) == from
                    && reply_message(r.1) is FetchResponse && reply_message(r.1)->FetchResponse_0@ == self.vault@[hash].op@),
                Message::FetchResponse(op) => r.0@.len() == 1 && r.0@[0] is StoreOp && r.0@[0]->StoreOp_0@ == op@
                    && r.0@[0]->StoreOp_1 == FetchDestination::Cache && r.1 is None,
            },
    {
        let mut events: Vec<NodeEvent> = Vec::new();
        match msg {
            Message::Publish(op) => {
                events.push(NodeEvent::StoreOp(op, FetchDestination::Vault));
                (events, None)
            },
            Message::Gossip(ops) => {
                let ghost ov = ops@;
                let mut ops = ops;
                let mut rest: Vec<Op> = Vec::new();
                // take the ops out in order
                while ops.len() > 0
                    invariant
                        rest@ + ops@ == ov,
                    decreases ops.len(),
                {
                    let o = ops.remove(0);
                    proof {
                        assert(rest@.push(o) + ops@ =~= ov);
                    }
                    rest.push(o);
                }
                proof {
                    assert(rest@ =~= ov);
                }
                let n = rest.len();
                let mut i: usize = 0;
                let mut rest = rest;
                let ghost full = rest@;
                while rest.len() > 0
                    invariant
                        i + rest@.len() == n,
                        n == ov.len(),
                        rest@ == ov.subrange(i as int, n as int),
                        events@.len() == i,
                        forall|j: int| 0 <= j < i ==> (#[trigger] events@[j]) is StoreOp && events@[j]->StoreOp_0@ == ov[j]@
                            && events@[j]->StoreOp_1 == FetchDestination::Vault,
                    decreases rest.len(),
                {
                    let o = rest.remove(0);
                    let ghost ev0 = events@;
                    proof {
                        assert(o == ov[i as int]);
                    }
                    events.push(NodeEvent::StoreOp(o, FetchDestination::Vault));
                    proof {
                        assert(rest@ =~= ov.subrange(i + 1, n as int));
                        assert forall|j: int| 0 <= j < i + 1 implies (#[trigger] events@[j]) is StoreOp && events@[j]->StoreOp_0@ == ov[j]@
                            && events@[j]->StoreOp_1 == FetchDestination::Vault by {
                            if j < i {
                                assert(events@[j] == ev0[j]);
                            }
                        }
                    }
                    i = i + 1;
                }
                (events, None)
            },
            Message::FetchRequest(hash) => {
                match self.vault.get(&hash) {
                    Some(d) => {
                        if d.state.is_integrated() {
                            (events, Some((from, Message::FetchResponse(d.op.duplicate()))))
                        } else {
                            (events, None)
                        }
                    },
                    None => (events, None),
                }
            },
            Message::FetchResponse(op) => {
                events.push(NodeEvent::StoreOp(op, FetchDestination::Cache));
                (events, None)
            },
        }
    }
}

proof fn lemma_keys_not_before_prefix(s: Seq<(OpHash, OpData)>, h: OpHash, i: int)
    requires
        0 <= i <= s.len(),
        keys_sorted(s),
    ensures
        keys_not_before(s.take(i), h).len() <= keys_not_before(s, h).len(),
        keys_not_before(s.take(i), h) == keys_not_before(s, h).take(keys_not_before(s.take(i), h).len() as int),
    decreases s.len() - i,
{
    if i < s.len() {
        lemma_keys_not_before_prefix(s, h, i + 1);
        let a = keys_not_before(s.take(i), h);
        let b = keys_not_before(s.take(i + 1), h);
        assert(s.take(i + 1).drop_last() =~= s.take(i));
        let full = keys_not_before(s, h);
        if b.len() > a.len() {
            assert(b == a.push(s[i].0));
            assert(a =~= b.take(a.len() as int));
            assert(full.take(b.len() as int).take(a.len() as int) =~= full.take(a.len() as int));
        } else {
            assert(b == a);
        }
    } else {
        assert(s.take(i) =~= s);
        assert(keys_not_before(s, h).take(keys_not_before(s, h).len() as int) =~= keys_not_before(s, h));
    }
}

/// No event leaves a held op waiting on missing deps when none was
/// before: authoring and storing hold ops as pending, and no accepted state
/// change leads to missing deps.
pub proof fn lemma_no_missing_deps_kept(
    v: Map<OpHash, OpDataView>,
    hash: OpHash,
    state: OpStateView,
    op: OpView,
    origin: OpOrigin,
)
    requires
        no_missing_deps(v),
    ensures
        no_missing_deps(set_state_vault(v, hash, state)),
        no_missing_deps(v.insert(op.hash, OpDataView { op, state: OpStateView::Pending(origin) })),
{
}

} // verus!
