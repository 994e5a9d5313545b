//! A gossiping node's view of its peers, where a closed round is followed
//! by a wait counted in ticks.

use vstd::prelude::*;
use crate::machine::Machine;
use crate::sorted_map::{entries_map, keys_sorted, lemma_entries_map_at, SortedMap};

verus! {

/// What can happen at a node.
#[derive(Clone, Copy, Debug, PartialEq, Eq, Hash, Structural)]
pub enum NodeAction {
    /// Tick the clock.
    Tick,
    /// Add a peer to the node's peer set.
    AddPeer(u32),
    /// Receive a message from another node.
    Incoming { from: u32, msg: Msg },
    /// Simulate a protocol error.
    Error { from: u32 },
}

/// A message from another node.
#[derive(Clone, Copy, Debug, PartialEq, Eq, Hash, Structural)]
pub enum Msg {
    /// Initiate a gossip round.
    Initiate,
    /// Complete a gossip round successfully, indicating whether new data was sent.
    Complete(bool),
}

/// Why a gossip round failed.
#[derive(Clone, Copy, Debug, PartialEq, Eq, Hash, Structural)]
pub enum FailureReason {
    Timeout,
    Protocol,
}

/// How the last gossip round with a peer ended.
#[derive(Clone, Copy, Debug, PartialEq, Eq, Hash, Structural)]
pub enum GossipOutcome {
    /// The round succeeded; true if new data was received.
    Success(bool),
    /// The round failed, by timeout or protocol error.
    Failure(FailureReason),
}

/// The state of a peer from the perspective of another.
#[derive(Clone, Copy, Debug, PartialEq, Eq, Hash, Structural)]
pub enum PeerState {
    /// No round, and free to start one.
    Stale,
    /// In a round.
    Active,
    /// The last round ended this way, so many ticks ago.
    Complete(GossipOutcome, usize),
}

impl Default for PeerState {
    fn default() -> (p: Self)
        ensures
            p == PeerState::Stale,
    {
        PeerState::Stale
    }
}

/// The machine of one node: how many ticks a peer waits after a
/// successful round and after a failed one.
#[derive(Clone, Copy, Debug)]
pub struct NodeMachine {
    success_ticks: usize,
    error_ticks: usize,
}

/// The peers of a single node.
pub struct NodeState {
    pub peers: SortedMap<u32, PeerState>,
}

impl View for NodeState {
    type V = Map<u32, PeerState>;

    open spec fn view(&self) -> Map<u32, PeerState> {
        self.peers@
    }
}

impl NodeState {
    /// A node with the given peers.
    pub fn new(peers: SortedMap<u32, PeerState>) -> (s: Self)
        ensures
            s@ == peers@,
    {
        NodeState { peers }
    }
}

impl Default for NodeState {
    fn default() -> (s: Self)
        ensures
            s@ == Map::<u32, PeerState>::empty(),
    {
        NodeState { peers: SortedMap::new() }
    }
}

/// Why a node refused an action.
#[derive(Clone, Copy, Debug, PartialEq, Eq, Hash, Structural)]
pub enum TimedNodeError {
    /// The peer is already known.
    PeerExists(u32),
    /// The sender is not a peer.
    NoPeer(u32),
    /// The peer is already in a gossip round.
    AlreadyInRound(u32),
    /// The peer's last round ended too recently to start another.
    TooSoon(u32),
    /// The peer is not in a gossip round.
    NotInRound(u32),
}

impl NodeMachine {
    /// How many ticks a peer waits after a successful round.
    pub closed spec fn success_wait(&self) -> usize {
        self.success_ticks
    }

    /// How many ticks a peer waits after a failed round.
    pub closed spec fn error_wait(&self) -> usize {
        self.error_ticks
    }

    #[verifier::type_invariant]
    spec fn inv(&self) -> bool {
        self.success_ticks < usize::MAX && self.error_ticks < usize::MAX
    }

    /// The wait after a round with this outcome.
    pub open spec fn wait(&self, o: GossipOutcome) -> usize {
        match o {
            GossipOutcome::Success(_) => self.success_wait(),
            GossipOutcome::Failure(_) => self.error_wait(),
        }
    }

    /// A peer one tick later: a round in progress times out, and the time
    /// since a closed round grows until the wait is over, when the peer
    /// becomes stale.
    pub open spec fn tick_peer(&self, p: PeerState) -> PeerState {
        match p {
            PeerState::Stale => PeerState::Stale,
            PeerState::Active => PeerState::Complete(GossipOutcome::Failure(FailureReason::Timeout), 0),
            PeerState::Complete(o, t) => if t <= self.wait(o) {
                PeerState::Complete(o, (t + 1) as usize)
            } else {
                PeerState::Stale
            },
        }
    }

    /// Every peer one tick later.
    pub open spec fn tick_all(&self, s: Map<u32, PeerState>) -> Map<u32, PeerState> {
        Map::new(|n: u32| s.contains_key(n), |n: u32| self.tick_peer(s[n]))
    }

    /// One step of a node.
    pub open spec fn next(&self, s: Map<u32, PeerState>, action: NodeAction) -> Result<
        Map<u32, PeerState>,
        TimedNodeError,
    > {
        match action {
            NodeAction::Tick => Ok(self.tick_all(s)),
            NodeAction::AddPeer(peer) => if s.contains_key(peer) {
                Err(TimedNodeError::PeerExists(peer))
            } else {
                Ok(s.insert(peer, PeerState::Stale))
            },
            NodeAction::Incoming { from, msg } => if !s.contains_key(from) {
                Err(TimedNodeError::NoPeer(from))
            } else {
                match msg {
                    Msg::Initiate => match s[from] {
                        PeerState::Active => Err(TimedNodeError::AlreadyInRound(from)),
                        PeerState::Complete(o, t) if t < self.wait(o) => Err(
                            TimedNodeError::TooSoon(from),
                        ),
                        _ => Ok(s.insert(from, PeerState::Active)),
                    },
                    Msg::Complete(new_data) => match s[from] {
                        PeerState::Active => Ok(
                            s.insert(from, PeerState::Complete(GossipOutcome::Success(new_data), 0)),
                        ),
                        _ => Err(TimedNodeError::NotInRound(from)),
                    },
                }
            },
            NodeAction::Error { from } => if !s.contains_key(from) {
                Err(TimedNodeError::NoPeer(from))
            } else {
                match s[from] {
                    PeerState::Active => Ok(
                        s.insert(
                            from,
                            PeerState::Complete(GossipOutcome::Failure(FailureReason::Protocol), 0),
                        ),
                    ),
                    _ => Err(TimedNodeError::NotInRound(from)),
                }
            },
        }
    }

    /// A peer waits one tick after a successful round and two after a
    /// failed one.
    pub fn new() -> (m: Self)
        ensures
            m.success_wait() == 1,
            m.error_wait() == 2,
    {
        NodeMachine { success_ticks: 1, error_ticks: 2 }
    }

    /// A node with no peers.
    pub fn initial(&self) -> (s: NodeState)
        ensures
            s@ == Map::<u32, PeerState>::empty(),
    {
        NodeState::default()
    }

    /// The wait after a round with this outcome.
    pub fn ticks(&self, outcome: &GossipOutcome) -> (t: usize)
        ensures
            t == self.wait(*outcome),
            t < usize::MAX,
    {
        proof {
            use_type_invariant(self);
        }
        match outcome {
            GossipOutcome::Success(_) => self.success_ticks,
            GossipOutcome::Failure(_) => self.error_ticks,
        }
    }

    fn tick_one(&self, p: PeerState) -> (r: PeerState)
        ensures
            r == self.tick_peer(p),
    {
        match p {
            PeerState::Stale => PeerState::Stale,
            PeerState::Active => PeerState::Complete(GossipOutcome::Failure(FailureReason::Timeout), 0),
            PeerState::Complete(o, t) => {
                if t <= self.ticks(&o) {
                    PeerState::Complete(o, t + 1)
                } else {
                    PeerState::Stale
                }
            },
        }
    }

    fn tick_peers(&self, peers: &SortedMap<u32, PeerState>) -> (r: SortedMap<u32, PeerState>)
        ensures
            r@ == self.tick_all(peers@),
    {
        let ghost s = peers.entries();
        let n = peers.len();
        let mut r: SortedMap<u32, PeerState> = SortedMap::new();
        let mut i: usize = 0;
        while i < n
            invariant
                s == peers.entries(),
                peers@ == entries_map(s),
                keys_sorted(s),
                n == s.len(),
                i <= n,
                forall|k: u32|
                    r@.contains_key(k) <==> exists|j: int| 0 <= j < i && #[trigger] s[j].0 == k,
                forall|k: u32| #[trigger] r@.contains_key(k) ==> r@[k] == self.tick_peer(peers@[k]),
            decreases n - i,
        {
            let e = peers.entry_at(i);
            let next = self.tick_one(e.1);
            proof {
                lemma_entries_map_at(s, i as int);
            }
            r.insert(e.0, next);
            proof {
                assert forall|k: u32|
                    r@.contains_key(k) <==> exists|j: int| 0 <= j < i + 1 && #[trigger] s[j].0 == k by {
                    if k == e.0 {
                        assert(s[i as int].0 == k);
                    }
                }
            }
            i = i + 1;
        }
        proof {
            assert forall|k: u32| r@.contains_key(k) <==> peers@.contains_key(k) by {
                if peers@.contains_key(k) {
                    let j = choose|j: int| 0 <= j < s.len() && s[j].0 == k;
                    assert(s[j].0 == k);
                }
                if r@.contains_key(k) {
                    let j = choose|j: int| 0 <= j < n && #[trigger] s[j].0 == k;
                    lemma_entries_map_at(s, j);
                }
            }
            assert(r@ =~= self.tick_all(peers@));
        }
        r
    }

    /// Apply `action` to the node.
    pub fn step(&self, state: NodeState, action: NodeAction) -> (r: Result<NodeState, TimedNodeError>)
        ensures
            match self.next(state@, action) {
                Ok(m) => r is Ok && r->Ok_0@ == m,
                Err(e) => r == Err::<NodeState, TimedNodeError>(e),
            },
    {
        let mut peers = state.peers;
        match action {
            NodeAction::Tick => {
                let ticked = self.tick_peers(&peers);
                return Ok(NodeState { peers: ticked });
            },
            NodeAction::AddPeer(peer) => {
                if peers.insert(peer, PeerState::default()).is_some() {
                    return Err(TimedNodeError::PeerExists(peer));
                }
            },
            NodeAction::Incoming { from, msg } => {
                let peer = match peers.remove(&from) {
                    Some(p) => p,
                    None => {
                        return Err(TimedNodeError::NoPeer(from));
                    },
                };
                let next = match msg {
                    Msg::Initiate => match peer {
                        PeerState::Active => {
                            return Err(TimedNodeError::AlreadyInRound(from));
                        },
                        PeerState::Complete(o, t) => {
                            if t < self.ticks(&o) {
                                return Err(TimedNodeError::TooSoon(from));
                            }
                            PeerState::Active
                        },
                        PeerState::Stale => PeerState::Active,
                    },
                    Msg::Complete(new_data) => match peer {
                        PeerState::Active => PeerState::Complete(GossipOutcome::Success(new_data), 0),
                        _ => {
                            return Err(TimedNodeError::NotInRound(from));
                        },
                    },
                };
                peers.insert(from, next);
            },
            NodeAction::Error { from } => {
                let peer = match peers.remove(&from) {
                    Some(p) => p,
                    None => {
                        return Err(TimedNodeError::NoPeer(from));
                    },
                };
                let next = match peer {
                    PeerState::Active => PeerState::Complete(
                        GossipOutcome::Failure(FailureReason::Protocol),
                        0,
                    ),
                    _ => {
                        return Err(TimedNodeError::NotInRound(from));
                    },
                };
                peers.insert(from, next);
            },
        }
        Ok(NodeState { peers })
    }
}

/// The peers after `k` ticks.
pub open spec fn ticks_later(m: NodeMachine, s: Map<u32, PeerState>, k: nat) -> Map<u32, PeerState>
    decreases k,
{
    if k == 0 {
        s
    } else {
        m.tick_all(ticks_later(m, s, (k - 1) as nat))
    }
}

/// After a round with a peer closes, the peer counts the ticks since, and
/// a new round with it is refused as too soon until the wait for that
/// outcome has passed; then it is accepted.
pub proof fn lemma_wait_before_next_round(
    m: NodeMachine,
    s: Map<u32, PeerState>,
    from: u32,
    o: GossipOutcome,
    k: nat,
)
    requires
        s.contains_key(from),
        s[from] == PeerState::Complete(o, 0),
        k <= m.wait(o),
    ensures
        ticks_later(m, s, k).contains_key(from),
        ticks_later(m, s, k)[from] == PeerState::Complete(o, k as usize),
        k < m.wait(o) ==> m.next(
            ticks_later(m, s, k),
            NodeAction::Incoming { from, msg: Msg::Initiate },
        ) == Err::<Map<u32, PeerState>, TimedNodeError>(TimedNodeError::TooSoon(from)),
        k == m.wait(o) ==> m.next(
            ticks_later(m, s, k),
            NodeAction::Incoming { from, msg: Msg::Initiate },
        ) == Ok::<Map<u32, PeerState>, TimedNodeError>(
            ticks_later(m, s, k).insert(from, PeerState::Active),
        ),
    decreases k,
{
    if k > 0 {
        lemma_wait_before_next_round(m, s, from, o, (k - 1) as nat);
    }
}

/// A tick keeps the same peers, and leaves a stale peer stale.
pub proof fn lemma_tick_keeps_peers(m: NodeMachine, s: Map<u32, PeerState>, n: u32)
    ensures
        m.tick_all(s).dom() == s.dom(),
        s.contains_key(n) && s[n] == PeerState::Stale ==> m.tick_all(s)[n] == PeerState::Stale,
{
    assert(m.tick_all(s).dom() =~= s.dom());
}

impl GossipOutcome {
    /// How long a peer waits after a round with this outcome.
    pub fn ticks(&self, machine: &NodeMachine) -> (t: usize)
        ensures
            t == machine.wait(*self),
    {
        machine.ticks(self)
    }
}

impl Machine for NodeMachine {
    type State = NodeState;
    type Action = NodeAction;
    type Fx = ();
    type Error = TimedNodeError;

    open spec fn admissible(&self, state: NodeState, action: NodeAction) -> bool {
        true
    }

    fn is_admissible(&self, state: &NodeState, action: &NodeAction) -> (b: bool) {
        true
    }

    open spec fn outcome(
        &self,
        state: NodeState,
        action: NodeAction,
        r: Result<(NodeState, ()), TimedNodeError>,
    ) -> bool {
        match self.next(state@, action) {
            Ok(m) => r is Ok && r->Ok_0.0@ == m,
            Err(e) => r == Err::<(NodeState, ()), TimedNodeError>(e),
        }
    }

    fn transition(&self, state: NodeState, action: NodeAction) -> (r: Result<
        (NodeState, ()),
        TimedNodeError,
    >)
    {
        match self.step(state, action) {
            Ok(s) => Ok((s, ())),
            Err(e) => Err(e),
        }
    }

    fn is_terminal(&self, _s: &NodeState) -> (b: bool)
        ensures
            !b,
    {
        false
    }
}

} // verus!
