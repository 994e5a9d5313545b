//! A gossiping node's view of its peers: gossip rounds with timers.

use vstd::prelude::*;
use crate::machine::Machine;
use crate::ids::string_from_chars;
use crate::sorted_map::{entries_map, keys_sorted, lemma_entries_map_at, SortedMap};

verus! {

/// Ticks a peer waits after a successful round.
pub const SUCCESS_TICKS: u16 = 1;

/// Ticks a peer waits after a failed round.
pub const ERROR_TICKS: u16 = 2;

/// A message from another node.
#[derive(Clone, Copy, Debug, PartialEq, Eq, Hash, Structural)]
pub enum Msg<C> {
    /// Initiate a gossip round.
    Initiate,
    /// Receive a valid message, continuing the round (details hidden here).
    Touch,
    /// Receive a message that goes against protocol, causing an error.
    Junk,
    /// Complete a gossip round successfully, indicating whether new data was sent.
    Complete(C),
}

/// What can happen at a node.
#[derive(Clone, Copy, Debug, PartialEq, Eq, Hash, Structural)]
pub enum NodeAction<C> {
    /// Tick the clock.
    Tick,
    /// Add a peer to the node's peer set.
    AddPeer(u32),
    /// Receive (and accept) a message from another node.
    Incoming { from: u32, msg: Msg<C> },
}

impl Msg<bool> {
    /// The same message with the completion status forgotten.
    pub fn forget_status(&self) -> (m: Msg<()>)
        ensures
            m == match *self {
                Msg::Initiate => Msg::<()>::Initiate,
                Msg::Touch => Msg::<()>::Touch,
                Msg::Junk => Msg::<()>::Junk,
                Msg::Complete(_) => Msg::<()>::Complete(()),
            },
    {
        match self {
            Msg::Initiate => Msg::Initiate,
            Msg::Touch => Msg::Touch,
            Msg::Junk => Msg::Junk,
            Msg::Complete(_) => Msg::Complete(()),
        }
    }
}

impl NodeAction<bool> {
    /// The same action with the completion status forgotten.
    pub fn forget_status(&self) -> (a: NodeAction<()>)
        ensures
            a == match *self {
                NodeAction::Tick => NodeAction::<()>::Tick,
                NodeAction::AddPeer(n) => NodeAction::<()>::AddPeer(n),
                NodeAction::Incoming { from, msg } => NodeAction::<()>::Incoming {
                    from,
                    msg: match msg {
                        Msg::Initiate => Msg::<()>::Initiate,
                        Msg::Touch => Msg::<()>::Touch,
                        Msg::Junk => Msg::<()>::Junk,
                        Msg::Complete(_) => Msg::<()>::Complete(()),
                    },
                },
            },
    {
        match self {
            NodeAction::Tick => NodeAction::Tick,
            NodeAction::AddPeer(n) => NodeAction::AddPeer(*n),
            NodeAction::Incoming { from, msg } => NodeAction::Incoming {
                from: *from,
                msg: msg.forget_status(),
            },
        }
    }
}

/// Why a gossip round failed.
#[derive(Clone, Copy, Debug, PartialEq, Eq, Hash, Structural)]
pub enum FailureReason {
    Timeout,
    Protocol,
}

/// How the last gossip round with a peer ended.
#[derive(Clone, Copy, Debug, PartialEq, Eq, Hash, Structural)]
pub enum GossipOutcome {
    /// The round succeeded; true if new data was received.
    Success(bool),
    /// The round failed.
    Failure(FailureReason),
}

pub open spec fn outcome_ticks(o: GossipOutcome) -> u16 {
    match o {
        GossipOutcome::Success(_) => SUCCESS_TICKS,
        GossipOutcome::Failure(_) => ERROR_TICKS,
    }
}

impl GossipOutcome {
    /// How long a peer waits after a round with this outcome.
    pub fn ticks(&self) -> (t: u16)
        ensures
            t == outcome_ticks(*self),
    {
        match self {
            GossipOutcome::Success(_) => SUCCESS_TICKS,
            GossipOutcome::Failure(_) => ERROR_TICKS,
        }
    }
}

/// The state of a peer from the perspective of another.
#[derive(Clone, Copy, Debug, PartialEq, Eq, Hash, Structural)]
pub enum PeerPhase {
    Ready,
    Active,
    Closed(GossipOutcome),
}

pub open spec fn initial_timer_spec(p: PeerPhase) -> u16 {
    match p {
        PeerPhase::Ready => 0,
        PeerPhase::Active => 1,
        PeerPhase::Closed(o) => outcome_ticks(o),
    }
}

impl PeerPhase {
    /// The timer a peer starts with on entering this phase.
    pub fn initial_timer(&self) -> (t: u16)
        ensures
            t == initial_timer_spec(*self),
    {
        match self {
            PeerPhase::Ready => 0,
            PeerPhase::Active => 1,
            PeerPhase::Closed(outcome) => outcome.ticks(),
        }
    }
}

impl Default for PeerPhase {
    fn default() -> (p: Self)
        ensures
            p == PeerPhase::Ready,
    {
        PeerPhase::Ready
    }
}

/// A peer: its phase and the ticks left before it times out.
#[derive(Clone, Copy, Debug, PartialEq, Eq, Hash, Structural)]
pub struct PeerState {
    pub phase: PeerPhase,
    pub timer: u16,
}

/// A ready peer with no time left to wait.
pub open spec fn ready_peer() -> PeerState {
    PeerState { phase: PeerPhase::Ready, timer: 0 }
}

pub open spec fn new_peer(phase: PeerPhase) -> PeerState {
    PeerState { phase, timer: initial_timer_spec(phase) }
}

/// The phase a peer moves to when its timer expires.
pub open spec fn expired_phase(p: PeerPhase) -> PeerPhase {
    match p {
        PeerPhase::Ready => PeerPhase::Ready,
        PeerPhase::Active => PeerPhase::Closed(GossipOutcome::Failure(FailureReason::Timeout)),
        PeerPhase::Closed(_) => PeerPhase::Ready,
    }
}

pub open spec fn timeout_spec(p: PeerState) -> PeerState {
    if p.timer == 0 {
        new_peer(expired_phase(p.phase))
    } else {
        p
    }
}

/// A peer one tick later.
pub open spec fn tick_peer(p: PeerState) -> PeerState {
    if p.timer == 0 {
        timeout_spec(p)
    } else {
        PeerState { timer: (p.timer - 1) as u16, ..p }
    }
}

impl PeerState {
    pub fn new(phase: PeerPhase) -> (p: Self)
        ensures
            p == new_peer(phase),
    {
        PeerState { timer: phase.initial_timer(), phase }
    }

    /// When the timer expires, the peer transitions to another state.
    pub fn timeout(&self) -> (p: Self)
        ensures
            p == timeout_spec(*self),
    {
        if self.timer == 0 {
            PeerState::new(
                match self.phase {
                    PeerPhase::Ready => PeerPhase::Ready,
                    PeerPhase::Active => PeerPhase::Closed(
                        GossipOutcome::Failure(FailureReason::Timeout),
                    ),
                    PeerPhase::Closed(_) => PeerPhase::Ready,
                },
            )
        } else {
            *self
        }
    }
}

impl Default for PeerState {
    fn default() -> (p: Self)
        ensures
            p == (PeerState { phase: PeerPhase::Ready, timer: 0 }),
    {
        PeerState { phase: PeerPhase::Ready, timer: 0 }
    }
}

/// The peers of a single node.
pub struct NodeState {
    pub peers: SortedMap<u32, PeerState>,
}

impl View for NodeState {
    type V = Map<u32, PeerState>;

    open spec fn view(&self) -> Map<u32, PeerState> {
        self.peers@
    }
}

impl NodeState {
    /// A node whose peers are all ready.
    pub fn new(peers: Vec<u32>) -> (s: Self)
        ensures
            forall|n: u32| s@.contains_key(n) <==> peers@.contains(n),
            forall|n: u32| #[trigger] s@.contains_key(n) ==> s@[n] == ready_peer(),
    {
        let mut m: SortedMap<u32, PeerState> = SortedMap::new();
        let mut i: usize = 0;
        while i < peers.len()
            invariant
                i <= peers.len(),
                forall|n: u32| m@.contains_key(n) <==> peers@.take(i as int).contains(n),
                forall|n: u32| #[trigger] m@.contains_key(n) ==> m@[n] == ready_peer(),
            decreases peers.len() - i,
        {
            let x = peers[i];
            m.insert(x, PeerState::default());
            proof {
                let pre = peers@.take(i + 1);
                assert forall|n: u32| m@.contains_key(n) <==> #[trigger] pre.contains(n) by {
                    if pre.contains(n) {
                        let t = choose|t: int| 0 <= t < i + 1 && pre[t] == n;
                        if t < i {
                            assert(peers@.take(i as int)[t] == n);
                        }
                    }
                    if peers@.take(i as int).contains(n) {
                        let t = choose|t: int| 0 <= t < i && #[trigger] peers@.take(i as int)[t] == n;
                        assert(pre[t] == n);
                    }
                    if n == x {
                        assert(pre[i as int] == n);
                    }
                }
            }
            i = i + 1;
        }
        proof {
            assert(peers@.take(peers.len() as int) =~= peers@);
        }
        NodeState { peers: m }
    }

    /// Puts the peer in the given phase; true if the peer is new.
    pub fn set_peer(&mut self, n: u32, phase: PeerPhase) -> (added: bool)
        ensures
            final(self)@ == old(self)@.insert(n, new_peer(phase)),
            added == !old(self)@.contains_key(n),
    {
        let old_v = self.peers.insert(n, PeerState::new(phase));
        old_v.is_none()
    }
}

/// Why a node refused an action.
#[derive(Clone, Copy, Debug, PartialEq, Eq, Hash, Structural)]
pub enum GossipNodeError {
    /// The peer is already known.
    PeerExists(u32),
    /// The sender is not a peer.
    NoPeer(u32),
    /// The peer is already in a gossip round.
    AlreadyInRound(u32),
    /// The peer's last round closed too recently.
    TooSoon(u32),
    /// The peer is not in a gossip round.
    NotInRound(u32),
}

/// Every peer one tick later.
pub open spec fn tick_all(s: Map<u32, PeerState>) -> Map<u32, PeerState> {
    Map::new(|n: u32| s.contains_key(n), |n: u32| tick_peer(s[n]))
}

/// One step of a node.
pub open spec fn gossip_node_next(s: Map<u32, PeerState>, action: NodeAction<bool>) -> Result<
    Map<u32, PeerState>,
    GossipNodeError,
> {
    match action {
        NodeAction::Tick => Ok(tick_all(s)),
        NodeAction::AddPeer(peer) => if s.contains_key(peer) {
            Err(GossipNodeError::PeerExists(peer))
        } else {
            Ok(s.insert(peer, new_peer(PeerPhase::Ready)))
        },
        NodeAction::Incoming { from, msg } => if !s.contains_key(from) {
            Err(GossipNodeError::NoPeer(from))
        } else {
            let phase = s[from].phase;
            match msg {
                Msg::Initiate => match phase {
                    PeerPhase::Active => Err(GossipNodeError::AlreadyInRound(from)),
                    PeerPhase::Closed(_) => Err(GossipNodeError::TooSoon(from)),
                    PeerPhase::Ready => Ok(s.insert(from, new_peer(PeerPhase::Active))),
                },
                Msg::Touch => if phase == PeerPhase::Active {
                    Ok(s.insert(from, PeerState { phase, timer: initial_timer_spec(phase) }))
                } else {
                    Err(GossipNodeError::NotInRound(from))
                },
                Msg::Junk => if phase == PeerPhase::Active {
                    Ok(
                        s.insert(
                            from,
                            new_peer(
                                PeerPhase::Closed(GossipOutcome::Failure(FailureReason::Protocol)),
                            ),
                        ),
                    )
                } else {
                    Err(GossipNodeError::NotInRound(from))
                },
                Msg::Complete(new_data) => if phase == PeerPhase::Active {
                    Ok(s.insert(from, new_peer(PeerPhase::Closed(GossipOutcome::Success(new_data)))))
                } else {
                    Err(GossipNodeError::NotInRound(from))
                },
            }
        },
    }
}

/// The machine of one gossiping node.
#[derive(Clone, Copy, Debug)]
pub struct NodeMachine;

fn tick_peers(peers: &SortedMap<u32, PeerState>) -> (r: SortedMap<u32, PeerState>)
    ensures
        r@ == tick_all(peers@),
{
    let ghost s = peers.entries();
    let n = peers.len();
    let mut r: SortedMap<u32, PeerState> = SortedMap::new();
    let mut i: usize = 0;
    while i < n
        invariant
            s == peers.entries(),
            peers@ == entries_map(s),
            keys_sorted(s),
            n == s.len(),
            i <= n,
            forall|k: u32| r@.contains_key(k) <==> exists|j: int| 0 <= j < i && #[trigger] s[j].0 == k,
            forall|k: u32| #[trigger] r@.contains_key(k) ==> r@[k] == tick_peer(peers@[k]),
        decreases n - i,
    {
        let e = peers.entry_at(i);
        let peer = e.1;
        let next = if peer.timer == 0 {
            peer.timeout()
        } else {
            PeerState { timer: peer.timer - 1, ..peer }
        };
        proof {
            lemma_entries_map_at(s, i as int);
        }
        r.insert(e.0, next);
        proof {
            assert forall|k: u32| r@.contains_key(k) <==> exists|j: int| 0 <= j < i + 1 && #[trigger] s[j].0 == k by {
                if k == e.0 {
                    assert(s[i as int].0 == k);
                }
            }
        }
        i = i + 1;
    }
    proof {
        assert forall|k: u32| r@.contains_key(k) <==> peers@.contains_key(k) by {
            if peers@.contains_key(k) {
                let j = choose|j: int| 0 <= j < s.len() && s[j].0 == k;
                assert(s[j].0 == k);
            }
            if r@.contains_key(k) {
                let j = choose|j: int| 0 <= j < n && #[trigger] s[j].0 == k;
                lemma_entries_map_at(s, j);
            }
        }
        assert(r@ =~= tick_all(peers@));
    }
    r
}

impl NodeMachine {
    pub fn new() -> (m: Self) {
        NodeMachine
    }

    /// A node whose peers are all the ids below `num_ids`, all ready.
    pub fn initial(&self, num_ids: u32) -> (s: NodeState)
        ensures
            forall|n: u32| s@.contains_key(n) <==> n < num_ids,
            forall|n: u32| #[trigger] s@.contains_key(n) ==> s@[n] == ready_peer(),
    {
        let mut ids: Vec<u32> = Vec::new();
        let mut i: u32 = 0;
        while i < num_ids
            invariant
                i <= num_ids,
                ids@.len() == i,
                forall|j: int| 0 <= j < i ==> ids@[j] == j,
            decreases num_ids - i,
        {
            ids.push(i);
            i = i + 1;
        }
        let s = NodeState::new(ids);
        proof {
            assert forall|n: u32| s@.contains_key(n) <==> n < num_ids by {
                if n < num_ids {
                    assert(ids@[n as int] == n);
                }
                if ids@.contains(n) {
                    let j = choose|j: int| 0 <= j < ids@.len() && ids@[j] == n;
                    assert(ids@[j] == j);
                }
            }
        }
        s
    }
}

impl Machine for NodeMachine {
    type State = NodeState;
    type Action = NodeAction<bool>;
    type Fx = ();
    type Error = GossipNodeError;

    open spec fn admissible(&self, state: NodeState, action: NodeAction<bool>) -> bool {
        true
    }

    fn is_admissible(&self, state: &NodeState, action: &NodeAction<bool>) -> (b: bool) {
        true
    }

    open spec fn outcome(
        &self,
        state: NodeState,
        action: NodeAction<bool>,
        r: Result<(NodeState, ()), GossipNodeError>,
    ) -> bool {
        match gossip_node_next(state@, action) {
            Ok(m) => r is Ok && r->Ok_0.0@ == m,
            Err(e) => r == Err::<(NodeState, ()), GossipNodeError>(e),
        }
    }

    fn transition(&self, state: NodeState, action: NodeAction<bool>) -> (r: Result<
        (NodeState, ()),
        GossipNodeError,
    >)
    {
        let mut state = state;
        match action {
            NodeAction::Tick => {
                let peers = tick_peers(&state.peers);
                Ok((NodeState { peers }, ()))
            },
            NodeAction::AddPeer(peer) => {
                if !state.set_peer(peer, PeerPhase::Ready) {
                    return Err(GossipNodeError::PeerExists(peer));
                }
                Ok((state, ()))
            },
            NodeAction::Incoming { from, msg } => {
                let peer = match state.peers.get(&from) {
                    Some(p) => *p,
                    None => {
                        return Err(GossipNodeError::NoPeer(from));
                    },
                };
                match msg {
                    Msg::Initiate => match peer.phase {
                        PeerPhase::Active => {
                            return Err(GossipNodeError::AlreadyInRound(from));
                        },
                        PeerPhase::Closed(_) => {
                            return Err(GossipNodeError::TooSoon(from));
                        },
                        _ => {
                            state.set_peer(from, PeerPhase::Active);
                        },
                    },
                    Msg::Touch => match peer.phase {
                        PeerPhase::Active => {
                            let t = peer.phase.initial_timer();
                            state.peers.insert(from, PeerState { timer: t, ..peer });
                        },
                        _ => {
                            return Err(GossipNodeError::NotInRound(from));
                        },
                    },
                    Msg::Junk => match peer.phase {
                        PeerPhase::Active => {
                            state.set_peer(
                                from,
                                PeerPhase::Closed(GossipOutcome::Failure(FailureReason::Protocol)),
                            );
                        },
                        _ => {
                            return Err(GossipNodeError::NotInRound(from));
                        },
                    },
                    Msg::Complete(new_data) => match peer.phase {
                        PeerPhase::Active => {
                            state.set_peer(from, PeerPhase::Closed(GossipOutcome::Success(new_data)));
                        },
                        _ => {
                            return Err(GossipNodeError::NotInRound(from));
                        },
                    },
                }
                Ok((state, ()))
            },
        }
    }

    fn is_terminal(&self, _s: &NodeState) -> (b: bool)
        ensures
            !b,
    {
        false
    }
}

/// A tick is always enabled and keeps the set of peers.
pub proof fn lemma_tick_total(s: Map<u32, PeerState>)
    ensures
        gossip_node_next(s, NodeAction::Tick) is Ok,
        gossip_node_next(s, NodeAction::Tick)->Ok_0.dom() == s.dom(),
{
    assert(tick_all(s).dom() =~= s.dom());
}

/// A peer whose last round closed never goes straight back into a round,
/// and a round only times out once its timer has run down.
pub proof fn lemma_no_premature_round(s: Map<u32, PeerState>, action: NodeAction<bool>, n: u32)
    requires
        s.contains_key(n),
        gossip_node_next(s, action) is Ok,
    ensures
        ({
            let a = s[n];
            let b = gossip_node_next(s, action)->Ok_0[n];
            &&& !(a.phase is Closed && b.phase == PeerPhase::Active)
            &&& (a.phase == PeerPhase::Active && b.phase == PeerPhase::Closed(
                GossipOutcome::Failure(FailureReason::Timeout),
            ) ==> a.timer == 0)
        }),
{
}

/// While a peer stays closed, its timer never goes up.
pub proof fn lemma_closed_timer_decreases(s: Map<u32, PeerState>, action: NodeAction<bool>, n: u32)
    requires
        s.contains_key(n),
        gossip_node_next(s, action) is Ok,
        s[n].phase is Closed,
        gossip_node_next(s, action)->Ok_0[n].phase is Closed,
    ensures
        gossip_node_next(s, action)->Ok_0[n].timer <= s[n].timer,
{
}

/// Every action keeps every peer the node already has.
pub proof fn lemma_peers_kept(s: Map<u32, PeerState>, action: NodeAction<bool>, n: u32)
    requires
        s.contains_key(n),
        gossip_node_next(s, action) is Ok,
    ensures
        gossip_node_next(s, action)->Ok_0.contains_key(n),
{
}

/// The name under which a peer's phase is shown.
pub open spec fn phase_name(p: PeerPhase) -> Seq<char> {
    match p {
        PeerPhase::Ready => "Ready"@,
        PeerPhase::Active => "Active"@,
        PeerPhase::Closed(GossipOutcome::Success(_)) => "Success"@,
        PeerPhase::Closed(GossipOutcome::Failure(_)) => "Failure"@,
    }
}

/// The character of a decimal digit.
pub open spec fn decimal_digit(d: nat) -> char {
    ((48 + d) as u8) as char
}

/// A number written in decimal, without leading zeros.
pub open spec fn decimal(n: nat) -> Seq<char>
    decreases n,
{
    if n < 10 {
        seq![decimal_digit(n)]
    } else {
        decimal(n / 10).push(decimal_digit(n % 10))
    }
}

/// How a peer is shown: its phase, and with `timed` its timer too.
pub open spec fn peer_label(timed: bool, p: PeerState) -> Seq<char> {
    if timed {
        phase_name(p.phase) + " t="@ + decimal(p.timer as nat)
    } else {
        phase_name(p.phase)
    }
}

/// The characters of the name of phase `p`.
fn phase_chars(p: PeerPhase) -> (cs: Vec<char>)
    ensures
        cs@ == phase_name(p),
{
    match p {
        PeerPhase::Ready => {
            let v = vec!['R', 'e', 'a', 'd', 'y'];
            proof {
                reveal_strlit("Ready");
                assert(v@ =~= "Ready"@);
            }
            v
        },
        PeerPhase::Active => {
            let v = vec!['A', 'c', 't', 'i', 'v', 'e'];
            proof {
                reveal_strlit("Active");
                assert(v@ =~= "Active"@);
            }
            v
        },
        PeerPhase::Closed(GossipOutcome::Success(_)) => {
            let v = vec!['S', 'u', 'c', 'c', 'e', 's', 's'];
            proof {
                reveal_strlit("Success");
                assert(v@ =~= "Success"@);
            }
            v
        },
        PeerPhase::Closed(GossipOutcome::Failure(_)) => {
            let v = vec!['F', 'a', 'i', 'l', 'u', 'r', 'e'];
            proof {
                reveal_strlit("Failure");
                assert(v@ =~= "Failure"@);
            }
            v
        },
    }
}

/// The decimal digits of `n`, without leading zeros.
fn decimal_chars(n: u16) -> (cs: Vec<char>)
    ensures
        cs@ == decimal(n as nat),
    decreases n,
{
    let d: u8 = (n % 10) as u8;
    let c = (48u8 + d) as char;
    proof {
        assert(c == decimal_digit((n % 10) as nat));
    }
    if n < 10 {
        let v = vec![c];
        proof {
            assert(v@ =~= seq![decimal_digit(n as nat)]);
        }
        v
    } else {
        let mut v = decimal_chars(n / 10);
        v.push(c);
        v
    }
}

/// The phase's name, a space, `t=` and the timer in decimal.
fn timed_label(p: PeerPhase, timer: u16) -> (s: String)
    ensures
        s@ == phase_name(p) + " t="@ + decimal(timer as nat),
{
    let mut cs = phase_chars(p);
    let ghost head = cs@;
    cs.push(' ');
    cs.push('t');
    cs.push('=');
    let ds = decimal_chars(timer);
    let mut i: usize = 0;
    while i < ds.len()
        invariant
            i <= ds@.len(),
            cs@ == head + seq![' ', 't', '='] + ds@.take(i as int),
        decreases ds.len() - i,
    {
        cs.push(ds[i]);
        proof {
            assert(ds@.take(i + 1) =~= ds@.take(i as int).push(ds@[i as int]));
        }
        i = i + 1;
    }
    proof {
        reveal_strlit(" t=");
        assert(ds@.take(ds@.len() as int) =~= ds@);
        assert(" t="@ =~= seq![' ', 't', '=']);
    }
    string_from_chars(&cs)
}

/// A node's peers reduced to one label each, for printing and for telling
/// apart states that look alike.
pub struct NodeStateSimple(pub SortedMap<u32, String>);

impl View for NodeStateSimple {
    type V = Map<u32, Seq<char>>;

    open spec fn view(&self) -> Map<u32, Seq<char>> {
        self.0@.map_values(|s: String| s@)
    }
}

impl NodeStateSimple {
    /// Labels every peer of `state` by its phase, and with `timed` by its
    /// timer too.
    pub fn new(timed: bool, state: NodeState) -> (r: Self)
        ensures
            r@.dom() == state@.dom(),
            forall|n: u32| #[trigger] r@.contains_key(n) ==> r@[n] == peer_label(timed, state@[n]),
    {
        let peers = state.peers;
        let ghost s = peers.entries();
        let n = peers.len();
        let mut r: SortedMap<u32, String> = SortedMap::new();
        let mut i: usize = 0;
        while i < n
            invariant
                s == peers.entries(),
                peers@ == entries_map(s),
                keys_sorted(s),
                n == s.len(),
                i <= n,
                forall|k: u32| r@.contains_key(k) <==> exists|j: int| 0 <= j < i && #[trigger] s[j].0 == k,
                forall|k: u32| #[trigger] r@.contains_key(k) ==> r@[k]@ == peer_label(timed, peers@[k]),
            decreases n - i,
        {
            let e = peers.entry_at(i);
            let peer = e.1;
            let phase: &str = match peer.phase {
                PeerPhase::Ready => "Ready",
                PeerPhase::Active => "Active",
                PeerPhase::Closed(GossipOutcome::Success(_)) => "Success",
                PeerPhase::Closed(GossipOutcome::Failure(_)) => "Failure",
            };
            let label = if timed {
                timed_label(peer.phase, peer.timer)
            } else {
                phase.to_owned()
            };
            proof {
                lemma_entries_map_at(s, i as int);
            }
            r.insert(e.0, label);
            proof {
                assert forall|k: u32| r@.contains_key(k) <==> exists|j: int| 0 <= j < i + 1 && #[trigger] s[j].0 == k by {
                    if k == e.0 {
                        assert(s[i as int].0 == k);
                    }
                }
            }
            i = i + 1;
        }
        proof {
            assert forall|k: u32| r@.contains_key(k) <==> peers@.contains_key(k) by {
                if peers@.contains_key(k) {
                    let j = choose|j: int| 0 <= j < s.len() && s[j].0 == k;
                    assert(s[j].0 == k);
                }
                if r@.contains_key(k) {
                    let j = choose|j: int| 0 <= j < n && #[trigger] s[j].0 == k;
                    lemma_entries_map_at(s, j);
                }
            }
        }
        let out = NodeStateSimple(r);
        proof {
            assert(out@.dom() =~= state@.dom());
        }
        out
    }
}


/// A touch gives an active round as much time as it had when it began:
/// the peer ends as it would after initiating a round from ready, and the
/// round survives the next tick.
pub proof fn lemma_touch_renews_round(s: Map<u32, PeerState>, n: u32)
    requires
        s.contains_key(n),
        s[n].phase == PeerPhase::Active,
    ensures
        gossip_node_next(s, NodeAction::Incoming { from: n, msg: Msg::Touch }) is Ok,
        gossip_node_next(s.insert(n, ready_peer()), NodeAction::Incoming { from: n, msg: Msg::Initiate })
            is Ok,
        gossip_node_next(s, NodeAction::Incoming { from: n, msg: Msg::Touch })->Ok_0[n]
            == gossip_node_next(
            s.insert(n, ready_peer()),
            NodeAction::Incoming { from: n, msg: Msg::Initiate },
        )->Ok_0[n],
        gossip_node_next(
            gossip_node_next(s, NodeAction::Incoming { from: n, msg: Msg::Touch })->Ok_0,
            NodeAction::Tick,
        )->Ok_0[n].phase == PeerPhase::Active,
{
    let s2 = gossip_node_next(s, NodeAction::Incoming { from: n, msg: Msg::Touch })->Ok_0;
    assert(s2.contains_key(n));
    assert(tick_all(s2)[n] == tick_peer(s2[n]));
}

} // verus!
