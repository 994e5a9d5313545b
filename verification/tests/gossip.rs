use polestar_models::gossip_network::{GossipAction, GossipMachine, GossipNetworkError};
use polestar_models::gossip_node::{
    FailureReason, GossipNodeError, GossipOutcome, Msg, NodeAction, NodeMachine, NodeState,
    NodeStateSimple, PeerPhase, PeerState,
};
use polestar_models::gossip_node_timed as timed;
use polestar_models::machine::Machine;
use polestar_models::sorted_map::SortedMap;

fn peer(s: &NodeState, n: u32) -> PeerState {
    *s.peers.get(&n).unwrap()
}

fn step(m: &NodeMachine, s: NodeState, a: NodeAction<bool>) -> NodeState {
    m.transition(s, a).unwrap().0
}

#[test]
fn a_round_times_out_and_the_peer_waits_before_the_next() {
    let m = NodeMachine::new();
    let s = m.initial(3);
    assert_eq!(peer(&s, 1), PeerState { phase: PeerPhase::Ready, timer: 0 });
    let s = step(&m, s, NodeAction::Incoming { from: 1, msg: Msg::Initiate });
    assert_eq!(peer(&s, 1), PeerState { phase: PeerPhase::Active, timer: 1 });
    let s = step(&m, s, NodeAction::Tick);
    assert_eq!(peer(&s, 1), PeerState { phase: PeerPhase::Active, timer: 0 });
    let s = step(&m, s, NodeAction::Tick);
    assert_eq!(
        peer(&s, 1),
        PeerState { phase: PeerPhase::Closed(GossipOutcome::Failure(FailureReason::Timeout)), timer: 2 }
    );
    let r = m.transition(s, NodeAction::Incoming { from: 1, msg: Msg::Initiate });
    assert!(matches!(r, Err(GossipNodeError::TooSoon(1))));
}

#[test]
fn a_completed_round_closes_with_success() {
    let m = NodeMachine::new();
    let s = step(&m, m.initial(2), NodeAction::Incoming { from: 0, msg: Msg::Initiate });
    let s = step(&m, s, NodeAction::Incoming { from: 0, msg: Msg::Touch });
    assert_eq!(peer(&s, 0), PeerState { phase: PeerPhase::Active, timer: 1 });
    let s = step(&m, s, NodeAction::Incoming { from: 0, msg: Msg::Complete(true) });
    assert_eq!(
        peer(&s, 0),
        PeerState { phase: PeerPhase::Closed(GossipOutcome::Success(true)), timer: 1 }
    );
    let s = step(&m, s, NodeAction::Tick);
    let s = step(&m, s, NodeAction::Tick);
    assert_eq!(peer(&s, 0), PeerState { phase: PeerPhase::Ready, timer: 0 });
    let s = step(&m, s, NodeAction::Incoming { from: 0, msg: Msg::Initiate });
    assert_eq!(peer(&s, 0).phase, PeerPhase::Active);
}

#[test]
fn junk_fails_the_round_and_messages_outside_a_round_are_refused() {
    let m = NodeMachine::new();
    let s = step(&m, m.initial(2), NodeAction::Incoming { from: 1, msg: Msg::Initiate });
    let s = step(&m, s, NodeAction::Incoming { from: 1, msg: Msg::Junk });
    assert_eq!(
        peer(&s, 1),
        PeerState { phase: PeerPhase::Closed(GossipOutcome::Failure(FailureReason::Protocol)), timer: 2 }
    );
    let r = m.transition(s, NodeAction::Incoming { from: 1, msg: Msg::Complete(false) });
    assert!(matches!(r, Err(GossipNodeError::NotInRound(1))));
    let r = m.transition(m.initial(2), NodeAction::Incoming { from: 5, msg: Msg::Touch });
    assert!(matches!(r, Err(GossipNodeError::NoPeer(5))));
    let r = m.transition(m.initial(2), NodeAction::AddPeer(1));
    assert!(matches!(r, Err(GossipNodeError::PeerExists(1))));
    let s = step(&m, m.initial(2), NodeAction::AddPeer(7));
    assert_eq!(peer(&s, 7), PeerState { phase: PeerPhase::Ready, timer: 0 });
    let r = m.transition(s, NodeAction::Incoming { from: 7, msg: Msg::Initiate });
    assert!(r.is_ok());
}

#[test]
fn forgetting_the_status_keeps_the_shape_of_an_action() {
    assert_eq!(
        NodeAction::Incoming { from: 2, msg: Msg::Complete(true) }.forget_status(),
        NodeAction::<()>::Incoming { from: 2, msg: Msg::Complete(()) }
    );
    assert_eq!(NodeAction::<bool>::Tick.forget_status(), NodeAction::<()>::Tick);
    assert_eq!(GossipOutcome::Success(false).ticks(), 1);
    assert_eq!(GossipOutcome::Failure(FailureReason::Timeout).ticks(), 2);
}

#[test]
fn gossip_network_routes_actions_to_nodes() {
    let m = GossipMachine::new();
    let s = m.initial(3);
    let r = m.transition(m.initial(3), GossipAction(0, NodeAction::AddPeer(0)));
    assert!(matches!(r, Err(GossipNetworkError::SelfPeer)));
    let r = m.transition(m.initial(3), GossipAction(9, NodeAction::Tick));
    assert!(matches!(r, Err(GossipNetworkError::NoNode(9))));
    let (s, ()) = m
        .transition(s, GossipAction(0, NodeAction::Incoming { from: 1, msg: Msg::Initiate }))
        .unwrap();
    assert_eq!(s.nodes.get(&0).unwrap().peers.get(&1).unwrap().phase, PeerPhase::Active);
    assert_eq!(s.nodes.get(&1).unwrap().peers.get(&0).unwrap().phase, PeerPhase::Ready);
    assert!(s.nodes.get(&0).unwrap().peers.get(&0).is_none());
    let r = m.transition(s, GossipAction(0, NodeAction::Incoming { from: 1, msg: Msg::Initiate }));
    assert!(matches!(r, Err(GossipNetworkError::Node(GossipNodeError::AlreadyInRound(1)))));
}

fn timed_step(m: &timed::NodeMachine, s: timed::NodeState, a: timed::NodeAction) -> timed::NodeState {
    m.transition(s, a).unwrap().0
}

fn timed_peer(s: &timed::NodeState, n: u32) -> timed::PeerState {
    *s.peers.get(&n).unwrap()
}

#[test]
fn timed_node_waits_after_a_round_before_the_next() {
    let m = timed::NodeMachine::new();
    let s = timed_step(&m, m.initial(), timed::NodeAction::AddPeer(1));
    assert_eq!(timed_peer(&s, 1), timed::PeerState::Stale);
    let s = timed_step(&m, s, timed::NodeAction::Incoming { from: 1, msg: timed::Msg::Initiate });
    assert_eq!(timed_peer(&s, 1), timed::PeerState::Active);
    let s = timed_step(&m, s, timed::NodeAction::Incoming { from: 1, msg: timed::Msg::Complete(true) });
    assert_eq!(
        timed_peer(&s, 1),
        timed::PeerState::Complete(timed::GossipOutcome::Success(true), 0)
    );
    let r = m.transition(s, timed::NodeAction::Incoming { from: 1, msg: timed::Msg::Initiate });
    assert!(matches!(r, Err(timed::TimedNodeError::TooSoon(1))));

    let mut peers = SortedMap::new();
    peers.insert(1u32, timed::PeerState::Complete(timed::GossipOutcome::Success(true), 0));
    let s = timed::NodeState::new(peers);
    let s = timed_step(&m, s, timed::NodeAction::Tick);
    assert_eq!(
        timed_peer(&s, 1),
        timed::PeerState::Complete(timed::GossipOutcome::Success(true), 1)
    );
    let s = timed_step(&m, s, timed::NodeAction::Incoming { from: 1, msg: timed::Msg::Initiate });
    assert_eq!(timed_peer(&s, 1), timed::PeerState::Active);
}

#[test]
fn timed_node_ticks_rounds_to_timeout_and_then_to_stale() {
    let m = timed::NodeMachine::new();
    let mut peers = SortedMap::new();
    peers.insert(1u32, timed::PeerState::Active);
    peers.insert(2u32, timed::PeerState::Complete(timed::GossipOutcome::Success(false), 1));
    peers.insert(3u32, timed::PeerState::Stale);
    let s = timed_step(&m, timed::NodeState::new(peers), timed::NodeAction::Tick);
    assert_eq!(
        timed_peer(&s, 1),
        timed::PeerState::Complete(timed::GossipOutcome::Failure(timed::FailureReason::Timeout), 0)
    );
    assert_eq!(
        timed_peer(&s, 2),
        timed::PeerState::Complete(timed::GossipOutcome::Success(false), 2)
    );
    assert_eq!(timed_peer(&s, 3), timed::PeerState::Stale);
    let s = timed_step(&m, s, timed::NodeAction::Tick);
    assert_eq!(timed_peer(&s, 2), timed::PeerState::Stale);
    assert_eq!(timed::GossipOutcome::Failure(timed::FailureReason::Protocol).ticks(&m), 2);
}

#[test]
fn timed_node_errors_close_rounds_and_unknown_peers_are_refused() {
    let m = timed::NodeMachine::new();
    let s = timed_step(&m, m.initial(), timed::NodeAction::AddPeer(4));
    let r = m.transition(s, timed::NodeAction::Error { from: 4 });
    assert!(matches!(r, Err(timed::TimedNodeError::NotInRound(4))));
    let s = timed_step(&m, m.initial(), timed::NodeAction::AddPeer(4));
    let s = timed_step(&m, s, timed::NodeAction::Incoming { from: 4, msg: timed::Msg::Initiate });
    let s = timed_step(&m, s, timed::NodeAction::Error { from: 4 });
    assert_eq!(
        timed_peer(&s, 4),
        timed::PeerState::Complete(timed::GossipOutcome::Failure(timed::FailureReason::Protocol), 0)
    );
    let r = m.transition(s, timed::NodeAction::Incoming { from: 5, msg: timed::Msg::Initiate });
    assert!(matches!(r, Err(timed::TimedNodeError::NoPeer(5))));
    let s = timed_step(&m, m.initial(), timed::NodeAction::AddPeer(4));
    let r = m.transition(s, timed::NodeAction::AddPeer(4));
    assert!(matches!(r, Err(timed::TimedNodeError::PeerExists(4))));
}

#[test]
fn simple_states_label_each_peer_by_phase_and_timer() {
    let m = NodeMachine::new();
    let s = step(&m, m.initial(3), NodeAction::Incoming { from: 1, msg: Msg::Initiate });
    let mut s = s;
    s.set_peer(2, PeerPhase::Closed(GossipOutcome::Failure(FailureReason::Timeout)));
    let plain = NodeStateSimple::new(false, s);
    assert_eq!(plain.0.len(), 3);
    assert_eq!(plain.0.get(&0).unwrap(), "Ready");
    assert_eq!(plain.0.get(&1).unwrap(), "Active");
    assert_eq!(plain.0.get(&2).unwrap(), "Failure");
    let mut s = m.initial(2);
    s.set_peer(1, PeerPhase::Closed(GossipOutcome::Success(true)));
    let timed = NodeStateSimple::new(true, s);
    assert_eq!(timed.0.get(&0).unwrap(), "Ready t=0");
    assert_eq!(timed.0.get(&1).unwrap(), "Success t=1");
}
