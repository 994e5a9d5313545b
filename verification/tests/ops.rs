use polestar_models::ids::{Id, NodeId, Op, OpHash};
use polestar_models::machine::Machine;
use polestar_models::ops_model::{
    node_op_step, NetworkOp, NetworkOpError, NetworkOpEvent, NetworkOpMachine, NodeOpError, NodeOpEvent,
    NodeOpPhase,
};
use polestar_models::ops_projection::NetworkOpProjection;
use polestar_models::ops_system::{FetchDestination, Message, NodeEvent, NodeState, OpOrigin, OpState};
use polestar_models::sorted_map::SortedMap;

fn node(i: u32) -> NodeId {
    NodeId(Id::from_int(i))
}

fn hash(i: u32) -> OpHash {
    OpHash(Id::from_int(i))
}

#[test]
fn node_op_phases() {
    assert_eq!(node_op_step(NodeOpPhase::Unseen, NodeOpEvent::Author), Ok(NodeOpPhase::Pending));
    assert_eq!(node_op_step(NodeOpPhase::Unseen, NodeOpEvent::Store), Ok(NodeOpPhase::Pending));
    assert_eq!(node_op_step(NodeOpPhase::Validated, NodeOpEvent::Store), Ok(NodeOpPhase::Validated));
    assert_eq!(
        node_op_step(NodeOpPhase::Pending, NodeOpEvent::Author),
        Err(NodeOpError::DuplicateAuthorship)
    );
    assert_eq!(node_op_step(NodeOpPhase::Pending, NodeOpEvent::Validate), Ok(NodeOpPhase::Validated));
    assert_eq!(node_op_step(NodeOpPhase::Validated, NodeOpEvent::Integrate), Ok(NodeOpPhase::Integrated));
    assert_eq!(node_op_step(NodeOpPhase::Integrated, NodeOpEvent::Reject), Ok(NodeOpPhase::Integrated));
    assert_eq!(
        node_op_step(NodeOpPhase::Pending, NodeOpEvent::Integrate),
        Err(NodeOpError::InvalidTransition(NodeOpPhase::Pending, NodeOpEvent::Integrate))
    );
}

#[test]
fn network_op_sends_only_after_integration() {
    let ids = [node(1), node(2)];
    let m = NetworkOpMachine;
    let s = NetworkOp::new_empty(&ids);
    let r = m.transition(NetworkOp::new_empty(&ids), NetworkOpEvent(node(1), NodeOpEvent::Send(node(2))));
    assert!(matches!(r, Err(NetworkOpError::NoneIntegrated)));
    let (s, ()) = m.transition(s, NetworkOpEvent(node(1), NodeOpEvent::Author)).unwrap();
    let r = m.transition(s, NetworkOpEvent(node(2), NodeOpEvent::Author));
    assert!(matches!(r, Err(NetworkOpError::SecondAuthor)));
    let s = NetworkOp::new_empty(&ids);
    let (s, ()) = m.transition(s, NetworkOpEvent(node(1), NodeOpEvent::Author)).unwrap();
    let (s, ()) = m.transition(s, NetworkOpEvent(node(1), NodeOpEvent::Validate)).unwrap();
    let (s, ()) = m.transition(s, NetworkOpEvent(node(1), NodeOpEvent::Integrate)).unwrap();
    let (s, ()) = m.transition(s, NetworkOpEvent(node(1), NodeOpEvent::Send(node(2)))).unwrap();
    assert_eq!(s.nodes.get(&node(2)), Some(&NodeOpPhase::Pending));
    let r = m.transition(s, NetworkOpEvent(node(1), NodeOpEvent::Send(node(1))));
    assert!(matches!(r, Err(NetworkOpError::SendToSelf)));
}

#[test]
fn network_op_refuses_a_second_send_and_unknown_nodes() {
    let mut nodes = SortedMap::new();
    nodes.insert(node(1), NodeOpPhase::Integrated);
    nodes.insert(node(2), NodeOpPhase::Pending);
    let m = NetworkOpMachine;
    let r = m.transition(NetworkOp::new(nodes), NetworkOpEvent(node(1), NodeOpEvent::Send(node(2))));
    assert!(matches!(r, Err(NetworkOpError::SendTwice)));
    let mut nodes = SortedMap::new();
    nodes.insert(node(1), NodeOpPhase::Pending);
    let r = m.transition(NetworkOp::new(nodes), NetworkOpEvent(node(3), NodeOpEvent::Validate));
    assert!(matches!(r, Err(NetworkOpError::NoNode(_))));
}

#[test]
fn authoring_takes_held_hashes_from_the_new_one_up() {
    let mut n = NodeState::new();
    n.author(0, hash(5));
    n.author(0, hash(2));
    // Depends on up to three held ops whose hashes do not sort before "E".
    n.author(3, hash(4));
    let op = n.get_op(&hash(4)).unwrap();
    assert_eq!(op.op.deps, vec![hash(5)]);
    assert_eq!(op.state, OpState::Pending(OpOrigin::Authored));
    assert_eq!(n.num_integrated(), 0);
}

#[test]
fn ops_move_through_the_pipeline_by_events() {
    let mut n = NodeState::new();
    n.handle_event(NodeEvent::AuthorOp(0), hash(1));
    n.handle_event(NodeEvent::SetOpState(hash(1), OpState::Integrated), hash(9));
    // Pending can't jump to integrated.
    assert_eq!(n.get_op(&hash(1)).unwrap().state, OpState::Pending(OpOrigin::Authored));
    n.handle_event(NodeEvent::SetOpState(hash(1), OpState::Validated), hash(9));
    n.handle_event(NodeEvent::SetOpState(hash(1), OpState::Integrated), hash(9));
    assert_eq!(n.get_op(&hash(1)).unwrap().state, OpState::Integrated);
    assert_eq!(n.num_integrated(), 1);
    n.handle_event(NodeEvent::StoreOp(Op::new(hash(2), vec![]), FetchDestination::Cache), hash(9));
    assert!(n.get_op(&hash(2)).is_none());
    assert!(n.cache.contains_key(&hash(2)));
}

#[test]
fn a_step_validates_pending_ops_whose_deps_are_held() {
    let mut n = NodeState::new();
    n.handle_event(NodeEvent::StoreOp(Op::new(hash(1), vec![]), FetchDestination::Vault), hash(9));
    n.handle_event(NodeEvent::StoreOp(Op::new(hash(2), vec![hash(7)]), FetchDestination::Vault), hash(9));
    let plan = n.plan_step();
    assert_eq!(plan.to_validate.len(), 2);
    assert!(plan.integrate.is_empty());
    let events = n.validation_events(&plan.to_validate);
    assert_eq!(events.len(), 2);
    assert!(matches!(&events[0], NodeEvent::SetOpState(h, OpState::Validated) if *h == hash(1)));
    assert!(matches!(&events[1], NodeEvent::SetOpState(h, OpState::MissingDeps(d)) if *h == hash(2) && *d == vec![hash(7)]));
    assert!(n.gossip_ops(3).is_none());
    assert_eq!(n.gossip_ops(10).unwrap().len(), 0);
}

#[test]
fn messages_become_store_events_or_replies() {
    let mut n = NodeState::new();
    n.handle_event(NodeEvent::AuthorOp(0), hash(1));
    n.handle_event(NodeEvent::SetOpState(hash(1), OpState::Validated), hash(9));
    n.handle_event(NodeEvent::SetOpState(hash(1), OpState::Integrated), hash(9));
    let (events, reply) = n.message_events(node(3), Message::FetchRequest(hash(1)));
    assert!(events.is_empty());
    match reply {
        Some((to, Message::FetchResponse(op))) => {
            assert_eq!(to, node(3));
            assert_eq!(op.hash, hash(1));
        },
        _ => panic!("expected a fetch response"),
    }
    let (events, reply) = n.message_events(node(3), Message::FetchRequest(hash(2)));
    assert!(events.is_empty() && reply.is_none());
    let (events, reply) = n.message_events(node(3), Message::Gossip(vec![Op::new(hash(4), vec![]), Op::new(hash(5), vec![])]));
    assert_eq!(events.len(), 2);
    assert!(reply.is_none());
    let (events, _) = n.message_events(node(3), Message::FetchResponse(Op::new(hash(6), vec![])));
    assert!(matches!(&events[0], NodeEvent::StoreOp(o, FetchDestination::Cache) if o.hash == hash(6)));
}

#[test]
fn projection_maps_node_states_and_events_to_the_model() {
    let op = Op::new(hash(1), vec![]);
    let p = NetworkOpProjection { op: op.duplicate() };
    let mut a = NodeState::new();
    a.handle_event(NodeEvent::StoreOp(op.duplicate(), FetchDestination::Vault), hash(9));
    let b = NodeState::new();
    let mut system = SortedMap::new();
    system.insert(node(1), a);
    system.insert(node(2), b);
    let model = p.map_state(&system).unwrap();
    assert_eq!(model.nodes.get(&node(1)), Some(&NodeOpPhase::Pending));
    assert_eq!(model.nodes.get(&node(2)), Some(&NodeOpPhase::Unseen));

    let e = p.map_event(node(1), &NodeEvent::SetOpState(hash(1), OpState::Validated));
    assert_eq!(e, Some(NetworkOpEvent(node(1), NodeOpEvent::Validate)));
    let e = p.map_event(node(1), &NodeEvent::SetOpState(hash(2), OpState::Validated));
    assert_eq!(e, None);
    let e = p.map_event(node(1), &NodeEvent::SendOp(op.duplicate(), node(2)));
    assert_eq!(e, Some(NetworkOpEvent(node(1), NodeOpEvent::Send(node(2)))));

    let generated = p.gen_state(&model);
    let back = p.map_state(&generated).unwrap();
    assert_eq!(back.nodes.get(&node(1)), Some(&NodeOpPhase::Pending));
    assert_eq!(back.nodes.get(&node(2)), Some(&NodeOpPhase::Unseen));
}

#[test]
fn projection_generates_events_that_map_back() {
    let op = Op::new(hash(1), vec![hash(2)]);
    let p = NetworkOpProjection { op: op.duplicate() };
    assert!(p.gen_event(NetworkOpEvent(node(1), NodeOpEvent::Author)).is_none());
    for e in [NodeOpEvent::Store, NodeOpEvent::Validate, NodeOpEvent::Reject, NodeOpEvent::Integrate] {
        let (at, ev) = p.gen_event(NetworkOpEvent(node(1), e)).unwrap();
        assert_eq!(p.map_event(at, &ev), Some(NetworkOpEvent(node(1), e)));
    }
    let (at, ev) = p.gen_event(NetworkOpEvent(node(1), NodeOpEvent::Send(node(2)))).unwrap();
    assert_eq!(at, node(2));
    assert_eq!(p.map_event(at, &ev), Some(NetworkOpEvent(node(2), NodeOpEvent::Send(node(2)))));
}

#[test]
fn projection_applies_events_to_the_node_they_happen_at() {
    let p = NetworkOpProjection { op: Op::new(hash(1), vec![]) };
    let mut system = SortedMap::new();
    system.insert(node(1), NodeState::new());
    system.insert(node(2), NodeState::new());
    p.apply(&mut system, (node(1), NodeEvent::AuthorOp(0)), hash(7));
    assert!(system.get(&node(1)).unwrap().vault.contains_key(&hash(7)));
    // A second node authoring a hash another node holds is dropped.
    p.apply(&mut system, (node(2), NodeEvent::AuthorOp(0)), hash(7));
    assert!(!system.get(&node(2)).unwrap().vault.contains_key(&hash(7)));
    // Events at unknown nodes are dropped.
    p.apply(&mut system, (node(5), NodeEvent::AuthorOp(0)), hash(8));
    assert_eq!(system.len(), 2);
}
