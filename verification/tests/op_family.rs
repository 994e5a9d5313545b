use polestar_models::machine::Machine;
use polestar_models::op_family::{
    detect_loop, OpFamilyAction, OpFamilyError, OpFamilyMachine, OpFamilyPhase, OpFamilyState, OpId,
};
use polestar_models::op_network::{OpNetworkAction, OpNetworkError, OpNetworkMachine, OpNetworkState};
use polestar_models::op_single::{OpAction, OpPhase, Outcome, ValidationType as VT};
use polestar_models::sorted_map::SortedMap;

fn family(entries: &[(OpId, OpFamilyPhase)]) -> OpFamilyState {
    let mut m = SortedMap::new();
    for (k, v) in entries {
        m.insert(*k, *v);
    }
    OpFamilyState(m)
}

fn phase(s: &OpFamilyState, k: OpId) -> Option<OpFamilyPhase> {
    s.0.get(&k).copied()
}

#[test]
fn test_loop() {
    let v = VT::Sys;

    let state = family(&[
        (OpId(1, 0), OpFamilyPhase::Awaiting(v, 2)),
        (OpId(0, 1), OpFamilyPhase::Awaiting(v, 1)),
        (OpId(2, 0), OpFamilyPhase::Op(OpPhase::Stored)),
    ]);
    assert!(!detect_loop(&state, 0));

    let state = family(&[
        (OpId(0, 1), OpFamilyPhase::Awaiting(v, 1)),
        (OpId(1, 0), OpFamilyPhase::Awaiting(v, 2)),
        (OpId(2, 1), OpFamilyPhase::Awaiting(v, 0)),
    ]);
    assert!(detect_loop(&state, 0));
}

#[test]
fn awaiting_op_validates_once_its_dependency_is_integrated() {
    let m = OpFamilyMachine::new();
    let a = OpId(0, 0);
    let d = OpId(1, 0);
    let s = m.initial();
    let (s, ()) = m.transition(s, (a, OpFamilyAction::Op(OpAction::Store(false)))).unwrap();
    assert_eq!(phase(&s, a), Some(OpFamilyPhase::Op(OpPhase::Stored)));
    let (s, ()) = m.transition(s, (a, OpFamilyAction::Await(VT::Sys, 1))).unwrap();
    assert_eq!(phase(&s, a), Some(OpFamilyPhase::Awaiting(VT::Sys, 1)));

    // The dependency is not yet integrated.
    let r = m.transition(
        family(&[(a, OpFamilyPhase::Awaiting(VT::Sys, 1))]),
        (a, OpFamilyAction::Op(OpAction::Validate(VT::Sys))),
    );
    assert_eq!(r.err(), Some(OpFamilyError::StillAwaiting(a, 1)));

    // Storing a valid dependency integrates it at once.
    let (s, ()) = m.transition(s, (d, OpFamilyAction::Op(OpAction::Store(true)))).unwrap();
    assert_eq!(phase(&s, d), Some(OpFamilyPhase::Op(OpPhase::Integrated(Outcome::Accepted))));
    let (s, ()) = m.transition(s, (a, OpFamilyAction::Op(OpAction::Validate(VT::Sys)))).unwrap();
    assert_eq!(phase(&s, a), Some(OpFamilyPhase::Op(OpPhase::Validated(VT::Sys))));
}

#[test]
fn a_rejected_dependency_leaves_the_op_awaiting() {
    let m = OpFamilyMachine::new();
    let a = OpId(0, 0);
    let d = OpId(1, 0);
    let s = family(&[
        (a, OpFamilyPhase::Awaiting(VT::Sys, 1)),
        (d, OpFamilyPhase::Op(OpPhase::Integrated(Outcome::Rejected))),
    ]);
    let (s, ()) = m.transition(s, (a, OpFamilyAction::Op(OpAction::Validate(VT::Sys)))).unwrap();
    assert_eq!(phase(&s, a), Some(OpFamilyPhase::Awaiting(VT::Sys, 1)));
}

#[test]
fn an_op_cannot_await_its_own_action() {
    let m = OpFamilyMachine::new();
    let a = OpId(3, 0);
    let s = family(&[(a, OpFamilyPhase::Op(OpPhase::Stored))]);
    let r = m.transition(s, (a, OpFamilyAction::Await(VT::Sys, 3)));
    assert_eq!(r.err(), Some(OpFamilyError::SelfDependency));
}

#[test]
fn the_focus_op_cannot_be_depended_on() {
    let m = OpFamilyMachine::new_bounded(vec![OpId(0, 0), OpId(1, 0)]);
    let b = OpId(1, 0);
    let s = family(&[(b, OpFamilyPhase::Op(OpPhase::Stored))]);
    let r = m.transition(s, (b, OpFamilyAction::Await(VT::Sys, 0)));
    assert_eq!(r.err(), Some(OpFamilyError::FocusDependency));
}

#[test]
fn an_op_outside_a_bounded_family_is_refused() {
    let m = OpFamilyMachine::new_bounded(vec![OpId(0, 0)]);
    let r = m.transition(m.initial(), (OpId(5, 0), OpFamilyAction::Op(OpAction::Store(false))));
    assert_eq!(r.err(), Some(OpFamilyError::NotCovered(OpId(5, 0))));
    assert!(m.is_op_handled(&OpId(0, 0)));
    assert!(!m.is_op_handled(&OpId(5, 0)));
}

#[test]
fn awaiting_in_a_circle_is_refused() {
    let m = OpFamilyMachine::new();
    let a = OpId(0, 0);
    let b = OpId(1, 0);
    let s = family(&[
        (a, OpFamilyPhase::Awaiting(VT::Sys, 1)),
        (b, OpFamilyPhase::Op(OpPhase::Stored)),
    ]);
    let r = m.transition(s, (b, OpFamilyAction::Await(VT::Sys, 0)));
    assert!(matches!(r, Err(OpFamilyError::DependencyLoop(_, _))));
}

#[test]
fn awaiting_needs_a_stored_op() {
    let m = OpFamilyMachine::new();
    let a = OpId(0, 0);
    let r = m.transition(m.initial(), (a, OpFamilyAction::Await(VT::Sys, 1)));
    assert!(matches!(r, Err(OpFamilyError::InvalidAwait(_, _))));
}

#[test]
fn a_diamond_of_awaits_is_no_loop() {
    let v = VT::Sys;
    let state = family(&[
        (OpId(0, 0), OpFamilyPhase::Awaiting(v, 1)),
        (OpId(0, 1), OpFamilyPhase::Awaiting(v, 2)),
        (OpId(1, 0), OpFamilyPhase::Awaiting(v, 3)),
        (OpId(2, 0), OpFamilyPhase::Awaiting(v, 3)),
    ]);
    assert!(!detect_loop(&state, 0));

    // A loop that does not pass through the root still counts.
    let state = family(&[
        (OpId(0, 0), OpFamilyPhase::Awaiting(v, 1)),
        (OpId(1, 0), OpFamilyPhase::Awaiting(v, 2)),
        (OpId(2, 0), OpFamilyPhase::Awaiting(v, 1)),
    ]);
    assert!(detect_loop(&state, 0));
    assert!(!detect_loop(&state, 3));
}

#[test]
fn a_family_may_await_one_action_from_two_ops() {
    let m = OpFamilyMachine::new();
    let s = family(&[
        (OpId(0, 0), OpFamilyPhase::Awaiting(VT::Sys, 1)),
        (OpId(1, 0), OpFamilyPhase::Awaiting(VT::Sys, 3)),
        (OpId(2, 0), OpFamilyPhase::Op(OpPhase::Stored)),
        (OpId(0, 1), OpFamilyPhase::Op(OpPhase::Stored)),
    ]);
    let (s, ()) = m.transition(s, (OpId(2, 0), OpFamilyAction::Await(VT::Sys, 3))).unwrap();
    let (s, ()) = m.transition(s, (OpId(0, 1), OpFamilyAction::Await(VT::Sys, 2))).unwrap();
    assert_eq!(s.0.get(&OpId(0, 1)).copied(), Some(OpFamilyPhase::Awaiting(VT::Sys, 2)));
}

fn network(nodes: Vec<(u32, OpFamilyState)>) -> OpNetworkState {
    let mut m = SortedMap::new();
    for (n, s) in nodes {
        m.insert(n, s);
    }
    OpNetworkState { nodes: m }
}

#[test]
fn a_held_op_validates_though_the_network_does_not_cover_it() {
    let machine = OpNetworkMachine::new_bounded(vec![0, 1], vec![]);
    let s = network(vec![
        (0, family(&[(OpId(5, 0), OpFamilyPhase::Awaiting(VT::Sys, 7))])),
        (1, family(&[(OpId(7, 0), OpFamilyPhase::Op(OpPhase::Stored))])),
    ]);
    let validate = OpNetworkAction::Local {
        op: OpId(5, 0),
        action: OpFamilyAction::Op(OpAction::Validate(VT::Sys)),
    };
    let (s, ()) = machine.transition(s, (0, validate)).unwrap();
    assert_eq!(
        s.nodes.get(&0).unwrap().0.get(&OpId(5, 0)).copied(),
        Some(OpFamilyPhase::Op(OpPhase::Validated(VT::Sys)))
    );

    // An op the node does not hold must be covered.
    let store = OpNetworkAction::Local { op: OpId(6, 0), action: OpFamilyAction::Op(OpAction::Store(false)) };
    assert_eq!(machine.transition(s, (0, store)).err(), Some(OpNetworkError::NoOp(OpId(6, 0))));
}
