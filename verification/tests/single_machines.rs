use polestar_models::fx::absorb_fx;
use polestar_models::ids::{Id, Op, OpHash};
use polestar_models::machine::Machine;
use polestar_models::op_single::{
    InvalidTransition, OpAction, OpPhase, OpSingleMachine, Outcome, ValidationType as VT,
};
use polestar_models::shard::{AlreadySynced, ShardAction, ShardMachine, ShardState};
use polestar_models::arq::Arq;
use polestar_models::single_op::{
    OpEvent, OpMachine, OpPhase as SPhase, SingleOpError, ValidationType as SVT,
};

#[test]
fn op_single_follows_the_validation_pipeline() {
    let m = OpSingleMachine;
    let (p, ()) = m.transition(OpPhase::Unseen, OpAction::Store(false)).unwrap();
    assert_eq!(p, OpPhase::Stored);
    let (p, ()) = m.transition(p, OpAction::Validate(VT::Sys)).unwrap();
    assert_eq!(p, OpPhase::Validated(VT::Sys));
    let (p, ()) = m.transition(p, OpAction::Validate(VT::App)).unwrap();
    assert_eq!(p, OpPhase::Validated(VT::App));
    assert!(p.is_definitely_valid());
    let (p, ()) = m.transition(p, OpAction::Integrate).unwrap();
    assert_eq!(p, OpPhase::Integrated(Outcome::Accepted));
    assert!(m.is_terminal(&p));
}

#[test]
fn op_single_storing_a_valid_op_integrates_it() {
    let m = OpSingleMachine;
    assert_eq!(
        m.step(OpPhase::Unseen, OpAction::Store(true)),
        Ok(OpPhase::Integrated(Outcome::Accepted))
    );
    // Storing again changes nothing.
    assert_eq!(m.step(OpPhase::Stored, OpAction::Store(true)), Ok(OpPhase::Stored));
}

#[test]
fn op_single_rejection_integrates_as_rejected() {
    let m = OpSingleMachine;
    assert_eq!(m.step(OpPhase::Stored, OpAction::Reject), Ok(OpPhase::Rejected));
    assert_eq!(m.step(OpPhase::Rejected, OpAction::Integrate), Ok(OpPhase::Integrated(Outcome::Rejected)));
    assert!(!Outcome::Rejected.is_valid());
    assert!(Outcome::Accepted.is_valid());
}

#[test]
fn op_single_refuses_skipping_validation() {
    let m = OpSingleMachine;
    assert_eq!(
        m.step(OpPhase::Stored, OpAction::Integrate),
        Err(InvalidTransition { state: OpPhase::Stored, action: OpAction::Integrate })
    );
    assert_eq!(
        m.step(OpPhase::Stored, OpAction::Validate(VT::App)),
        Err(InvalidTransition { state: OpPhase::Stored, action: OpAction::Validate(VT::App) })
    );
}

#[test]
fn single_op_authoring_and_awaiting() {
    let m = OpMachine::new(0, vec![1, 2]);
    assert_eq!(m.step(SPhase::Unseen, OpEvent::Author), Ok(SPhase::Pending));
    assert_eq!(m.step(SPhase::Pending, OpEvent::Author), Err(SingleOpError::DuplicateAuthorship));
    assert_eq!(
        m.step(SPhase::Pending, OpEvent::Await(SVT::Sys, 1)),
        Ok(SPhase::Validated(SVT::Sys, Some(1)))
    );
    assert_eq!(m.step(SPhase::Pending, OpEvent::Await(SVT::Sys, 0)), Err(SingleOpError::SelfDependency));
    assert_eq!(
        m.step(SPhase::Validated(SVT::Sys, Some(1)), OpEvent::Validate(SVT::Sys)),
        Ok(SPhase::Validated(SVT::Sys, None))
    );
    assert_eq!(
        m.step(SPhase::Validated(SVT::App, None), OpEvent::Integrate),
        Ok(SPhase::Integrated)
    );
    assert_eq!(
        m.step(SPhase::Pending, OpEvent::Integrate),
        Err(SingleOpError::InvalidTransition(SPhase::Pending, OpEvent::Integrate))
    );
}

#[test]
fn shard_grows_and_syncs_up_to_its_target() {
    let m = ShardMachine;
    let s = ShardState::new(Arq::<u8>::new(3, 0, 1));
    let (s, ()) = m.transition(s, ShardAction::SyncNext).unwrap();
    assert!(m.is_terminal(&s));
    let r = m.transition(ShardState::new(Arq::<u8>::new(3, 0, 1)), ShardAction::Grow);
    let (s2, ()) = r.unwrap();
    assert_eq!(s2.target_arq().len, 2);
    assert!(!m.is_terminal(&s2));
    let (s3, ()) = m.transition(s2, ShardAction::SyncNext).unwrap();
    assert_eq!(s3.synced_arq().len, 1);
    let (s4, ()) = m.transition(s3, ShardAction::SyncNext).unwrap();
    assert!(m.is_terminal(&s4));
    assert!(matches!(m.transition(s4, ShardAction::SyncNext), Err(AlreadySynced)));
    let _ = s;
}

#[test]
fn absorb_fx_absorbs_or_passes_through() {
    let mut stored = vec![];
    let out: Vec<u32> = absorb_fx(vec![1u32, 2, 3, 4], |n| -> Result<Option<u32>, String> {
        if n % 2 == 0 {
            stored.push(n);
            Ok(None)
        } else {
            Ok(Some(n * 10))
        }
    })
    .unwrap();
    assert_eq!(stored, vec![2, 4]);
    assert_eq!(out, vec![10, 30]);
}

#[test]
fn absorb_fx_stops_at_the_first_error() {
    let mut seen = vec![];
    let r: Result<Vec<u32>, String> = absorb_fx(vec![1u32, 2, 3], |n| {
        seen.push(n);
        if n == 2 { Err("two".to_string()) } else { Ok(Some(n)) }
    });
    assert_eq!(r, Err("two".to_string()));
    assert_eq!(seen, vec![1, 2]);
}

#[test]
fn ids_are_base_26_letters() {
    assert_eq!(Id::from_int(1).to_text(), "A");
    assert_eq!(Id::from_int(25).to_text(), "Y");
    assert_eq!(Id::from_int(26).to_text(), "9A");
    assert_eq!(Id::from_int(27).to_text(), "AA");
    assert_eq!(Id::from_int(0).to_text(), "");
    assert!(Id::from_int(26).text_less(&Id::from_int(1)));
    assert!(!Id::from_int(1).text_less(&Id::from_int(1)));
}

#[test]
fn new_ids_count_up_from_the_counter() {
    let mut counter = 1u32;
    let a = Id::new(&mut counter);
    let b = Id::new(&mut counter);
    assert_eq!(a.to_text(), "A");
    assert_eq!(b.to_text(), "B");
    assert_eq!(counter, 3);
    let mut last = u32::MAX;
    let _ = Id::new(&mut last);
    assert_eq!(last, 0);
}

#[test]
fn ops_carry_their_hash_and_deps() {
    let h = OpHash(Id::from_int(3));
    let d = OpHash(Id::from_int(4));
    let op = Op::new(h, vec![d]);
    assert_eq!(op.op_hash(), h);
    let copy = op.duplicate();
    assert_eq!(copy.hash, h);
    assert_eq!(copy.deps, vec![d]);
}
