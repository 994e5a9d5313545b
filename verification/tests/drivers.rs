use polestar_models::behavior::{pass_on_fx, Behavior};
use polestar_models::inline_model_checker::{InlineModelChecker, InlineModelCheckerConfig, InlineModelCheckerError};
use polestar_models::machine::Machine;
use polestar_models::op_single::{InvalidTransition, OpAction, OpPhase, OpSingleMachine, ValidationType};
use polestar_models::round_model::{map_event, GossipType, RoundError, RoundEvent, RoundPhase, WireKind};
use polestar_models::scenario::{Scenario, ScenarioError};

#[test]
fn recent_rounds_exchange_agents_before_ops() {
    let t = GossipType::Recent;
    let p = RoundPhase::Begin.transition(RoundEvent::AgentDiff, t).unwrap();
    assert_eq!(p, RoundPhase::AgentDiffReceived);
    let p = p.transition(RoundEvent::Agents, t).unwrap();
    assert_eq!(p, RoundPhase::AgentsReceived);
    let p = p.transition(RoundEvent::OpDiff, t).unwrap();
    assert_eq!(p, RoundPhase::OpDiffReceived);
    let p = p.transition(RoundEvent::Ops, t).unwrap();
    assert_eq!(p, RoundPhase::Finished);
    assert_eq!(p.transition(RoundEvent::Close, t), Err(RoundError::Finished));
}

#[test]
fn historical_rounds_go_straight_to_ops() {
    let t = GossipType::Historical;
    assert_eq!(RoundPhase::Begin.transition(RoundEvent::OpDiff, t), Ok(RoundPhase::OpDiffReceived));
    assert_eq!(RoundPhase::Begin.transition(RoundEvent::AgentDiff, t), Err(RoundError::InvalidTransition));
    assert_eq!(RoundPhase::AgentsReceived.transition(RoundEvent::Close, t), Ok(RoundPhase::Finished));
}

#[test]
fn wire_messages_map_to_round_events() {
    assert_eq!(map_event(WireKind::Agents), Some(RoundEvent::AgentDiff));
    assert_eq!(map_event(WireKind::MissingAgents), Some(RoundEvent::Agents));
    assert_eq!(map_event(WireKind::OpRegions), Some(RoundEvent::OpDiff));
    assert_eq!(map_event(WireKind::OpBatchReceived), None);
    assert_eq!(map_event(WireKind::Busy), Some(RoundEvent::Close));
}

#[test]
fn inline_checker_follows_mapped_events() {
    let mut c = InlineModelChecker::new(OpSingleMachine, Some(OpPhase::Unseen), InlineModelCheckerConfig::default())
        .unwrap();
    assert!(c.handle(Some(OpAction::Store(false))).is_ok());
    assert!(c.handle(None).is_ok());
    assert!(c.handle(Some(OpAction::Validate(ValidationType::Sys))).is_ok());
    let r = c.handle(Some(OpAction::Integrate));
    assert!(matches!(
        r,
        Err(InlineModelCheckerError::Model(InvalidTransition {
            state: OpPhase::Validated(ValidationType::Sys),
            action: OpAction::Integrate
        }))
    ));
    assert!(matches!(c.handle(Some(OpAction::Integrate)), Err(InlineModelCheckerError::NoModel)));
    assert!(InlineModelChecker::new(OpSingleMachine, None, InlineModelCheckerConfig::default()).is_none());
}

#[test]
fn inline_checker_can_require_every_event_to_map() {
    let config = InlineModelCheckerConfig { require_event_mapping: true };
    let mut c = InlineModelChecker::new(OpSingleMachine, Some(OpPhase::Unseen), config).unwrap();
    assert!(matches!(c.handle(None), Err(InlineModelCheckerError::NoEventMapping)));
    assert!(c.handle(Some(OpAction::Store(false))).is_ok());
}

/// Stores, then validates each tick.
#[derive(Clone, Debug)]
struct Pipeline;

impl Behavior for Pipeline {
    type Model = OpSingleMachine;
    type Error = String;

    fn handle_fx_spec(
        self,
        _state: OpPhase,
        _fx: (),
        _after: Self,
        _r: Result<Option<()>, String>,
    ) -> bool {
        true
    }

    fn handle_fx(&mut self, _state: &OpPhase, fx: ()) -> Result<Option<()>, String> {
        pass_on_fx(fx)
    }

    fn next_tick_spec(
        self,
        _state: OpPhase,
        _after: Self,
        _r: Result<Vec<OpAction>, String>,
    ) -> bool {
        true
    }

    fn next_tick(&mut self, state: &OpPhase) -> Result<Vec<OpAction>, String> {
        match state {
            OpPhase::Unseen => Ok(vec![OpAction::Store(false)]),
            OpPhase::Stored => Ok(vec![OpAction::Validate(ValidationType::Sys), OpAction::Validate(ValidationType::App)]),
            _ => Ok(vec![OpAction::Integrate, OpAction::Integrate, OpAction::Validate(ValidationType::Sys)]),
        }
    }
}

#[test]
fn a_scenario_advances_until_an_action_is_refused() {
    let mut s = Scenario::initial(OpSingleMachine, OpPhase::Unseen, Pipeline);
    assert_eq!(s.advance().unwrap(), vec![OpAction::Store(false)]);
    assert_eq!(*s.state(), OpPhase::Stored);
    assert_eq!(s.advance().unwrap().len(), 2);
    assert_eq!(*s.state(), OpPhase::Validated(ValidationType::App));
    assert_eq!(s.steps(), 2);
    assert!(matches!(s.advance(), Err(ScenarioError::Model(_))));
    assert!(matches!(s.advance(), Err(ScenarioError::Finished)));
    s.reset();
    assert_eq!(*s.state(), OpPhase::Unseen);
    assert_eq!(s.steps(), 0);
    assert!(!s.model().is_terminal(&OpPhase::Unseen));
}
