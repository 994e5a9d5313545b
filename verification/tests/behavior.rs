use polestar_models::behavior::{pass_on_fx, Behavior, BehaviorModel};
use polestar_models::machine::Machine;

/// A counter that emits its new value as an effect.
#[derive(Clone, Debug)]
struct Counter;

impl Machine for Counter {
    type State = u32;
    type Action = u32;
    type Fx = u32;
    type Error = String;

    fn admissible(&self, _state: u32, _add: u32) -> bool {
        true
    }

    fn is_admissible(&self, _state: &u32, _add: &u32) -> bool {
        true
    }

    fn outcome(&self, _state: u32, _add: u32, _r: Result<(u32, u32), String>) -> bool {
        true
    }

    fn transition(&self, state: u32, add: u32) -> Result<(u32, u32), String> {
        if add == 0 {
            return Err("zero add not enabled".to_string());
        }
        Ok((state + add, state + add))
    }

    fn is_terminal(&self, _state: &u32) -> bool {
        false
    }
}

/// Adds 1 and 2 each tick, and records the state each effect was
/// observed at.
#[derive(Clone, Debug, Default)]
struct AddTwice {
    seen: Vec<(u32, u32)>,
}

impl Behavior for AddTwice {
    type Model = Counter;
    type Error = String;

    fn handle_fx_spec(
        self,
        _state: u32,
        _fx: u32,
        _after: Self,
        _r: Result<Option<u32>, String>,
    ) -> bool {
        true
    }

    fn next_tick_spec(
        self,
        _state: u32,
        _after: Self,
        _r: Result<Vec<u32>, String>,
    ) -> bool {
        true
    }

    fn next_tick(&mut self, _state: &u32) -> Result<Vec<u32>, String> {
        Ok(vec![1, 2])
    }

    fn handle_fx(&mut self, state: &u32, fx: u32) -> Result<Option<u32>, String> {
        self.seen.push((*state, fx));
        // Handle odd effects, bubble even ones.
        Ok(if fx % 2 == 0 { Some(fx) } else { None })
    }
}

#[derive(Clone, Debug)]
struct ProposesDisabled;

impl Behavior for ProposesDisabled {
    type Model = Counter;
    type Error = String;

    fn handle_fx_spec(
        self,
        _state: u32,
        _fx: u32,
        _after: Self,
        _r: Result<Option<u32>, String>,
    ) -> bool {
        true
    }

    fn handle_fx(&mut self, _state: &u32, fx: u32) -> Result<Option<u32>, String> {
        pass_on_fx(fx)
    }

    fn next_tick_spec(
        self,
        _state: u32,
        _after: Self,
        _r: Result<Vec<u32>, String>,
    ) -> bool {
        true
    }

    fn next_tick(&mut self, _state: &u32) -> Result<Vec<u32>, String> {
        Ok(vec![0])
    }
}

#[test]
fn effects_are_handled_at_per_action_state() {
    let bm = BehaviorModel::<AddTwice>::new(Counter);
    let ((behavior, state), unhandled) = bm.transition((AddTwice::default(), 0), ()).unwrap();
    assert_eq!(state, 3);
    // Each effect saw the state its own transition produced,
    // not the end-of-tick state.
    assert_eq!(behavior.seen, vec![(1, 1), (3, 3)]);
    // Both effects are odd, so both were handled; nothing bubbles.
    assert_eq!(unhandled, Vec::<u32>::new());

    let ((behavior, state), unhandled) = bm.transition((behavior, state), ()).unwrap();
    assert_eq!(state, 6);
    assert_eq!(unhandled, vec![4, 6], "even effects bubble up");
    assert_eq!(behavior.seen.len(), 4);
}

#[test]
fn a_disabled_action_fails_the_tick() {
    let bm = BehaviorModel::<ProposesDisabled>::new(Counter);
    assert!(bm.transition((ProposesDisabled, 0), ()).is_err());
}

#[derive(Clone, Debug)]
struct Idle;

impl Behavior for Idle {
    type Model = Counter;
    type Error = String;

    fn handle_fx_spec(
        self,
        _state: u32,
        _fx: u32,
        _after: Self,
        _r: Result<Option<u32>, String>,
    ) -> bool {
        true
    }

    fn handle_fx(&mut self, _state: &u32, fx: u32) -> Result<Option<u32>, String> {
        pass_on_fx(fx)
    }

    fn next_tick_spec(
        self,
        _state: u32,
        _after: Self,
        _r: Result<Vec<u32>, String>,
    ) -> bool {
        true
    }

    fn next_tick(&mut self, _state: &u32) -> Result<Vec<u32>, String> {
        Ok(vec![])
    }
}

#[derive(Clone, Debug)]
struct AddOnes;

impl Behavior for AddOnes {
    type Model = Counter;
    type Error = String;

    fn handle_fx_spec(
        self,
        _state: u32,
        _fx: u32,
        _after: Self,
        _r: Result<Option<u32>, String>,
    ) -> bool {
        true
    }

    fn handle_fx(&mut self, _state: &u32, fx: u32) -> Result<Option<u32>, String> {
        pass_on_fx(fx)
    }

    fn next_tick_spec(
        self,
        _state: u32,
        _after: Self,
        _r: Result<Vec<u32>, String>,
    ) -> bool {
        true
    }

    fn next_tick(&mut self, _state: &u32) -> Result<Vec<u32>, String> {
        Ok(vec![1, 1, 1])
    }
}

#[test]
fn a_tick_with_no_actions_changes_nothing() {
    let bm = BehaviorModel::<Idle>::new(Counter);
    let ((_, state), unhandled) = bm.transition((Idle, 7), ()).unwrap();
    assert_eq!(state, 7);
    assert!(unhandled.is_empty());
}

#[test]
fn passing_effects_on_bubbles_every_effect() {
    let bm = BehaviorModel::<AddOnes>::new(Counter);
    let ((_, state), unhandled) = bm.transition((AddOnes, 10), ()).unwrap();
    assert_eq!(state, 13);
    assert_eq!(unhandled, vec![11, 12, 13]);
}

#[test]
fn a_boxed_behavior_behaves_as_the_one_inside() {
    let bm = BehaviorModel::<Box<AddTwice>>::new(Counter);
    let ((behavior, state), unhandled) =
        bm.transition((Box::new(AddTwice::default()), 0), ()).unwrap();
    assert_eq!(state, 3);
    assert_eq!(behavior.seen, vec![(1, 1), (3, 3)]);
    assert!(unhandled.is_empty());
    let mut b: Box<ProposesDisabled> = Box::new(ProposesDisabled);
    assert_eq!(b.next_tick(&0), Ok(vec![0]));
    assert_eq!(b.handle_fx(&0, 4), Ok(Some(4)));
}
