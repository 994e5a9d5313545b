//! The state-machine interface shared by every model, and helpers for
//! transition functions.

use vstd::prelude::*;

verus! {

/// A state machine: a pure transition function from a state and an action
/// to the next state and the effects of the step, or an error when the
/// action is not enabled in that state.
pub trait Machine {
    type State;
    type Action;
    type Fx;
    type Error;

    /// The inputs on which the transition function is defined; the others
    /// are a misuse of the machine.
    spec fn admissible(&self, state: Self::State, action: Self::Action) -> bool;

    /// Whether `action` may be applied to `state`.
    fn is_admissible(&self, state: &Self::State, action: &Self::Action) -> (b: bool)
        ensures
            b == self.admissible(*state, *action),
    ;

    /// Whether `r` is what the transition function gives for `action` in
    /// `state`: the next state and the effects of the step, or the error
    /// that refuses the action.
    spec fn outcome(
        &self,
        state: Self::State,
        action: Self::Action,
        r: Result<(Self::State, Self::Fx), Self::Error>,
    ) -> bool;

    /// Apply `action` to `state`.
    fn transition(&self, state: Self::State, action: Self::Action) -> (r: Result<
        (Self::State, Self::Fx),
        Self::Error,
    >)
        requires
            self.admissible(state, action),
        ensures
            self.outcome(state, action, r),
    ;

    /// Whether `state` is one in which the machine has finished.
    fn is_terminal(&self, state: &Self::State) -> bool;
}

} // verus!
