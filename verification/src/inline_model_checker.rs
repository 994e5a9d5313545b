//! Checking a running system against its model as events happen: each
//! event of the system that maps to a model action is applied to the model,
//! which must accept it.

use vstd::prelude::*;
use crate::machine::Machine;

verus! {

/// How strictly events are checked.
#[derive(Clone, Copy, Debug, PartialEq, Eq, Hash, Structural)]
pub struct InlineModelCheckerConfig {
    /// Every event must map to a model action.
    pub require_event_mapping: bool,
}

impl Default for InlineModelCheckerConfig {
    fn default() -> (c: Self)
        ensures
            !c.require_event_mapping,
    {
        InlineModelCheckerConfig { require_event_mapping: false }
    }
}

/// Why the check of an event failed.
#[derive(Debug)]
pub enum InlineModelCheckerError<E> {
    /// The model refused the action the event maps to.
    Model(E),
    /// The event maps to no action, and every event must.
    NoEventMapping,
    /// An earlier refusal left no model state to check against.
    NoModel,
}

/// The machine takes `state` to `next` on `action`, with some effects.
pub open spec fn steps_to_state<M: Machine>(machine: M, state: M::State, action: M::Action, next: M::State) -> bool {
    exists|fx: M::Fx| machine.outcome(state, action, Ok((next, fx)))
}

/// A model state that follows a system's events.
pub struct InlineModelChecker<M: Machine> {
    machine: M,
    model: Option<M::State>,
    config: InlineModelCheckerConfig,
}

impl<M: Machine> InlineModelChecker<M> {
    /// The model state, or `None` once the model has refused an action.
    pub closed spec fn state(&self) -> Option<M::State> {
        self.model
    }

    /// The machine of the model.
    pub closed spec fn model_machine(&self) -> M {
        self.machine
    }

    /// The configuration.
    pub closed spec fn settings(&self) -> InlineModelCheckerConfig {
        self.config
    }

    /// A checker whose model starts in `initial`, the model state of the
    /// system's initial state; `None` when the system's state has no model
    /// state.
    pub fn new(machine: M, initial: Option<M::State>, config: InlineModelCheckerConfig) -> (r: Option<Self>)
        ensures
            r is None <==> initial is None,
            r matches Some(c) ==> c.state() == initial && c.model_machine() == machine && c.settings()
                == config,
    {
        match initial {
            Some(s) => Some(InlineModelChecker { machine, model: Some(s), config }),
            None => None,
        }
    }

    /// Check one event, given the model action it maps to, if any. A mapped
    /// action is applied to the model; when the model refuses it, the model
    /// state is lost and every later mapped event fails with `NoModel`.
    pub fn handle(&mut self, action: Option<M::Action>) -> (r: Result<(), InlineModelCheckerError<M::Error>>)
        requires
            old(self).state() matches Some(s) && action matches Some(a) ==> old(self).model_machine().admissible(
                s,
                a,
            ),
        ensures
            final(self).model_machine() == old(self).model_machine(),
            final(self).settings() == old(self).settings(),
            match action {
                Some(a) => match old(self).state() {
                    None => r matches Err(InlineModelCheckerError::NoModel) && final(self).state() is None,
                    Some(s) => match r {
                        Ok(()) => final(self).state() is Some && steps_to_state(
                            old(self).model_machine(),
                            s,
                            a,
                            final(self).state()->Some_0,
                        ),
                        Err(InlineModelCheckerError::Model(e)) => final(self).state() is None
                            && old(self).model_machine().outcome(s, a, Err(e)),
                        Err(_) => false,
                    },
                },
                None => final(self).state() == old(self).state() && (r is Ok
                    <==> !old(self).settings().require_event_mapping) && (r is Err ==> r matches Err(
                    InlineModelCheckerError::NoEventMapping,
                )),
            },
    {
        match action {
            Some(a) => {
                let ghost s0 = self.model;
                let state = match self.model.take() {
                    Some(s) => s,
                    None => {
                        return Err(InlineModelCheckerError::NoModel);
                    },
                };
                match self.machine.transition(state, a) {
                    Ok((next, fx)) => {
                        proof {
                            assert(self.machine.outcome(s0->Some_0, a, Ok((next, fx))));
                            assert(steps_to_state(self.machine, s0->Some_0, a, next));
                        }
                        self.model = Some(next);
                        Ok(())
                    },
                    Err(e) => Err(InlineModelCheckerError::Model(e)),
                }
            },
            None => {
                if self.config.require_event_mapping {
                    Err(InlineModelCheckerError::NoEventMapping)
                } else {
                    Ok(())
                }
            },
        }
    }
}

} // verus!
