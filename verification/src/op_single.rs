//! The lifecycle of a single op on a single node.

use vstd::prelude::*;
use crate::machine::Machine;

verus! {

/// Which validation an op has passed.
#[derive(Clone, Copy, Debug, PartialEq, Eq, Hash, Structural)]
pub enum ValidationType {
    Sys,
    App,
}

/// The outcome of integrating an op.
#[derive(Clone, Copy, Debug, PartialEq, Eq, Hash, Structural)]
pub enum Outcome {
    Accepted,
    Rejected,
}

impl Outcome {
    pub fn is_valid(&self) -> (b: bool)
        ensures
            b == (*self == Outcome::Accepted),
    {
        match self {
            Outcome::Accepted => true,
            Outcome::Rejected => false,
        }
    }
}

/// Where an op is in its lifecycle on one node.
#[derive(Clone, Copy, Debug, PartialEq, Eq, Hash, Structural)]
pub enum OpPhase {
    /// The op has not been seen by this node yet.
    Unseen,
    /// The op has been received and validation has not yet been attempted.
    Stored,
    /// The op has passed validation of this type.
    Validated(ValidationType),
    /// The op has been rejected.
    Rejected,
    /// The op has been integrated with this outcome.
    Integrated(Outcome),
}

impl Default for OpPhase {
    fn default() -> (p: Self)
        ensures
            p == OpPhase::Unseen,
    {
        OpPhase::Unseen
    }
}

pub open spec fn is_definitely_valid_spec(p: OpPhase) -> bool {
    p == OpPhase::Validated(ValidationType::App) || p == OpPhase::Integrated(Outcome::Accepted)
}

impl OpPhase {
    /// The op has passed app validation, or has been integrated as valid.
    pub fn is_definitely_valid(&self) -> (b: bool)
        ensures
            b == is_definitely_valid_spec(*self),
    {
        match self {
            OpPhase::Validated(ValidationType::App) => true,
            OpPhase::Integrated(Outcome::Accepted) => true,
            _ => false,
        }
    }
}

/// What can happen to an op on one node.
#[derive(Clone, Copy, Debug, PartialEq, Eq, Hash, Structural)]
pub enum OpAction {
    /// Store the op. If true, integrate immediately (authorship).
    Store(bool),
    /// Validate the op (as valid).
    Validate(ValidationType),
    /// Reject the op (as invalid).
    Reject,
    /// Integrate the op.
    Integrate,
}

/// The action is not enabled in the state.
#[derive(Clone, Copy, Debug, PartialEq, Eq, Hash, Structural)]
pub struct InvalidTransition {
    pub state: OpPhase,
    pub action: OpAction,
}

/// The next phase of an op, or `None` when the action is not enabled.
pub open spec fn op_single_next(s: OpPhase, a: OpAction) -> Option<OpPhase> {
    match (s, a) {
        (OpPhase::Unseen, OpAction::Store(true)) => Some(OpPhase::Integrated(Outcome::Accepted)),
        (OpPhase::Unseen, OpAction::Store(false)) => Some(OpPhase::Stored),
        (s, OpAction::Store(_)) => Some(s),
        (OpPhase::Validated(v1), OpAction::Validate(v2)) if v1 == v2 => Some(s),
        (OpPhase::Stored, OpAction::Reject) => Some(OpPhase::Rejected),
        (OpPhase::Validated(ValidationType::Sys), OpAction::Reject) => Some(OpPhase::Rejected),
        (OpPhase::Stored, OpAction::Validate(ValidationType::Sys)) => Some(
            OpPhase::Validated(ValidationType::Sys),
        ),
        (OpPhase::Validated(ValidationType::Sys), OpAction::Validate(ValidationType::App)) => Some(
            OpPhase::Validated(ValidationType::App),
        ),
        (OpPhase::Validated(ValidationType::App), OpAction::Integrate) => Some(
            OpPhase::Integrated(Outcome::Accepted),
        ),
        (OpPhase::Rejected, OpAction::Integrate) => Some(OpPhase::Integrated(Outcome::Rejected)),
        (OpPhase::Integrated(Outcome::Accepted), OpAction::Integrate) => Some(
            OpPhase::Integrated(Outcome::Accepted),
        ),
        _ => None,
    }
}

/// How far along its lifecycle a phase is.
pub open spec fn op_phase_rank(p: OpPhase) -> int {
    match p {
        OpPhase::Unseen => 0,
        OpPhase::Stored => 1,
        OpPhase::Validated(ValidationType::Sys) => 2,
        OpPhase::Validated(ValidationType::App) => 3,
        OpPhase::Rejected => 3,
        OpPhase::Integrated(_) => 4,
    }
}

/// The machine of a single op on a single node.
#[derive(Clone, Copy, Debug)]
pub struct OpSingleMachine;

impl OpSingleMachine {
    /// The transition function, with the error spelled out.
    pub fn step(&self, state: OpPhase, action: OpAction) -> (r: Result<OpPhase, InvalidTransition>)
        ensures
            match op_single_next(state, action) {
                Some(next) => r == Ok::<OpPhase, InvalidTransition>(next),
                None => r == Err::<OpPhase, InvalidTransition>(InvalidTransition { state, action }),
            },
    {
        match (state, action) {
            (OpPhase::Unseen, OpAction::Store(true)) => Ok(OpPhase::Integrated(Outcome::Accepted)),
            (OpPhase::Unseen, OpAction::Store(false)) => Ok(OpPhase::Stored),
            (s, OpAction::Store(_)) => Ok(s),
            (OpPhase::Validated(v1), OpAction::Validate(v2)) if v1 == v2 => Ok(state),
            (OpPhase::Stored, OpAction::Reject) => Ok(OpPhase::Rejected),
            (OpPhase::Validated(ValidationType::Sys), OpAction::Reject) => Ok(OpPhase::Rejected),
            (OpPhase::Stored, OpAction::Validate(ValidationType::Sys)) => Ok(
                OpPhase::Validated(ValidationType::Sys),
            ),
            (
                OpPhase::Validated(ValidationType::Sys),
                OpAction::Validate(ValidationType::App),
            ) => Ok(OpPhase::Validated(ValidationType::App)),
            (OpPhase::Validated(ValidationType::App), OpAction::Integrate) => Ok(
                OpPhase::Integrated(Outcome::Accepted),
            ),
            (OpPhase::Rejected, OpAction::Integrate) => Ok(OpPhase::Integrated(Outcome::Rejected)),
            (OpPhase::Integrated(Outcome::Accepted), OpAction::Integrate) => Ok(
                OpPhase::Integrated(Outcome::Accepted),
            ),
            _ => Err(InvalidTransition { state, action }),
        }
    }
}

impl Machine for OpSingleMachine {
    type State = OpPhase;
    type Action = OpAction;
    type Fx = ();
    type Error = InvalidTransition;

    open spec fn admissible(&self, state: OpPhase, action: OpAction) -> bool {
        true
    }

    fn is_admissible(&self, state: &OpPhase, action: &OpAction) -> (b: bool) {
        true
    }

    open spec fn outcome(
        &self,
        state: OpPhase,
        action: OpAction,
        r: Result<(OpPhase, ()), InvalidTransition>,
    ) -> bool {
        match op_single_next(state, action) {
            Some(next) => r == Ok::<(OpPhase, ()), InvalidTransition>((next, ())),
            None => r == Err::<(OpPhase, ()), InvalidTransition>(
                InvalidTransition { state, action }),
        }
    }

    fn transition(&self, state: OpPhase, action: OpAction) -> (r: Result<
        (OpPhase, ()),
        InvalidTransition,
    >)
    {
        match self.step(state, action) {
            Ok(next) => Ok((next, ())),
            Err(e) => Err(e),
        }
    }

    fn is_terminal(&self, state: &OpPhase) -> (b: bool)
        ensures
            b == (*state is Integrated),
    {
        match state {
            OpPhase::Integrated(_) => true,
            _ => false,
        }
    }
}

/// Once an op has been seen, storing it again changes nothing.
pub proof fn lemma_store_idempotent(s: OpPhase, author: bool)
    requires
        s != OpPhase::Unseen,
    ensures
        op_single_next(s, OpAction::Store(author)) == Some(s),
{
}

/// No transition moves an op backwards in its lifecycle.
pub proof fn lemma_op_single_monotone(s: OpPhase, a: OpAction)
    requires
        op_single_next(s, a) is Some,
    ensures
        op_phase_rank(s) <= op_phase_rank(op_single_next(s, a)->0),
{
}

/// An integrated op stays integrated with the same outcome.
pub proof fn lemma_integrated_is_final(s: OpPhase, a: OpAction)
    requires
        s is Integrated,
        op_single_next(s, a) is Some,
    ensures
        op_single_next(s, a) == Some(s),
{
}

/// An op known to be valid stays known to be valid.
pub proof fn lemma_definitely_valid_stable(s: OpPhase, a: OpAction)
    requires
        is_definitely_valid_spec(s),
        op_single_next(s, a) is Some,
    ensures
        is_definitely_valid_spec(op_single_next(s, a)->0),
{
}

/// A rejected op is never integrated as accepted.
pub proof fn lemma_rejected_never_accepted(s: OpPhase, a: OpAction)
    requires
        s == OpPhase::Rejected || s == OpPhase::Integrated(Outcome::Rejected),
        op_single_next(s, a) is Some,
    ensures
        op_single_next(s, a)->0 == OpPhase::Rejected || op_single_next(s, a)->0
            == OpPhase::Integrated(Outcome::Rejected),
{
}


/// An op that can still undergo a validation can be rejected instead:
/// from any phase where validating it moves it on to a new validated
/// phase, rejecting it makes it rejected, and nothing else.
pub proof fn lemma_reject_before_validation(s: OpPhase, vt: ValidationType)
    requires
        op_single_next(s, OpAction::Validate(vt)) == Some(OpPhase::Validated(vt)),
        s != OpPhase::Validated(vt),
    ensures
        op_single_next(s, OpAction::Reject) == Some(OpPhase::Rejected),
        forall|r: Result<(OpPhase, ()), InvalidTransition>|
            OpSingleMachine.outcome(s, OpAction::Reject, r) ==> r == Ok::<(OpPhase, ()), InvalidTransition>(
                (OpPhase::Rejected, ()),
            ),
{
}

} // verus!
