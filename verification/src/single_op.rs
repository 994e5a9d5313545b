//! A single op on one node, whose validation may wait for other ops.

use vstd::prelude::*;
use crate::machine::Machine;
use crate::sorted_map::SortedMap;

verus! {

/// Which validation an op has passed.
#[derive(Clone, Copy, Debug, PartialEq, Eq, Hash, Structural)]
pub enum ValidationType {
    Sys,
    App,
}

/// Where the op is in its lifecycle.
#[derive(Clone, Copy, Debug, PartialEq, Eq, Hash, Structural)]
pub enum OpPhase {
    /// The op has not been seen by this node yet.
    Unseen,
    /// The op has been received and validation has not been attempted.
    Pending,
    /// The op has been validated. If the op id is given, validation is in
    /// limbo awaiting that op; otherwise validation of this type is complete.
    Validated(ValidationType, Option<u32>),
    /// The op has been rejected.
    Rejected,
    /// The op has been integrated.
    Integrated,
}

impl Default for OpPhase {
    fn default() -> (p: Self)
        ensures
            p == OpPhase::Unseen,
    {
        OpPhase::Unseen
    }
}

pub open spec fn is_definitely_valid_spec(p: OpPhase) -> bool {
    p == OpPhase::Validated(ValidationType::App, None) || p == OpPhase::Integrated
}

impl OpPhase {
    pub fn is_definitely_valid(&self) -> (b: bool)
        ensures
            b == is_definitely_valid_spec(*self),
    {
        match self {
            OpPhase::Validated(ValidationType::App, None) => true,
            OpPhase::Integrated => true,
            _ => false,
        }
    }
}

/// What can happen to the op.
#[derive(Clone, Copy, Debug, PartialEq, Eq, Hash, Structural)]
pub enum OpEvent {
    /// Author the op.
    Author,
    /// Validate the op (as valid).
    Validate(ValidationType),
    /// Await this op.
    Await(ValidationType, u32),
    /// Reject the op (as invalid).
    Reject,
    /// Integrate the op.
    Integrate,
    /// Send the op to another node.
    Send(u32),
}

/// Why the op refused an event.
#[derive(Clone, Copy, Debug, PartialEq, Eq, Hash, Structural)]
pub enum SingleOpError {
    /// An op can't depend on itself.
    SelfDependency,
    /// The op was already authored or received.
    DuplicateAuthorship,
    /// No rule applies.
    InvalidTransition(OpPhase, OpEvent),
}

/// The next phase of op `id`.
pub open spec fn single_op_next(id: u32, s: OpPhase, e: OpEvent) -> Result<OpPhase, SingleOpError> {
    if e is Await && e->Await_1 == id {
        Err(SingleOpError::SelfDependency)
    } else {
        match (s, e) {
            (OpPhase::Unseen, OpEvent::Author) => Ok(OpPhase::Pending),
            (_, OpEvent::Author) => Err(SingleOpError::DuplicateAuthorship),
            (OpPhase::Pending, OpEvent::Reject) => Ok(OpPhase::Rejected),
            (OpPhase::Validated(ValidationType::Sys, _), OpEvent::Reject) => Ok(OpPhase::Rejected),
            (OpPhase::Pending, OpEvent::Await(ValidationType::Sys, dep)) => Ok(
                OpPhase::Validated(ValidationType::Sys, Some(dep)),
            ),
            (
                OpPhase::Validated(ValidationType::Sys, Some(_)),
                OpEvent::Await(ValidationType::App, dep),
            ) => Ok(OpPhase::Validated(ValidationType::App, Some(dep))),
            (OpPhase::Pending, OpEvent::Validate(ValidationType::Sys)) => Ok(
                OpPhase::Validated(ValidationType::Sys, None),
            ),
            (
                OpPhase::Validated(ValidationType::Sys, Some(_)),
                OpEvent::Validate(ValidationType::Sys),
            ) => Ok(OpPhase::Validated(ValidationType::Sys, None)),
            (
                OpPhase::Validated(ValidationType::Sys, None),
                OpEvent::Validate(ValidationType::App),
            ) => Ok(OpPhase::Validated(ValidationType::App, None)),
            (
                OpPhase::Validated(ValidationType::App, Some(_)),
                OpEvent::Validate(ValidationType::App),
            ) => Ok(OpPhase::Validated(ValidationType::App, None)),
            (OpPhase::Validated(ValidationType::App, None), OpEvent::Integrate) => Ok(
                OpPhase::Integrated,
            ),
            (OpPhase::Integrated, OpEvent::Send(_)) => Ok(OpPhase::Integrated),
            _ => Err(SingleOpError::InvalidTransition(s, e)),
        }
    }
}

/// The machine of one op with its dependencies.
pub struct OpMachine {
    pub id: u32,
    pub deps: SortedMap<u32, ()>,
}

impl OpMachine {
    /// An op machine for op `id` with the given dependencies.
    pub fn new(id: u32, deps: Vec<u32>) -> (m: Self)
        ensures
            m.id == id,
            forall|d: u32| m.deps@.contains_key(d) <==> deps@.contains(d),
    {
        let mut set: SortedMap<u32, ()> = SortedMap::new();
        let mut i: usize = 0;
        while i < deps.len()
            invariant
                i <= deps.len(),
                forall|d: u32| set@.contains_key(d) <==> deps@.take(i as int).contains(d),
            decreases deps.len() - i,
        {
            let x = deps[i];
            set.insert(x, ());
            proof {
                let pre = deps@.take(i + 1);
                assert forall|d: u32| set@.contains_key(d) <==> #[trigger] pre.contains(d) by {
                    if pre.contains(d) {
                        let t = choose|t: int| 0 <= t < i + 1 && pre[t] == d;
                        if t < i {
                            assert(deps@.take(i as int)[t] == d);
                        }
                    }
                    if deps@.take(i as int).contains(d) {
                        let t = choose|t: int| 0 <= t < i && #[trigger] deps@.take(i as int)[t] == d;
                        assert(pre[t] == d);
                    }
                    if d == x {
                        assert(pre[i as int] == d);
                    }
                }
            }
            i = i + 1;
        }
        proof {
            assert(deps@.take(deps.len() as int) =~= deps@);
        }
        OpMachine { id, deps: set }
    }

    /// The transition function of the op.
    pub fn step(&self, state: OpPhase, t: OpEvent) -> (r: Result<OpPhase, SingleOpError>)
        ensures
            r == single_op_next(self.id, state, t),
    {
        if let OpEvent::Await(_, dep) = t {
            if dep == self.id {
                return Err(SingleOpError::SelfDependency);
            }
        }
        match (state, t) {
            (OpPhase::Unseen, OpEvent::Author) => Ok(OpPhase::Pending),
            (_, OpEvent::Author) => Err(SingleOpError::DuplicateAuthorship),
            (OpPhase::Pending, OpEvent::Reject) => Ok(OpPhase::Rejected),
            (OpPhase::Validated(ValidationType::Sys, _), OpEvent::Reject) => Ok(OpPhase::Rejected),
            (OpPhase::Pending, OpEvent::Await(ValidationType::Sys, dep)) => Ok(
                OpPhase::Validated(ValidationType::Sys, Some(dep)),
            ),
            (
                OpPhase::Validated(ValidationType::Sys, Some(_)),
                OpEvent::Await(ValidationType::App, dep),
            ) => Ok(OpPhase::Validated(ValidationType::App, Some(dep))),
            (OpPhase::Pending, OpEvent::Validate(ValidationType::Sys)) => Ok(
                OpPhase::Validated(ValidationType::Sys, None),
            ),
            (
                OpPhase::Validated(ValidationType::Sys, Some(_)),
                OpEvent::Validate(ValidationType::Sys),
            ) => Ok(OpPhase::Validated(ValidationType::Sys, None)),
            (
                OpPhase::Validated(ValidationType::Sys, None),
                OpEvent::Validate(ValidationType::App),
            ) => Ok(OpPhase::Validated(ValidationType::App, None)),
            (
                OpPhase::Validated(ValidationType::App, Some(_)),
                OpEvent::Validate(ValidationType::App),
            ) => Ok(OpPhase::Validated(ValidationType::App, None)),
            (OpPhase::Validated(ValidationType::App, None), OpEvent::Integrate) => Ok(
                OpPhase::Integrated,
            ),
            (OpPhase::Integrated, OpEvent::Send(_)) => Ok(OpPhase::Integrated),
            _ => Err(SingleOpError::InvalidTransition(state, t)),
        }
    }
}

impl Machine for OpMachine {
    type State = OpPhase;
    type Action = OpEvent;
    type Fx = ();
    type Error = SingleOpError;

    open spec fn admissible(&self, state: OpPhase, action: OpEvent) -> bool {
        true
    }

    fn is_admissible(&self, state: &OpPhase, action: &OpEvent) -> (b: bool) {
        true
    }

    open spec fn outcome(
        &self,
        state: OpPhase,
        t: OpEvent,
        r: Result<(OpPhase, ()), SingleOpError>,
    ) -> bool {
        match single_op_next(self.id, state, t) {
            Ok(n) => r == Ok::<(OpPhase, ()), SingleOpError>((n, ())),
            Err(e) => r == Err::<(OpPhase, ()), SingleOpError>(e),
        }
    }

    fn transition(&self, state: OpPhase, t: OpEvent) -> (r: Result<(OpPhase, ()), SingleOpError>)
    {
        match self.step(state, t) {
            Ok(n) => Ok((n, ())),
            Err(e) => Err(e),
        }
    }

    fn is_terminal(&self, state: &OpPhase) -> (b: bool)
        ensures
            b == (*state == OpPhase::Integrated || *state == OpPhase::Rejected),
    {
        match state {
            OpPhase::Integrated | OpPhase::Rejected => true,
            _ => false,
        }
    }
}

/// A terminal op accepts no event but sending an integrated op on.
pub proof fn lemma_terminal_stays(id: u32, s: OpPhase, e: OpEvent)
    requires
        s == OpPhase::Integrated || s == OpPhase::Rejected,
        single_op_next(id, s, e) is Ok,
    ensures
        single_op_next(id, s, e) == Ok::<OpPhase, SingleOpError>(OpPhase::Integrated),
        s == OpPhase::Integrated,
        e is Send,
{
}

/// An op is authored at most once.
pub proof fn lemma_author_once(id: u32, s: OpPhase)
    requires
        s != OpPhase::Unseen,
    ensures
        single_op_next(id, s, OpEvent::Author) == Err::<OpPhase, SingleOpError>(
            SingleOpError::DuplicateAuthorship,
        ),
{
}

} // verus!
