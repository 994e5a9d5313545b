//! The phases of one sharded gossip round, as seen by one side.

use vstd::prelude::*;

verus! {

/// The kind of a gossip round.
#[derive(Clone, Copy, Debug, PartialEq, Eq, Hash, Structural)]
pub enum GossipType {
    /// Gossip of recent data: agents are exchanged before ops.
    Recent,
    /// Gossip of historical data: ops only.
    Historical,
}

/// How far a round has come.
#[derive(Clone, Copy, Debug, PartialEq, Eq, Hash, Structural)]
pub enum RoundPhase {
    Begin,
    AgentDiffReceived,
    AgentsReceived,
    OpDiffReceived,
    Finished,
}

/// What can happen in a round.
#[derive(Clone, Copy, Debug, PartialEq, Eq, Hash, Structural)]
pub enum RoundEvent {
    Initiate,
    Accept,
    AgentDiff,
    Agents,
    OpDiff,
    Ops,
    Close,
}

/// Why a round refused an event.
#[derive(Clone, Copy, Debug, PartialEq, Eq, Hash, Structural)]
pub enum RoundError {
    /// The round is over; nothing more happens in it.
    Finished,
    /// The event cannot happen in this phase of a round of this kind.
    InvalidTransition,
}

/// The kinds of message of the sharded gossip wire protocol.
#[derive(Clone, Copy, Debug, PartialEq, Eq, Hash, Structural)]
pub enum WireKind {
    Initiate,
    Accept,
    Agents,
    MissingAgents,
    OpBloom,
    OpRegions,
    MissingOpHashes,
    OpBatchReceived,
    Error,
    Busy,
    NoAgents,
    AlreadyInProgress,
}

/// The phase after `event` in a round of kind `ty`, or why it is refused.
pub open spec fn round_next(ty: GossipType, phase: RoundPhase, event: RoundEvent) -> Result<
    RoundPhase,
    RoundError,
> {
    match (ty, phase, event) {
        (GossipType::Recent, RoundPhase::Begin, RoundEvent::AgentDiff) => Ok(
            RoundPhase::AgentDiffReceived,
        ),
        (GossipType::Historical, RoundPhase::Begin, RoundEvent::OpDiff) => Ok(
            RoundPhase::OpDiffReceived,
        ),
        (GossipType::Recent, RoundPhase::AgentDiffReceived, RoundEvent::Agents) => Ok(
            RoundPhase::AgentsReceived,
        ),
        (GossipType::Recent, RoundPhase::AgentsReceived, RoundEvent::OpDiff) => Ok(
            RoundPhase::OpDiffReceived,
        ),
        (_, RoundPhase::OpDiffReceived, RoundEvent::Ops) => Ok(RoundPhase::Finished),
        (_, RoundPhase::Finished, _) => Err(RoundError::Finished),
        (_, _, RoundEvent::Close) => Ok(RoundPhase::Finished),
        _ => Err(RoundError::InvalidTransition),
    }
}

/// The round event a wire message stands for, if any.
pub open spec fn wire_event(msg: WireKind) -> Option<RoundEvent> {
    match msg {
        WireKind::Initiate => Some(RoundEvent::Initiate),
        WireKind::Accept => Some(RoundEvent::Accept),
        WireKind::Agents => Some(RoundEvent::AgentDiff),
        WireKind::MissingAgents => Some(RoundEvent::Agents),
        WireKind::OpBloom => Some(RoundEvent::OpDiff),
        WireKind::OpRegions => Some(RoundEvent::OpDiff),
        WireKind::MissingOpHashes => Some(RoundEvent::Ops),
        WireKind::OpBatchReceived => None,
        WireKind::Error => Some(RoundEvent::Close),
        WireKind::Busy => Some(RoundEvent::Close),
        WireKind::NoAgents => Some(RoundEvent::Close),
        WireKind::AlreadyInProgress => Some(RoundEvent::Close),
    }
}

impl RoundPhase {
    /// Apply `event` in a round of kind `ty`.
    pub fn transition(self, event: RoundEvent, ty: GossipType) -> (r: Result<RoundPhase, RoundError>)
        ensures
            r == round_next(ty, self, event),
    {
        match (ty, self, event) {
            (GossipType::Recent, RoundPhase::Begin, RoundEvent::AgentDiff) => Ok(
                RoundPhase::AgentDiffReceived,
            ),
            (GossipType::Historical, RoundPhase::Begin, RoundEvent::OpDiff) => Ok(
                RoundPhase::OpDiffReceived,
            ),
            (GossipType::Recent, RoundPhase::AgentDiffReceived, RoundEvent::Agents) => Ok(
                RoundPhase::AgentsReceived,
            ),
            (GossipType::Recent, RoundPhase::AgentsReceived, RoundEvent::OpDiff) => Ok(
                RoundPhase::OpDiffReceived,
            ),
            (_, RoundPhase::OpDiffReceived, RoundEvent::Ops) => Ok(RoundPhase::Finished),
            (_, RoundPhase::Finished, _) => Err(RoundError::Finished),
            (_, _, RoundEvent::Close) => Ok(RoundPhase::Finished),
            _ => Err(RoundError::InvalidTransition),
        }
    }
}

/// The round event a wire message stands for, if any.
pub fn map_event(msg: WireKind) -> (r: Option<RoundEvent>)
    ensures
        r == wire_event(msg),
{
    match msg {
        WireKind::Initiate => Some(RoundEvent::Initiate),
        WireKind::Accept => Some(RoundEvent::Accept),
        WireKind::Agents => Some(RoundEvent::AgentDiff),
        WireKind::MissingAgents => Some(RoundEvent::Agents),
        WireKind::OpBloom => Some(RoundEvent::OpDiff),
        WireKind::OpRegions => Some(RoundEvent::OpDiff),
        WireKind::MissingOpHashes => Some(RoundEvent::Ops),
        WireKind::OpBatchReceived => None,
        WireKind::Error | WireKind::Busy | WireKind::NoAgents | WireKind::AlreadyInProgress => Some(
            RoundEvent::Close,
        ),
    }
}

/// How far along a round a phase is.
pub open spec fn phase_rank(p: RoundPhase) -> int {
    match p {
        RoundPhase::Begin => 0,
        RoundPhase::AgentDiffReceived => 1,
        RoundPhase::AgentsReceived => 2,
        RoundPhase::OpDiffReceived => 3,
        RoundPhase::Finished => 4,
    }
}

/// A round only moves forward: every accepted event leads to a later
/// phase, a finished round accepts nothing, closing always finishes a round
/// that is not over, and a historical round never exchanges agents.
pub proof fn lemma_round_moves_forward(ty: GossipType, p: RoundPhase, e: RoundEvent)
    ensures
        round_next(ty, p, e) matches Ok(q) ==> phase_rank(p) < phase_rank(q),
        p == RoundPhase::Finished ==> round_next(ty, p, e) == Err::<RoundPhase, RoundError>(
            RoundError::Finished,
        ),
        p != RoundPhase::Finished ==> round_next(ty, p, RoundEvent::Close) == Ok::<
            RoundPhase,
            RoundError,
        >(RoundPhase::Finished),
        ty == GossipType::Historical ==> !(round_next(ty, p, e) matches Ok(q) && (q
            == RoundPhase::AgentDiffReceived || q == RoundPhase::AgentsReceived)),
{
}

} // verus!
