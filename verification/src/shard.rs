//! A shard: the arc a node aims to hold, and how much of it is synced.

use vstd::prelude::*;
use crate::arq::Arq;
use crate::machine::Machine;

verus! {

/// What can happen to a shard.
#[derive(Clone, Copy, Debug, PartialEq, Eq, Hash, Structural)]
pub enum ShardAction {
    Grow,
    Shrink,
    SyncNext,
}

/// The target arc and how many of its chunks are synced.
pub struct ShardState {
    pub target_arq: Arq<u8>,
    pub synced_chunks: u8,
}

/// A shard as values: the target arc's grain, start and length, and the
/// synced chunks.
pub struct ShardView {
    pub grain: u32,
    pub start: u8,
    pub len: u8,
    pub synced: u8,
}

impl View for ShardState {
    type V = ShardView;

    open spec fn view(&self) -> ShardView {
        ShardView {
            grain: self.target_arq.grain,
            start: self.target_arq.start,
            len: self.target_arq.len,
            synced: self.synced_chunks,
        }
    }
}

impl ShardState {
    /// A shard aiming at `arq`, with nothing synced.
    pub fn new(arq: Arq<u8>) -> (s: Self)
        ensures
            s@ == (ShardView { grain: arq.grain, start: arq.start, len: arq.len, synced: 0 }),
    {
        ShardState { target_arq: arq, synced_chunks: 0 }
    }

    pub fn target_arq(&self) -> (a: Arq<u8>)
        ensures
            a.grain == self.target_arq.grain,
            a.start == self.target_arq.start,
            a.len == self.target_arq.len,
    {
        self.target_arq
    }

    /// The part of the target arc that is synced.
    pub fn synced_arq(&self) -> (a: Arq<u8>)
        ensures
            a.grain == self.target_arq.grain,
            a.start == self.target_arq.start,
            a.len == self.synced_chunks,
    {
        let mut a = self.target_arq;
        a.len = self.synced_chunks;
        a
    }
}

/// The shard is already synced.
#[derive(Clone, Copy, Debug, PartialEq, Eq, Hash, Structural)]
pub struct AlreadySynced;

/// One step of a shard.
pub open spec fn shard_next(s: ShardView, a: ShardAction) -> Result<ShardView, AlreadySynced> {
    match a {
        ShardAction::Grow => Ok(ShardView { len: (s.len + 1) as u8, ..s }),
        ShardAction::Shrink => Ok(ShardView { len: (s.len - 1) as u8, ..s }),
        ShardAction::SyncNext => if s.synced < s.len {
            Ok(ShardView { synced: (s.synced + 1) as u8, ..s })
        } else {
            Err(AlreadySynced)
        },
    }
}

/// The machine of a shard.
#[derive(Clone, Copy, Debug)]
pub struct ShardMachine;

impl Machine for ShardMachine {
    type State = ShardState;
    type Action = ShardAction;
    type Fx = ();
    type Error = AlreadySynced;

    /// The arc can neither grow past 255 chunks nor shrink below none.
    open spec fn admissible(&self, state: ShardState, action: ShardAction) -> bool {
        &&& action == ShardAction::Grow ==> state.target_arq.len < 255
        &&& action == ShardAction::Shrink ==> state.target_arq.len > 0
    }

    fn is_admissible(&self, state: &ShardState, action: &ShardAction) -> (b: bool) {
        match action {
            ShardAction::Grow => state.target_arq.len < 255,
            ShardAction::Shrink => state.target_arq.len > 0,
            ShardAction::SyncNext => true,
        }
    }

    open spec fn outcome(
        &self,
        state: ShardState,
        action: ShardAction,
        r: Result<(ShardState, ()), AlreadySynced>,
    ) -> bool {
        match shard_next(state@, action) {
            Ok(v) => r is Ok && r->Ok_0.0@ == v,
            Err(e) => r == Err::<(ShardState, ()), AlreadySynced>(e),
        }
    }

    fn transition(&self, state: ShardState, action: ShardAction) -> (r: Result<(ShardState, ()), AlreadySynced>)
    {
        let mut state = state;
        match action {
            ShardAction::Grow => {
                state.target_arq.len = state.target_arq.len + 1;
            },
            ShardAction::Shrink => {
                state.target_arq.len = state.target_arq.len - 1;
            },
            ShardAction::SyncNext => {
                if state.synced_chunks < state.target_arq.len {
                    state.synced_chunks = state.synced_chunks + 1;
                } else {
                    return Err(AlreadySynced);
                }
            },
        }
        Ok((state, ()))
    }

    fn is_terminal(&self, s: &ShardState) -> (b: bool)
        ensures
            b == (s.synced_chunks == s.target_arq.len),
    {
        s.synced_chunks == s.target_arq.len
    }
}

/// Syncing never passes the target: if no more than the target is synced,
/// a sync keeps it so.
pub proof fn lemma_sync_bounded(s: ShardView)
    requires
        s.synced <= s.len,
        shard_next(s, ShardAction::SyncNext) is Ok,
    ensures
        shard_next(s, ShardAction::SyncNext)->Ok_0.synced <= s.len,
{
}

} // verus!
