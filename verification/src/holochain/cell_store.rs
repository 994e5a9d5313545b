//! The cells a conductor runs, each with its own state.

use vstd::prelude::*;
use crate::holochain::CellId;
use crate::holochain::cell::{CellEvent, CellState};
use crate::sorted_map::SortedMap;

verus! {

/// The cells, by id.
pub struct CellStore(pub SortedMap<CellId, CellState>);

/// What can happen to the set of cells.
pub enum CellStoreEvent {
    /// An event for one cell.
    CellEvent(CellId, CellEvent),
    /// Start tracking a cell, in its initial state.
    AddCell(CellId),
    /// Stop tracking a cell.
    RemoveCell(CellId),
}

/// Why a cell store event was refused.
#[derive(Clone, Copy, Debug, PartialEq, Eq, Hash, Structural)]
pub enum CellStoreError {
    /// No cell has this id.
    CellNotFound(CellId),
}

/// The effect of a step of the cell store.
#[derive(Clone, Copy, Debug, PartialEq, Eq, Hash, Structural)]
pub struct CellStoreFx;

/// The cells after `event`: an added cell starts (again) in its initial
/// state, a removed one is gone, and an event for an unknown cell is
/// refused.
pub open spec fn cell_store_next(cells: Map<CellId, CellState>, event: CellStoreEvent) -> Result<
    Map<CellId, CellState>,
    CellStoreError,
> {
    match event {
        CellStoreEvent::CellEvent(id, _) => Err(CellStoreError::CellNotFound(id)),
        CellStoreEvent::AddCell(id) => Ok(cells.insert(id, CellState::Uninit)),
        CellStoreEvent::RemoveCell(id) => Ok(cells.remove(id)),
    }
}

impl CellStore {
    /// No cells.
    pub fn new() -> (s: Self)
        ensures
            s.0@ == Map::<CellId, CellState>::empty(),
    {
        CellStore(SortedMap::new())
    }

    /// Apply `event`. How a cell handles an event of its own is not
    /// modelled yet, so such an event is only taken for an unknown cell,
    /// which it refuses.
    pub fn transition(self, event: CellStoreEvent) -> (r: Result<(CellStore, CellStoreFx), CellStoreError>)
        requires
            event matches CellStoreEvent::CellEvent(id, _) ==> !self.0@.contains_key(id),
        ensures
            match cell_store_next(self.0@, event) {
                Ok(next) => r is Ok && r->Ok_0.0.0@ == next,
                Err(e) => r == Err::<(CellStore, CellStoreFx), CellStoreError>(e),
            },
    {
        let mut cells = self.0;
        match event {
            CellStoreEvent::CellEvent(id, _) => {
                return Err(CellStoreError::CellNotFound(id));
            },
            CellStoreEvent::AddCell(id) => {
                let _ = cells.insert(id, CellState::default());
            },
            CellStoreEvent::RemoveCell(id) => {
                let _ = cells.remove(&id);
            },
        }
        Ok((CellStore(cells), CellStoreFx))
    }
}

impl Default for CellStore {
    fn default() -> (s: Self)
        ensures
            s.0@ == Map::<CellId, CellState>::empty(),
    {
        CellStore::new()
    }
}

} // verus!
