//! The lifecycle of one cell.

use vstd::prelude::*;

verus! {

/// What can happen to a cell. No event is modelled yet: the field is
/// private and nothing makes a value of this type.
pub struct CellEvent(());

/// The state of a cell.
#[derive(Clone, Copy, Debug, PartialEq, Eq, Hash, Structural)]
pub enum CellState {
    Uninit,
}

impl Default for CellState {
    fn default() -> (s: Self)
        ensures
            s == CellState::Uninit,
    {
        CellState::Uninit
    }
}

} // verus!
