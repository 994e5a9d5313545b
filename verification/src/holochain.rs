//! A model of a Holochain conductor's apps and cells.
//!
//! Hashes and keys are only ever compared and used as keys here, so each is
//! modelled by an integer that identifies it.

use vstd::prelude::*;
use crate::sorted_map::MapKey;

pub mod app;
pub mod app_store;
pub mod cell;
pub mod cell_store;
pub mod conductor;
pub mod fsm;

verus! {

/// The hash of a DNA.
#[derive(Clone, Copy, Debug, PartialEq, Eq, Hash, Structural)]
pub struct DnaHash(pub u64);

/// The public key of an agent.
#[derive(Clone, Copy, Debug, PartialEq, Eq, Hash, Structural)]
pub struct AgentKey(pub u64);

/// A cell: one DNA run by one agent.
#[derive(Clone, Copy, Debug, PartialEq, Eq, Hash, Structural)]
pub struct CellId(pub DnaHash, pub AgentKey);

impl MapKey for CellId {
    /// Ordered by DNA, then by agent.
    open spec fn key_lt(self, other: Self) -> bool {
        self.0.0 < other.0.0 || (self.0.0 == other.0.0 && self.1.0 < other.1.0)
    }

    proof fn lemma_key_lt_irreflexive(a: Self) {
    }

    proof fn lemma_key_lt_transitive(a: Self, b: Self, c: Self) {
    }

    proof fn lemma_key_lt_total(a: Self, b: Self) {
    }

    fn key_less(&self, other: &Self) -> (r: bool) {
        self.0.0 < other.0.0 || (self.0.0 == other.0.0 && self.1.0 < other.1.0)
    }

    fn key_same(&self, other: &Self) -> (r: bool) {
        self.0.0 == other.0.0 && self.1.0 == other.1.0
    }

    fn key_copy(&self) -> (r: Self) {
        *self
    }
}

} // verus!
