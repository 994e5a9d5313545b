//! A state machine that carries metadata beside its state.

use vstd::prelude::*;

verus! {

/// A machine whose events and effects are fixed by its type, and which
/// exposes the metadata it was set up with.
pub trait Pfsm: Sized {
    type Event;
    type Meta;
    type Fx;

    /// The metadata of this machine.
    fn meta(&self) -> &Self::Meta;
}

} // verus!
