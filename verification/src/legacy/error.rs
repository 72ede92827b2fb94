//! Fault values of the prototype registry.

use vstd::prelude::*;

verus! {

/// A recoverable lookup fault of the prototype registry.
#[derive(Debug, Copy, Clone, PartialEq, Eq, Structural)]
pub enum EcsFault {
    EntityNotCreated,
    ComponentNotRegistered,
    NoComponentOnEntity,
}

} // verus!
