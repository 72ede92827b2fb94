//! Fault values reported by lookup-style operations of the store.
//!
//! These are the recoverable faults: a caller asked for an entity, a
//! component or a resource that the store does not hold. Precondition
//! violations (an out-of-range row index, running a system before it was
//! initialized) are not represented here; the functions concerned exclude
//! them by contract instead.

use vstd::prelude::*;

verus! {

/// A recoverable lookup fault of the archetype store.
///
/// `ComponentNotRegistered` and `NoComponentOnEntity` are deliberately
/// distinct: the first means the data type was never registered at all
/// (a forgotten registration), the second that the entity legitimately
/// lacks the data.
#[derive(Debug, Copy, Clone, PartialEq, Eq, Structural)]
pub enum StorageFault {
    EntityNotCreated,
    ComponentNotRegistered,
    NoComponentOnEntity,
    ComponentUninitOnEntity,
}

/// Reported when one set of declared parameters asks for overlapping
/// read/write or write/write access to the same component id.
#[derive(Debug, Copy, Clone, PartialEq, Eq, Structural)]
pub struct AccessConflict;

} // verus!
