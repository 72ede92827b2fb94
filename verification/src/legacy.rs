//! The earlier, bitmask-based single-table prototype of the store.
//!
//! Superseded by the archetype design under [`crate::storage`], and not
//! reconciled with it: one registry holds every entity, components are
//! marked by bits of one machine word per entity, and values live in
//! per-type option columns. Kept as the store's first shape.

pub mod entity;
pub mod error;
pub mod resource;
