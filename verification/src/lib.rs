//! An in-process entity/component data store: a columnar archetype storage
//! engine with a typed query and scheduling layer. Systems declare the data
//! they read or write, and iterate matching rows of the store.
//!
//! The store is organised leaf to root:
//! - [`storage::blobvec`]: the type-erased growable column buffer;
//! - [`component`]: the component/resource identity registry;
//! - [`storage::table`]: tables (archetypes) of columns plus a row-to-entity map,
//!   and the registry of tables keyed by archetype signature;
//! - [`storage::resource_table`]: the single-row table hosting singleton resources;
//! - [`query`]: fetch/filter descriptors, access-conflict detection and row iteration;
//! - [`system`]: the parameter-resolution protocol binding user logic to the store;
//! - [`event`]: double-buffered broadcast event channels.
//!
//! Around the core stand [`input`], the key-state bookkeeper; [`render`],
//! the store-independent data of the rendering collaborators; [`stage`],
//! the application shell; and [`legacy`], the superseded single-table
//! prototype the archetype design replaced.

pub mod component;
pub mod entity;
pub mod error;
pub mod event;
pub mod input;
pub mod legacy;
pub mod query;
pub mod render;
pub mod stage;
pub mod storage;
pub mod system;
pub mod world;
