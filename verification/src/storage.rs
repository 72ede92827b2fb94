//! The storage layer: type-erased column buffers, tables of columns, the
//! table registry, and the single-row resource table.

pub mod blobvec;
pub mod resource_table;
pub mod table;
