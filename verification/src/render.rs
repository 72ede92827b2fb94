//! The store-independent data of the rendering collaborators: shader
//! program sources and mesh index data. The GPU-facing work itself lives
//! with the embedding application.

pub mod resources;
pub mod shader;
