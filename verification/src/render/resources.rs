//! Plain mesh data handed to the rendering collaborator.

use vstd::prelude::*;

verus! {

/// Triangle-list vertex indices.
pub struct IndexBuffer {
    buffer: Vec<u32>,
}

impl IndexBuffer {
    /// The indices, in order.
    pub closed spec fn view_spec(&self) -> Seq<u32> {
        self.buffer@
    }

    pub fn new(buf: Vec<u32>) -> (index_buffer: IndexBuffer)
        ensures
            index_buffer.view_spec() == buf@,
    {
        IndexBuffer { buffer: buf }
    }

    /// The backing slice, for handing to a graphics API.
    pub fn borrow(&self) -> (indices: &[u32])
        ensures
            indices@ == self.view_spec(),
    {
        self.buffer.as_slice()
    }
}

} // verus!
