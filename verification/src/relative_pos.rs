use vstd::prelude::*;
use crate::chunk::CHUNK_WIDTH;

verus! {

/// A signed offset from a cell, each component strictly smaller than the
/// chunk width in magnitude.
#[derive(Clone, Copy, Debug, PartialEq, Eq, Structural)]
pub struct RelativePos {
    pub x: i8,
    pub y: i8,
    pub z: i8,
}

impl RelativePos {
    /// Does this offset keep each component strictly inside the chunk width?
    pub open spec fn wf(self) -> bool {
        &&& -(CHUNK_WIDTH as int) < self.x < (CHUNK_WIDTH as int)
        &&& -(CHUNK_WIDTH as int) < self.y < (CHUNK_WIDTH as int)
        &&& -(CHUNK_WIDTH as int) < self.z < (CHUNK_WIDTH as int)
    }

    pub fn new(x: i8, y: i8, z: i8) -> (r: RelativePos)
        requires
            -(CHUNK_WIDTH as int) < x < (CHUNK_WIDTH as int),
            -(CHUNK_WIDTH as int) < y < (CHUNK_WIDTH as int),
            -(CHUNK_WIDTH as int) < z < (CHUNK_WIDTH as int),
        ensures
            r == (RelativePos { x, y, z }),
            r.wf(),
    {
        RelativePos { x, y, z }
    }

    /// The offset that stays on the cell itself.
    pub fn here() -> (r: RelativePos)
        ensures
            r == (RelativePos { x: 0i8, y: 0i8, z: 0i8 }),
            r.wf(),
    {
        RelativePos::new(0, 0, 0)
    }
}

} // verus!
