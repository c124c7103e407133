use vstd::prelude::*;
use crate::block::{BlockType, UNKNOWN};
use crate::chunk_pos::ChunkPos;
use crate::query::BlockInfo;

verus! {

/// The number of cells along each axis of a chunk.
pub const CHUNK_WIDTH: u8 = 32;

/// `CHUNK_WIDTH` squared: the number of cells in one x-slice.
pub const CHUNK_WIDTH_E2: usize = 1024;

/// `CHUNK_WIDTH` cubed: the number of cells in a chunk.
pub const CHUNK_WIDTH_E3: usize = 32768;

/// A dense array of block types, one per cell, in ascending `n` order.
pub struct Chunk {
    block_types: Vec<BlockType>,
}

impl View for Chunk {
    type V = Seq<BlockType>;

    closed spec fn view(&self) -> Seq<BlockType> {
        self.block_types@
    }
}

impl Chunk {
    #[verifier::type_invariant]
    pub open spec fn inv(self) -> bool {
        self@.len() == CHUNK_WIDTH_E3
    }

    /// A fresh chunk, every cell `UNKNOWN`.
    pub fn new() -> (c: Chunk)
        ensures
            c@.len() == CHUNK_WIDTH_E3,
            forall|i: int| 0 <= i < (CHUNK_WIDTH_E3 as int) ==> c@[i] == UNKNOWN(),
    {
        let mut block_types: Vec<BlockType> = Vec::new();
        let mut i: usize = 0;
        while i < CHUNK_WIDTH_E3
            invariant
                0 <= i <= CHUNK_WIDTH_E3,
                block_types@.len() == i,
                forall|j: int| 0 <= j < i ==> block_types@[j] == UNKNOWN(),
            decreases CHUNK_WIDTH_E3 - i,
        {
            block_types.push(UNKNOWN());
            i = i + 1;
        }
        Chunk { block_types }
    }

    /// What the given cell holds.
    pub fn get_block(&self, pos: ChunkPos) -> (b: BlockInfo)
        ensures
            b.block_type == self@[pos.spec_n()],
    {
        proof {
            use_type_invariant(self);
            use_type_invariant(pos);
        }
        BlockInfo { block_type: self.block_types[pos.raw_n() as usize] }
    }

    /// Overwrite the given cell; every other cell keeps its block type.
    pub fn set_block_type(&mut self, pos: ChunkPos, block_type: BlockType)
        ensures
            final(self)@ == old(self)@.update(pos.spec_n(), block_type),
    {
        proof {
            use_type_invariant(&*self);
            use_type_invariant(pos);
        }
        let idx: usize = pos.raw_n() as usize;
        self.block_types[idx] = block_type;
    }

    /// Overwrite every cell with the same block type.
    pub fn fill_with_block_type(&mut self, block_type: BlockType)
        ensures
            final(self)@.len() == CHUNK_WIDTH_E3,
            forall|i: int| 0 <= i < (CHUNK_WIDTH_E3 as int) ==> final(self)@[i] == block_type,
    {
        proof {
            use_type_invariant(&*self);
        }
        let mut i: usize = 0;
        while i < CHUNK_WIDTH_E3
            invariant
                0 <= i <= CHUNK_WIDTH_E3,
                self@.len() == CHUNK_WIDTH_E3,
                forall|j: int| 0 <= j < i ==> self@[j] == block_type,
            decreases CHUNK_WIDTH_E3 - i,
        {
            self.block_types[i] = block_type;
            i = i + 1;
        }
    }

    /// Walk every cell in ascending `n` order.
    pub fn blocks_iter<'a>(&'a self) -> (it: ChunkBlocksIterator<'a>)
        ensures
            it.chunk()@ == self@,
            it.remaining_start() == 0,
    {
        ChunkBlocksIterator::new(self)
    }

    /// The block type that `spec_neighbor_types` lists for one offset, as a
    /// sequence: a singleton when the neighbor lies inside the chunk, empty
    /// when it would leave it.
    pub open spec fn spec_neighbor_entry(chunk: Seq<BlockType>, pos: ChunkPos, dx: int, dy: int) -> Seq<
        BlockType,
    > {
        let x = pos.spec_x() + dx;
        let y = pos.spec_y() + dy;
        if 0 <= x < (CHUNK_WIDTH as int) && 0 <= y < (CHUNK_WIDTH as int) {
            seq![chunk[ChunkPos::spec_pack(x, y, pos.spec_z())]]
        } else {
            seq![]
        }
    }

    /// The block types at the eight same-z neighbors at Chebyshev distance
    /// one, in row-major order (y, then x), the center omitted and
    /// out-of-chunk neighbors skipped.
    pub open spec fn spec_neighbor_types(chunk: Seq<BlockType>, pos: ChunkPos) -> Seq<BlockType> {
        Self::spec_neighbor_entry(chunk, pos, -1, -1) + Self::spec_neighbor_entry(chunk, pos, 0, -1)
            + Self::spec_neighbor_entry(chunk, pos, 1, -1) + Self::spec_neighbor_entry(
            chunk,
            pos,
            -1,
            0,
        ) + Self::spec_neighbor_entry(chunk, pos, 1, 0) + Self::spec_neighbor_entry(
            chunk,
            pos,
            -1,
            1,
        ) + Self::spec_neighbor_entry(chunk, pos, 0, 1) + Self::spec_neighbor_entry(chunk, pos, 1, 1)
    }

    /// Push the neighbor at the given offset, skipping it when it would
    /// leave the chunk.
    fn push_neighbor(&self, r: &mut Vec<BlockType>, pos: ChunkPos, dx: i8, dy: i8)
        requires
            -1 <= dx <= 1,
            -1 <= dy <= 1,
        ensures
            final(r)@ == old(r)@ + Self::spec_neighbor_entry(self@, pos, dx as int, dy as int),
    {
        let x: i16 = pos.x() as i16 + dx as i16;
        let y: i16 = pos.y() as i16 + dy as i16;
        proof {
            use_type_invariant(pos);
            pos.lemma_coords_range();
        }
        if 0 <= x && x < CHUNK_WIDTH as i16 && 0 <= y && y < CHUNK_WIDTH as i16 {
            let neighbor_pos = ChunkPos::new(x as u8, y as u8, pos.z());
            r.push(self.get_block(neighbor_pos).block_type);
        }
    }

    /// The block types at the eight same-z Chebyshev-distance-one neighbors,
    /// in row-major order (y, then x), the center omitted and out-of-chunk
    /// neighbors skipped.
    pub fn neighbor_types(&self, pos: ChunkPos) -> (r: Vec<BlockType>)
        ensures
            r@ == Self::spec_neighbor_types(self@, pos),
    {
        let mut r: Vec<BlockType> = Vec::new();
        self.push_neighbor(&mut r, pos, -1, -1);
        self.push_neighbor(&mut r, pos, 0, -1);
        self.push_neighbor(&mut r, pos, 1, -1);
        self.push_neighbor(&mut r, pos, -1, 0);
        self.push_neighbor(&mut r, pos, 1, 0);
        self.push_neighbor(&mut r, pos, -1, 1);
        self.push_neighbor(&mut r, pos, 0, 1);
        self.push_neighbor(&mut r, pos, 1, 1);
        r
    }
}

impl Default for Chunk {
    /// A fresh chunk, every cell `UNKNOWN`.
    fn default() -> (c: Chunk)
        ensures
            c@.len() == CHUNK_WIDTH_E3,
            forall|i: int| 0 <= i < (CHUNK_WIDTH_E3 as int) ==> c@[i] == UNKNOWN(),
    {
        Chunk::new()
    }
}

/// Walks the cells of a borrowed chunk in ascending `n` order.
pub struct ChunkBlocksIterator<'a> {
    chunk: &'a Chunk,
    pos: ChunkPos,
    done: bool,
}

impl<'a> ChunkBlocksIterator<'a> {
    /// The chunk being walked.
    pub closed spec fn chunk(&self) -> &'a Chunk {
        self.chunk
    }

    /// The `n` of the next cell to yield, or the cell count when the walk is
    /// over.
    pub closed spec fn remaining_start(&self) -> int {
        if self.done {
            CHUNK_WIDTH_E3 as int
        } else {
            self.pos.spec_n()
        }
    }

    #[verifier::type_invariant]
    spec fn iter_inv(self) -> bool {
        0 <= self.remaining_start() <= (CHUNK_WIDTH_E3 as int)
    }

    fn new(chunk: &'a Chunk) -> (it: ChunkBlocksIterator<'a>)
        ensures
            it.chunk() == chunk,
            it.remaining_start() == 0,
    {
        ChunkBlocksIterator { chunk, pos: ChunkPos::new(0, 0, 0), done: false }
    }

    /// Yield the next cell and its position, or nothing once every cell has
    /// been yielded.
    pub fn next(&mut self) -> (item: Option<(ChunkPos, BlockInfo)>)
        ensures
            old(self).remaining_start() == (CHUNK_WIDTH_E3 as int) ==> {
                &&& item is None
                &&& final(self).remaining_start() == old(self).remaining_start()
                &&& final(self).chunk() == old(self).chunk()
            },
            old(self).remaining_start() < (CHUNK_WIDTH_E3 as int) ==> {
                &&& final(self).remaining_start() == old(self).remaining_start() + 1
                &&& final(self).chunk() == old(self).chunk()
                &&& match item {
                    Some((p, b)) => p.spec_n() == old(self).remaining_start() && b.block_type
                        == old(self).chunk()@[old(self).remaining_start()],
                    None => false,
                }
            },
    {
        proof {
            use_type_invariant(&*self);
            use_type_invariant(self.pos);
        }
        if self.done {
            return None;
        }
        let block = self.chunk.get_block(self.pos);
        let result = Some((self.pos, block));
        let incremented = self.pos.increment();
        if !incremented {
            self.done = true;
        }
        result
    }
}

} // verus!
