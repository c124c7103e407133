use vstd::prelude::*;
use crate::chunk::{CHUNK_WIDTH, CHUNK_WIDTH_E2, CHUNK_WIDTH_E3};
use crate::relative_pos::RelativePos;

verus! {

/// An absolute position inside a chunk, packed into a single integer
/// `n = x * CHUNK_WIDTH^2 + y * CHUNK_WIDTH + z`.
#[derive(Clone, Copy, Debug, PartialEq, Eq, Structural)]
pub struct ChunkPos {
    n: u16,
}

impl ChunkPos {
    pub closed spec fn spec_n(self) -> int {
        self.n as int
    }

    #[verifier::type_invariant]
    pub open spec fn inv(self) -> bool {
        0 <= self.spec_n() < (CHUNK_WIDTH_E3 as int)
    }

    pub closed spec fn spec_x(self) -> int {
        self.n as int / (CHUNK_WIDTH_E2 as int) % (CHUNK_WIDTH as int)
    }

    pub closed spec fn spec_y(self) -> int {
        self.n as int / (CHUNK_WIDTH as int) % (CHUNK_WIDTH as int)
    }

    pub closed spec fn spec_z(self) -> int {
        self.n as int % (CHUNK_WIDTH as int)
    }

    /// The position with the given packed integer, as a mathematical
    /// function.
    pub closed spec fn spec_from_n(n: int) -> ChunkPos {
        ChunkPos { n: n as u16 }
    }

    /// `spec_from_n` inverts `spec_n` on the packed integers of the chunk.
    pub proof fn lemma_from_n(n: int)
        requires
            0 <= n < (CHUNK_WIDTH_E3 as int),
        ensures
            Self::spec_from_n(n).spec_n() == n,
            Self::spec_from_n(n).inv(),
            forall|p: ChunkPos| p.spec_n() == n ==> p == Self::spec_from_n(n),
    {
    }

    /// Two positions with the same coordinates are the same position.
    pub proof fn lemma_coords_determine(p: ChunkPos, q: ChunkPos)
        requires
            p.inv(),
            q.inv(),
            p.spec_x() == q.spec_x(),
            p.spec_y() == q.spec_y(),
            p.spec_z() == q.spec_z(),
        ensures
            p == q,
    {
        p.lemma_split_pack();
        q.lemma_split_pack();
    }

    /// Two positions with the same packed integer are the same position.
    pub proof fn lemma_eq_n(p: ChunkPos, q: ChunkPos)
        requires
            p.spec_n() == q.spec_n(),
        ensures
            p == q,
    {
    }

    /// The coordinates of any position lie in `0 .. CHUNK_WIDTH`, and they
    /// determine `spec_n` when the position is within the chunk.
    pub proof fn lemma_coords_range(self)
        ensures
            0 <= self.spec_x() < (CHUNK_WIDTH as int),
            0 <= self.spec_y() < (CHUNK_WIDTH as int),
            0 <= self.spec_z() < (CHUNK_WIDTH as int),
    {
        let n = self.n as int;
        assert(0 <= n / 1024 % 32 < 32 && 0 <= n / 32 % 32 < 32 && 0 <= n % 32 < 32)
            by (nonlinear_arith)
            requires
                0 <= n < 65536,
        ;
    }

    /// The packed integer that `new(x, y, z)` produces.
    pub open spec fn spec_pack(x: int, y: int, z: int) -> int {
        x * (CHUNK_WIDTH_E2 as int) + y * (CHUNK_WIDTH as int) + z
    }

    /// Packing and splitting are mutually inverse: `spec_x`, `spec_y` and
    /// `spec_z` recover the coordinates that were packed, and the packed
    /// integer of the recovered coordinates is `n` again.
    pub proof fn lemma_pack_split(x: int, y: int, z: int)
        requires
            0 <= x < (CHUNK_WIDTH as int),
            0 <= y < (CHUNK_WIDTH as int),
            0 <= z < (CHUNK_WIDTH as int),
        ensures
            0 <= Self::spec_pack(x, y, z) < (CHUNK_WIDTH_E3 as int),
            Self::spec_pack(x, y, z) / (CHUNK_WIDTH_E2 as int) % (CHUNK_WIDTH as int) == x,
            Self::spec_pack(x, y, z) / (CHUNK_WIDTH as int) % (CHUNK_WIDTH as int) == y,
            Self::spec_pack(x, y, z) % (CHUNK_WIDTH as int) == z,
    {
        let n = Self::spec_pack(x, y, z);
        assert(n / 1024 % 32 == x && n / 32 % 32 == y && n % 32 == z && 0 <= n < 32768)
            by (nonlinear_arith)
            requires
                0 <= x < 32,
                0 <= y < 32,
                0 <= z < 32,
                n == x * 1024 + y * 32 + z,
        ;
    }

    /// Every position's coordinates pack back to its `n`.
    pub proof fn lemma_split_pack(self)
        requires
            self.inv(),
        ensures
            Self::spec_pack(self.spec_x(), self.spec_y(), self.spec_z()) == self.spec_n(),
            0 <= self.spec_x() < (CHUNK_WIDTH as int),
            0 <= self.spec_y() < (CHUNK_WIDTH as int),
            0 <= self.spec_z() < (CHUNK_WIDTH as int),
    {
        let n = self.n as int;
        assert(n / 1024 % 32 * 1024 + n / 32 % 32 * 32 + n % 32 == n
            && 0 <= n / 1024 % 32 < 32 && 0 <= n / 32 % 32 < 32 && 0 <= n % 32 < 32)
            by (nonlinear_arith)
            requires
                0 <= n < 32768,
        ;
    }

    pub fn new(x: u8, y: u8, z: u8) -> (r: ChunkPos)
        requires
            x < CHUNK_WIDTH,
            y < CHUNK_WIDTH,
            z < CHUNK_WIDTH,
        ensures
            r.spec_n() == Self::spec_pack(x as int, y as int, z as int),
            r.spec_x() == x as int,
            r.spec_y() == y as int,
            r.spec_z() == z as int,
    {
        proof {
            Self::lemma_pack_split(x as int, y as int, z as int);
        }
        ChunkPos { n: (x as u16) * (CHUNK_WIDTH_E2 as u16) + (y as u16) * (CHUNK_WIDTH as u16) + (z as u16) }
    }

    pub(crate) fn new_from_raw_n(n: u16) -> (r: ChunkPos)
        requires
            n < CHUNK_WIDTH_E3,
        ensures
            r.spec_n() == n as int,
    {
        ChunkPos { n }
    }

    pub fn raw_n(self) -> (n: u16)
        ensures
            n as int == self.spec_n(),
    {
        self.n
    }

    pub fn x(self) -> (r: u8)
        ensures
            r as int == self.spec_x(),
            r < CHUNK_WIDTH,
    {
        proof {
            use_type_invariant(self);
            self.lemma_split_pack();
        }
        ((self.n / (CHUNK_WIDTH_E2 as u16)) % (CHUNK_WIDTH as u16)) as u8
    }

    pub fn y(self) -> (r: u8)
        ensures
            r as int == self.spec_y(),
            r < CHUNK_WIDTH,
    {
        proof {
            use_type_invariant(self);
            self.lemma_split_pack();
        }
        ((self.n / (CHUNK_WIDTH as u16)) % (CHUNK_WIDTH as u16)) as u8
    }

    pub fn z(self) -> (r: u8)
        ensures
            r as int == self.spec_z(),
            r < CHUNK_WIDTH,
    {
        proof {
            use_type_invariant(self);
            self.lemma_split_pack();
        }
        (self.n % (CHUNK_WIDTH as u16)) as u8
    }

    /// Step to the next position in ascending `n` order; returns false at the
    /// last position of the chunk, leaving the position unchanged.
    pub fn increment(&mut self) -> (more: bool)
        ensures
            old(self).spec_n() == (CHUNK_WIDTH_E3 as int) - 1 ==> !more && *final(self) == *old(self),
            old(self).spec_n() < (CHUNK_WIDTH_E3 as int) - 1 ==> more && final(self).spec_n() == old(self).spec_n() + 1,
        no_unwind
    {
        proof {
            use_type_invariant(*self);
        }
        if self.n == (CHUNK_WIDTH_E3 as u16) - 1 {
            false
        } else {
            self.n = self.n + 1;
            true
        }
    }

    /// Does applying the offset keep every coordinate inside the chunk?
    pub open spec fn offset_in_range(self, r: RelativePos) -> bool {
        &&& 0 <= (self.spec_x() + r.x as int) < (CHUNK_WIDTH as int)
        &&& 0 <= (self.spec_y() + r.y as int) < (CHUNK_WIDTH as int)
        &&& 0 <= (self.spec_z() + r.z as int) < (CHUNK_WIDTH as int)
    }

    /// Where `offset` lands, as a mathematical function: the component-wise
    /// sum when it stays inside the chunk, absent otherwise.
    pub closed spec fn spec_offset(self, r: RelativePos) -> Option<ChunkPos> {
        let x = self.spec_x() + r.x as int;
        let y = self.spec_y() + r.y as int;
        let z = self.spec_z() + r.z as int;
        if self.offset_in_range(r) {
            Some(ChunkPos { n: Self::spec_pack(x, y, z) as u16 })
        } else {
            None
        }
    }

    /// What `spec_offset` returns: present exactly when the offset stays in
    /// range, and then a position whose coordinates are the component-wise
    /// sums.
    pub proof fn lemma_offset_characterization(self, r: RelativePos)
        ensures
            self.spec_offset(r) is Some <==> self.offset_in_range(r),
            match self.spec_offset(r) {
                Some(q) => {
                    &&& q.inv()
                    &&& q.spec_x() == self.spec_x() + r.x as int
                    &&& q.spec_y() == self.spec_y() + r.y as int
                    &&& q.spec_z() == self.spec_z() + r.z as int
                    &&& q.spec_n() == Self::spec_pack(
                        self.spec_x() + r.x as int,
                        self.spec_y() + r.y as int,
                        self.spec_z() + r.z as int,
                    )
                },
                None => !self.offset_in_range(r),
            },
    {
        self.lemma_coords_range();
        if self.offset_in_range(r) {
            Self::lemma_pack_split(
                self.spec_x() + r.x as int,
                self.spec_y() + r.y as int,
                self.spec_z() + r.z as int,
            );
        }
    }

    /// Apply a relative offset. The result is present exactly when every
    /// offset component keeps the coordinate inside `0 .. CHUNK_WIDTH`; this
    /// is the sole mechanism by which out-of-chunk reads become absent.
    pub fn offset(&self, r: RelativePos) -> (result: Option<ChunkPos>)
        ensures
            result == self.spec_offset(r),
            result is Some <==> self.offset_in_range(r),
            match result {
                Some(q) => {
                    &&& q.spec_x() == self.spec_x() + r.x as int
                    &&& q.spec_y() == self.spec_y() + r.y as int
                    &&& q.spec_z() == self.spec_z() + r.z as int
                },
                None => !self.offset_in_range(r),
            },
    {
        let x: i16 = self.x() as i16 + r.x as i16;
        let y: i16 = self.y() as i16 + r.y as i16;
        let z: i16 = self.z() as i16 + r.z as i16;
        if 0 <= x && x < CHUNK_WIDTH as i16 && 0 <= y && y < CHUNK_WIDTH as i16 && 0 <= z
            && z < CHUNK_WIDTH as i16 {
            let q = ChunkPos::new(x as u8, y as u8, z as u8);
            proof {
                ChunkPos::lemma_pack_split(x as int, y as int, z as int);
            }
            Some(q)
        } else {
            None
        }
    }
}

} // verus!
