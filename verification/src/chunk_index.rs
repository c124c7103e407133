use vstd::prelude::*;
use roaring::RoaringBitmap;
use crate::chunk::CHUNK_WIDTH_E3;
use crate::chunk_pos::ChunkPos;
use crate::relative_pos::RelativePos;

verus! {

#[verifier::external_type_specification]
#[verifier::external_body]
pub struct ExRoaringBitmap(RoaringBitmap);

/// The set of values stored in a roaring bitmap.
pub uninterp spec fn bitmap_contents(b: RoaringBitmap) -> Set<u32>;

/// Relies on roaring::RoaringBitmap::new: creates an empty bitmap.
#[verifier::external_body]
fn bitmap_new() -> (b: RoaringBitmap)
    ensures
        bitmap_contents(b) == Set::<u32>::empty(),
{
    RoaringBitmap::new()
}

/// Relies on roaring::RoaringBitmap::insert: adds one value to the set,
/// leaving the rest as they were.
#[verifier::external_body]
fn bitmap_insert(b: &mut RoaringBitmap, value: u32)
    ensures
        bitmap_contents(*final(b)) == bitmap_contents(*old(b)).insert(value),
{
    b.insert(value);
}

/// Relies on roaring::RoaringBitmap::contains.
#[verifier::external_body]
fn bitmap_contains(b: &RoaringBitmap, value: u32) -> (r: bool)
    ensures
        r == bitmap_contents(*b).contains(value),
{
    b.contains(value)
}

/// Relies on roaring::RoaringBitmap::clear: removes every value.
#[verifier::external_body]
fn bitmap_clear(b: &mut RoaringBitmap)
    ensures
        bitmap_contents(*final(b)) == Set::<u32>::empty(),
{
    b.clear()
}

/// Relies on roaring::RoaringBitmap::iter, which guarantees the stored
/// values come out ordered by value.
#[verifier::external_body]
fn bitmap_to_vec(b: &RoaringBitmap) -> (r: Vec<u32>)
    ensures
        forall|i: int, j: int| 0 <= i < j < r@.len() ==> r@[i] < r@[j],
        forall|v: u32| r@.contains(v) <==> bitmap_contents(*b).contains(v),
{
    b.iter().collect()
}

/// A compact set of chunk positions, used as a per-cacheability record of
/// cells whose cached results may have gone stale.
#[derive(Debug)]
pub struct ChunkIndex {
    index: RoaringBitmap,
}

impl View for ChunkIndex {
    type V = Set<ChunkPos>;

    closed spec fn view(&self) -> Set<ChunkPos> {
        Set::new(
            |p: ChunkPos| p.inv() && bitmap_contents(self.index).contains(p.spec_n() as u32),
        )
    }
}

/// All positions within Chebyshev distance `d` of `pos` that lie inside the
/// chunk.
pub open spec fn spec_neighborhood(pos: ChunkPos, d: int) -> Set<ChunkPos> {
    Set::new(|q: ChunkPos| q.inv() && in_neighborhood(q, pos, d))
}

/// Is `q` within Chebyshev distance `d` of `pos`?
pub open spec fn in_neighborhood(q: ChunkPos, pos: ChunkPos, d: int) -> bool {
    &&& -d <= q.spec_x() - pos.spec_x() <= d
    &&& -d <= q.spec_y() - pos.spec_y() <= d
    &&& -d <= q.spec_z() - pos.spec_z() <= d
}

/// Whatever an index holds is a position of the chunk.
pub proof fn lemma_index_members(index: &ChunkIndex)
    ensures
        forall|p: ChunkPos| index@.contains(p) ==> p.inv(),
{
}

impl ChunkIndex {
    /// Every stored value is the packed integer of a chunk position.
    pub closed spec fn wf(&self) -> bool {
        forall|v: u32| bitmap_contents(self.index).contains(v) ==> v < CHUNK_WIDTH_E3
    }

    /// An empty index.
    pub fn new() -> (r: ChunkIndex)
        ensures
            r@ == Set::<ChunkPos>::empty(),
            r.wf(),
    {
        let r = ChunkIndex { index: bitmap_new() };
        proof {
            assert(r@ =~= Set::<ChunkPos>::empty());
        }
        r
    }

    /// Add one position to the set.
    pub fn mark(&mut self, pos: ChunkPos)
        requires
            old(self).wf(),
        ensures
            final(self)@ == old(self)@.insert(pos),
            final(self).wf(),
    {
        proof {
            use_type_invariant(pos);
        }
        let n = pos.raw_n();
        bitmap_insert(&mut self.index, n as u32);
        proof {
            assert(final(self)@ =~= old(self)@.insert(pos)) by {
                assert forall|q: ChunkPos| final(self)@.contains(q) implies old(self)@.insert(
                    pos,
                ).contains(q) by {
                    if q.spec_n() == pos.spec_n() {
                        ChunkPos::lemma_eq_n(q, pos);
                    }
                }
                assert(final(self)@.contains(pos));
            }
        }
    }

    /// Add every position within Chebyshev distance `distance` of `pos`;
    /// positions that would lie outside the chunk are dropped.
    pub fn mark_chebyshev_neighborhood(&mut self, pos: ChunkPos, distance: u8)
        requires
            old(self).wf(),
        ensures
            final(self)@ == old(self)@ + spec_neighborhood(pos, distance as int),
            final(self).wf(),
    {
        let dd: i8 = if distance >= 31 {
            31
        } else {
            distance as i8
        };
        proof {
            use_type_invariant(pos);
            pos.lemma_coords_range();
            assert(spec_neighborhood(pos, distance as int) =~= spec_neighborhood(pos, dd as int))
                by {
                assert forall|q: ChunkPos|
                    q.inv() && in_neighborhood(q, pos, distance as int) implies in_neighborhood(
                    q,
                    pos,
                    dd as int,
                ) by {
                    q.lemma_coords_range();
                }
            }
        }
        let ghost orig = self@;
        let mut dy: i8 = -dd;
        while dy <= dd
            invariant
                -dd <= dy <= dd + 1,
                0 <= dd <= 31,
                self.wf(),
                self@ == orig + Set::new(
                    |q: ChunkPos|
                        q.inv() && in_neighborhood(q, pos, dd as int) && q.spec_y() - pos.spec_y()
                            < dy as int,
                ),
            decreases dd + 1 - dy,
        {
            let mut dx: i8 = -dd;
            while dx <= dd
                invariant
                    -dd <= dy <= dd,
                    -dd <= dx <= dd + 1,
                    0 <= dd <= 31,
                    self.wf(),
                    self@ == orig + Set::new(
                        |q: ChunkPos|
                            q.inv() && in_neighborhood(q, pos, dd as int) && (q.spec_y()
                                - pos.spec_y() < dy as int || (q.spec_y() - pos.spec_y()
                                == dy as int && q.spec_x() - pos.spec_x() < dx as int)),
                    ),
                decreases dd + 1 - dx,
            {
                let mut dz: i8 = -dd;
                while dz <= dd
                    invariant
                        -dd <= dy <= dd,
                        -dd <= dx <= dd,
                        -dd <= dz <= dd + 1,
                        0 <= dd <= 31,
                        self.wf(),
                        self@ == orig + Set::new(
                            |q: ChunkPos|
                                q.inv() && in_neighborhood(q, pos, dd as int) && (q.spec_y()
                                    - pos.spec_y() < dy as int || (q.spec_y() - pos.spec_y()
                                    == dy as int && (q.spec_x() - pos.spec_x() < dx as int || (
                                q.spec_x() - pos.spec_x() == dx as int && q.spec_z() - pos.spec_z()
                                    < dz as int)))),
                        ),
                    decreases dd + 1 - dz,
                {
                    let ghost before = self@;
                    let relative_pos = RelativePos::new(dx, dy, dz);
                    match pos.offset(relative_pos) {
                        None => {
                            proof {
                                pos.lemma_offset_characterization(relative_pos);
                                assert forall|q: ChunkPos|
                                    q.inv() && q.spec_x() == pos.spec_x() + dx as int && q.spec_y()
                                        == pos.spec_y() + dy as int && q.spec_z() == pos.spec_z()
                                        + dz as int implies false by {
                                    q.lemma_coords_range();
                                }
                            }
                        },
                        Some(offset_pos) => {
                            proof {
                                pos.lemma_offset_characterization(relative_pos);
                            }
                            self.mark(offset_pos);
                        },
                    }
                    proof {
                        let next = Set::new(
                            |q: ChunkPos|
                                q.inv() && in_neighborhood(q, pos, dd as int) && (q.spec_y()
                                    - pos.spec_y() < dy as int || (q.spec_y() - pos.spec_y()
                                    == dy as int && (q.spec_x() - pos.spec_x() < dx as int || (
                                q.spec_x() - pos.spec_x() == dx as int && q.spec_z() - pos.spec_z()
                                    < dz as int + 1)))),
                        );
                        assert(self@ =~= orig + next) by {
                            assert forall|q: ChunkPos| next.contains(q) && !before.contains(
                                q,
                            ) implies self@.contains(q) by {
                                pos.lemma_offset_characterization(relative_pos);
                                if q.spec_z() - pos.spec_z() == dz as int && q.spec_x()
                                    - pos.spec_x() == dx as int && q.spec_y() - pos.spec_y()
                                    == dy as int {
                                    match pos.spec_offset(relative_pos) {
                                        Some(op) => {
                                            ChunkPos::lemma_coords_determine(q, op);
                                        },
                                        None => {
                                            q.lemma_coords_range();
                                        },
                                    }
                                }
                            }
                            assert forall|q: ChunkPos| self@.contains(q) && !before.contains(
                                q,
                            ) implies next.contains(q) by {
                                pos.lemma_offset_characterization(relative_pos);
                            }
                        }
                    }
                    dz = dz + 1;
                }
                proof {
                    assert(self@ =~= orig + Set::new(
                        |q: ChunkPos|
                            q.inv() && in_neighborhood(q, pos, dd as int) && (q.spec_y()
                                - pos.spec_y() < dy as int || (q.spec_y() - pos.spec_y()
                                == dy as int && q.spec_x() - pos.spec_x() < dx as int + 1)),
                    ));
                }
                dx = dx + 1;
            }
            proof {
                assert(self@ =~= orig + Set::new(
                    |q: ChunkPos|
                        q.inv() && in_neighborhood(q, pos, dd as int) && q.spec_y() - pos.spec_y()
                            < dy as int + 1,
                ));
            }
            dy = dy + 1;
        }
        proof {
            assert(self@ =~= orig + spec_neighborhood(pos, dd as int));
        }
    }

    /// Is the position marked?
    pub fn consider(&self, pos: ChunkPos) -> (r: bool)
        ensures
            r == self@.contains(pos),
    {
        proof {
            use_type_invariant(pos);
        }
        let n = pos.raw_n();
        bitmap_contains(&self.index, n as u32)
    }

    /// Remove every position.
    pub fn clear(&mut self)
        ensures
            final(self)@ == Set::<ChunkPos>::empty(),
            final(self).wf(),
    {
        bitmap_clear(&mut self.index);
        proof {
            assert(final(self)@ =~= Set::<ChunkPos>::empty());
        }
    }

    /// The marked positions, in ascending `n` order.
    pub fn iter(&self) -> (r: Vec<ChunkPos>)
        requires
            self.wf(),
        ensures
            forall|i: int, j: int| 0 <= i < j < r@.len() ==> r@[i].spec_n() < r@[j].spec_n(),
            forall|p: ChunkPos| r@.contains(p) <==> self@.contains(p),
    {
        let ns = bitmap_to_vec(&self.index);
        proof {
            assert forall|k: int| 0 <= k < ns@.len() implies ns@[k] < CHUNK_WIDTH_E3 by {
                assert(ns@.contains(ns@[k]));
            }
        }
        let mut r: Vec<ChunkPos> = Vec::new();
        let mut i: usize = 0;
        while i < ns.len()
            invariant
                0 <= i <= ns@.len(),
                r@.len() == i,
                self.wf(),
                forall|v: u32| ns@.contains(v) <==> bitmap_contents(self.index).contains(v),
                forall|k: int, l: int| 0 <= k < l < ns@.len() ==> ns@[k] < ns@[l],
                forall|k: int| 0 <= k < ns@.len() ==> ns@[k] < CHUNK_WIDTH_E3,
                forall|k: int| 0 <= k < i ==> (#[trigger] r@[k]).spec_n() == ns@[k] as int,
            decreases ns@.len() - i,
        {
            let v = ns[i];
            proof {
                assert(v == ns@[i as int]);
                assert(v < CHUNK_WIDTH_E3);
            }
            r.push(ChunkPos::new_from_raw_n(v as u16));
            i = i + 1;
        }
        proof {
            assert forall|p: ChunkPos| r@.contains(p) <==> self@.contains(p) by {
                if r@.contains(p) {
                    let k = choose|k: int| 0 <= k < r@.len() && r@[k] == p;
                    assert(ns@[k] == p.spec_n() as u32);
                    assert(ns@.contains(ns@[k]));
                }
                if self@.contains(p) {
                    let v = p.spec_n() as u32;
                    assert(bitmap_contents(self.index).contains(v));
                    assert(ns@.contains(v));
                    let k = choose|k: int| 0 <= k < ns@.len() && ns@[k] == v;
                    assert(r@[k].spec_n() == v as int);
                    ChunkPos::lemma_eq_n(r@[k], p);
                    assert(r@.contains(r@[k]));
                }
            }
        }
        r
    }
}

/// One marking operation applied to an index, as recorded for the
/// superset law.
pub enum IndexOp {
    Mark(ChunkPos),
    MarkChebyshevNeighborhood(ChunkPos, u8),
}

/// The positions named outright by a sequence of marking operations: each
/// marked position, and each neighborhood's center.
pub open spec fn explicit_marks(ops: Seq<IndexOp>) -> Set<ChunkPos>
    decreases ops.len(),
{
    if ops.len() == 0 {
        Set::empty()
    } else {
        explicit_marks(ops.drop_last()) + match ops.last() {
            IndexOp::Mark(pos) => set![pos],
            IndexOp::MarkChebyshevNeighborhood(pos, _) => set![pos],
        }
    }
}

/// The set an index holds after a sequence of marking operations, per the
/// contracts of `mark` and `mark_chebyshev_neighborhood`.
pub open spec fn apply_index_ops(s: Set<ChunkPos>, ops: Seq<IndexOp>) -> Set<ChunkPos>
    decreases ops.len(),
{
    if ops.len() == 0 {
        s
    } else {
        apply_index_ops(s, ops.drop_last()) + match ops.last() {
            IndexOp::Mark(pos) => set![pos],
            IndexOp::MarkChebyshevNeighborhood(pos, d) => spec_neighborhood(pos, d as int),
        }
    }
}

/// The index is a superset of truth: after any sequence of marking
/// operations on a fresh index, the held set contains every explicitly
/// marked in-chunk position, and nothing outside the chunk. (False
/// positives are permitted; false negatives are not.)
pub proof fn lemma_index_superset_of_truth(ops: Seq<IndexOp>)
    requires
        forall|i: int|
            0 <= i < ops.len() ==> match #[trigger] ops[i] {
                IndexOp::Mark(pos) => pos.inv(),
                IndexOp::MarkChebyshevNeighborhood(pos, _) => pos.inv(),
            },
    ensures
        explicit_marks(ops) <= apply_index_ops(Set::empty(), ops),
        forall|p: ChunkPos| apply_index_ops(Set::empty(), ops).contains(p) ==> p.inv(),
    decreases ops.len(),
{
    if ops.len() > 0 {
        lemma_index_superset_of_truth(ops.drop_last());
        assert(ops[ops.len() - 1] == ops.last());
        match ops.last() {
            IndexOp::Mark(pos) => {
                assert(apply_index_ops(Set::empty(), ops).contains(pos));
            },
            IndexOp::MarkChebyshevNeighborhood(pos, d) => {
                pos.lemma_coords_range();
                assert(in_neighborhood(pos, pos, d as int));
                assert(spec_neighborhood(pos, d as int).contains(pos));
                assert(apply_index_ops(Set::empty(), ops).contains(pos));
            },
        }
        assert forall|p: ChunkPos| explicit_marks(ops).contains(p) implies apply_index_ops(
            Set::empty(),
            ops,
        ).contains(p) by {}
    }
}

/// The first `n` chunk positions, in ascending `n` order.
pub open spec fn positions_below(n: nat) -> Seq<ChunkPos> {
    Seq::new(n, |k: int| ChunkPos::spec_from_n(k))
}

/// Every position of the chunk, in ascending `n` order.
pub open spec fn all_positions() -> Seq<ChunkPos> {
    positions_below(CHUNK_WIDTH_E3 as nat)
}

pub proof fn lemma_all_positions_props()
    ensures
        all_positions().len() == CHUNK_WIDTH_E3,
        forall|k: int|
            0 <= k < (CHUNK_WIDTH_E3 as int) ==> (#[trigger] all_positions()[k]).spec_n() == k
                && all_positions()[k].inv(),
        forall|p: ChunkPos| p.inv() ==> all_positions().contains(p),
{
    assert forall|k: int| 0 <= k < (CHUNK_WIDTH_E3 as int) implies (
    #[trigger] all_positions()[k]).spec_n() == k && all_positions()[k].inv() by {
        ChunkPos::lemma_from_n(k);
    }
    assert forall|p: ChunkPos| p.inv() implies all_positions().contains(p) by {
        ChunkPos::lemma_from_n(p.spec_n());
        assert(all_positions()[p.spec_n()] == p);
    }
}

/// The members of `s` that lie below `n`, in ascending `n` order.
pub open spec fn positions_of(s: Set<ChunkPos>, n: nat) -> Seq<ChunkPos>
    decreases n,
{
    if n == 0 {
        seq![]
    } else {
        positions_of(s, (n - 1) as nat) + (if s.contains(ChunkPos::spec_from_n(n - 1)) {
            seq![ChunkPos::spec_from_n(n - 1)]
        } else {
            seq![]
        })
    }
}

/// The members of a set of positions, in ascending `n` order: the canonical
/// enumeration that `ChunkIndex::iter` yields.
pub open spec fn spec_sorted_positions(s: Set<ChunkPos>) -> Seq<ChunkPos> {
    positions_of(s, CHUNK_WIDTH_E3 as nat)
}

pub proof fn lemma_positions_of_props(s: Set<ChunkPos>, n: nat)
    requires
        n <= CHUNK_WIDTH_E3,
    ensures
        forall|k: int|
            0 <= k < positions_of(s, n).len() ==> (#[trigger] positions_of(s, n)[k]).inv()
                && positions_of(s, n)[k].spec_n() < n as int && s.contains(positions_of(s, n)[k]),
        forall|k: int, l: int|
            0 <= k < l < positions_of(s, n).len() ==> positions_of(s, n)[k].spec_n() < positions_of(
                s,
                n,
            )[l].spec_n(),
        forall|p: ChunkPos|
            p.inv() && p.spec_n() < n as int && s.contains(p) ==> positions_of(s, n).contains(p),
    decreases n,
{
    if n > 0 {
        lemma_positions_of_props(s, (n - 1) as nat);
        ChunkPos::lemma_from_n(n - 1);
        let prev = positions_of(s, (n - 1) as nat);
        let cur = positions_of(s, n);
        assert forall|p: ChunkPos|
            p.inv() && p.spec_n() < n as int && s.contains(p) implies cur.contains(p) by {
            if p.spec_n() < (n - 1) as int {
                assert(prev.contains(p));
                let k = choose|k: int| 0 <= k < prev.len() && prev[k] == p;
                assert(cur[k] == p);
            } else {
                assert(p == ChunkPos::spec_from_n(n - 1));
                assert(cur[cur.len() - 1] == p);
            }
        }
    }
}

/// Two enumerations that are strictly ascending by `n` and have the same
/// members are the same enumeration.
pub proof fn lemma_sorted_by_n_unique(a: Seq<ChunkPos>, b: Seq<ChunkPos>)
    requires
        forall|i: int, j: int| 0 <= i < j < a.len() ==> a[i].spec_n() < a[j].spec_n(),
        forall|i: int, j: int| 0 <= i < j < b.len() ==> b[i].spec_n() < b[j].spec_n(),
        forall|p: ChunkPos| a.contains(p) <==> b.contains(p),
    ensures
        a == b,
    decreases a.len(),
{
    if a.len() == 0 {
        if b.len() > 0 {
            assert(b.contains(b[0]));
            assert(a.contains(b[0]));
            assert(false);
        }
        assert(a =~= b);
    } else {
        assert(a.contains(a[0]));
        assert(b.contains(a[0]));
        if b.len() == 0 {
            assert(false);
        }
        let j = choose|j: int| 0 <= j < b.len() && b[j] == a[0];
        let i = choose|i: int| 0 <= i < a.len() && a[i] == b[0] && a.contains(b[0]);
        assert(a.contains(b[0]));
        assert(a[0] == b[0]) by {
            if j > 0 {
                assert(b[0].spec_n() < b[j].spec_n());
                if i > 0 {
                    assert(a[0].spec_n() < a[i].spec_n());
                }
                assert(false);
            }
        }
        let at = a.drop_first();
        let bt = b.drop_first();
        assert forall|p: ChunkPos| at.contains(p) <==> bt.contains(p) by {
            lemma_tail_membership(a, p);
            lemma_tail_membership(b, p);
        }
        assert forall|i2: int, j2: int| 0 <= i2 < j2 < at.len() implies at[i2].spec_n()
            < at[j2].spec_n() by {
            assert(at[i2] == a[i2 + 1] && at[j2] == a[j2 + 1]);
        }
        assert forall|i2: int, j2: int| 0 <= i2 < j2 < bt.len() implies bt[i2].spec_n()
            < bt[j2].spec_n() by {
            assert(bt[i2] == b[i2 + 1] && bt[j2] == b[j2 + 1]);
        }
        lemma_sorted_by_n_unique(at, bt);
        assert(a =~= b) by {
            assert forall|k: int| 0 <= k < a.len() implies a[k] == b[k] by {
                if k > 0 {
                    assert(at[k - 1] == bt[k - 1]);
                }
            }
        }
    }
}

proof fn lemma_tail_membership(a: Seq<ChunkPos>, p: ChunkPos)
    requires
        a.len() > 0,
        forall|i: int, j: int| 0 <= i < j < a.len() ==> a[i].spec_n() < a[j].spec_n(),
    ensures
        a.drop_first().contains(p) <==> (a.contains(p) && p != a[0]),
{
    let t = a.drop_first();
    if t.contains(p) {
        let k = choose|k: int| 0 <= k < t.len() && t[k] == p;
        assert(a[k + 1] == p);
        assert(a.contains(p));
        assert(a[0].spec_n() < a[k + 1].spec_n());
    }
    if a.contains(p) && p != a[0] {
        let k = choose|k: int| 0 <= k < a.len() && a[k] == p;
        assert(k > 0);
        assert(t[k - 1] == p);
        assert(t.contains(p));
    }
}

impl Default for ChunkIndex {
    /// An empty index.
    fn default() -> (r: ChunkIndex)
        ensures
            r@ == Set::<ChunkPos>::empty(),
            r.wf(),
    {
        ChunkIndex::new()
    }
}

} // verus!
