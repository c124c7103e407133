use vstd::prelude::*;
use crate::block::BlockType;
use crate::chunk::{Chunk, CHUNK_WIDTH_E3};
use crate::chunk_index::{
    all_positions, lemma_all_positions_props, lemma_index_members, lemma_positions_of_props,
    lemma_sorted_by_n_unique, spec_neighborhood, spec_sorted_positions, ChunkIndex,
};
use crate::chunk_pos::ChunkPos;
use crate::query::{BlockInfo, Cacheability, CacheabilityModel, CacheableField};

verus! {

/// The mathematical state of a `LoadedChunk`: the chunk's cells and, for
/// each maintained cacheability, the set of positions whose cached results
/// may have gone stale.
pub struct LoadedChunkModel {
    pub chunk: Seq<BlockType>,
    pub busters: Seq<(CacheabilityModel, Set<ChunkPos>)>,
}

/// The positions a write at `pos` makes stale under cacheability `k`.
pub open spec fn mark_set(k: CacheabilityModel, pos: ChunkPos) -> Set<ChunkPos> {
    match k {
        CacheabilityModel::UntilChangeInSelf { fields } => {
            if fields.contains(CacheableField::CacheableBlockType) {
                set![pos]
            } else {
                Set::empty()
            }
        },
        CacheabilityModel::UntilChangeInChebyshevNeighborhood { distance, fields } => {
            if fields.contains(CacheableField::CacheableBlockType) {
                spec_neighborhood(pos, distance)
            } else {
                Set::empty()
            }
        },
        _ => Set::empty(),
    }
}

/// The first maintained index for cacheability `k`, if one exists.
pub open spec fn find_buster(
    busters: Seq<(CacheabilityModel, Set<ChunkPos>)>,
    k: CacheabilityModel,
) -> Option<Set<ChunkPos>>
    decreases busters.len(),
{
    if busters.len() == 0 {
        None
    } else if busters[0].0 == k {
        Some(busters[0].1)
    } else {
        find_buster(busters.drop_first(), k)
    }
}

/// The candidate positions for re-evaluation under cacheability `k`, in
/// ascending `n` order: every position when nothing is ever cached or when
/// no index is maintained yet, otherwise exactly the marked positions.
pub open spec fn spec_considerable(m: LoadedChunkModel, k: CacheabilityModel) -> Seq<ChunkPos> {
    match k {
        CacheabilityModel::DontCache => all_positions(),
        _ => match find_buster(m.busters, k) {
            None => all_positions(),
            Some(s) => spec_sorted_positions(s),
        },
    }
}

/// A chunk together with one dirty index per maintained cacheability, so
/// that writes record which cached query results they invalidate.
pub struct LoadedChunk {
    chunk: Chunk,
    cache_busters: Vec<(Cacheability, ChunkIndex)>,
}

/// The models of an index list's entries, in order.
pub open spec fn busters_view(s: Seq<(Cacheability, ChunkIndex)>) -> Seq<
    (CacheabilityModel, Set<ChunkPos>),
> {
    Seq::new(s.len(), |i: int| (s[i].0@, s[i].1@))
}

impl View for LoadedChunk {
    type V = LoadedChunkModel;

    closed spec fn view(&self) -> LoadedChunkModel {
        LoadedChunkModel { chunk: self.chunk@, busters: busters_view(self.cache_busters@) }
    }
}

impl LoadedChunk {
    /// Maintained cacheabilities are canonical and pairwise distinct, and
    /// every index holds chunk positions only.
    pub closed spec fn wf(&self) -> bool {
        &&& forall|i: int|
            0 <= i < self.cache_busters@.len() ==> (#[trigger] self.cache_busters@[i]).0.wf()
                && self.cache_busters@[i].1.wf()
        &&& forall|i: int, j: int|
            0 <= i < j < self.cache_busters@.len() ==> self.cache_busters@[i].0@
                != self.cache_busters@[j].0@
    }

    /// Wrap a chunk; no index is maintained yet.
    pub fn new(chunk: Chunk) -> (r: LoadedChunk)
        ensures
            r@.chunk == chunk@,
            r@.busters == Seq::<(CacheabilityModel, Set<ChunkPos>)>::empty(),
            r.wf(),
    {
        let r = LoadedChunk { chunk, cache_busters: Vec::new() };
        proof {
            assert(r@.busters =~= Seq::<(CacheabilityModel, Set<ChunkPos>)>::empty());
        }
        r
    }

    /// The wrapped chunk.
    pub fn get(&self) -> (c: &Chunk)
        ensures
            c@ == self@.chunk,
    {
        &self.chunk
    }

    /// Drop every maintained index and start one fresh, empty index per
    /// given cacheability. The cacheabilities must be canonical and
    /// pairwise distinct.
    pub fn reset_cache_busters(&mut self, cacheabilities: &Vec<Cacheability>)
        requires
            forall|i: int|
                0 <= i < cacheabilities@.len() ==> (#[trigger] cacheabilities@[i]).wf(),
            forall|i: int, j: int|
                0 <= i < j < cacheabilities@.len() ==> cacheabilities@[i]@ != cacheabilities@[j]@,
        ensures
            final(self)@.chunk == old(self)@.chunk,
            final(self)@.busters == Seq::new(
                cacheabilities@.len(),
                |i: int| (cacheabilities@[i]@, Set::<ChunkPos>::empty()),
            ),
            final(self).wf(),
    {
        let mut fresh: Vec<(Cacheability, ChunkIndex)> = Vec::new();
        let mut i: usize = 0;
        while i < cacheabilities.len()
            invariant
                0 <= i <= cacheabilities@.len(),
                fresh@.len() == i,
                forall|k: int|
                    0 <= k < i ==> (#[trigger] fresh@[k]).0.wf() && fresh@[k].1.wf()
                        && fresh@[k].0@ == cacheabilities@[k]@ && fresh@[k].1@ == Set::<
                        ChunkPos,
                    >::empty(),
                forall|k: int|
                    0 <= k < cacheabilities@.len() ==> (#[trigger] cacheabilities@[k]).wf(),
            decreases cacheabilities@.len() - i,
        {
            let c = cacheabilities[i].duplicate();
            fresh.push((c, ChunkIndex::new()));
            i = i + 1;
        }
        self.cache_busters = fresh;
        proof {
            assert(final(self)@.busters =~= Seq::new(
                cacheabilities@.len(),
                |i: int| (cacheabilities@[i]@, Set::<ChunkPos>::empty()),
            ));
        }
    }

    /// Write one cell, and mark in every maintained index the positions the
    /// write makes stale: the write position itself for
    /// `UntilChangeInSelf`, its neighborhood for a neighborhood
    /// cacheability, nothing for the others.
    pub fn set_block_type(&mut self, pos: ChunkPos, block_type: BlockType)
        requires
            old(self).wf(),
        ensures
            final(self)@.chunk == old(self)@.chunk.update(pos.spec_n(), block_type),
            final(self)@.busters.len() == old(self)@.busters.len(),
            forall|i: int|
                0 <= i < old(self)@.busters.len() ==> (#[trigger] final(self)@.busters[i]).0 == old(
                    self,
                )@.busters[i].0 && final(self)@.busters[i].1 == old(self)@.busters[i].1 + mark_set(
                    old(self)@.busters[i].0,
                    pos,
                ),
            final(self).wf(),
    {
        self.chunk.set_block_type(pos, block_type);
        let ghost orig = busters_view(old(self).cache_busters@);
        let mut updated: Vec<(Cacheability, ChunkIndex)> = Vec::new();
        while self.cache_busters.len() > 0
            invariant
                self@.chunk == old(self)@.chunk.update(pos.spec_n(), block_type),
                orig.len() == updated@.len() + self.cache_busters@.len(),
                busters_view(self.cache_busters@) == orig.subrange(
                    updated@.len() as int,
                    orig.len() as int,
                ),
                forall|i: int|
                    0 <= i < self.cache_busters@.len() ==> (
                    #[trigger] self.cache_busters@[i]).0.wf() && self.cache_busters@[i].1.wf(),
                forall|i: int|
                    0 <= i < updated@.len() ==> (#[trigger] updated@[i]).0.wf()
                        && updated@[i].1.wf() && updated@[i].0@ == orig[i].0 && updated@[i].1@
                        == orig[i].1 + mark_set(orig[i].0, pos),
            decreases self.cache_busters@.len(),
        {
            let ghost pre = busters_view(self.cache_busters@);
            let (c, mut index) = self.cache_busters.remove(0);
            proof {
                assert(busters_view(self.cache_busters@) =~= pre.drop_first());
                assert(pre[0] == orig[updated@.len() as int]);
            }
            match &c {
                Cacheability::DontCache => {
                    proof {
                        assert(index@ =~= index@ + mark_set(c@, pos));
                    }
                },
                Cacheability::Forever => {
                    proof {
                        assert(index@ =~= index@ + mark_set(c@, pos));
                    }
                },
                Cacheability::UntilChangeInSelf { fields } => {
                    if contains_block_type_field(fields) {
                        let ghost before = index@;
                        index.mark(pos);
                        proof {
                            assert(index@ =~= before + mark_set(c@, pos));
                        }
                    } else {
                        proof {
                            assert(index@ =~= index@ + mark_set(c@, pos));
                        }
                    }
                },
                Cacheability::UntilChangeInChebyshevNeighborhood { distance, fields } => {
                    if contains_block_type_field(fields) {
                        let d = *distance;
                        index.mark_chebyshev_neighborhood(pos, d);
                    } else {
                        proof {
                            assert(index@ =~= index@ + mark_set(c@, pos));
                        }
                    }
                },
            }
            updated.push((c, index));
            proof {
                assert(busters_view(self.cache_busters@) =~= orig.subrange(
                    updated@.len() as int,
                    orig.len() as int,
                ));
            }
        }
        self.cache_busters = updated;
        proof {
            assert(self@.busters.len() == orig.len());
            assert forall|i: int| 0 <= i < orig.len() implies (#[trigger] self@.busters[i]).0
                == orig[i].0 && self@.busters[i].1 == orig[i].1 + mark_set(orig[i].0, pos) by {
                assert(self@.busters[i] == (updated@[i].0@, updated@[i].1@));
            }
            assert forall|i: int, j: int|
                0 <= i < j < self.cache_busters@.len() implies self.cache_busters@[i].0@
                != self.cache_busters@[j].0@ by {
                assert(self@.busters[i].0 == orig[i].0);
                assert(self@.busters[j].0 == orig[j].0);
            }
        }
    }

    /// The candidate cells for re-evaluation under the given cacheability,
    /// in ascending `n` order, each with the block it held at the time of
    /// the call: every cell when nothing is cached or no index is
    /// maintained yet, otherwise exactly the marked cells (which may
    /// include false positives).
    pub fn considerable_blocks_iter(&self, cacheability: &Cacheability) -> (r: Vec<
        (ChunkPos, BlockInfo),
    >)
        requires
            self.wf(),
            cacheability.wf(),
        ensures
            r@.len() == spec_considerable(self@, cacheability@).len(),
            forall|i: int|
                0 <= i < r@.len() ==> (#[trigger] r@[i]).0 == spec_considerable(
                    self@,
                    cacheability@,
                )[i] && r@[i].1.block_type == self@.chunk[r@[i].0.spec_n()],
    {
        let use_index: bool = match cacheability {
            Cacheability::DontCache => false,
            _ => true,
        };
        proof {
            assert(use_index == !(cacheability@ is DontCache));
        }
        if use_index {
            let mut i: usize = 0;
            let len = self.cache_busters.len();
            while i < len
                invariant
                    !(cacheability@ is DontCache),
                    0 <= i <= self.cache_busters@.len(),
                    len == self.cache_busters@.len(),
                    self.wf(),
                    cacheability.wf(),
                    forall|k: int|
                        0 <= k < i ==> (#[trigger] self.cache_busters@[k]).0@ != cacheability@,
                decreases self.cache_busters@.len() - i,
            {
                let hit: bool = {
                    let entry = &self.cache_busters[i];
                    entry.0.eq(cacheability)
                };
                proof {
                    self.cache_busters@[i as int].0.lemma_deep_eq_is_model_eq(cacheability);
                }
                if hit {
                    let positions = {
                        let entry = &self.cache_busters[i];
                        entry.1.iter()
                    };
                    proof {
                        let s = self.cache_busters@[i as int].1@;
                        assert(self@.busters[i as int] == (
                            self.cache_busters@[i as int].0@,
                            s,
                        ));
                        assert forall|j: int| 0 <= j < i as int implies self@.busters[j].0
                            != cacheability@ by {
                            assert(self@.busters[j].0 == self.cache_busters@[j].0@);
                        }
                        lemma_find_buster_first_hit(self@.busters, cacheability@, i as int);
                        assert(find_buster(self@.busters, cacheability@) == Some(s));
                        lemma_positions_of_props(s, CHUNK_WIDTH_E3 as nat);
                        lemma_index_members(&self.cache_busters@[i as int].1);
                        assert forall|p: ChunkPos| spec_sorted_positions(s).contains(p) implies
                            positions@.contains(p) by {
                            assert(s.contains(p));
                        }
                        assert forall|p: ChunkPos| positions@.contains(p) implies
                            spec_sorted_positions(s).contains(p) by {
                            assert(s.contains(p));
                            assert(p.inv());
                            assert(p.spec_n() < (CHUNK_WIDTH_E3 as int));
                        }
                        lemma_sorted_by_n_unique(positions@, spec_sorted_positions(s));
                        assert(positions@ == spec_sorted_positions(s));
                        assert(spec_considerable(self@, cacheability@) == positions@);
                    }
                    return self.attach_blocks(positions);
                }
                i = i + 1;
            }
            proof {
                lemma_find_buster_no_hit(self@.busters, cacheability@);
            }
        }
        let positions = full_position_scan();
        proof {
            lemma_all_positions_props();
        }
        self.attach_blocks(positions)
    }

    /// Pair each position with the block it currently holds.
    fn attach_blocks(&self, positions: Vec<ChunkPos>) -> (r: Vec<(ChunkPos, BlockInfo)>)
        ensures
            r@.len() == positions@.len(),
            forall|i: int|
                0 <= i < r@.len() ==> (#[trigger] r@[i]).0 == positions@[i] && r@[i].1.block_type
                    == self@.chunk[positions@[i].spec_n()],
    {
        let mut r: Vec<(ChunkPos, BlockInfo)> = Vec::new();
        let mut i: usize = 0;
        while i < positions.len()
            invariant
                0 <= i <= positions@.len(),
                r@.len() == i,
                forall|k: int|
                    0 <= k < i ==> (#[trigger] r@[k]).0 == positions@[k] && r@[k].1.block_type
                        == self@.chunk[positions@[k].spec_n()],
            decreases positions@.len() - i,
        {
            let p = positions[i];
            r.push((p, self.chunk.get_block(p)));
            i = i + 1;
        }
        r
    }
}

/// Every position of the chunk, in ascending `n` order.
fn full_position_scan() -> (r: Vec<ChunkPos>)
    ensures
        r@ == all_positions(),
{
    let mut r: Vec<ChunkPos> = Vec::new();
    let mut n: usize = 0;
    proof {
        lemma_all_positions_props();
    }
    while n < CHUNK_WIDTH_E3
        invariant
            0 <= n <= CHUNK_WIDTH_E3,
            r@.len() == n,
            forall|k: int| 0 <= k < n ==> (#[trigger] r@[k]).spec_n() == k,
        decreases CHUNK_WIDTH_E3 - n,
    {
        r.push(ChunkPos::new_from_raw_n(n as u16));
        n = n + 1;
    }
    proof {
        lemma_all_positions_props();
        assert forall|k: int| 0 <= k < r@.len() implies r@[k] == all_positions()[k] by {
            ChunkPos::lemma_from_n(k);
        }
        assert(r@ =~= all_positions());
    }
    r
}

/// If entry `i` is the first whose cacheability matches `k`, the lookup
/// finds its set.
proof fn lemma_find_buster_first_hit(
    busters: Seq<(CacheabilityModel, Set<ChunkPos>)>,
    k: CacheabilityModel,
    i: int,
)
    requires
        0 <= i < busters.len(),
        busters[i].0 == k,
        forall|j: int| 0 <= j < i ==> busters[j].0 != k,
    ensures
        find_buster(busters, k) == Some(busters[i].1),
    decreases i,
{
    if i > 0 {
        lemma_find_buster_first_hit(busters.drop_first(), k, i - 1);
    }
}

/// If no entry's cacheability matches `k`, the lookup finds nothing.
proof fn lemma_find_buster_no_hit(
    busters: Seq<(CacheabilityModel, Set<ChunkPos>)>,
    k: CacheabilityModel,
)
    requires
        forall|j: int| 0 <= j < busters.len() ==> busters[j].0 != k,
    ensures
        find_buster(busters, k) is None,
    decreases busters.len(),
{
    if busters.len() > 0 {
        lemma_find_buster_no_hit(busters.drop_first(), k);
    }
}

/// Does the field list name the block type?
fn contains_block_type_field(fields: &Vec<CacheableField>) -> (r: bool)
    ensures
        r == fields@.contains(CacheableField::CacheableBlockType),
{
    let mut i: usize = 0;
    while i < fields.len()
        invariant
            0 <= i <= fields@.len(),
            forall|j: int| 0 <= j < i ==> fields@[j] != CacheableField::CacheableBlockType,
        decreases fields@.len() - i,
    {
        match fields[i] {
            CacheableField::CacheableBlockType => {
                return true;
            },
        }
    }
    false
}

} // verus!
