use vstd::prelude::*;
use core::marker::PhantomData;
use crate::block::{BlockType, UNKNOWN};
use crate::chunk::{Chunk, CHUNK_WIDTH};
use crate::chunk_pos::ChunkPos;
use crate::loaded_chunk::{spec_considerable, LoadedChunk, LoadedChunkModel, mark_set};
use crate::query::{BlockInfo, Cacheability, CacheabilityModel, Context, Query};
use crate::relative_pos::RelativePos;

verus! {

/// How a cell's neighborhood reads during one tick: the block type each
/// relative position holds, with everything outside the chunk `UNKNOWN`.
pub open spec fn block_ctx(chunk: Seq<BlockType>, pos: ChunkPos) -> spec_fn(RelativePos) -> BlockType {
    |r: RelativePos|
        match pos.spec_offset(r) {
            Some(q) => chunk[q.spec_n()],
            None => UNKNOWN(),
        }
}

/// The read access an updater gets while it runs on one cell: reads go to
/// the chunk as it stood when the tick's read phase began.
pub struct UpdaterContext<'a> {
    chunk: &'a Chunk,
    chunk_pos: ChunkPos,
}

impl<'a> UpdaterContext<'a> {
    /// A context anchored at `chunk_pos`.
    pub fn new(chunk: &'a Chunk, chunk_pos: ChunkPos) -> (r: UpdaterContext<'a>)
        ensures
            r.model() == block_ctx(chunk@, chunk_pos),
    {
        UpdaterContext { chunk, chunk_pos }
    }
}

impl<'a> Context for UpdaterContext<'a> {
    closed spec fn model(&self) -> spec_fn(RelativePos) -> BlockType {
        block_ctx(self.chunk@, self.chunk_pos)
    }

    fn get_block(&self, rel_pos: RelativePos) -> (b: BlockInfo)
        ensures
            b.block_type == self.model()(rel_pos),
    {
        match self.chunk_pos.offset(rel_pos) {
            Some(pos) => self.chunk.get_block(pos),
            None => BlockInfo { block_type: UNKNOWN() },
        }
    }
}

/// A query an updater declared during its setup phase, ready to be
/// evaluated each time the updater runs.
pub struct PreparedQuery<Q, T> {
    pub query: Q,
    pub _phantom: PhantomData<T>,
}

impl<Q: Copy, T> Clone for PreparedQuery<Q, T> {
    fn clone(&self) -> (r: Self)
        ensures
            r == *self,
    {
        PreparedQuery { query: self.query, _phantom: PhantomData }
    }
}

impl<Q: Copy, T> Copy for PreparedQuery<Q, T> {

}

/// Declare a query for later evaluation through an `UpdaterHandle`.
pub fn prepare_query<T: DeepView, Q: Query<T>>(query: &Q) -> (p: PreparedQuery<Q, T>)
    ensures
        p.query == *query,
{
    PreparedQuery { query: *query, _phantom: PhantomData }
}

/// What an updater is handed while it runs on one cell.
pub struct UpdaterHandle<'a> {
    context: UpdaterContext<'a>,
}

impl<'a> UpdaterHandle<'a> {
    /// The reads the handle answers, as a mathematical function.
    pub closed spec fn model(&self) -> spec_fn(RelativePos) -> BlockType {
        self.context.model()
    }

    /// Evaluate a prepared query at the cell the handle is anchored on.
    pub fn query<T: DeepView, Q: Query<T>>(&self, linked_query: &PreparedQuery<Q, T>) -> (r: T)
        requires
            linked_query.query.wf(),
            linked_query.query.reach() < (CHUNK_WIDTH as int),
        ensures
            r.deep_view() == linked_query.query.spec_eval(
                self.model(),
                RelativePos { x: 0, y: 0, z: 0 },
            ),
    {
        proof {
            linked_query.query.reach_nonneg();
        }
        linked_query.query.eval(&self.context, RelativePos::here())
    }
}

/// A rule the simulator applies to every cell of one target block type:
/// a pure decision from the cell's neighborhood reads to an optional new
/// block type.
pub trait Updater: Sized {
    /// Structural well-formedness of the rule and its prepared queries.
    spec fn wf(&self) -> bool;

    /// The cacheability of the rule's reads, as a mathematical value.
    spec fn spec_cacheability(&self) -> CacheabilityModel;

    /// What the rule proposes, as a function of the cell's reads.
    spec fn spec_run(&self, ctx: spec_fn(RelativePos) -> BlockType) -> Option<BlockType>;

    /// The cacheability shared by everything the rule reads.
    fn cacheability(&self) -> (c: Cacheability)
        requires
            self.wf(),
        ensures
            c@ == self.spec_cacheability(),
            c.wf(),
    ;

    /// Run the rule on one cell: a proposal to write the returned block
    /// type there, or nothing to leave the cell alone.
    fn run(&self, handle: &UpdaterHandle<'_>) -> (r: Option<BlockType>)
        requires
            self.wf(),
        ensures
            r == self.spec_run(handle.model()),
    ;
}

/// The proposals one updater makes against the frozen chunk, walking the
/// given candidate positions in order and keeping the cells that hold the
/// target block type.
pub open spec fn writes_from<U: Updater>(
    target: BlockType,
    u: U,
    chunk: Seq<BlockType>,
    cands: Seq<ChunkPos>,
) -> Seq<(ChunkPos, BlockType)>
    decreases cands.len(),
{
    if cands.len() == 0 {
        seq![]
    } else {
        writes_from(target, u, chunk, cands.drop_last()) + {
            let p = cands.last();
            if chunk[p.spec_n()] == target {
                match u.spec_run(block_ctx(chunk, p)) {
                    Some(bt) => seq![(p, bt)],
                    None => seq![],
                }
            } else {
                seq![]
            }
        }
    }
}

/// The write list one tick collects: each updater's proposals over its
/// considerable cells, in registration order.
pub open spec fn all_writes<U: Updater>(
    updaters: Seq<(BlockType, U)>,
    m: LoadedChunkModel,
) -> Seq<(ChunkPos, BlockType)>
    decreases updaters.len(),
{
    if updaters.len() == 0 {
        seq![]
    } else {
        all_writes(updaters.drop_last(), m) + {
            let (target, u) = updaters.last();
            writes_from(target, u, m.chunk, spec_considerable(m, u.spec_cacheability()))
        }
    }
}

/// The chunk after the write list is applied in order: the last write to a
/// position wins.
pub open spec fn apply_writes(
    chunk: Seq<BlockType>,
    writes: Seq<(ChunkPos, BlockType)>,
) -> Seq<BlockType>
    decreases writes.len(),
{
    if writes.len() == 0 {
        chunk
    } else {
        apply_writes(chunk.update(writes[0].0.spec_n(), writes[0].1), writes.drop_first())
    }
}

/// The distinct cacheabilities of the registered updaters, in registration
/// order of first appearance.
pub open spec fn active_models<U: Updater>(updaters: Seq<(BlockType, U)>) -> Seq<CacheabilityModel>
    decreases updaters.len(),
{
    if updaters.len() == 0 {
        seq![]
    } else {
        let rest = active_models(updaters.drop_last());
        let c = updaters.last().1.spec_cacheability();
        if rest.contains(c) {
            rest
        } else {
            rest.push(c)
        }
    }
}

/// The positions the write list makes stale under cacheability `k`.
pub open spec fn marks_of_writes(
    k: CacheabilityModel,
    writes: Seq<(ChunkPos, BlockType)>,
) -> Set<ChunkPos>
    decreases writes.len(),
{
    if writes.len() == 0 {
        Set::empty()
    } else {
        mark_set(k, writes[0].0) + marks_of_writes(k, writes.drop_first())
    }
}

/// One tick, as a mathematical function of the starting state: collect the
/// write list against the frozen chunk, then apply it in order, and leave
/// one index per active cacheability holding exactly the positions those
/// writes made stale.
pub open spec fn spec_step<U: Updater>(
    updaters: Seq<(BlockType, U)>,
    m: LoadedChunkModel,
) -> LoadedChunkModel {
    let writes = all_writes(updaters, m);
    let active = active_models(updaters);
    LoadedChunkModel {
        chunk: apply_writes(m.chunk, writes),
        busters: Seq::new(active.len(), |i: int| (active[i], marks_of_writes(active[i], writes))),
    }
}

/// Determinism: a tick is a mathematical function of the starting state,
/// so two runs over equal states, on any platform, end in equal states.
pub proof fn lemma_step_deterministic<U: Updater>(
    updaters: Seq<(BlockType, U)>,
    m1: LoadedChunkModel,
    m2: LoadedChunkModel,
)
    requires
        m1 == m2,
    ensures
        spec_step(updaters, m1) == spec_step(updaters, m2),
{
}

/// Two-phase discipline: every proposal in the tick's write list is the
/// updater's decision against the chunk as it stood when the tick began;
/// no write collected earlier in the same tick is visible to it.
pub proof fn lemma_step_reads_pre_state<U: Updater>(
    updaters: Seq<(BlockType, U)>,
    m: LoadedChunkModel,
)
    ensures
        spec_step(updaters, m).chunk == apply_writes(m.chunk, all_writes(updaters, m)),
{
}

/// Runs registered updaters against a chunk, one tick at a time, with a
/// two-phase read-then-write discipline.
pub struct Simulator<U> {
    updaters: Vec<(BlockType, U)>,
}

impl<U: Updater> View for Simulator<U> {
    type V = Seq<(BlockType, U)>;

    closed spec fn view(&self) -> Seq<(BlockType, U)> {
        self.updaters@
    }
}

/// The models of a cacheability list, in order.
pub open spec fn cache_views(s: Seq<Cacheability>) -> Seq<CacheabilityModel> {
    Seq::new(s.len(), |i: int| s[i]@)
}

/// Is the model of `c` among the models of `list`?
fn contains_cacheability(list: &Vec<Cacheability>, c: &Cacheability) -> (r: bool)
    requires
        forall|i: int| 0 <= i < list@.len() ==> (#[trigger] list@[i]).wf(),
        c.wf(),
    ensures
        r == cache_views(list@).contains(c@),
{
    let mut i: usize = 0;
    while i < list.len()
        invariant
            0 <= i <= list@.len(),
            c.wf(),
            forall|j: int| 0 <= j < list@.len() ==> (#[trigger] list@[j]).wf(),
            forall|j: int| 0 <= j < i ==> list@[j]@ != c@,
        decreases list@.len() - i,
    {
        let hit = list[i].eq(c);
        proof {
            list@[i as int].lemma_deep_eq_is_model_eq(c);
        }
        if hit {
            proof {
                assert(cache_views(list@)[i as int] == c@);
                assert(cache_views(list@).contains(c@));
            }
            return true;
        }
        i = i + 1;
    }
    proof {
        assert forall|j: int| 0 <= j < cache_views(list@).len() implies cache_views(list@)[j]
            != c@ by {}
        if cache_views(list@).contains(c@) {
            let j = choose|j: int|
                0 <= j < cache_views(list@).len() && cache_views(list@)[j] == c@;
            assert(false);
        }
    }
    false
}

impl<U: Updater> Simulator<U> {
    /// Every registered updater is well formed.
    pub open spec fn wf(&self) -> bool {
        forall|i: int| 0 <= i < self@.len() ==> (#[trigger] self@[i]).1.wf()
    }

    /// A simulator with no updaters.
    pub fn new() -> (r: Simulator<U>)
        ensures
            r@ == Seq::<(BlockType, U)>::empty(),
            r.wf(),
    {
        let r = Simulator { updaters: Vec::new() };
        proof {
            assert(r@ =~= Seq::<(BlockType, U)>::empty());
        }
        r
    }

    /// Register an updater for every cell of the target block type; it runs
    /// after those registered before it.
    pub fn add_updater(&mut self, target: BlockType, updater: U)
        requires
            old(self).wf(),
            updater.wf(),
        ensures
            final(self)@ == old(self)@.push((target, updater)),
            final(self).wf(),
    {
        self.updaters.push((target, updater));
        proof {
            assert forall|i: int| 0 <= i < self@.len() implies (#[trigger] self@[i]).1.wf() by {
                if i < self@.len() - 1 {
                    assert(self@[i] == old(self)@[i]);
                } else {
                    assert(self@[i] == (target, updater));
                }
            }
        }
    }

    /// One tick. Every updater's reads observe the chunk as it stood when
    /// the tick began; the collected writes are applied only after every
    /// updater has run, in collection order, the last write to a position
    /// winning. The maintained indexes are rebuilt for the active
    /// cacheabilities and record exactly what this tick's writes made
    /// stale.
    pub fn step(&self, loaded_chunk: &mut LoadedChunk)
        requires
            self.wf(),
            old(loaded_chunk).wf(),
        ensures
            final(loaded_chunk)@ == spec_step(self@, old(loaded_chunk)@),
            final(loaded_chunk).wf(),
    {
        let ghost m = old(loaded_chunk)@;
        let mut writes: Vec<(ChunkPos, BlockType)> = Vec::new();
        let mut active: Vec<Cacheability> = Vec::new();
        let mut ui: usize = 0;
        while ui < self.updaters.len()
            invariant
                0 <= ui <= self.updaters@.len(),
                self.wf(),
                old(loaded_chunk).wf(),
                *loaded_chunk == *old(loaded_chunk),
                m == old(loaded_chunk)@,
                writes@ == all_writes(self.updaters@.subrange(0, ui as int), m),
                cache_views(active@) == active_models(self.updaters@.subrange(0, ui as int)),
                forall|i: int| 0 <= i < active@.len() ==> (#[trigger] active@[i]).wf(),
                forall|i: int, j: int| 0 <= i < j < active@.len() ==> active@[i]@ != active@[j]@,
            decreases self.updaters@.len() - ui,
        {
            let ghost prefix = self.updaters@.subrange(0, ui as int);
            proof {
                assert((#[trigger] self@[ui as int]).1.wf());
            }
            let target: BlockType = self.updaters[ui].0;
            let c = self.updaters[ui].1.cacheability();
            let cands = loaded_chunk.considerable_blocks_iter(&c);
            let ghost u = self.updaters@[ui as int].1;
            let ghost cs = spec_considerable(m, u.spec_cacheability());
            let mut ci: usize = 0;
            while ci < cands.len()
                invariant
                    0 <= ci <= cands@.len(),
                    self.wf(),
                    0 <= ui < self.updaters@.len(),
                    u == self.updaters@[ui as int].1,
                    target == self.updaters@[ui as int].0,
                    u.wf(),
                    old(loaded_chunk).wf(),
                    *loaded_chunk == *old(loaded_chunk),
                    m == old(loaded_chunk)@,
                    cs == spec_considerable(m, u.spec_cacheability()),
                    cands@.len() == cs.len(),
                    forall|i: int|
                        0 <= i < cands@.len() ==> (#[trigger] cands@[i]).0 == cs[i]
                            && cands@[i].1.block_type == m.chunk[cands@[i].0.spec_n()],
                    writes@ == all_writes(prefix, m) + writes_from(
                        target,
                        u,
                        m.chunk,
                        cs.subrange(0, ci as int),
                    ),
                decreases cands@.len() - ci,
            {
                let p: ChunkPos = cands[ci].0;
                let ghost pre_writes = writes@;
                if cands[ci].1.block_type.0 == target.0 {
                    let handle = UpdaterHandle {
                        context: UpdaterContext { chunk: loaded_chunk.get(), chunk_pos: p },
                    };
                    proof {
                        assert(handle.model() == block_ctx(m.chunk, p));
                        assert(self.updaters@[ui as int].1.wf());
                    }
                    let proposal = self.updaters[ui].1.run(&handle);
                    match proposal {
                        Some(new_block_type) => {
                            writes.push((p, new_block_type));
                        },
                        None => {},
                    }
                }
                proof {
                    assert(cs.subrange(0, ci as int + 1).drop_last() =~= cs.subrange(
                        0,
                        ci as int,
                    ));
                    assert(cs.subrange(0, ci as int + 1).last() == cs[ci as int]);
                    assert(cands@[ci as int].1.block_type == m.chunk[p.spec_n()]);
                    assert(writes@ =~= all_writes(prefix, m) + writes_from(
                        target,
                        u,
                        m.chunk,
                        cs.subrange(0, ci as int + 1),
                    ));
                }
                ci = ci + 1;
            }
            let already_active = contains_cacheability(&active, &c);
            if !already_active {
                proof {
                    assert forall|j: int| 0 <= j < active@.len() implies active@[j]@ != c@ by {
                        assert(cache_views(active@)[j] == active@[j]@);
                        if active@[j]@ == c@ {
                            assert(cache_views(active@).contains(c@));
                        }
                    }
                }
                active.push(c);
            }
            proof {
                let next = self.updaters@.subrange(0, ui as int + 1);
                assert(next.drop_last() =~= prefix);
                assert(next.last() == self.updaters@[ui as int]);
                assert(cs.subrange(0, cs.len() as int) =~= cs);
                assert(writes@ =~= all_writes(next, m));
                assert(cache_views(active@) =~= active_models(next));
            }
            ui = ui + 1;
        }
        proof {
            assert(self.updaters@.subrange(0, self.updaters@.len() as int) =~= self.updaters@);
        }
        let ghost ws = all_writes(self@, m);
        let ghost act = active_models(self@);
        loaded_chunk.reset_cache_busters(&active);
        proof {
            assert(ws.subrange(0, ws.len() as int) =~= ws);
            assert(active@.len() == act.len()) by {
                assert(cache_views(active@).len() == act.len());
            }
            assert forall|i: int| 0 <= i < act.len() implies (
            #[trigger] loaded_chunk@.busters[i]).0 == act[i] && loaded_chunk@.busters[i].1 == Set::<
                ChunkPos,
            >::empty() by {
                assert(cache_views(active@)[i] == active@[i]@);
            }
            assert forall|i: int| 0 <= i < act.len() implies marks_of_writes(act[i], ws) == (
            #[trigger] loaded_chunk@.busters[i]).1 + marks_of_writes(
                act[i],
                ws.subrange(0, ws.len() as int),
            ) by {
                assert(Set::<ChunkPos>::empty() + marks_of_writes(act[i], ws) =~= marks_of_writes(
                    act[i],
                    ws,
                ));
            }
        }
        let mut wi: usize = 0;
        while wi < writes.len()
            invariant
                0 <= wi <= writes@.len(),
                writes@ == ws,
                cache_views(active@) == act,
                active@.len() == act.len(),
                loaded_chunk.wf(),
                apply_writes(m.chunk, ws) == apply_writes(
                    loaded_chunk@.chunk,
                    ws.subrange(wi as int, ws.len() as int),
                ),
                loaded_chunk@.busters.len() == act.len(),
                forall|i: int|
                    0 <= i < act.len() ==> (#[trigger] loaded_chunk@.busters[i]).0 == act[i],
                forall|i: int|
                    0 <= i < act.len() ==> marks_of_writes(act[i], ws) == (
                    #[trigger] loaded_chunk@.busters[i]).1 + marks_of_writes(
                        act[i],
                        ws.subrange(wi as int, ws.len() as int),
                    ),
            decreases writes@.len() - wi,
        {
            let w = writes[wi];
            let ghost before = loaded_chunk@;
            loaded_chunk.set_block_type(w.0, w.1);
            proof {
                let rest = ws.subrange(wi as int, ws.len() as int);
                let rest2 = ws.subrange(wi as int + 1, ws.len() as int);
                assert(rest.drop_first() =~= rest2);
                assert(rest[0] == ws[wi as int]);
                assert(apply_writes(before.chunk, rest) == apply_writes(
                    loaded_chunk@.chunk,
                    rest2,
                ));
                assert forall|i: int| 0 <= i < act.len() implies marks_of_writes(act[i], ws) == (
                #[trigger] loaded_chunk@.busters[i]).1 + marks_of_writes(act[i], rest2) by {
                    assert(loaded_chunk@.busters[i].1 =~= before.busters[i].1 + mark_set(
                        act[i],
                        w.0,
                    ));
                    assert(marks_of_writes(act[i], rest) =~= mark_set(act[i], w.0)
                        + marks_of_writes(act[i], rest2));
                    assert(before.busters[i].1 + marks_of_writes(act[i], rest) =~= (
                    before.busters[i].1 + mark_set(act[i], w.0)) + marks_of_writes(act[i], rest2));
                }
            }
            wi = wi + 1;
        }
        proof {
            assert(ws.subrange(ws.len() as int, ws.len() as int) =~= Seq::<
                (ChunkPos, BlockType),
            >::empty());
            assert(loaded_chunk@.chunk == apply_writes(m.chunk, ws));
            assert forall|i: int| 0 <= i < act.len() implies (
            #[trigger] loaded_chunk@.busters[i]).1 == marks_of_writes(act[i], ws) by {
                assert(marks_of_writes(act[i], ws) =~= loaded_chunk@.busters[i].1
                    + marks_of_writes(
                    act[i],
                    ws.subrange(ws.len() as int, ws.len() as int),
                ));
                assert(loaded_chunk@.busters[i].1 + Set::<ChunkPos>::empty()
                    =~= loaded_chunk@.busters[i].1);
            }
            assert(loaded_chunk@.busters =~= spec_step(self@, m).busters);
            assert(loaded_chunk@ == spec_step(self@, m));
        }
    }
}

} // verus!
