use vstd::prelude::*;
use core::marker::PhantomData;
use crate::block::{BlockType, EMPTY};
use crate::query::{Cacheability, CacheabilityModel, Chebyshev2DNeighbors, GetBlockType};
use crate::relative_pos::RelativePos;
use crate::sim::{prepare_query, PreparedQuery, Simulator, Updater, UpdaterHandle};

verus! {

pub open spec fn spec_life() -> BlockType {
    BlockType(3)
}

/// The block type of a living cell.
#[allow(non_snake_case)]
#[verifier::when_used_as_spec(spec_life)]
pub fn LIFE() -> (b: BlockType)
    ensures
        b == spec_life(),
{
    BlockType(3)
}

/// The number of living cells in a list of block types.
pub open spec fn spec_live_count(ns: Seq<BlockType>) -> int
    decreases ns.len(),
{
    if ns.len() == 0 {
        0
    } else {
        spec_live_count(ns.drop_last()) + if ns.last() == spec_life() {
            1int
        } else {
            0int
        }
    }
}

/// How many of the given block types are `LIFE`.
pub fn live_blocks_here(neighbors: &Vec<BlockType>) -> (count: usize)
    ensures
        count as int == spec_live_count(neighbors@),
{
    let mut count: usize = 0;
    let mut i: usize = 0;
    while i < neighbors.len()
        invariant
            0 <= i <= neighbors@.len(),
            count <= i,
            count as int == spec_live_count(neighbors@.subrange(0, i as int)),
        decreases neighbors@.len() - i,
    {
        let ghost prefix = neighbors@.subrange(0, i as int);
        let ghost next = neighbors@.subrange(0, i as int + 1);
        proof {
            assert(next.drop_last() =~= prefix);
            assert(next.last() == neighbors@[i as int]);
        }
        if neighbors[i].0 == LIFE().0 {
            count = count + 1;
        }
        i = i + 1;
    }
    proof {
        assert(neighbors@.subrange(0, neighbors@.len() as int) =~= neighbors@);
    }
    count
}

/// Which half of the Life rule an updater applies.
#[derive(Clone, Copy, Debug, PartialEq, Eq, Structural)]
pub enum LifeRuleKind {
    /// A living cell keeps living only among enough, but not too many,
    /// living neighbors.
    Survival,
    /// An empty cell with exactly three living neighbors comes to life.
    Birth,
}

/// The nine same-z cells at Chebyshev distance at most one, the center
/// included.
pub open spec fn spec_neighbors_query() -> Chebyshev2DNeighbors<BlockType, GetBlockType> {
    Chebyshev2DNeighbors { distance: 1, map_expr: GetBlockType {  }, _phantom: PhantomData }
}

/// What the Life rule proposes, given the nine-cell neighborhood reads
/// (center included): a living center cell survives with two to four
/// living neighbors and otherwise empties; an empty center comes to life
/// with exactly three living neighbors.
pub open spec fn spec_life_rule(kind: LifeRuleKind, ns: Seq<BlockType>) -> Option<BlockType> {
    match kind {
        LifeRuleKind::Survival => {
            let nearby = spec_live_count(ns) - 1;
            if 2 <= nearby <= 4 {
                None
            } else {
                Some(crate::block::spec_empty())
            }
        },
        LifeRuleKind::Birth => {
            if spec_live_count(ns) == 3 {
                Some(spec_life())
            } else {
                None
            }
        },
    }
}

/// One half of Conway's Life on the z = 0 plane, reading the cell's
/// Chebyshev-distance-one neighborhood.
#[derive(Clone, Copy)]
pub struct LifeUpdater {
    pub kind: LifeRuleKind,
    pub neighbor_block_types: PreparedQuery<Chebyshev2DNeighbors<BlockType, GetBlockType>, Vec<
        BlockType,
    >>,
}

impl LifeUpdater {
    /// The updater registered for living cells.
    pub fn survival() -> (u: LifeUpdater)
        ensures
            u == (LifeUpdater {
                kind: LifeRuleKind::Survival,
                neighbor_block_types: PreparedQuery {
                    query: spec_neighbors_query(),
                    _phantom: PhantomData,
                },
            }),
            u.wf(),
    {
        let q = Chebyshev2DNeighbors::new(1, &GetBlockType::new());
        LifeUpdater { kind: LifeRuleKind::Survival, neighbor_block_types: prepare_query(&q) }
    }

    /// The updater registered for empty cells.
    pub fn birth() -> (u: LifeUpdater)
        ensures
            u == (LifeUpdater {
                kind: LifeRuleKind::Birth,
                neighbor_block_types: PreparedQuery {
                    query: spec_neighbors_query(),
                    _phantom: PhantomData,
                },
            }),
            u.wf(),
    {
        let q = Chebyshev2DNeighbors::new(1, &GetBlockType::new());
        LifeUpdater { kind: LifeRuleKind::Birth, neighbor_block_types: prepare_query(&q) }
    }
}

impl Updater for LifeUpdater {
    open spec fn wf(&self) -> bool {
        &&& crate::query::GenericQuery::wf(&self.neighbor_block_types.query)
        &&& self.neighbor_block_types.query.distance == 1
    }

    open spec fn spec_cacheability(&self) -> CacheabilityModel {
        crate::query::GenericQuery::spec_cacheability(&self.neighbor_block_types.query)
    }

    open spec fn spec_run(&self, ctx: spec_fn(RelativePos) -> BlockType) -> Option<BlockType> {
        spec_life_rule(
            self.kind,
            crate::query::Query::spec_eval(
                &self.neighbor_block_types.query,
                ctx,
                RelativePos { x: 0, y: 0, z: 0 },
            ),
        )
    }

    fn cacheability(&self) -> (c: Cacheability)
        ensures
            c@ == self.spec_cacheability(),
            c.wf(),
    {
        crate::query::GenericQuery::cacheability(&self.neighbor_block_types.query)
    }

    fn run(&self, handle: &UpdaterHandle<'_>) -> (r: Option<BlockType>)
        ensures
            r == self.spec_run(handle.model()),
    {
        let nearby_blocks: Vec<BlockType> = handle.query(&self.neighbor_block_types);
        let count = live_blocks_here(&nearby_blocks);
        proof {
            assert(nearby_blocks.deep_view() =~= nearby_blocks@);
        }
        match self.kind {
            LifeRuleKind::Survival => {
                if count >= 3 && count <= 5 {
                    None
                } else {
                    Some(EMPTY())
                }
            },
            LifeRuleKind::Birth => {
                if count == 3 {
                    Some(LIFE())
                } else {
                    None
                }
            },
        }
    }
}

/// For a cell whose eight same-z neighbors all lie inside the chunk,
/// `Chunk::neighbor_types` agrees with the nine-cell sequence of
/// `Chebyshev2DNeighbors(1, GetBlockType)` with its center entry removed.
pub proof fn lemma_neighbor_types_match_query(chunk: Seq<BlockType>, pos: crate::chunk_pos::ChunkPos)
    requires
        pos.inv(),
        1 <= pos.spec_x() <= (crate::chunk::CHUNK_WIDTH as int) - 2,
        1 <= pos.spec_y() <= (crate::chunk::CHUNK_WIDTH as int) - 2,
    ensures
        ({
            let full = crate::query::Query::spec_eval(
                &spec_neighbors_query(),
                crate::sim::block_ctx(chunk, pos),
                RelativePos { x: 0, y: 0, z: 0 },
            );
            crate::chunk::Chunk::spec_neighbor_types(chunk, pos) == full.subrange(0, 4)
                + full.subrange(5, 9)
        }),
{
    let ctx = crate::sim::block_ctx(chunk, pos);
    let here = RelativePos { x: 0, y: 0, z: 0 };
    let full = crate::query::Query::spec_eval(&spec_neighbors_query(), ctx, here);
    pos.lemma_coords_range();
    lemma_ctx_in_range(chunk, pos, -1, -1);
    lemma_ctx_in_range(chunk, pos, 0, -1);
    lemma_ctx_in_range(chunk, pos, 1, -1);
    lemma_ctx_in_range(chunk, pos, -1, 0);
    lemma_ctx_in_range(chunk, pos, 0, 0);
    lemma_ctx_in_range(chunk, pos, 1, 0);
    lemma_ctx_in_range(chunk, pos, -1, 1);
    lemma_ctx_in_range(chunk, pos, 0, 1);
    lemma_ctx_in_range(chunk, pos, 1, 1);
    assert(full.len() == 9) by {
        assert((2int * 1 + 1) * (2int * 1 + 1) == 9) by (nonlinear_arith);
        assert(crate::query::cheb_len(1) == 9);
    }
    assert(crate::query::cheb_rel(here, 1, 0) == (RelativePos { x: -1i8, y: -1i8, z: 0i8 }));
    assert(crate::query::cheb_rel(here, 1, 1) == (RelativePos { x: 0i8, y: -1i8, z: 0i8 }));
    assert(crate::query::cheb_rel(here, 1, 2) == (RelativePos { x: 1i8, y: -1i8, z: 0i8 }));
    assert(crate::query::cheb_rel(here, 1, 3) == (RelativePos { x: -1i8, y: 0i8, z: 0i8 }));
    assert(crate::query::cheb_rel(here, 1, 5) == (RelativePos { x: 1i8, y: 0i8, z: 0i8 }));
    assert(crate::query::cheb_rel(here, 1, 6) == (RelativePos { x: -1i8, y: 1i8, z: 0i8 }));
    assert(crate::query::cheb_rel(here, 1, 7) == (RelativePos { x: 0i8, y: 1i8, z: 0i8 }));
    assert(crate::query::cheb_rel(here, 1, 8) == (RelativePos { x: 1i8, y: 1i8, z: 0i8 }));
    let ns = crate::chunk::Chunk::spec_neighbor_types(chunk, pos);
    assert(ns =~= full.subrange(0, 4) + full.subrange(5, 9));
}

/// Inside the chunk, the tick context reads straight from the chunk cell
/// the offset lands on.
proof fn lemma_ctx_in_range(chunk: Seq<BlockType>, pos: crate::chunk_pos::ChunkPos, dx: int, dy: int)
    requires
        pos.inv(),
        -1 <= dx <= 1,
        -1 <= dy <= 1,
        0 <= pos.spec_x() + dx < (crate::chunk::CHUNK_WIDTH as int),
        0 <= pos.spec_y() + dy < (crate::chunk::CHUNK_WIDTH as int),
    ensures
        crate::sim::block_ctx(chunk, pos)(RelativePos { x: dx as i8, y: dy as i8, z: 0 })
            == chunk[crate::chunk_pos::ChunkPos::spec_pack(
            pos.spec_x() + dx,
            pos.spec_y() + dy,
            pos.spec_z(),
        )],
{
    let r = RelativePos { x: dx as i8, y: dy as i8, z: 0 };
    pos.lemma_coords_range();
    pos.lemma_offset_characterization(r);
    assert(pos.offset_in_range(r));
}

/// Register the two halves of the Life rule: living cells first, then
/// empty cells, both reading the distance-one neighborhood.
pub fn init(sim: &mut Simulator<LifeUpdater>)
    requires
        old(sim).wf(),
    ensures
        final(sim)@ == old(sim)@.push((spec_life(), LifeUpdater {
            kind: LifeRuleKind::Survival,
            neighbor_block_types: PreparedQuery {
                query: spec_neighbors_query(),
                _phantom: PhantomData,
            },
        })).push((crate::block::spec_empty(), LifeUpdater {
            kind: LifeRuleKind::Birth,
            neighbor_block_types: PreparedQuery {
                query: spec_neighbors_query(),
                _phantom: PhantomData,
            },
        })),
        final(sim).wf(),
{
    sim.add_updater(LIFE(), LifeUpdater::survival());
    sim.add_updater(EMPTY(), LifeUpdater::birth());
}

} // verus!
