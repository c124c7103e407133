use lotsa::block::{BlockType, EMPTY, UNKNOWN};
use lotsa::chunk::Chunk;
use lotsa::chunk_pos::ChunkPos;
use lotsa::query::BlockInfo;

const COBBLE: BlockType = BlockType(37);

fn three_cobble_chunk() -> Chunk {
    let mut c = Chunk::new();
    c.set_block_type(ChunkPos::new(1, 1, 0), COBBLE);
    c.set_block_type(ChunkPos::new(2, 2, 0), COBBLE);
    c.set_block_type(ChunkPos::new(3, 3, 0), COBBLE);
    c
}

fn collect_matching(c: &Chunk, bt: BlockType) -> Vec<(ChunkPos, BlockInfo)> {
    let mut r = Vec::new();
    let mut it = c.blocks_iter();
    while let Some((pos, block)) = it.next() {
        if block.block_type == bt {
            r.push((pos, block));
        }
    }
    r
}

#[test]
fn test_get_block() {
    let c = Chunk::new();
    let block = c.get_block(ChunkPos::new(1, 2, 3));
    assert_eq!(block.block_type(), UNKNOWN());
}

#[test]
fn test_set_block_type() {
    let mut c = Chunk::new();
    let p = ChunkPos::new(0, 0, 0);
    assert_eq!(c.get_block(p).block_type, UNKNOWN());
    c.set_block_type(p, COBBLE);
    assert_eq!(c.get_block(p).block_type, COBBLE);
}

#[test]
fn test_fill_with_block_type() {
    let mut c = Chunk::new();
    let p = ChunkPos::new(4, 5, 6);
    assert_eq!(c.get_block(p).block_type, UNKNOWN());
    c.fill_with_block_type(COBBLE);
    assert_eq!(c.get_block(p).block_type, COBBLE);
}

#[test]
fn test_blocks_iter() {
    let c = three_cobble_chunk();

    let found = collect_matching(&c, COBBLE);
    assert_eq!(found.len(), 3);
    assert_eq!(found[0].0, ChunkPos::new(1, 1, 0));
    assert_eq!(found[1].0, ChunkPos::new(2, 2, 0));
    assert_eq!(found[2].0, ChunkPos::new(3, 3, 0));
}

#[test]
fn test_get_blocks() {
    let c = three_cobble_chunk();

    let found = collect_matching(&c, COBBLE);
    assert_eq!(found[0].0, ChunkPos::new(1, 1, 0));
    assert_eq!(found[1].0, ChunkPos::new(2, 2, 0));
    assert_eq!(found[2].0, ChunkPos::new(3, 3, 0));
    assert!(found.get(3).is_none());
}

#[test]
fn test_neighbor_types() {
    let c = three_cobble_chunk();

    assert_eq!(
        c.neighbor_types(ChunkPos::new(2, 2, 0)),
        vec![COBBLE, UNKNOWN(), UNKNOWN(), UNKNOWN(), UNKNOWN(), UNKNOWN(), UNKNOWN(), COBBLE]
    );

    assert_eq!(
        c.neighbor_types(ChunkPos::new(9, 9, 0)),
        vec![
            UNKNOWN(),
            UNKNOWN(),
            UNKNOWN(),
            UNKNOWN(),
            UNKNOWN(),
            UNKNOWN(),
            UNKNOWN(),
            UNKNOWN()
        ]
    );

    // Top left corner
    assert_eq!(c.neighbor_types(ChunkPos::new(0, 0, 0)), vec![UNKNOWN(), UNKNOWN(), COBBLE]);

    // Top side
    assert_eq!(
        c.neighbor_types(ChunkPos::new(1, 0, 0)),
        vec![UNKNOWN(), UNKNOWN(), UNKNOWN(), COBBLE, UNKNOWN()]
    );

    // Left side
    assert_eq!(
        c.neighbor_types(ChunkPos::new(0, 1, 0)),
        vec![UNKNOWN(), UNKNOWN(), COBBLE, UNKNOWN(), UNKNOWN()]
    );
}

#[test]
fn test_unknown_and_empty_are_distinct() {
    assert_ne!(UNKNOWN(), EMPTY());
    assert_eq!(UNKNOWN(), BlockType(1));
    assert_eq!(EMPTY(), BlockType(2));
}
