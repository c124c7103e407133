use lotsa::block::{BlockType, EMPTY, UNKNOWN};
use lotsa::chunk::Chunk;
use lotsa::chunk_pos::ChunkPos;
use lotsa::debug::Debugger;

const COBBLE: BlockType = BlockType(37);

fn build_debugger() -> Debugger {
    Debugger::new(vec![(UNKNOWN(), 'X'), (EMPTY(), '.'), (COBBLE, 'C')])
}

#[test]
fn test_get_bounds() {
    let debugger = build_debugger();
    let mut c = Chunk::new();
    c.set_block_type(ChunkPos::new(1, 1, 1), COBBLE);
    c.set_block_type(ChunkPos::new(1, 4, 2), COBBLE);
    c.set_block_type(ChunkPos::new(1, 2, 3), COBBLE);
    assert_eq!(debugger.bounds(&c), ChunkPos::new(1, 4, 3));
}

#[test]
fn test_dump_2d() {
    let debugger = build_debugger();
    let mut c = Chunk::new();
    for x in 0..6 {
        for y in 0..6 {
            c.set_block_type(ChunkPos::new(x, y, 0), EMPTY());
        }
    }
    c.set_block_type(ChunkPos::new(1, 1, 0), COBBLE);
    c.set_block_type(ChunkPos::new(2, 3, 0), COBBLE);
    c.set_block_type(ChunkPos::new(4, 2, 0), COBBLE);

    assert_eq!(
        debugger.dump(&c),
        debugger.clean(
            ".....
       .C...
       ....C
       ..C.."
        )
    );
}

#[test]
fn test_load_2d() {
    let debugger = build_debugger();
    let mut c = Chunk::new();

    debugger.load(
        &mut c,
        ".....
       .CC.C
       ..CC.
       C....",
    );

    assert_eq!(c.get_block(ChunkPos::new(0, 0, 0)).block_type(), EMPTY());
    assert_eq!(c.get_block(ChunkPos::new(0, 0, 1)).block_type(), UNKNOWN());
    assert_eq!(c.get_block(ChunkPos::new(15, 0, 0)).block_type(), UNKNOWN());
    assert_eq!(c.get_block(ChunkPos::new(1, 1, 0)).block_type(), COBBLE);
    assert_eq!(c.get_block(ChunkPos::new(2, 1, 0)).block_type(), COBBLE);
    assert_eq!(c.get_block(ChunkPos::new(1, 2, 0)).block_type(), EMPTY());
    assert_eq!(c.get_block(ChunkPos::new(2, 2, 0)).block_type(), COBBLE);
    assert_eq!(c.get_block(ChunkPos::new(0, 3, 0)).block_type(), COBBLE);

    assert_eq!(
        debugger.dump(&c),
        debugger.clean(
            ".....
       .CC.C
       ..CC.
       C...."
        )
    );
}

#[test]
fn test_clean() {
    let debugger = build_debugger();

    assert_eq!(
        "...\nC..\n..C\n",
        debugger.clean(
            ".....
         C....
         ..C..
         ....."
        )
    )
}

#[test]
fn test_round_trip() {
    // Dumping uses the bounding box of the interesting cells, so the
    // round trip of a picture is its normalization: whitespace collapsed,
    // rows cut to the box, a trailing newline added.
    let debugger = build_debugger();
    let mut c = Chunk::new();
    debugger.load(&mut c, ".....\n.CCC.\n.....");
    assert_eq!(debugger.dump(&c), "....\n.CCC\n");
    assert_eq!(debugger.clean(".....\n.CCC.\n....."), "....\n.CCC\n");
    assert_eq!(debugger.dump(&c), debugger.clean(".....\n.CCC.\n....."));
}
