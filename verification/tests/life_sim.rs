use lotsa::block::{BlockType, EMPTY, UNKNOWN};
use lotsa::chunk::Chunk;
use lotsa::debug::Debugger;
use lotsa::life::{init, live_blocks_here, LifeUpdater, LIFE};
use lotsa::loaded_chunk::LoadedChunk;
use lotsa::query::{Cacheability, CacheableField};
use lotsa::sim::{Simulator, Updater};

fn life_debugger() -> Debugger {
    Debugger::new(vec![(UNKNOWN(), 'X'), (EMPTY(), '.'), (LIFE(), 'L')])
}

fn loaded_from(art: &str) -> LoadedChunk {
    let mut chunk = Chunk::new();
    chunk.fill_with_block_type(EMPTY());
    life_debugger().load(&mut chunk, art);
    LoadedChunk::new(chunk)
}

fn assert_matches_art(loaded: &LoadedChunk, art: &str) {
    let debugger = life_debugger();
    assert_eq!(debugger.dump(loaded.get()), debugger.clean(art));
}

#[test]
fn test_blinker() {
    let mut chunk = Chunk::new();
    let debugger = life_debugger();

    debugger.load(
        &mut chunk,
        ".....
       .....
       .LLL.
       .....
       .....",
    );

    let mut loaded_chunk = LoadedChunk::new(chunk);

    let mut sim = Simulator::new();
    init(&mut sim);

    sim.step(&mut loaded_chunk);
    assert_matches_art(
        &loaded_chunk,
        ".....
       ..L..
       ..L..
       ..L..
       .....",
    );

    sim.step(&mut loaded_chunk);
    assert_matches_art(
        &loaded_chunk,
        ".....
       .....
       .LLL.
       .....
       .....",
    );
}

#[test]
fn test_block_still_life() {
    let mut loaded = loaded_from(
        "....
       .LL.
       .LL.
       ....",
    );

    let mut sim = Simulator::new();
    init(&mut sim);

    for _ in 0..4 {
        sim.step(&mut loaded);
        assert_matches_art(
            &loaded,
            "....
           .LL.
           .LL.
           ....",
        );
    }
}

#[test]
fn test_empty_chunk_stays_empty() {
    let mut chunk = Chunk::new();
    chunk.fill_with_block_type(EMPTY());
    let mut loaded = LoadedChunk::new(chunk);

    let mut sim = Simulator::new();
    init(&mut sim);

    for _ in 0..3 {
        sim.step(&mut loaded);
    }

    let mut it = loaded.get().blocks_iter();
    while let Some((_, block)) = it.next() {
        assert_eq!(block.block_type, EMPTY());
    }
}

#[test]
fn test_step_deterministic() {
    let art = "......
       .LLL..
       ...L..
       ..L...
       ......";

    let mut first = loaded_from(art);
    let mut second = loaded_from(art);

    let mut sim = Simulator::new();
    init(&mut sim);

    let debugger = life_debugger();
    for _ in 0..3 {
        sim.step(&mut first);
        sim.step(&mut second);
        assert_eq!(debugger.dump(first.get()), debugger.dump(second.get()));
    }
}

#[test]
fn test_live_blocks_here() {
    let ns = vec![EMPTY(), LIFE(), LIFE(), BlockType(9), LIFE()];
    assert_eq!(live_blocks_here(&ns), 3);
    assert_eq!(live_blocks_here(&Vec::new()), 0);
}

#[test]
fn test_updater_cacheability() {
    let survival = LifeUpdater::survival();
    assert_eq!(
        survival.cacheability(),
        Cacheability::UntilChangeInChebyshevNeighborhood {
            distance: 1,
            fields: vec![CacheableField::CacheableBlockType],
        }
    );
}
