use lotsa::chunk_index::ChunkIndex;
use lotsa::chunk_pos::ChunkPos;

#[test]
fn test_consider() {
    let mut index = ChunkIndex::new();

    let pos_a = ChunkPos::new(0, 1, 2);
    let pos_b = ChunkPos::new(3, 4, 5);

    assert_eq!(index.consider(pos_a), false);
    assert_eq!(index.consider(pos_b), false);

    index.mark(pos_a);

    assert_eq!(index.consider(pos_a), true);
    assert_eq!(index.consider(pos_b), false);
}

#[test]
fn test_iteration() {
    let mut index = ChunkIndex::new();

    let pos_a = ChunkPos::new(0, 1, 2);
    let pos_b = ChunkPos::new(3, 4, 5);
    let pos_c = ChunkPos::new(15, 15, 15);

    index.mark(pos_a);
    index.mark(pos_b);
    index.mark(pos_c);

    let considerables: Vec<ChunkPos> = index.iter();

    assert!(considerables.contains(&pos_a));
    assert!(considerables.contains(&pos_b));
    assert!(considerables.contains(&pos_c));
    assert!(considerables.len() < 8); // Allowed to have false positives
}

#[test]
fn test_clear() {
    let mut index = ChunkIndex::new();

    let pos = ChunkPos::new(0, 1, 2);

    index.mark(pos);
    assert_eq!(index.consider(pos), true);
    index.clear();
    assert_eq!(index.consider(pos), false);
    assert_eq!(index.iter().len(), 0);
}

#[test]
fn test_mark_chebyshev() {
    let mut index = ChunkIndex::new();

    index.mark_chebyshev_neighborhood(ChunkPos::new(5, 5, 5), 2);

    assert_eq!(index.consider(ChunkPos::new(5, 5, 5)), true);
    assert_eq!(index.consider(ChunkPos::new(4, 4, 5)), true);
    assert_eq!(index.consider(ChunkPos::new(3, 3, 5)), true);
    assert_eq!(index.consider(ChunkPos::new(6, 6, 5)), true);
    assert_eq!(index.consider(ChunkPos::new(7, 7, 5)), true);
    assert_eq!(index.consider(ChunkPos::new(3, 7, 5)), true);
    assert_eq!(index.consider(ChunkPos::new(7, 3, 5)), true);
    assert_eq!(index.consider(ChunkPos::new(7, 7, 7)), true);

    assert_eq!(index.consider(ChunkPos::new(2, 2, 5)), false);
    assert_eq!(index.consider(ChunkPos::new(8, 8, 5)), false);
    assert_eq!(index.consider(ChunkPos::new(5, 8, 5)), false);
    assert_eq!(index.consider(ChunkPos::new(7, 7, 8)), false);
}

#[test]
fn test_mark_chebyshev_clipped_at_edge() {
    let mut index = ChunkIndex::new();

    index.mark_chebyshev_neighborhood(ChunkPos::new(0, 0, 0), 2);

    assert_eq!(index.consider(ChunkPos::new(0, 0, 0)), true);
    assert_eq!(index.consider(ChunkPos::new(2, 2, 2)), true);
    assert_eq!(index.consider(ChunkPos::new(3, 0, 0)), false);
    // 27 in-chunk positions of the 125-cell neighborhood survive clipping
    assert_eq!(index.iter().len(), 27);
}

#[test]
fn test_iteration_is_sorted() {
    let mut index = ChunkIndex::new();
    let pos_a = ChunkPos::new(3, 4, 5);
    let pos_b = ChunkPos::new(0, 1, 2);
    index.mark(pos_a);
    index.mark(pos_b);
    index.mark(pos_b);

    let marked = index.iter();
    assert_eq!(marked.len(), 2);
    assert_eq!(marked[0], pos_b);
    assert_eq!(marked[1], pos_a);
}
