use lotsa::chunk_pos::ChunkPos;
use lotsa::relative_pos::RelativePos;

#[test]
fn test_point_splitting() {
    let p = ChunkPos::new(0, 0, 0);
    assert_eq!(p.x(), 0);
    assert_eq!(p.y(), 0);
    assert_eq!(p.z(), 0);

    let p = ChunkPos::new(1, 2, 3);
    assert_eq!(p.x(), 1);
    assert_eq!(p.y(), 2);
    assert_eq!(p.z(), 3);

    let p = ChunkPos::new(8, 9, 7);
    assert_eq!(p.x(), 8);
    assert_eq!(p.y(), 9);
    assert_eq!(p.z(), 7);

    let p = ChunkPos::new(15, 15, 15);
    assert_eq!(p.x(), 15);
    assert_eq!(p.y(), 15);
    assert_eq!(p.z(), 15);
}

#[test]
fn test_offset() {
    let p = ChunkPos::new(1, 2, 3);

    assert_eq!(Some(ChunkPos::new(9, 8, 7)), p.offset(RelativePos::new(8, 6, 4)));

    assert_eq!(Some(ChunkPos::new(0, 1, 1)), p.offset(RelativePos::new(-1, -1, -2)));

    assert_eq!(Some(ChunkPos::new(31, 2, 3)), p.offset(RelativePos::new(30, 0, 0)));

    assert_eq!(None, p.offset(RelativePos::new(-2, 0, 0)));

    assert_eq!(None, p.offset(RelativePos::new(31, 0, 0)));
}

#[test]
fn test_offset_boundary() {
    let origin = ChunkPos::new(0, 0, 0);
    assert_eq!(None, origin.offset(RelativePos::new(-1, 0, 0)));
    assert_eq!(None, origin.offset(RelativePos::new(0, -1, 0)));
    assert_eq!(None, origin.offset(RelativePos::new(0, 0, -1)));
    assert_eq!(Some(ChunkPos::new(31, 31, 31)), origin.offset(RelativePos::new(31, 31, 31)));

    let corner = ChunkPos::new(31, 31, 31);
    assert_eq!(None, corner.offset(RelativePos::new(1, 0, 0)));
    assert_eq!(Some(ChunkPos::new(0, 0, 0)), corner.offset(RelativePos::new(-31, -31, -31)));
}

#[test]
fn test_raw_n_round_trip() {
    let p = ChunkPos::new(5, 6, 7);
    assert_eq!(p.raw_n(), 5 * 1024 + 6 * 32 + 7);
    let mut q = ChunkPos::new(0, 0, 0);
    assert!(q.increment());
    assert_eq!(q.raw_n(), 1);
    assert_eq!(q.x(), 0);
    assert_eq!(q.y(), 0);
    assert_eq!(q.z(), 1);
}
