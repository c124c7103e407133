use lotsa::block::{BlockType, UNKNOWN};
use lotsa::chunk::Chunk;
use lotsa::chunk_pos::ChunkPos;
use lotsa::query::{
    Cacheability, CacheableField, Chebyshev2DNeighbors, Constant, Equals, GenericQuery,
    GetBlockType, Query,
};
use lotsa::relative_pos::RelativePos;
use lotsa::sim::UpdaterContext;

const COBBLE: BlockType = BlockType(37);

// A chunk that holds COBBLE at the origin and nothing else, anchored at the
// origin: relative reads see COBBLE at (0,0,0) and UNKNOWN everywhere else.
fn cobble_at_origin() -> Chunk {
    let mut c = Chunk::new();
    c.set_block_type(ChunkPos::new(0, 0, 0), COBBLE);
    c
}

fn block_type_fields() -> Vec<CacheableField> {
    vec![CacheableField::CacheableBlockType]
}

#[test]
fn test_generic_query_equality() {
}

#[test]
fn test_integer_constant() {
    let chunk = cobble_at_origin();
    let context = UpdaterContext::new(&chunk, ChunkPos::new(0, 0, 0));
    let origin = RelativePos::new(0, 0, 0);

    let one: Constant<u32> = Constant::new(1);
    assert_eq!(one.eval(&context, origin), 1);
    assert_eq!(one.cacheability(), Cacheability::Forever);
}

#[test]
fn test_block_type_constant() {
    let chunk = cobble_at_origin();
    let context = UpdaterContext::new(&chunk, ChunkPos::new(0, 0, 0));
    let origin = RelativePos::new(0, 0, 0);

    let cobble: Constant<BlockType> = Constant::new(COBBLE);
    assert_eq!(cobble.eval(&context, origin), COBBLE);
    assert_eq!(cobble.cacheability(), Cacheability::Forever);
}

#[test]
fn test_get_block_type() {
    let chunk = cobble_at_origin();
    let context = UpdaterContext::new(&chunk, ChunkPos::new(0, 0, 0));
    let origin = RelativePos::new(0, 0, 0);
    let west = RelativePos::new(-1, 0, 0);

    let get_block_type = GetBlockType::new();

    assert_eq!(get_block_type.eval(&context, origin), COBBLE);
    assert_eq!(get_block_type.eval(&context, west), UNKNOWN());

    assert_eq!(
        get_block_type.cacheability(),
        Cacheability::UntilChangeInSelf { fields: block_type_fields() }
    );
}

#[test]
fn test_equals_integers() {
    let chunk = cobble_at_origin();
    let context = UpdaterContext::new(&chunk, ChunkPos::new(0, 0, 0));
    let origin = RelativePos::new(0, 0, 0);

    let one: Constant<u32> = Constant::new(1);
    let another_one: Constant<u32> = Constant::new(1);
    let two: Constant<u32> = Constant::new(2);

    assert!(Equals::new(&one, &one).eval(&context, origin));
    assert!(Equals::new(&one, &another_one).eval(&context, origin));
    assert!(!Equals::new(&one, &two).eval(&context, origin));

    assert_eq!(Equals::new(&one, &one).cacheability(), Cacheability::Forever);
    assert_eq!(Equals::new(&one, &two).cacheability(), Cacheability::Forever);
}

#[test]
fn test_equals_block_types() {
    let chunk = cobble_at_origin();
    let context = UpdaterContext::new(&chunk, ChunkPos::new(0, 0, 0));
    let origin = RelativePos::new(0, 0, 0);
    let west = RelativePos::new(-1, 0, 0);

    let cobble: Constant<BlockType> = Constant::new(COBBLE);
    let unknown: Constant<BlockType> = Constant::new(UNKNOWN());

    assert!(Equals::new(&cobble, &cobble).eval(&context, origin));
    assert!(Equals::new(&cobble, &cobble).eval(&context, west));
    assert!(!Equals::new(&unknown, &cobble).eval(&context, origin));
    assert!(!Equals::new(&unknown, &cobble).eval(&context, west));

    assert_eq!(Equals::new(&cobble, &cobble).cacheability(), Cacheability::Forever);
    assert_eq!(Equals::new(&unknown, &cobble).cacheability(), Cacheability::Forever);

    let get_block_type = GetBlockType::new();

    assert!(Equals::new(&get_block_type, &cobble).eval(&context, origin));
    assert!(Equals::new(&cobble, &get_block_type).eval(&context, origin));
    assert!(!Equals::new(&get_block_type, &unknown).eval(&context, origin));
    assert!(!Equals::new(&unknown, &get_block_type).eval(&context, origin));

    assert!(!Equals::new(&get_block_type, &cobble).eval(&context, west));
    assert!(!Equals::new(&cobble, &get_block_type).eval(&context, west));
    assert!(Equals::new(&get_block_type, &unknown).eval(&context, west));
    assert!(Equals::new(&unknown, &get_block_type).eval(&context, west));

    assert_eq!(
        Equals::new(&get_block_type, &cobble).cacheability(),
        Cacheability::UntilChangeInSelf { fields: block_type_fields() }
    );

    assert_eq!(
        Equals::new(&cobble, &get_block_type).cacheability(),
        Cacheability::UntilChangeInSelf { fields: block_type_fields() }
    );
}

#[test]
fn test_neighbors_block_types() {
    let chunk = cobble_at_origin();
    let context = UpdaterContext::new(&chunk, ChunkPos::new(0, 0, 0));
    let origin = RelativePos::new(0, 0, 0);
    let west = RelativePos::new(-1, 0, 0);
    let get_block_type = GetBlockType::new();

    let get_neighbor_types = Chebyshev2DNeighbors::new(1, &get_block_type);
    assert_eq!(
        vec![
            UNKNOWN(),
            UNKNOWN(),
            UNKNOWN(),
            UNKNOWN(),
            COBBLE,
            UNKNOWN(),
            UNKNOWN(),
            UNKNOWN(),
            UNKNOWN()
        ],
        get_neighbor_types.eval(&context, origin)
    );
    assert_eq!(
        vec![
            UNKNOWN(),
            UNKNOWN(),
            UNKNOWN(),
            UNKNOWN(),
            UNKNOWN(),
            COBBLE,
            UNKNOWN(),
            UNKNOWN(),
            UNKNOWN()
        ],
        get_neighbor_types.eval(&context, west)
    );

    assert_eq!(
        get_neighbor_types.cacheability(),
        Cacheability::UntilChangeInChebyshevNeighborhood {
            distance: 1,
            fields: block_type_fields()
        }
    )
}

#[test]
fn test_neighbors_block_type_equality() {
    let chunk = cobble_at_origin();
    let context = UpdaterContext::new(&chunk, ChunkPos::new(0, 0, 0));
    let origin = RelativePos::new(0, 0, 0);
    let get_block_type = GetBlockType::new();

    let cobble: Constant<BlockType> = Constant::new(COBBLE);
    let equals_cobble = Equals::new(&get_block_type, &cobble);
    let get_neighbor_cobbleness = Chebyshev2DNeighbors::new(1, &equals_cobble);
    assert_eq!(
        vec![false, false, false, false, true, false, false, false, false],
        get_neighbor_cobbleness.eval(&context, origin)
    );

    assert_eq!(
        get_neighbor_cobbleness.cacheability(),
        Cacheability::UntilChangeInChebyshevNeighborhood {
            distance: 1,
            fields: block_type_fields()
        }
    )
}

#[test]
fn test_distant_neighbors_block_type_equality() {
    let chunk = cobble_at_origin();
    let context = UpdaterContext::new(&chunk, ChunkPos::new(0, 0, 0));
    let origin = RelativePos::new(0, 0, 0);
    let get_block_type = GetBlockType::new();

    let cobble: Constant<BlockType> = Constant::new(COBBLE);
    let equals_cobble = Equals::new(&get_block_type, &cobble);
    let get_distant_neighbor_cobbleness = Chebyshev2DNeighbors::new(2, &equals_cobble);

    let mut expected_bools: Vec<bool> = Vec::new();
    expected_bools.extend_from_slice(&[false; 12]);
    expected_bools.extend_from_slice(&[true; 1]);
    expected_bools.extend_from_slice(&[false; 12]);
    assert_eq!(expected_bools, get_distant_neighbor_cobbleness.eval(&context, origin));

    assert_eq!(
        get_distant_neighbor_cobbleness.cacheability(),
        Cacheability::UntilChangeInChebyshevNeighborhood {
            distance: 2,
            fields: block_type_fields()
        }
    )
}

#[test]
fn test_nested() {
    let chunk = cobble_at_origin();
    let context = UpdaterContext::new(&chunk, ChunkPos::new(0, 0, 0));
    let origin = RelativePos::new(0, 0, 0);

    let get_block_type = GetBlockType::new();
    let get_neighbor_types = Chebyshev2DNeighbors::new(1, &get_block_type);
    let get_neighbors_neighbor_types = Chebyshev2DNeighbors::new(1, &get_neighbor_types);

    let u = UNKNOWN();
    assert_eq!(
        vec![
            vec![u, u, u, u, u, u, u, u, COBBLE],
            vec![u, u, u, u, u, u, u, COBBLE, u],
            vec![u, u, u, u, u, u, COBBLE, u, u],
            vec![u, u, u, u, u, COBBLE, u, u, u],
            vec![u, u, u, u, COBBLE, u, u, u, u],
            vec![u, u, u, COBBLE, u, u, u, u, u],
            vec![u, u, COBBLE, u, u, u, u, u, u],
            vec![u, COBBLE, u, u, u, u, u, u, u],
            vec![COBBLE, u, u, u, u, u, u, u, u],
        ],
        get_neighbors_neighbor_types.eval(&context, origin)
    );

    assert_eq!(
        get_neighbors_neighbor_types.cacheability(),
        Cacheability::UntilChangeInChebyshevNeighborhood {
            distance: 2,
            fields: block_type_fields()
        }
    )
}

#[test]
fn test_merge_laws_on_values() {
    let self_c = || Cacheability::UntilChangeInSelf { fields: block_type_fields() };
    let hood = |d: u8| Cacheability::UntilChangeInChebyshevNeighborhood {
        distance: d,
        fields: block_type_fields(),
    };

    // Forever is the identity
    assert_eq!(Cacheability::merge(&Cacheability::Forever, &self_c()), self_c());
    assert_eq!(Cacheability::merge(&self_c(), &Cacheability::Forever), self_c());

    // DontCache absorbs
    assert_eq!(Cacheability::merge(&Cacheability::DontCache, &hood(2)), Cacheability::DontCache);
    assert_eq!(Cacheability::merge(&hood(2), &Cacheability::DontCache), Cacheability::DontCache);

    // UntilChangeInSelf + UntilChangeInSelf merges fields
    assert_eq!(Cacheability::merge(&self_c(), &self_c()), self_c());

    // Mixed variants lift to the larger neighborhood, commutatively
    assert_eq!(Cacheability::merge(&self_c(), &hood(3)), hood(3));
    assert_eq!(Cacheability::merge(&hood(3), &self_c()), hood(3));
    assert_eq!(Cacheability::merge(&hood(1), &hood(3)), hood(3));

    // Associativity on a sample
    let a = self_c();
    let b = hood(2);
    let c = Cacheability::Forever;
    let left = Cacheability::merge(&Cacheability::merge(&a, &b), &c);
    let right = Cacheability::merge(&a, &Cacheability::merge(&b, &c));
    assert_eq!(left, right);
}

#[test]
fn test_distance_and_fields() {
    assert_eq!(Cacheability::DontCache.distance(), 0);
    assert_eq!(Cacheability::DontCache.fields(), block_type_fields());
    assert_eq!(Cacheability::Forever.fields(), Vec::<CacheableField>::new());
    let hood = Cacheability::UntilChangeInChebyshevNeighborhood {
        distance: 7,
        fields: block_type_fields(),
    };
    assert_eq!(hood.distance(), 7);
    assert_eq!(hood.fields(), block_type_fields());
}
