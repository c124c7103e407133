use lotsa::block::BlockType;
use lotsa::query::{Chebyshev2DNeighbors, GetBlockType};
use lotsa::unique_descrip::UniqueDescrip;

#[test]
fn test_descrip_u8() {
    assert_eq!("42u8", 42u8.unique_descrip());
}

#[test]
fn test_descrip_u16() {
    assert_eq!("42u16", 42u16.unique_descrip());
}

#[test]
fn test_descrip_u32() {
    assert_eq!("42u32", 42u32.unique_descrip());
}

#[test]
fn test_descrip_block_type() {
    assert_eq!("BlockType37", BlockType(37).unique_descrip());
    assert_eq!("BlockType0", BlockType(0).unique_descrip());
    assert_eq!("BlockType65535", BlockType(65535).unique_descrip());
}

#[test]
fn test_descrip_query_tree() {
    let q = Chebyshev2DNeighbors::new(1, &GetBlockType::new());
    assert_eq!("Chebyshev2DNeighbors( dist:1, GetBlockType )", q.unique_descrip());
}
