use std::io::Read;

use lotsa::block::BlockType;
use lotsa::chunk::Chunk;
use lotsa::chunk_pos::ChunkPos;
use lotsa::frame::{decode_chunk_blocks, encode_chunk_blocks, frame_chunk};

#[test]
fn test_encode_layout() {
    let mut c = Chunk::new();
    c.set_block_type(ChunkPos::new(0, 0, 0), BlockType(0x1234));
    let bytes = encode_chunk_blocks(&c);

    // 8-byte little-endian count, then 32768 little-endian 16-bit values
    assert_eq!(bytes.len(), 8 + 2 * 32768);
    assert_eq!(&bytes[0..8], &[0x00, 0x80, 0, 0, 0, 0, 0, 0]);
    assert_eq!(bytes[8], 0x34);
    assert_eq!(bytes[9], 0x12);
    // every untouched cell is UNKNOWN, tag 1
    assert_eq!(bytes[10], 1);
    assert_eq!(bytes[11], 0);
}

#[test]
fn test_decode_round_trip() {
    let mut c = Chunk::new();
    c.set_block_type(ChunkPos::new(1, 2, 3), BlockType(500));

    let payload = encode_chunk_blocks(&c);
    let decoded = decode_chunk_blocks(&payload).expect("an encoded payload parses");
    assert_eq!(decoded.get_block(ChunkPos::new(1, 2, 3)).block_type, BlockType(500));
    assert_eq!(decoded.get_block(ChunkPos::new(0, 0, 0)).block_type, BlockType(1));

    // too short
    assert!(decode_chunk_blocks(&vec![1, 2, 3]).is_none());

    // corrupted count prefix
    let mut bad = payload.clone();
    bad[0] = 9;
    assert!(decode_chunk_blocks(&bad).is_none());
}

#[test]
fn test_frame_decompresses_to_payload() {
    let mut c = Chunk::new();
    c.set_block_type(ChunkPos::new(3, 2, 1), BlockType(7));

    let payload = encode_chunk_blocks(&c);
    let frame = frame_chunk(&c);

    // compression actually happened
    assert!(frame.len() < payload.len());

    let mut decoder = flate2::read::ZlibDecoder::new(frame.as_slice());
    let mut inflated = Vec::new();
    decoder.read_to_end(&mut inflated).expect("valid zlib stream");
    assert_eq!(inflated, payload);
}
