use vstd::prelude::*;
use crate::block::BlockType;
use crate::chunk::{Chunk, CHUNK_WIDTH_E3};

verus! {

/// The two little-endian bytes of a 16-bit value.
pub open spec fn le_bytes_u16(v: u16) -> Seq<u8> {
    seq![(v & 0xff) as u8, (v >> 8) as u8]
}

/// The eight little-endian bytes of a 64-bit value.
pub open spec fn le_bytes_u64(v: u64) -> Seq<u8> {
    seq![
        (v & 0xff) as u8,
        ((v >> 8) & 0xff) as u8,
        ((v >> 16) & 0xff) as u8,
        ((v >> 24) & 0xff) as u8,
        ((v >> 32) & 0xff) as u8,
        ((v >> 40) & 0xff) as u8,
        ((v >> 48) & 0xff) as u8,
        ((v >> 56) & 0xff) as u8,
    ]
}

/// The block types as consecutive little-endian 16-bit values, in order.
pub open spec fn spec_block_bytes(blocks: Seq<BlockType>) -> Seq<u8>
    decreases blocks.len(),
{
    if blocks.len() == 0 {
        seq![]
    } else {
        spec_block_bytes(blocks.drop_last()) + le_bytes_u16(blocks.last().0)
    }
}

/// The frame payload before compression: a little-endian 64-bit count of
/// cells, then every cell's block type, little-endian, in ascending `n`
/// order.
pub open spec fn spec_encode_blocks(blocks: Seq<BlockType>) -> Seq<u8> {
    le_bytes_u64(blocks.len() as u64) + spec_block_bytes(blocks)
}

/// Serialize a chunk into the frame payload layout.
pub fn encode_chunk_blocks(c: &Chunk) -> (r: Vec<u8>)
    ensures
        r@ == spec_encode_blocks(c@),
{
    proof {
        use_type_invariant(c);
    }
    let mut r: Vec<u8> = Vec::new();
    let count: u64 = CHUNK_WIDTH_E3 as u64;
    r.push((count & 0xff) as u8);
    r.push(((count >> 8) & 0xff) as u8);
    r.push(((count >> 16) & 0xff) as u8);
    r.push(((count >> 24) & 0xff) as u8);
    r.push(((count >> 32) & 0xff) as u8);
    r.push(((count >> 40) & 0xff) as u8);
    r.push(((count >> 48) & 0xff) as u8);
    r.push(((count >> 56) & 0xff) as u8);
    proof {
        assert(r@ =~= le_bytes_u64(c@.len() as u64));
    }
    let mut n: usize = 0;
    let ghost header = r@;
    while n < CHUNK_WIDTH_E3
        invariant
            0 <= n <= CHUNK_WIDTH_E3,
            c@.len() == CHUNK_WIDTH_E3,
            header == le_bytes_u64(c@.len() as u64),
            r@ == header + spec_block_bytes(c@.subrange(0, n as int)),
        decreases CHUNK_WIDTH_E3 - n,
    {
        let pos = crate::chunk_pos::ChunkPos::new_from_raw_n(n as u16);
        proof {
            crate::chunk_pos::ChunkPos::lemma_from_n(n as int);
        }
        let v: u16 = c.get_block(pos).block_type.0;
        proof {
            assert(v >> 8 < 256) by (bit_vector);
        }
        r.push((v & 0xff) as u8);
        r.push((v >> 8) as u8);
        proof {
            let prefix = c@.subrange(0, n as int);
            let next = c@.subrange(0, n as int + 1);
            assert(next.drop_last() =~= prefix);
            assert(next.last() == c@[n as int]);
            assert(c@[n as int].0 == v);
            assert(r@ =~= header + spec_block_bytes(next));
        }
        n = n + 1;
    }
    proof {
        assert(c@.subrange(0, CHUNK_WIDTH_E3 as int) =~= c@);
    }
    r
}

/// The payload's bytes, element by element: two bytes per cell after the
/// eight-byte count.
pub proof fn lemma_block_bytes_index(blocks: Seq<BlockType>)
    ensures
        spec_block_bytes(blocks).len() == 2 * blocks.len(),
        forall|i: int|
            0 <= i < blocks.len() ==> spec_block_bytes(blocks)[2 * i] == (blocks[i].0
                & 0xff) as u8 && spec_block_bytes(blocks)[2 * i + 1] == (blocks[i].0 >> 8) as u8,
    decreases blocks.len(),
{
    if blocks.len() > 0 {
        lemma_block_bytes_index(blocks.drop_last());
        assert forall|i: int|
            0 <= i < blocks.len() implies spec_block_bytes(blocks)[2 * i] == (blocks[i].0
            & 0xff) as u8 && spec_block_bytes(blocks)[2 * i + 1] == (blocks[i].0 >> 8) as u8 by {
            if i < blocks.len() - 1 {
                assert(blocks.drop_last()[i] == blocks[i]);
                assert(spec_block_bytes(blocks)[2 * i] == spec_block_bytes(blocks.drop_last())[2
                    * i]);
                assert(spec_block_bytes(blocks)[2 * i + 1] == spec_block_bytes(
                    blocks.drop_last(),
                )[2 * i + 1]);
            }
        }
    }
}

/// Parse a frame payload back into a chunk. The parse succeeds exactly on
/// the byte sequences that `encode_chunk_blocks` produces, and then the
/// payload is the encoding of the returned chunk.
pub fn decode_chunk_blocks(bytes: &Vec<u8>) -> (r: Option<Chunk>)
    ensures
        match r {
            Some(c) => bytes@ == spec_encode_blocks(c@),
            None => forall|blocks: Seq<BlockType>|
                blocks.len() == CHUNK_WIDTH_E3 ==> bytes@ != spec_encode_blocks(blocks),
        },
{
    proof {
        assert forall|blocks: Seq<BlockType>| blocks.len() == CHUNK_WIDTH_E3 implies
            spec_encode_blocks(blocks).len() == 8 + 2 * (CHUNK_WIDTH_E3 as int) by {
            lemma_block_bytes_index(blocks);
        }
    }
    if bytes.len() != 8 + 2 * CHUNK_WIDTH_E3 {
        return None;
    }
    let count: u64 = CHUNK_WIDTH_E3 as u64;
    let header_ok: bool = bytes[0] == (count & 0xff) as u8 && bytes[1] == ((count >> 8)
        & 0xff) as u8 && bytes[2] == ((count >> 16) & 0xff) as u8 && bytes[3] == ((count >> 24)
        & 0xff) as u8 && bytes[4] == ((count >> 32) & 0xff) as u8 && bytes[5] == ((count >> 40)
        & 0xff) as u8 && bytes[6] == ((count >> 48) & 0xff) as u8 && bytes[7] == ((count >> 56)
        & 0xff) as u8;
    if !header_ok {
        proof {
            assert forall|blocks: Seq<BlockType>| blocks.len() == CHUNK_WIDTH_E3 implies bytes@
                != spec_encode_blocks(blocks) by {
                if bytes@ == spec_encode_blocks(blocks) {
                    assert(spec_encode_blocks(blocks)[0] == (count & 0xff) as u8);
                    assert(spec_encode_blocks(blocks)[1] == ((count >> 8) & 0xff) as u8);
                    assert(spec_encode_blocks(blocks)[2] == ((count >> 16) & 0xff) as u8);
                    assert(spec_encode_blocks(blocks)[3] == ((count >> 24) & 0xff) as u8);
                    assert(spec_encode_blocks(blocks)[4] == ((count >> 32) & 0xff) as u8);
                    assert(spec_encode_blocks(blocks)[5] == ((count >> 40) & 0xff) as u8);
                    assert(spec_encode_blocks(blocks)[6] == ((count >> 48) & 0xff) as u8);
                    assert(spec_encode_blocks(blocks)[7] == ((count >> 56) & 0xff) as u8);
                }
            }
        }
        return None;
    }
    let mut c = Chunk::new();
    let mut n: usize = 0;
    while n < CHUNK_WIDTH_E3
        invariant
            0 <= n <= CHUNK_WIDTH_E3,
            bytes@.len() == 8 + 2 * (CHUNK_WIDTH_E3 as int),
            c@.len() == CHUNK_WIDTH_E3,
            forall|i: int|
                0 <= i < n ==> bytes@[8 + 2 * i] == (c@[i].0 & 0xff) as u8 && bytes@[8 + 2 * i
                    + 1] == (c@[i].0 >> 8) as u8,
        decreases CHUNK_WIDTH_E3 - n,
    {
        let lo: u16 = bytes[8 + 2 * n] as u16;
        let hi: u16 = bytes[8 + 2 * n + 1] as u16;
        let v: u16 = lo + hi * 256;
        let pos = crate::chunk_pos::ChunkPos::new_from_raw_n(n as u16);
        proof {
            crate::chunk_pos::ChunkPos::lemma_from_n(n as int);
            assert((v & 0xff) == lo && (v >> 8) == hi)
                by (bit_vector)
                requires
                    lo < 256,
                    hi < 256,
                    v == lo + hi * 256,
            ;
        }
        let ghost prev = c@;
        c.set_block_type(pos, BlockType(v));
        proof {
            assert(c@ == prev.update(n as int, BlockType(v)));
            assert(c@[n as int].0 == v);
            assert forall|i: int|
                0 <= i < n + 1 implies bytes@[8 + 2 * i] == (c@[i].0 & 0xff) as u8 && bytes@[8 + 2
                * i + 1] == (c@[i].0 >> 8) as u8 by {
                if i < n {
                    assert(c@[i] == prev[i]);
                }
            }
        }
        n = n + 1;
    }
    proof {
        lemma_block_bytes_index(c@);
        let enc = spec_encode_blocks(c@);
        assert(enc.len() == 8 + 2 * (CHUNK_WIDTH_E3 as int));
        assert forall|k: int| 0 <= k < bytes@.len() implies bytes@[k] == enc[k] by {
            if k < 8 {
                assert(enc[k] == le_bytes_u64(c@.len() as u64)[k]);
            } else {
                let i = (k - 8) / 2;
                assert(0 <= i < (CHUNK_WIDTH_E3 as int));
                if (k - 8) % 2 == 0 {
                    assert(k == 8 + 2 * i);
                    assert(bytes@[8 + 2 * i] == (c@[i].0 & 0xff) as u8);
                    assert(enc[k] == spec_block_bytes(c@)[2 * i]);
                } else {
                    assert(k == 8 + 2 * i + 1);
                    assert(bytes@[8 + 2 * i + 1] == (c@[i].0 >> 8) as u8);
                    assert(enc[k] == spec_block_bytes(c@)[2 * i + 1]);
                }
            }
        }
        assert(bytes@ =~= enc);
    }
    Some(c)
}

/// The zlib stream flate2's encoder produces for a byte sequence at the
/// default compression level.
pub uninterp spec fn zlib_of(bytes: Seq<u8>) -> Seq<u8>;

/// Relies on flate2's write::ZlibEncoder over an in-memory buffer: with
/// the default level the compressed stream is a function of the input
/// bytes alone, and inflating it yields those bytes again on every
/// platform.
#[verifier::external_body]
pub(crate) fn compress(bytes: &Vec<u8>) -> (r: Vec<u8>)
    ensures
        r@ == zlib_of(bytes@),
{
    let mut encoder = flate2::write::ZlibEncoder::new(Vec::new(), flate2::Compression::default());
    std::io::Write::write_all(&mut encoder, bytes.as_slice()).expect("write to memory buffer");
    encoder.finish().expect("finish zlib stream")
}

/// The bytes broadcast to every subscriber for one tick: the chunk's frame
/// payload, zlib-compressed.
pub fn frame_chunk(c: &Chunk) -> (r: Vec<u8>)
    ensures
        r@ == zlib_of(spec_encode_blocks(c@)),
{
    let payload = encode_chunk_blocks(c);
    compress(&payload)
}

} // verus!
