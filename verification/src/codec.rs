//! Serialization of posts for the cache's denormalized body store. The format
//! is internal to the cache: four little-endian 64-bit fields (id, author,
//! creation time, update time) followed by the raw text bytes. Decoding
//! inverts encoding exactly (`lemma_codec_round_trip`); byte strings shorter
//! than the fixed header decode to nothing and are dropped by readers.

use vstd::prelude::*;

use crate::post::{Post, PostView, post_opt_view};

verus! {

/// Bytes of the fixed header: four 64-bit fields.
pub const BODY_HEADER_BYTES: usize = 32;

/// The eight bytes of `x`, least significant first.
pub open spec fn u64_le_bytes(x: u64) -> Seq<u8> {
    seq![
        (x & 0xff) as u8,
        ((x >> 8) & 0xff) as u8,
        ((x >> 16) & 0xff) as u8,
        ((x >> 24) & 0xff) as u8,
        ((x >> 32) & 0xff) as u8,
        ((x >> 40) & 0xff) as u8,
        ((x >> 48) & 0xff) as u8,
        ((x >> 56) & 0xff) as u8,
    ]
}

/// The value read from eight little-endian bytes.
pub open spec fn u64_from_le(b: Seq<u8>) -> u64
    recommends
        b.len() == 8,
{
    ((b[0] as u64) | ((b[1] as u64) << 8) | ((b[2] as u64) << 16) | ((b[3] as u64) << 24)
        | ((b[4] as u64) << 32) | ((b[5] as u64) << 40) | ((b[6] as u64) << 48)
        | ((b[7] as u64) << 56)) as u64
}

/// Reading back the eight bytes of `x` yields `x`.
pub proof fn lemma_u64_le_round_trip(x: u64)
    ensures
        u64_from_le(u64_le_bytes(x)) == x,
{
    assert(((x & 0xff) as u8 as u64) | (((x >> 8) & 0xff) as u8 as u64) << 8
        | (((x >> 16) & 0xff) as u8 as u64) << 16 | (((x >> 24) & 0xff) as u8 as u64) << 24
        | (((x >> 32) & 0xff) as u8 as u64) << 32 | (((x >> 40) & 0xff) as u8 as u64) << 40
        | (((x >> 48) & 0xff) as u8 as u64) << 48 | (((x >> 56) & 0xff) as u8 as u64) << 56
        == x) by (bit_vector);
}

/// The serialized form of a post.
pub open spec fn encode_spec(p: PostView) -> Seq<u8> {
    u64_le_bytes(p.id) + u64_le_bytes(p.author) + u64_le_bytes(p.created_at)
        + u64_le_bytes(p.updated_at) + p.text
}

/// The post a byte string deserializes to, if it is long enough to hold the
/// header; everything past the header is the text.
pub open spec fn decode_spec(b: Seq<u8>) -> Option<PostView> {
    if b.len() < BODY_HEADER_BYTES {
        None
    } else {
        Some(
            PostView {
                id: u64_from_le(b.subrange(0, 8)),
                author: u64_from_le(b.subrange(8, 16)),
                created_at: u64_from_le(b.subrange(16, 24)),
                updated_at: u64_from_le(b.subrange(24, 32)),
                text: b.subrange(32, b.len() as int),
            },
        )
    }
}

/// Decoding inverts encoding: the cache's body store is internally
/// consistent for every post.
pub proof fn lemma_codec_round_trip(p: PostView)
    ensures
        decode_spec(encode_spec(p)) == Some(p),
{
    let e = encode_spec(p);
    assert(e.subrange(0, 8) =~= u64_le_bytes(p.id));
    assert(e.subrange(8, 16) =~= u64_le_bytes(p.author));
    assert(e.subrange(16, 24) =~= u64_le_bytes(p.created_at));
    assert(e.subrange(24, 32) =~= u64_le_bytes(p.updated_at));
    assert(e.subrange(32, e.len() as int) =~= p.text);
    lemma_u64_le_round_trip(p.id);
    lemma_u64_le_round_trip(p.author);
    lemma_u64_le_round_trip(p.created_at);
    lemma_u64_le_round_trip(p.updated_at);
}

/// The low byte of `x`.
fn low_byte(x: u64) -> (r: u8)
    ensures
        r == (x & 0xff) as u8,
{
    proof {
        assert(x & 0xff < 256) by (bit_vector);
    }
    (x & 0xff) as u8
}

/// Appends the eight little-endian bytes of `x`.
fn push_u64_le(out: &mut Vec<u8>, x: u64)
    ensures
        final(out)@ == old(out)@ + u64_le_bytes(x),
{
    out.push(low_byte(x));
    out.push(low_byte(x >> 8));
    out.push(low_byte(x >> 16));
    out.push(low_byte(x >> 24));
    out.push(low_byte(x >> 32));
    out.push(low_byte(x >> 40));
    out.push(low_byte(x >> 48));
    out.push(low_byte(x >> 56));
    assert(out@ =~= old(out)@ + u64_le_bytes(x));
}

/// Reads the 64-bit field stored at `off`.
fn read_u64_le(b: &Vec<u8>, off: usize) -> (r: u64)
    requires
        off + 8 <= b@.len(),
    ensures
        r == u64_from_le(b@.subrange(off as int, off as int + 8)),
{
    let n: usize = b.len();
    assert(off + 8 <= n);
    let r: u64 = (b[off] as u64) | ((b[off + 1] as u64) << 8) | ((b[off + 2] as u64) << 16)
        | ((b[off + 3] as u64) << 24) | ((b[off + 4] as u64) << 32)
        | ((b[off + 5] as u64) << 40) | ((b[off + 6] as u64) << 48)
        | ((b[off + 7] as u64) << 56);
    r
}

/// Serializes a post for the cache body store.
pub fn encode_post(p: &Post) -> (r: Vec<u8>)
    ensures
        r@ == encode_spec(p@),
{
    let mut out: Vec<u8> = Vec::new();
    push_u64_le(&mut out, p.id);
    push_u64_le(&mut out, p.author);
    push_u64_le(&mut out, p.created_at);
    push_u64_le(&mut out, p.updated_at);
    let mut i: usize = 0;
    while i < p.text.len()
        invariant
            i <= p.text.len(),
            out@ == u64_le_bytes(p.id) + u64_le_bytes(p.author) + u64_le_bytes(p.created_at)
                + u64_le_bytes(p.updated_at) + p.text@.subrange(0, i as int),
        decreases p.text.len() - i,
    {
        out.push(p.text[i]);
        assert(out@ =~= u64_le_bytes(p.id) + u64_le_bytes(p.author)
            + u64_le_bytes(p.created_at) + u64_le_bytes(p.updated_at)
            + p.text@.subrange(0, i + 1 as int));
        i = i + 1;
    }
    assert(p.text@.subrange(0, p.text@.len() as int) =~= p.text@);
    out
}

/// Deserializes a cached body; byte strings too short for the header yield
/// nothing.
pub fn decode_post(bytes: &Vec<u8>) -> (r: Option<Post>)
    ensures
        post_opt_view(r) == decode_spec(bytes@),
{
    if bytes.len() < BODY_HEADER_BYTES {
        return None;
    }
    let id = read_u64_le(bytes, 0);
    let author = read_u64_le(bytes, 8);
    let created_at = read_u64_le(bytes, 16);
    let updated_at = read_u64_le(bytes, 24);
    let mut text: Vec<u8> = Vec::new();
    let mut i: usize = BODY_HEADER_BYTES;
    while i < bytes.len()
        invariant
            BODY_HEADER_BYTES <= i <= bytes@.len(),
            text@ == bytes@.subrange(BODY_HEADER_BYTES as int, i as int),
        decreases bytes@.len() - i,
    {
        text.push(bytes[i]);
        assert(text@ =~= bytes@.subrange(BODY_HEADER_BYTES as int, i + 1 as int));
        i = i + 1;
    }
    Some(Post { id, author, text, created_at, updated_at })
}

} // verus!
