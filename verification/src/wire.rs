//! Little- and big-endian integer encodings used by the TDS wire format.
//!
//! Each width has a spec-level encoder returning the exact byte sequence, a
//! spec-level decoder from individual bytes, a proved round-trip lemma, and
//! executable append/read helpers whose contracts are stated over the spec
//! encoders.

use vstd::prelude::*;

verus! {

/// The two bytes of `x` in little-endian order.
pub open spec fn u16_le(x: u16) -> Seq<u8> {
    seq![(x & 0xff) as u8, ((x >> 8) & 0xff) as u8]
}

/// The `u16` whose little-endian bytes are `b0, b1`.
pub open spec fn u16_of_le(b0: u8, b1: u8) -> u16 {
    (b0 as u16) | ((b1 as u16) << 8)
}

/// The two bytes of `x` in big-endian (network) order, as the TDS packet
/// header uses for its length field.
pub open spec fn u16_be(x: u16) -> Seq<u8> {
    seq![((x >> 8) & 0xff) as u8, (x & 0xff) as u8]
}

/// The `u16` whose big-endian bytes are `b0, b1`.
pub open spec fn u16_of_be(b0: u8, b1: u8) -> u16 {
    ((b0 as u16) << 8) | (b1 as u16)
}

/// The four bytes of `x` in little-endian order.
pub open spec fn u32_le(x: u32) -> Seq<u8> {
    seq![
        (x & 0xff) as u8,
        ((x >> 8) & 0xff) as u8,
        ((x >> 16) & 0xff) as u8,
        ((x >> 24) & 0xff) as u8,
    ]
}

/// The `u32` whose little-endian bytes are `b0 .. b3`.
pub open spec fn u32_of_le(b0: u8, b1: u8, b2: u8, b3: u8) -> u32 {
    (b0 as u32) | ((b1 as u32) << 8) | ((b2 as u32) << 16) | ((b3 as u32) << 24)
}

/// The eight bytes of `x` in little-endian order.
pub open spec fn u64_le(x: u64) -> Seq<u8> {
    seq![
        (x & 0xff) as u8,
        ((x >> 8) & 0xff) as u8,
        ((x >> 16) & 0xff) as u8,
        ((x >> 24) & 0xff) as u8,
        ((x >> 32) & 0xff) as u8,
        ((x >> 40) & 0xff) as u8,
        ((x >> 48) & 0xff) as u8,
        ((x >> 56) & 0xff) as u8,
    ]
}

/// The `u64` whose little-endian bytes are `b0 .. b7`.
pub open spec fn u64_of_le(
    b0: u8, b1: u8, b2: u8, b3: u8, b4: u8, b5: u8, b6: u8, b7: u8,
) -> u64 {
    (b0 as u64) | ((b1 as u64) << 8) | ((b2 as u64) << 16) | ((b3 as u64) << 24)
        | ((b4 as u64) << 32) | ((b5 as u64) << 40) | ((b6 as u64) << 48)
        | ((b7 as u64) << 56)
}

/// Decoding the little-endian bytes of `x` gives `x` back.
pub proof fn lemma_u16_le_round_trip(x: u16)
    ensures
        u16_of_le(u16_le(x)[0], u16_le(x)[1]) == x,
{
    assert(u16_le(x)[0] == (x & 0xff) as u8);
    assert(u16_le(x)[1] == ((x >> 8) & 0xff) as u8);
    assert((((x & 0xff) as u8) as u16) | (((((x >> 8) & 0xff) as u8) as u16) << 8) == x) by (bit_vector);
}

/// Re-encoding a decoded big-endian `u16` gives the same two bytes back.
pub proof fn lemma_u16_be_bytes(b0: u8, b1: u8)
    ensures
        u16_be(u16_of_be(b0, b1)) == seq![b0, b1],
{
    let x = u16_of_be(b0, b1);
    assert((((((b0 as u16) << 8) | (b1 as u16)) >> 8) & 0xff) as u8 == b0) by (bit_vector);
    assert(((((b0 as u16) << 8) | (b1 as u16)) & 0xff) as u8 == b1) by (bit_vector);
    assert(u16_be(x) =~= seq![b0, b1]);
}

/// Decoding the little-endian bytes of `x` gives `x` back.
pub proof fn lemma_u32_le_round_trip(x: u32)
    ensures
        u32_of_le(u32_le(x)[0], u32_le(x)[1], u32_le(x)[2], u32_le(x)[3]) == x,
{
    assert(u32_le(x)[0] == (x & 0xff) as u8);
    assert(u32_le(x)[1] == ((x >> 8) & 0xff) as u8);
    assert(u32_le(x)[2] == ((x >> 16) & 0xff) as u8);
    assert(u32_le(x)[3] == ((x >> 24) & 0xff) as u8);
    assert((((x & 0xff) as u8) as u32) | (((((x >> 8) & 0xff) as u8) as u32) << 8)
        | (((((x >> 16) & 0xff) as u8) as u32) << 16)
        | (((((x >> 24) & 0xff) as u8) as u32) << 24)
        == x) by (bit_vector);
}

/// Decoding the little-endian bytes of `x` gives `x` back.
pub proof fn lemma_u64_le_round_trip(x: u64)
    ensures
        u64_of_le(
            u64_le(x)[0], u64_le(x)[1], u64_le(x)[2], u64_le(x)[3],
            u64_le(x)[4], u64_le(x)[5], u64_le(x)[6], u64_le(x)[7],
        ) == x,
{
    assert(u64_le(x)[0] == (x & 0xff) as u8);
    assert(u64_le(x)[1] == ((x >> 8) & 0xff) as u8);
    assert(u64_le(x)[2] == ((x >> 16) & 0xff) as u8);
    assert(u64_le(x)[3] == ((x >> 24) & 0xff) as u8);
    assert(u64_le(x)[4] == ((x >> 32) & 0xff) as u8);
    assert(u64_le(x)[5] == ((x >> 40) & 0xff) as u8);
    assert(u64_le(x)[6] == ((x >> 48) & 0xff) as u8);
    assert(u64_le(x)[7] == ((x >> 56) & 0xff) as u8);
    assert((((x & 0xff) as u8) as u64) | (((((x >> 8) & 0xff) as u8) as u64) << 8)
        | (((((x >> 16) & 0xff) as u8) as u64) << 16)
        | (((((x >> 24) & 0xff) as u8) as u64) << 24)
        | (((((x >> 32) & 0xff) as u8) as u64) << 32)
        | (((((x >> 40) & 0xff) as u8) as u64) << 40)
        | (((((x >> 48) & 0xff) as u8) as u64) << 48)
        | (((((x >> 56) & 0xff) as u8) as u64) << 56)
        == x) by (bit_vector);
}

/// Appends the little-endian bytes of `x` to `out`.
pub fn put_u16_le(out: &mut Vec<u8>, x: u16)
    ensures
        final(out)@ == old(out)@ + u16_le(x),
{
    out.push((x & 0xff) as u8);
    out.push(((x >> 8) & 0xff) as u8);
    assert(out@ =~= old(out)@ + u16_le(x));
}

/// Appends the big-endian bytes of `x` to `out`.
pub fn put_u16_be(out: &mut Vec<u8>, x: u16)
    ensures
        final(out)@ == old(out)@ + u16_be(x),
{
    out.push(((x >> 8) & 0xff) as u8);
    out.push((x & 0xff) as u8);
    assert(out@ =~= old(out)@ + u16_be(x));
}

/// Appends the little-endian bytes of `x` to `out`.
pub fn put_u32_le(out: &mut Vec<u8>, x: u32)
    ensures
        final(out)@ == old(out)@ + u32_le(x),
{
    out.push((x & 0xff) as u8);
    out.push(((x >> 8) & 0xff) as u8);
    out.push(((x >> 16) & 0xff) as u8);
    out.push(((x >> 24) & 0xff) as u8);
    assert(out@ =~= old(out)@ + u32_le(x));
}

/// Appends the little-endian bytes of `x` to `out`.
pub fn put_u64_le(out: &mut Vec<u8>, x: u64)
    ensures
        final(out)@ == old(out)@ + u64_le(x),
{
    out.push((x & 0xff) as u8);
    out.push(((x >> 8) & 0xff) as u8);
    out.push(((x >> 16) & 0xff) as u8);
    out.push(((x >> 24) & 0xff) as u8);
    out.push(((x >> 32) & 0xff) as u8);
    out.push(((x >> 40) & 0xff) as u8);
    out.push(((x >> 48) & 0xff) as u8);
    out.push(((x >> 56) & 0xff) as u8);
    assert(out@ =~= old(out)@ + u64_le(x));
}

/// Reads a little-endian `u16` at position `pos` of `buf`.
pub fn get_u16_le(buf: &Vec<u8>, pos: usize) -> (x: u16)
    requires
        pos + 2 <= buf@.len(),
    ensures
        x == u16_of_le(buf@[pos as int], buf@[pos + 1]),
{
    let n: usize = buf.len();
    assert(pos + 2 <= n);
    let b0 = buf[pos];
    let b1 = buf[pos + 1];
    (b0 as u16) | ((b1 as u16) << 8)
}

/// Reads a big-endian `u16` at position `pos` of `buf`.
pub fn get_u16_be(buf: &Vec<u8>, pos: usize) -> (x: u16)
    requires
        pos + 2 <= buf@.len(),
    ensures
        x == u16_of_be(buf@[pos as int], buf@[pos + 1]),
{
    let n: usize = buf.len();
    assert(pos + 2 <= n);
    let b0 = buf[pos];
    let b1 = buf[pos + 1];
    ((b0 as u16) << 8) | (b1 as u16)
}

/// Reads a little-endian `u32` at position `pos` of `buf`.
pub fn get_u32_le(buf: &Vec<u8>, pos: usize) -> (x: u32)
    requires
        pos + 4 <= buf@.len(),
    ensures
        x == u32_of_le(buf@[pos as int], buf@[pos + 1], buf@[pos + 2], buf@[pos + 3]),
{
    let n: usize = buf.len();
    assert(pos + 4 <= n);
    let b0 = buf[pos];
    let b1 = buf[pos + 1];
    let b2 = buf[pos + 2];
    let b3 = buf[pos + 3];
    (b0 as u32) | ((b1 as u32) << 8) | ((b2 as u32) << 16) | ((b3 as u32) << 24)
}

/// Reads a little-endian `u64` at position `pos` of `buf`.
pub fn get_u64_le(buf: &Vec<u8>, pos: usize) -> (x: u64)
    requires
        pos + 8 <= buf@.len(),
    ensures
        x == u64_of_le(
            buf@[pos as int], buf@[pos + 1], buf@[pos + 2], buf@[pos + 3],
            buf@[pos + 4], buf@[pos + 5], buf@[pos + 6], buf@[pos + 7],
        ),
{
    let n: usize = buf.len();
    assert(pos + 8 <= n);
    let b0 = buf[pos];
    let b1 = buf[pos + 1];
    let b2 = buf[pos + 2];
    let b3 = buf[pos + 3];
    let b4 = buf[pos + 4];
    let b5 = buf[pos + 5];
    let b6 = buf[pos + 6];
    let b7 = buf[pos + 7];
    (b0 as u64) | ((b1 as u64) << 8) | ((b2 as u64) << 16) | ((b3 as u64) << 24)
        | ((b4 as u64) << 32) | ((b5 as u64) << 40) | ((b6 as u64) << 48)
        | ((b7 as u64) << 56)
}

} // verus!
