//! Integer encodings shared by the byte formats of this crate: big-endian
//! for the network, little-endian for audio samples and WAV files.
use vstd::prelude::*;

verus! {

/// The two bytes of `x`, most significant first.
pub open spec fn be16(x: u16) -> Seq<u8> {
    seq![(x >> 8u16) as u8, (x & 0xffu16) as u8]
}

/// The four bytes of `x`, most significant first.
pub open spec fn be32(x: u32) -> Seq<u8> {
    seq![
        (x >> 24u32) as u8,
        ((x >> 16u32) & 0xffu32) as u8,
        ((x >> 8u32) & 0xffu32) as u8,
        (x & 0xffu32) as u8,
    ]
}

/// The eight bytes of `x`, most significant first.
pub open spec fn be64(x: u64) -> Seq<u8> {
    be32((x >> 32u64) as u32) + be32((x & 0xffff_ffffu64) as u32)
}

/// The number whose big-endian bytes are `a, b`.
pub open spec fn from_be16(a: u8, b: u8) -> u16 {
    ((a as u16) << 8u16) | (b as u16)
}

/// The number whose big-endian bytes are `a, b, c, d`.
pub open spec fn from_be32(a: u8, b: u8, c: u8, d: u8) -> u32 {
    ((a as u32) << 24u32) | ((b as u32) << 16u32) | ((c as u32) << 8u32) | (d as u32)
}

/// The number whose big-endian bytes are the four bytes of `s` from `off`.
pub open spec fn read_be32_at(s: Seq<u8>, off: int) -> u32 {
    from_be32(s[off], s[off + 1], s[off + 2], s[off + 3])
}

/// The number whose big-endian bytes are the two bytes of `s` from `off`.
pub open spec fn read_be16_at(s: Seq<u8>, off: int) -> u16 {
    from_be16(s[off], s[off + 1])
}

/// The number whose big-endian bytes are the eight bytes of `s` from `off`.
pub open spec fn read_be64_at(s: Seq<u8>, off: int) -> u64 {
    ((read_be32_at(s, off) as u64) << 32u64) | (read_be32_at(s, off + 4) as u64)
}

/// Reading back the big-endian bytes of a 16-bit value gives the value.
pub proof fn lemma_be16_roundtrip(x: u16)
    ensures
        from_be16(be16(x)[0], be16(x)[1]) == x,
        be16(x).len() == 2,
{
    assert(((((x >> 8u16) as u8) as u16) << 8u16) | (((x & 0xffu16) as u8) as u16) == x)
        by (bit_vector);
}

/// Reading back the big-endian bytes of a 32-bit value gives the value.
pub proof fn lemma_be32_roundtrip(x: u32)
    ensures
        from_be32(be32(x)[0], be32(x)[1], be32(x)[2], be32(x)[3]) == x,
        be32(x).len() == 4,
{
    assert(((((x >> 24u32) as u8) as u32) << 24u32) | (((((x >> 16u32) & 0xffu32) as u8) as u32)
        << 16u32) | (((((x >> 8u32) & 0xffu32) as u8) as u32) << 8u32) | (((x & 0xffu32) as u8) as u32)
        == x) by (bit_vector);
}

/// The big-endian bytes of the value read from four bytes are those bytes.
pub proof fn lemma_be32_of_bytes(a: u8, b: u8, c: u8, d: u8)
    ensures
        be32(from_be32(a, b, c, d)) == seq![a, b, c, d],
{
    let x = from_be32(a, b, c, d);
    assert((x >> 24u32) as u8 == a && ((x >> 16u32) & 0xffu32) as u8 == b && ((x >> 8u32)
        & 0xffu32) as u8 == c && (x & 0xffu32) as u8 == d) by (bit_vector)
        requires
            x == ((a as u32) << 24u32) | ((b as u32) << 16u32) | ((c as u32) << 8u32) | (d as u32),
    ;
    assert(be32(x) =~= seq![a, b, c, d]);
}

/// Reading back the big-endian bytes of a 64-bit value gives the value.
pub proof fn lemma_be64_roundtrip(x: u64)
    ensures
        be64(x).len() == 8,
        read_be64_at(be64(x), 0) == x,
{
    let hi = (x >> 32u64) as u32;
    let lo = (x & 0xffff_ffffu64) as u32;
    lemma_be32_roundtrip(hi);
    lemma_be32_roundtrip(lo);
    let s = be64(x);
    assert(read_be32_at(s, 0) == hi);
    assert(read_be32_at(s, 4) == lo);
    assert(((hi as u64) << 32u64) | (lo as u64) == x) by (bit_vector)
        requires
            hi == (x >> 32u64) as u32,
            lo == (x & 0xffff_ffffu64) as u32,
    ;
}

/// Appends the big-endian bytes of `x`.
pub fn push_be16(buf: &mut Vec<u8>, x: u16)
    ensures
        final(buf)@ == old(buf)@ + be16(x),
{
    buf.push((x >> 8u16) as u8);
    buf.push((x & 0xffu16) as u8);
    assert(final(buf)@ =~= old(buf)@ + be16(x));
}

/// Appends the big-endian bytes of `x`.
pub fn push_be32(buf: &mut Vec<u8>, x: u32)
    ensures
        final(buf)@ == old(buf)@ + be32(x),
{
    buf.push((x >> 24u32) as u8);
    buf.push(((x >> 16u32) & 0xffu32) as u8);
    buf.push(((x >> 8u32) & 0xffu32) as u8);
    buf.push((x & 0xffu32) as u8);
    assert(final(buf)@ =~= old(buf)@ + be32(x));
}

/// Appends the big-endian bytes of `x`.
pub fn push_be64(buf: &mut Vec<u8>, x: u64)
    ensures
        final(buf)@ == old(buf)@ + be64(x),
{
    let ghost start = buf@;
    push_be32(buf, (x >> 32u64) as u32);
    push_be32(buf, (x & 0xffff_ffffu64) as u32);
    assert(buf@ =~= start + be64(x));
}

/// Appends every byte of `src`.
pub fn push_all(buf: &mut Vec<u8>, src: &[u8])
    ensures
        final(buf)@ == old(buf)@ + src@,
{
    let ghost start = buf@;
    let mut i: usize = 0;
    while i < src.len()
        invariant
            i <= src.len(),
            buf@ == start + src@.subrange(0, i as int),
        decreases src.len() - i,
    {
        buf.push(src[i]);
        i = i + 1;
        assert(buf@ =~= start + src@.subrange(0, i as int));
    }
    assert(src@.subrange(0, src.len() as int) =~= src@);
}

/// Reads a big-endian `u16` from `data` at `off`.
pub fn read_be16(data: &[u8], off: usize) -> (r: u16)
    requires
        off + 2 <= data.len(),
    ensures
        r == read_be16_at(data@, off as int),
{
    ((data[off] as u16) << 8u16) | (data[off + 1] as u16)
}

/// Reads a big-endian `u32` from `data` at `off`.
pub fn read_be32(data: &[u8], off: usize) -> (r: u32)
    requires
        off + 4 <= data.len(),
    ensures
        r == read_be32_at(data@, off as int),
{
    ((data[off] as u32) << 24u32) | ((data[off + 1] as u32) << 16u32) | ((data[off + 2] as u32)
        << 8u32) | (data[off + 3] as u32)
}

/// Reads a big-endian `u64` from `data` at `off`.
pub fn read_be64(data: &[u8], off: usize) -> (r: u64)
    requires
        off + 8 <= data.len(),
    ensures
        r == read_be64_at(data@, off as int),
{
    let hi = read_be32(data, off);
    let lo = read_be32(data, off + 4);
    ((hi as u64) << 32u64) | (lo as u64)
}

/// Copies `data[start..]` into a new vector.
pub fn copy_from(data: &[u8], start: usize) -> (r: Vec<u8>)
    requires
        start <= data.len(),
    ensures
        r@ == data@.subrange(start as int, data@.len() as int),
{
    let mut out: Vec<u8> = Vec::new();
    let mut i: usize = start;
    while i < data.len()
        invariant
            start <= i <= data.len(),
            out@ == data@.subrange(start as int, i as int),
        decreases data.len() - i,
    {
        out.push(data[i]);
        i = i + 1;
        assert(out@ =~= data@.subrange(start as int, i as int));
    }
    out
}


/// The two bytes of `x`, least significant first.
pub open spec fn le16(x: u16) -> Seq<u8> {
    seq![(x & 0xffu16) as u8, (x >> 8u16) as u8]
}

/// The four bytes of `x`, least significant first.
pub open spec fn le32(x: u32) -> Seq<u8> {
    seq![
        (x & 0xffu32) as u8,
        ((x >> 8u32) & 0xffu32) as u8,
        ((x >> 16u32) & 0xffu32) as u8,
        (x >> 24u32) as u8,
    ]
}

/// The number whose little-endian bytes are the four bytes of `s` from `off`.
pub open spec fn read_le32_at(s: Seq<u8>, off: int) -> u32 {
    from_be32(s[off + 3], s[off + 2], s[off + 1], s[off])
}

/// Reading back the little-endian bytes of a 32-bit value gives the value.
pub proof fn lemma_le32_roundtrip(x: u32)
    ensures
        le32(x).len() == 4,
        read_le32_at(le32(x), 0) == x,
{
    lemma_be32_roundtrip(x);
    assert(le32(x)[3] == be32(x)[0] && le32(x)[2] == be32(x)[1] && le32(x)[1] == be32(x)[2]
        && le32(x)[0] == be32(x)[3]);
}

/// Appends the little-endian bytes of `x`.
pub fn push_le16(buf: &mut Vec<u8>, x: u16)
    ensures
        final(buf)@ == old(buf)@ + le16(x),
{
    buf.push((x & 0xffu16) as u8);
    buf.push((x >> 8u16) as u8);
    assert(final(buf)@ =~= old(buf)@ + le16(x));
}

/// Appends the little-endian bytes of `x`.
pub fn push_le32(buf: &mut Vec<u8>, x: u32)
    ensures
        final(buf)@ == old(buf)@ + le32(x),
{
    buf.push((x & 0xffu32) as u8);
    buf.push(((x >> 8u32) & 0xffu32) as u8);
    buf.push(((x >> 16u32) & 0xffu32) as u8);
    buf.push((x >> 24u32) as u8);
    assert(final(buf)@ =~= old(buf)@ + le32(x));
}

/// Reads a little-endian `u32` from `data` at `off`.
pub fn read_le32(data: &[u8], off: usize) -> (r: u32)
    requires
        off + 4 <= data.len(),
    ensures
        r == read_le32_at(data@, off as int),
{
    ((data[off + 3] as u32) << 24u32) | ((data[off + 2] as u32) << 16u32) | ((data[off + 1] as u32)
        << 8u32) | (data[off] as u32)
}

} // verus!
