//! Little-endian encoding of fixed-width integers, as used by the binary
//! formats of this crate.
//!
//! Writing appends the bytes of a value to a `Vec<u8>`; reading takes the
//! bytes at a position of a slice. Each width has an encoding (`*_le`) and a
//! decoding (`*_from_le`) spec function, and a lemma that decoding undoes
//! encoding.
use vstd::prelude::*;

verus! {

/// The two little-endian bytes of `x`.
pub open spec fn u16_le(x: u16) -> Seq<u8> {
    seq![(x & 0xff) as u8, ((x >> 8u16) & 0xff) as u8]
}

/// The `u16` whose little-endian bytes are `b0, b1`.
pub open spec fn u16_from_le(b0: u8, b1: u8) -> u16 {
    (b0 as u16) | ((b1 as u16) << 8u16)
}

/// The four little-endian bytes of `x`.
pub open spec fn u32_le(x: u32) -> Seq<u8> {
    seq![
        (x & 0xff) as u8,
        ((x >> 8u32) & 0xff) as u8,
        ((x >> 16u32) & 0xff) as u8,
        ((x >> 24u32) & 0xff) as u8,
    ]
}

/// The `u32` whose little-endian bytes are `b0, .., b3`.
pub open spec fn u32_from_le(b0: u8, b1: u8, b2: u8, b3: u8) -> u32 {
    (b0 as u32) | ((b1 as u32) << 8u32) | ((b2 as u32) << 16u32) | ((b3 as u32) << 24u32)
}

/// The eight little-endian bytes of `x`.
pub open spec fn u64_le(x: u64) -> Seq<u8> {
    seq![
        (x & 0xff) as u8,
        ((x >> 8u64) & 0xff) as u8,
        ((x >> 16u64) & 0xff) as u8,
        ((x >> 24u64) & 0xff) as u8,
        ((x >> 32u64) & 0xff) as u8,
        ((x >> 40u64) & 0xff) as u8,
        ((x >> 48u64) & 0xff) as u8,
        ((x >> 56u64) & 0xff) as u8,
    ]
}

/// The `u64` whose little-endian bytes are `b0, .., b7`.
pub open spec fn u64_from_le(b0: u8, b1: u8, b2: u8, b3: u8, b4: u8, b5: u8, b6: u8, b7: u8) -> u64 {
    (b0 as u64) | ((b1 as u64) << 8u64) | ((b2 as u64) << 16u64) | ((b3 as u64) << 24u64) | ((
    b4 as u64) << 32u64) | ((b5 as u64) << 40u64) | ((b6 as u64) << 48u64) | ((b7 as u64)
        << 56u64)
}

/// The `u16` stored little-endian at offset `i` of `s`.
pub open spec fn u16_at(s: Seq<u8>, i: int) -> u16 {
    u16_from_le(s[i], s[i + 1])
}

/// The `u32` stored little-endian at offset `i` of `s`.
pub open spec fn u32_at(s: Seq<u8>, i: int) -> u32 {
    u32_from_le(s[i], s[i + 1], s[i + 2], s[i + 3])
}

/// The `u64` stored little-endian at offset `i` of `s`.
pub open spec fn u64_at(s: Seq<u8>, i: int) -> u64 {
    u64_from_le(s[i], s[i + 1], s[i + 2], s[i + 3], s[i + 4], s[i + 5], s[i + 6], s[i + 7])
}

/// Decoding the encoding of a `u16` gives it back.
pub proof fn lemma_u16_le_roundtrip(x: u16)
    ensures
        u16_le(x).len() == 2,
        u16_from_le(u16_le(x)[0], u16_le(x)[1]) == x,
{
    assert(((x & 0xff) as u8) as u16 | ((((x >> 8u16) & 0xff) as u8) as u16) << 8u16 == x)
        by (bit_vector);
}

/// Decoding the encoding of a `u32` gives it back.
pub proof fn lemma_u32_le_roundtrip(x: u32)
    ensures
        u32_le(x).len() == 4,
        u32_from_le(u32_le(x)[0], u32_le(x)[1], u32_le(x)[2], u32_le(x)[3]) == x,
{
    assert(((x & 0xff) as u8) as u32 | ((((x >> 8u32) & 0xff) as u8) as u32) << 8u32 | ((((x
        >> 16u32) & 0xff) as u8) as u32) << 16u32 | ((((x >> 24u32) & 0xff) as u8) as u32)
        << 24u32 == x) by (bit_vector);
}

/// Decoding the encoding of a `u64` gives it back.
pub proof fn lemma_u64_le_roundtrip(x: u64)
    ensures
        u64_le(x).len() == 8,
        u64_from_le(
            u64_le(x)[0],
            u64_le(x)[1],
            u64_le(x)[2],
            u64_le(x)[3],
            u64_le(x)[4],
            u64_le(x)[5],
            u64_le(x)[6],
            u64_le(x)[7],
        ) == x,
{
    assert(((x & 0xff) as u8) as u64 | ((((x >> 8u64) & 0xff) as u8) as u64) << 8u64 | ((((x
        >> 16u64) & 0xff) as u8) as u64) << 16u64 | ((((x >> 24u64) & 0xff) as u8) as u64)
        << 24u64 | ((((x >> 32u64) & 0xff) as u8) as u64) << 32u64 | ((((x >> 40u64) & 0xff)
        as u8) as u64) << 40u64 | ((((x >> 48u64) & 0xff) as u8) as u64) << 48u64 | ((((x
        >> 56u64) & 0xff) as u8) as u64) << 56u64 == x) by (bit_vector);
}

/// Reading the bytes of `s` at `i` as a `u16` after `u16_le(x)` was placed there gives `x`.
pub proof fn lemma_u16_at(s: Seq<u8>, i: int, x: u16)
    requires
        0 <= i,
        i + 2 <= s.len(),
        s.subrange(i, i + 2) == u16_le(x),
    ensures
        u16_at(s, i) == x,
{
    lemma_u16_le_roundtrip(x);
    assert(s[i] == s.subrange(i, i + 2)[0]);
    assert(s[i + 1] == s.subrange(i, i + 2)[1]);
}

/// Reading the bytes of `s` at `i` as a `u32` after `u32_le(x)` was placed there gives `x`.
pub proof fn lemma_u32_at(s: Seq<u8>, i: int, x: u32)
    requires
        0 <= i,
        i + 4 <= s.len(),
        s.subrange(i, i + 4) == u32_le(x),
    ensures
        u32_at(s, i) == x,
{
    lemma_u32_le_roundtrip(x);
    let t = s.subrange(i, i + 4);
    assert(s[i] == t[0] && s[i + 1] == t[1] && s[i + 2] == t[2] && s[i + 3] == t[3]);
}

/// Reading the bytes of `s` at `i` as a `u64` after `u64_le(x)` was placed there gives `x`.
pub proof fn lemma_u64_at(s: Seq<u8>, i: int, x: u64)
    requires
        0 <= i,
        i + 8 <= s.len(),
        s.subrange(i, i + 8) == u64_le(x),
    ensures
        u64_at(s, i) == x,
{
    lemma_u64_le_roundtrip(x);
    let t = s.subrange(i, i + 8);
    assert(s[i] == t[0] && s[i + 1] == t[1] && s[i + 2] == t[2] && s[i + 3] == t[3]);
    assert(s[i + 4] == t[4] && s[i + 5] == t[5] && s[i + 6] == t[6] && s[i + 7] == t[7]);
}

/// Signed and unsigned values of one width share their bits.
pub proof fn lemma_signed_casts(a: i8, b: i16, c: i32, d: i64)
    ensures
        (a as u8) as i8 == a,
        (b as u16) as i16 == b,
        (c as u32) as i32 == c,
        (d as u64) as i64 == d,
{
    assert((a as u8) as i8 == a) by (bit_vector);
    assert((b as u16) as i16 == b) by (bit_vector);
    assert((c as u32) as i32 == c) by (bit_vector);
    assert((d as u64) as i64 == d) by (bit_vector);
}

/// Appends one byte.
pub fn put_u8(out: &mut Vec<u8>, x: u8)
    ensures
        final(out)@ == old(out)@.push(x),
{
    out.push(x);
}

/// Appends the little-endian bytes of `x`.
pub fn put_u16_le(out: &mut Vec<u8>, x: u16)
    ensures
        final(out)@ == old(out)@ + u16_le(x),
{
    out.push((x & 0xff) as u8);
    out.push(((x >> 8u16) & 0xff) as u8);
    assert(out@ =~= old(out)@ + u16_le(x));
}

/// Appends the little-endian bytes of `x`.
pub fn put_u32_le(out: &mut Vec<u8>, x: u32)
    ensures
        final(out)@ == old(out)@ + u32_le(x),
{
    out.push((x & 0xff) as u8);
    out.push(((x >> 8u32) & 0xff) as u8);
    out.push(((x >> 16u32) & 0xff) as u8);
    out.push(((x >> 24u32) & 0xff) as u8);
    assert(out@ =~= old(out)@ + u32_le(x));
}

/// Appends the little-endian bytes of `x`.
pub fn put_u64_le(out: &mut Vec<u8>, x: u64)
    ensures
        final(out)@ == old(out)@ + u64_le(x),
{
    out.push((x & 0xff) as u8);
    out.push(((x >> 8u64) & 0xff) as u8);
    out.push(((x >> 16u64) & 0xff) as u8);
    out.push(((x >> 24u64) & 0xff) as u8);
    out.push(((x >> 32u64) & 0xff) as u8);
    out.push(((x >> 40u64) & 0xff) as u8);
    out.push(((x >> 48u64) & 0xff) as u8);
    out.push(((x >> 56u64) & 0xff) as u8);
    assert(out@ =~= old(out)@ + u64_le(x));
}

/// The two big-endian bytes of `x`.
pub open spec fn u16_be(x: u16) -> Seq<u8> {
    seq![((x >> 8u16) & 0xff) as u8, (x & 0xff) as u8]
}

/// `n` zero bytes.
pub open spec fn zeros(n: nat) -> Seq<u8> {
    Seq::new(n, |_i: int| 0u8)
}

/// Appends the big-endian bytes of `x`.
pub fn put_u16_be(out: &mut Vec<u8>, x: u16)
    ensures
        final(out)@ == old(out)@ + u16_be(x),
{
    out.push(((x >> 8u16) & 0xff) as u8);
    out.push((x & 0xff) as u8);
    assert(out@ =~= old(out)@ + u16_be(x));
}

/// Appends `n` zero bytes.
pub fn put_zeros(out: &mut Vec<u8>, n: usize)
    ensures
        final(out)@ == old(out)@ + zeros(n as nat),
{
    let mut i: usize = 0;
    while i < n
        invariant
            i <= n,
            out@ == old(out)@ + zeros(i as nat),
        decreases n - i,
    {
        out.push(0u8);
        i = i + 1;
        assert(out@ =~= old(out)@ + zeros(i as nat));
    }
}

/// Appends all bytes of `bytes`.
pub fn put_slice(out: &mut Vec<u8>, bytes: &[u8])
    ensures
        final(out)@ == old(out)@ + bytes@,
{
    let mut i: usize = 0;
    while i < bytes.len()
        invariant
            i <= bytes@.len(),
            out@ == old(out)@ + bytes@.subrange(0, i as int),
        decreases bytes@.len() - i,
    {
        out.push(bytes[i]);
        i = i + 1;
        assert(out@ =~= old(out)@ + bytes@.subrange(0, i as int));
    }
    assert(bytes@.subrange(0, bytes@.len() as int) =~= bytes@);
}

/// The `u16` stored little-endian at `pos`.
pub fn get_u16_le(data: &[u8], pos: usize) -> (r: u16)
    requires
        pos + 2 <= data@.len(),
    ensures
        r == u16_at(data@, pos as int),
{
    (data[pos] as u16) | ((data[pos + 1] as u16) << 8u16)
}

/// The `u32` stored little-endian at `pos`.
pub fn get_u32_le(data: &[u8], pos: usize) -> (r: u32)
    requires
        pos + 4 <= data@.len(),
    ensures
        r == u32_at(data@, pos as int),
{
    (data[pos] as u32) | ((data[pos + 1] as u32) << 8u32) | ((data[pos + 2] as u32) << 16u32) | ((
    data[pos + 3] as u32) << 24u32)
}

/// The `u64` stored little-endian at `pos`.
pub fn get_u64_le(data: &[u8], pos: usize) -> (r: u64)
    requires
        pos + 8 <= data@.len(),
    ensures
        r == u64_at(data@, pos as int),
{
    (data[pos] as u64) | ((data[pos + 1] as u64) << 8u64) | ((data[pos + 2] as u64) << 16u64) | ((
    data[pos + 3] as u64) << 24u64) | ((data[pos + 4] as u64) << 32u64) | ((data[pos + 5] as u64)
        << 40u64) | ((data[pos + 6] as u64) << 48u64) | ((data[pos + 7] as u64) << 56u64)
}

/// The bytes of `data` from `pos` to `pos + len`.
pub fn copy_range(data: &[u8], pos: usize, len: usize) -> (r: Vec<u8>)
    requires
        pos + len <= data@.len(),
    ensures
        r@ == data@.subrange(pos as int, pos + len),
{
    let mut r: Vec<u8> = Vec::new();
    let mut i: usize = 0;
    let n = data.len();
    while i < len
        invariant
            i <= len,
            n == data@.len(),
            pos + len <= n,
            r@ == data@.subrange(pos as int, pos + i),
        decreases len - i,
    {
        r.push(data[pos + i]);
        i = i + 1;
        assert(r@ =~= data@.subrange(pos as int, pos + i));
    }
    r
}

} // verus!
