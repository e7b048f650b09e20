//! The slice chunk: a named region of the sprite, keyed by frame.
use vstd::prelude::*;

use crate::bytes_le::{lemma_u32_at, put_u32_le, u16_at, u32_at, u32_le};
use crate::formats::aseprite::raw::{
    avail, encode_utf8_len, flat, lemma_flat_push, lemma_name_roundtrip, lemma_prepend_push,
    name_bytes, prepend, put_name, read_lossy_name, read_u32, ReadError,
};
use crate::strings::lossy_text;

verus! {

/// The chunk type of a slice chunk.
pub const SLICE_CHUNK_TYPE: u16 = 0x2022;

/// The number of the flag: the keys have 9-patch centers.
pub const SLICE_IS_9_PATCHES: u32 = 0x0001;

/// The number of the flag: the keys have pivots.
pub const SLICE_HAS_PIVOT: u32 = 0x0002;

/// The slice's bounds from a frame on: position and size, and the 9-patch
/// center (x, y, width, height) and pivot (x, y) when the slice has them.
#[derive(Clone, Copy, Debug, PartialEq, Eq)]
pub struct SliceKey {
    pub frame_number: u32,
    pub x: i32,
    pub y: i32,
    pub width: u32,
    pub height: u32,
    pub center: Option<(i32, i32, u32, u32)>,
    pub pivot: Option<(i32, i32)>,
}

/// A slice chunk.
#[derive(Clone, Debug)]
pub struct SliceChunk {
    pub num_slice_keys: u32,
    pub flags: u32,
    pub name: String,
    pub keys: Vec<SliceKey>,
}

/// The model of a [`SliceChunk`]: the name by its characters.
pub struct SliceModel {
    pub num_slice_keys: u32,
    pub flags: u32,
    pub name: Seq<char>,
    pub keys: Seq<SliceKey>,
}

impl View for SliceChunk {
    type V = SliceModel;

    open spec fn view(&self) -> SliceModel {
        SliceModel {
            num_slice_keys: self.num_slice_keys,
            flags: self.flags,
            name: self.name@,
            keys: self.keys@,
        }
    }
}

/// The bytes of a slice key: the bounds, then the center and pivot it has.
pub open spec fn key_bytes(k: SliceKey) -> Seq<u8> {
    u32_le(k.frame_number) + u32_le(k.x as u32) + u32_le(k.y as u32) + u32_le(k.width) + u32_le(
        k.height,
    ) + match k.center {
        Some((cx, cy, cw, ch)) => u32_le(cx as u32) + u32_le(cy as u32) + u32_le(cw) + u32_le(ch),
        None => Seq::<u8>::empty(),
    } + match k.pivot {
        Some((px, py)) => u32_le(px as u32) + u32_le(py as u32),
        None => Seq::<u8>::empty(),
    }
}

/// The bytes of the keys, one after another.
pub open spec fn key_list_bytes(ks: Seq<SliceKey>) -> Seq<u8> {
    flat(Seq::new(ks.len(), |i: int| key_bytes(ks[i])))
}

/// The bytes of a slice chunk: the key count, the flags, a reserved `u32`,
/// the name, the keys.
pub open spec fn slice_bytes(m: SliceModel) -> Seq<u8> {
    u32_le(m.keys.len() as u32) + u32_le(m.flags) + u32_le(0) + name_bytes(m.name)
        + key_list_bytes(m.keys)
}

/// What reading a slice key at offset `p` of `d` gives, with the offset
/// after it: a center with the 9-patch flag, a pivot with the pivot flag.
pub open spec fn parse_key(d: Seq<u8>, p: int, flags: u32) -> Result<(SliceKey, int), ReadError> {
    let centered = flags & SLICE_IS_9_PATCHES == SLICE_IS_9_PATCHES;
    let pivoted = flags & SLICE_HAS_PIVOT == SLICE_HAS_PIVOT;
    let p2 = if centered {
        p + 36
    } else {
        p + 20
    };
    if !avail(d, p, 20) || (centered && !avail(d, p + 20, 16)) || (pivoted && !avail(d, p2, 8)) {
        Err(ReadError::UnexpectedEnd)
    } else {
        Ok(
            (
                SliceKey {
                    frame_number: u32_at(d, p),
                    x: u32_at(d, p + 4) as i32,
                    y: u32_at(d, p + 8) as i32,
                    width: u32_at(d, p + 12),
                    height: u32_at(d, p + 16),
                    center: if centered {
                        Some(
                            (
                                u32_at(d, p + 20) as i32,
                                u32_at(d, p + 24) as i32,
                                u32_at(d, p + 28),
                                u32_at(d, p + 32),
                            ),
                        )
                    } else {
                        None
                    },
                    pivot: if pivoted {
                        Some((u32_at(d, p2) as i32, u32_at(d, p2 + 4) as i32))
                    } else {
                        None
                    },
                },
                if pivoted {
                    p2 + 8
                } else {
                    p2
                },
            ),
        )
    }
}

/// What reading `count` slice keys from offset `p` of `d` gives, with the
/// offset after them.
pub open spec fn parse_key_list(d: Seq<u8>, p: int, flags: u32, count: nat) -> Result<
    (Seq<SliceKey>, int),
    ReadError,
>
    decreases count,
{
    if count == 0 {
        Ok((Seq::<SliceKey>::empty(), p))
    } else {
        match parse_key(d, p, flags) {
            Err(e) => Err(e),
            Ok((k, q)) => prepend(seq![k], parse_key_list(d, q, flags, (count - 1) as nat)),
        }
    }
}

/// What reading a slice chunk from `d` gives: the count, the flags (the bits
/// that name no flag dropped), the name, then that many keys.
pub open spec fn parse_slice(d: Seq<u8>) -> Result<SliceModel, ReadError> {
    if !avail(d, 0, 14) || !avail(d, 14, u16_at(d, 12) as int) {
        Err(ReadError::UnexpectedEnd)
    } else {
        let n = u16_at(d, 12) as int;
        let count = u32_at(d, 0);
        let flags = u32_at(d, 4) & 3;
        match parse_key_list(d, 14 + n, flags, count as nat) {
            Err(e) => Err(e),
            Ok((keys, _)) => Ok(
                SliceModel {
                    num_slice_keys: count,
                    flags,
                    name: lossy_text(d.subrange(14, 14 + n)),
                    keys,
                },
            ),
        }
    }
}

/// Whether a key has the parts that `flags` announce, and no others.
pub open spec fn key_matches_flags(k: SliceKey, flags: u32) -> bool {
    &&& (flags & SLICE_IS_9_PATCHES == SLICE_IS_9_PATCHES <==> k.center is Some)
    &&& (flags & SLICE_HAS_PIVOT == SLICE_HAS_PIVOT <==> k.pivot is Some)
}

/// Whether a slice chunk reads back unchanged: its key count is the number
/// of its keys (at most `u32::MAX`), its flags name only slice flags, its
/// keys have the parts that the flags announce, and its name fits a `u16`
/// byte count.
pub open spec fn slice_well_formed(m: SliceModel) -> bool {
    &&& m.keys.len() <= u32::MAX
    &&& m.num_slice_keys == m.keys.len()
    &&& m.flags & 3 == m.flags
    &&& encode_utf8_len(m.name) <= u16::MAX
    &&& forall|i: int| 0 <= i < m.keys.len() ==> key_matches_flags(#[trigger] m.keys[i], m.flags)
}

/// Appends a slice key's bytes.
pub fn write_key(k: &SliceKey, data: &mut Vec<u8>)
    ensures
        final(data)@ == old(data)@ + key_bytes(*k),
{
    put_u32_le(data, k.frame_number);
    put_u32_le(data, k.x as u32);
    put_u32_le(data, k.y as u32);
    put_u32_le(data, k.width);
    put_u32_le(data, k.height);
    if let Some((cx, cy, cw, ch)) = k.center {
        put_u32_le(data, cx as u32);
        put_u32_le(data, cy as u32);
        put_u32_le(data, cw);
        put_u32_le(data, ch);
    }
    if let Some((px, py)) = k.pivot {
        put_u32_le(data, px as u32);
        put_u32_le(data, py as u32);
    }
    assert(final(data)@ =~= old(data)@ + key_bytes(*k));
}

/// Reads a slice key at `pos`: the result is [`parse_key`] there.
pub fn read_key(data: &[u8], pos: usize, flags: u32) -> (r: Result<(SliceKey, usize), ReadError>)
    requires
        pos <= data@.len(),
    ensures
        match parse_key(data@, pos as int, flags) {
            Ok((m, q)) => r matches Ok((k, p)) && k == m && p == q,
            Err(e) => r matches Err(x) && x == e,
        },
{
    let (frame_number, p) = read_u32(data, pos)?;
    let (x, p) = read_u32(data, p)?;
    let (y, p) = read_u32(data, p)?;
    let (width, p) = read_u32(data, p)?;
    let (height, p) = read_u32(data, p)?;
    let (center, p) = if flags & SLICE_IS_9_PATCHES == SLICE_IS_9_PATCHES {
        let (cx, p) = read_u32(data, p)?;
        let (cy, p) = read_u32(data, p)?;
        let (cw, p) = read_u32(data, p)?;
        let (ch, p) = read_u32(data, p)?;
        (Some((cx as i32, cy as i32, cw, ch)), p)
    } else {
        (None, p)
    };
    let (pivot, p) = if flags & SLICE_HAS_PIVOT == SLICE_HAS_PIVOT {
        let (px, p) = read_u32(data, p)?;
        let (py, p) = read_u32(data, p)?;
        (Some((px as i32, py as i32)), p)
    } else {
        (None, p)
    };
    Ok((SliceKey { frame_number, x: x as i32, y: y as i32, width, height, center, pivot }, p))
}

impl SliceChunk {
    /// The chunk type of a slice chunk.
    pub fn chunk_type(&self) -> (t: u16)
        ensures
            t == SLICE_CHUNK_TYPE,
    {
        SLICE_CHUNK_TYPE
    }

    /// The chunk's bytes.
    pub fn to_block(&self) -> (b: Vec<u8>)
        requires
            self@.keys.len() <= u32::MAX,
            encode_utf8_len(self.name@) <= u16::MAX,
        ensures
            b@ == slice_bytes(self@),
    {
        let mut data: Vec<u8> = Vec::new();
        put_u32_le(&mut data, self.keys.len() as u32);
        put_u32_le(&mut data, self.flags);
        put_u32_le(&mut data, 0);
        put_name(&mut data, &self.name);
        let ghost head = data@;
        let mut i: usize = 0;
        while i < self.keys.len()
            invariant
                i <= self.keys@.len(),
                data@ == head + key_list_bytes(self.keys@.take(i as int)),
            decreases self.keys@.len() - i,
        {
            let ghost prev = self.keys@.take(i as int);
            write_key(&self.keys[i], &mut data);
            proof {
                let next = self.keys@.take(i + 1);
                assert(next =~= prev.push(self.keys@[i as int]));
                assert(Seq::new(next.len(), |j: int| key_bytes(next[j])) =~= Seq::new(
                    prev.len(),
                    |j: int| key_bytes(prev[j]),
                ).push(key_bytes(self.keys@[i as int])));
                lemma_flat_push(
                    Seq::new(prev.len(), |j: int| key_bytes(prev[j])),
                    key_bytes(self.keys@[i as int]),
                );
            }
            i = i + 1;
        }
        assert(self.keys@.take(i as int) =~= self.keys@);
        data
    }

    /// Reads a slice chunk: the result is [`parse_slice`] of the bytes.
    pub fn from_block(data: &[u8]) -> (r: Result<SliceChunk, ReadError>)
        ensures
            match parse_slice(data@) {
                Ok(m) => r matches Ok(c) && c@ == m,
                Err(e) => r matches Err(x) && x == e,
            },
    {
        let (num_keys, p) = read_u32(data, 0)?;
        let (flags_val, p) = read_u32(data, p)?;
        let flags = flags_val & 3;
        let (_reserved, p) = read_u32(data, p)?;
        let (name, p) = read_lossy_name(data, p)?;
        let ghost start = p as int;
        assert(parse_slice(data@) == match parse_key_list(data@, start, flags, num_keys as nat) {
            Err(e) => Err(e),
            Ok((keys, _)) => Ok(
                SliceModel { num_slice_keys: num_keys, flags, name: name@, keys },
            ),
        });
        let mut p = p;
        let mut keys: Vec<SliceKey> = Vec::new();
        let mut i: u32 = 0;
        while i < num_keys
            invariant
                i <= num_keys,
                p <= data@.len(),
                parse_slice(data@) == match parse_key_list(data@, start, flags, num_keys as nat) {
                    Err(e) => Err(e),
                    Ok((keys, _)) => Ok(
                        SliceModel { num_slice_keys: num_keys, flags, name: name@, keys },
                    ),
                },
                parse_key_list(data@, start, flags, num_keys as nat) == prepend(
                    keys@,
                    parse_key_list(data@, p as int, flags, (num_keys - i) as nat),
                ),
            decreases num_keys - i,
        {
            let ghost acc = keys@;
            match read_key(data, p, flags) {
                Ok((key, q)) => {
                    proof {
                        lemma_prepend_push(
                            acc,
                            key,
                            parse_key_list(data@, q as int, flags, (num_keys - i - 1) as nat),
                        );
                    }
                    keys.push(key);
                    p = q;
                },
                Err(e) => {
                    return Err(e);
                },
            }
            i = i + 1;
        }
        assert(keys@ + Seq::<SliceKey>::empty() =~= keys@);
        Ok(SliceChunk { num_slice_keys: num_keys, flags, name, keys })
    }
}

/// A written key reads back as the key, with the flags it matches.
proof fn lemma_key_roundtrip(k: SliceKey, flags: u32, d: Seq<u8>, p: int)
    requires
        key_matches_flags(k, flags),
        0 <= p,
        p + key_bytes(k).len() <= d.len(),
        d.subrange(p, p + key_bytes(k).len()) == key_bytes(k),
    ensures
        parse_key(d, p, flags) == Ok::<(SliceKey, int), ReadError>((k, p + key_bytes(k).len())),
{
    let kb = key_bytes(k);
    assert(kb.subrange(0, 4) =~= u32_le(k.frame_number));
    lemma_u32_in(d, p, kb, 0, k.frame_number);
    assert(kb.subrange(4, 8) =~= u32_le(k.x as u32));
    lemma_u32_in(d, p, kb, 4, k.x as u32);
    assert(kb.subrange(8, 12) =~= u32_le(k.y as u32));
    lemma_u32_in(d, p, kb, 8, k.y as u32);
    assert(kb.subrange(12, 16) =~= u32_le(k.width));
    lemma_u32_in(d, p, kb, 12, k.width);
    assert(kb.subrange(16, 20) =~= u32_le(k.height));
    lemma_u32_in(d, p, kb, 16, k.height);
    crate::bytes_le::lemma_signed_casts(0, 0, k.x, 0);
    crate::bytes_le::lemma_signed_casts(0, 0, k.y, 0);
    let p2: int = if k.center is Some {
        36
    } else {
        20
    };
    if let Some((cx, cy, cw, ch)) = k.center {
        assert(kb.subrange(20, 24) =~= u32_le(cx as u32));
        lemma_u32_in(d, p, kb, 20, cx as u32);
        assert(kb.subrange(24, 28) =~= u32_le(cy as u32));
        lemma_u32_in(d, p, kb, 24, cy as u32);
        assert(kb.subrange(28, 32) =~= u32_le(cw));
        lemma_u32_in(d, p, kb, 28, cw);
        assert(kb.subrange(32, 36) =~= u32_le(ch));
        lemma_u32_in(d, p, kb, 32, ch);
        crate::bytes_le::lemma_signed_casts(0, 0, cx, 0);
        crate::bytes_le::lemma_signed_casts(0, 0, cy, 0);
    }
    if let Some((px, py)) = k.pivot {
        assert(kb.subrange(p2, p2 + 4) =~= u32_le(px as u32));
        lemma_u32_in(d, p, kb, p2, px as u32);
        assert(kb.subrange(p2 + 4, p2 + 4 + 4) =~= u32_le(py as u32));
        lemma_u32_in(d, p, kb, p2 + 4, py as u32);
        crate::bytes_le::lemma_signed_casts(0, 0, px, 0);
        crate::bytes_le::lemma_signed_casts(0, 0, py, 0);
    }
}

/// A `u32` written at offset `j` of bytes found at offset `p` of `d` is the
/// `u32` at offset `p + j` of `d`.
proof fn lemma_u32_in(d: Seq<u8>, p: int, kb: Seq<u8>, j: int, x: u32)
    requires
        0 <= p,
        p + kb.len() <= d.len(),
        d.subrange(p, p + kb.len()) == kb,
        0 <= j,
        j + 4 <= kb.len(),
        kb.subrange(j, j + 4) == u32_le(x),
    ensures
        u32_at(d, p + j) == x,
{
    assert(d.subrange(p + j, p + j + 4) =~= kb.subrange(j, j + 4));
    lemma_u32_at(d, p + j, x);
}

/// The keys written one after another read back as the keys.
proof fn lemma_key_list_roundtrip(ks: Seq<SliceKey>, flags: u32, d: Seq<u8>, p: int)
    requires
        forall|i: int| 0 <= i < ks.len() ==> key_matches_flags(#[trigger] ks[i], flags),
        0 <= p,
        p + key_list_bytes(ks).len() <= d.len(),
        d.subrange(p, p + key_list_bytes(ks).len()) == key_list_bytes(ks),
    ensures
        parse_key_list(d, p, flags, ks.len()) == Ok::<(Seq<SliceKey>, int), ReadError>(
            (ks, p + key_list_bytes(ks).len()),
        ),
    decreases ks.len(),
{
    if ks.len() > 0 {
        let k = ks[0];
        let rest = ks.skip(1);
        let kb = key_bytes(k);
        assert(Seq::new(ks.len(), |i: int| key_bytes(ks[i])).skip(1) =~= Seq::new(
            rest.len(),
            |i: int| key_bytes(rest[i]),
        ));
        assert(key_list_bytes(ks) =~= kb + key_list_bytes(rest));
        let whole = d.subrange(p, p + key_list_bytes(ks).len());
        assert(d.subrange(p, p + kb.len()) =~= kb) by {
            assert(d.subrange(p, p + kb.len()) =~= whole.subrange(0, kb.len() as int));
        }
        lemma_key_roundtrip(k, flags, d, p);
        let q = p + kb.len();
        assert(d.subrange(q, q + key_list_bytes(rest).len()) =~= key_list_bytes(rest)) by {
            assert(d.subrange(q, q + key_list_bytes(rest).len()) =~= whole.subrange(
                kb.len() as int,
                key_list_bytes(ks).len() as int,
            ));
        }
        assert forall|i: int| 0 <= i < rest.len() implies key_matches_flags(
            #[trigger] rest[i],
            flags,
        ) by {
            assert(rest[i] == ks[i + 1]);
        }
        lemma_key_list_roundtrip(rest, flags, d, q);
        assert(seq![k] + rest =~= ks);
    } else {
        assert(key_list_bytes(ks).len() == 0);
        assert(ks =~= Seq::<SliceKey>::empty());
    }
}

/// Reading a written slice chunk gives it back, for every well-formed chunk.
pub proof fn lemma_slice_roundtrip(m: SliceModel)
    requires
        slice_well_formed(m),
    ensures
        parse_slice(slice_bytes(m)) == Ok::<SliceModel, ReadError>(m),
{
    let d = slice_bytes(m);
    let nb = name_bytes(m.name);
    assert(d.subrange(0, 4) =~= u32_le(m.keys.len() as u32));
    lemma_u32_at(d, 0, m.keys.len() as u32);
    assert(d.subrange(4, 8) =~= u32_le(m.flags));
    lemma_u32_at(d, 4, m.flags);
    assert(d.subrange(12, 12 + nb.len() as int) =~= nb);
    lemma_name_roundtrip(m.name, d, 12);
    let q: int = 12 + nb.len() as int;
    assert(d.subrange(q, q + key_list_bytes(m.keys).len() as int) =~= key_list_bytes(m.keys));
    lemma_key_list_roundtrip(m.keys, m.flags, d, q);
}

} // verus!
