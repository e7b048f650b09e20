//! The palette chunk: colors for a range of palette indices, some named.
use vstd::prelude::*;

use crate::bytes_le::{
    lemma_u16_at, lemma_u32_at, put_u16_le, put_u32_le, put_u8, put_zeros, u16_at, u16_le, u32_at,
    u32_le, zeros,
};
use crate::formats::aseprite::raw::{
    avail, encode_utf8_len, flat, lemma_flat_push, lemma_name_roundtrip, lemma_prepend_push,
    name_bytes, prepend, put_name, read_lossy_name, read_u16, read_u32, read_u8, skip_bytes,
    ReadError,
};
use crate::strings::lossy_text;

verus! {

/// The chunk type of a palette chunk.
pub const PALETTE_CHUNK_TYPE: u16 = 0x2019;

/// The number of the flag: the entry has a name.
pub const PALETTE_ENTRY_HAS_NAME: u16 = 0x0001;

/// Flags for a palette entry: a set of the `PALETTE_ENTRY_*` bits.
#[derive(Clone, Copy, Debug, PartialEq, Eq, Structural)]
pub struct PaletteEntryFlags {
    bits: u16,
}

impl View for PaletteEntryFlags {
    /// The flag bits.
    type V = u16;

    closed spec fn view(&self) -> u16 {
        self.bits
    }
}

impl PaletteEntryFlags {
    /// The flags of `bits`, without the bits that name no flag.
    pub fn from_bits_truncate(bits: u16) -> (f: Self)
        ensures
            f@ == bits & PALETTE_ENTRY_HAS_NAME,
    {
        PaletteEntryFlags { bits: bits & PALETTE_ENTRY_HAS_NAME }
    }

    /// The flag bits.
    pub fn bits(&self) -> (b: u16)
        ensures
            b == self@,
    {
        self.bits
    }

    /// Whether all bits of `flag` are set.
    pub fn contains(&self, flag: u16) -> (r: bool)
        ensures
            r == (self@ & flag == flag),
    {
        self.bits & flag == flag
    }
}

/// A palette entry: its flags, its color and, when it is flagged as named,
/// its name.
#[derive(Clone, Debug)]
pub struct PaletteEntry {
    pub flags: PaletteEntryFlags,
    pub red: u8,
    pub green: u8,
    pub blue: u8,
    pub alpha: u8,
    pub name: Option<String>,
}

/// A palette chunk: the new palette size and the entries for indices
/// `first_color_index` to `last_color_index`.
#[derive(Clone, Debug)]
pub struct PaletteChunk {
    pub new_palette_size: u32,
    pub first_color_index: u32,
    pub last_color_index: u32,
    pub entries: Vec<PaletteEntry>,
}

/// The model of a [`PaletteEntry`].
pub struct PaletteEntryModel {
    pub flags: u16,
    pub red: u8,
    pub green: u8,
    pub blue: u8,
    pub alpha: u8,
    pub name: Option<Seq<char>>,
}

/// The model of a [`PaletteChunk`].
pub struct PaletteModel {
    pub new_palette_size: u32,
    pub first_color_index: u32,
    pub last_color_index: u32,
    pub entries: Seq<PaletteEntryModel>,
}

impl View for PaletteEntry {
    type V = PaletteEntryModel;

    open spec fn view(&self) -> PaletteEntryModel {
        PaletteEntryModel {
            flags: self.flags@,
            red: self.red,
            green: self.green,
            blue: self.blue,
            alpha: self.alpha,
            name: match self.name {
                Some(s) => Some(s@),
                None => None,
            },
        }
    }
}

/// The models of palette entries.
pub open spec fn entry_models(es: Seq<PaletteEntry>) -> Seq<PaletteEntryModel> {
    Seq::new(es.len(), |i: int| es[i]@)
}

impl View for PaletteChunk {
    type V = PaletteModel;

    open spec fn view(&self) -> PaletteModel {
        PaletteModel {
            new_palette_size: self.new_palette_size,
            first_color_index: self.first_color_index,
            last_color_index: self.last_color_index,
            entries: entry_models(self.entries@),
        }
    }
}

/// The bytes of a palette entry: flags, color, and the name when the entry
/// is flagged as named and has one.
pub open spec fn entry_bytes(e: PaletteEntryModel) -> Seq<u8> {
    u16_le(e.flags) + seq![e.red, e.green, e.blue, e.alpha] + if e.flags & PALETTE_ENTRY_HAS_NAME
        == PALETTE_ENTRY_HAS_NAME && e.name is Some {
        name_bytes(e.name->Some_0)
    } else {
        Seq::<u8>::empty()
    }
}

/// The bytes of the entries, one after another.
pub open spec fn entry_list_bytes(es: Seq<PaletteEntryModel>) -> Seq<u8> {
    flat(Seq::new(es.len(), |i: int| entry_bytes(es[i])))
}

/// The bytes of a palette chunk: the size and index range, 8 reserved
/// bytes, the entries.
pub open spec fn palette_bytes(m: PaletteModel) -> Seq<u8> {
    u32_le(m.new_palette_size) + u32_le(m.first_color_index) + u32_le(m.last_color_index) + zeros(8)
        + entry_list_bytes(m.entries)
}

/// What reading a palette entry at offset `p` of `d` gives, with the offset
/// after it: the name is read when the flags say it is there.
pub open spec fn parse_entry(d: Seq<u8>, p: int) -> Result<(PaletteEntryModel, int), ReadError> {
    if !avail(d, p, 6) {
        Err(ReadError::UnexpectedEnd)
    } else {
        let flags = u16_at(d, p) & PALETTE_ENTRY_HAS_NAME;
        let named = flags & PALETTE_ENTRY_HAS_NAME == PALETTE_ENTRY_HAS_NAME;
        let n = u16_at(d, p + 6) as int;
        if named && !avail(d, p + 6, 2) {
            Err(ReadError::UnexpectedEnd)
        } else if named && !avail(d, p + 8, n) {
            Err(ReadError::UnexpectedEnd)
        } else {
            Ok(
                (
                    PaletteEntryModel {
                        flags,
                        red: d[p + 2],
                        green: d[p + 3],
                        blue: d[p + 4],
                        alpha: d[p + 5],
                        name: if named {
                            Some(lossy_text(d.subrange(p + 8, p + 8 + n)))
                        } else {
                            None
                        },
                    },
                    if named {
                        p + 8 + n
                    } else {
                        p + 6
                    },
                ),
            )
        }
    }
}

/// What reading `count` palette entries from offset `p` of `d` gives, with
/// the offset after them.
pub open spec fn parse_entry_list(d: Seq<u8>, p: int, count: nat) -> Result<
    (Seq<PaletteEntryModel>, int),
    ReadError,
>
    decreases count,
{
    if count == 0 {
        Ok((Seq::<PaletteEntryModel>::empty(), p))
    } else {
        match parse_entry(d, p) {
            Err(e) => Err(e),
            Ok((t, q)) => prepend(seq![t], parse_entry_list(d, q, (count - 1) as nat)),
        }
    }
}

/// Whether the index range of a palette chunk in `d` can be counted: the
/// last index is not below the first, and the count fits in a `u32` (the
/// reader stops the program otherwise).
pub open spec fn palette_range_ok(d: Seq<u8>) -> bool {
    avail(d, 0, 12) ==> u32_at(d, 4) <= u32_at(d, 8) && u32_at(d, 8) - u32_at(d, 4) < u32::MAX
}

/// What reading a palette chunk from `d` gives: the size and index range,
/// 8 reserved bytes, then one entry for each index of the range.
pub open spec fn parse_palette(d: Seq<u8>) -> Result<PaletteModel, ReadError> {
    if !avail(d, 0, 20) {
        Err(ReadError::UnexpectedEnd)
    } else {
        let first = u32_at(d, 4);
        let last = u32_at(d, 8);
        match parse_entry_list(d, 20, (last - first + 1) as nat) {
            Err(e) => Err(e),
            Ok((entries, _)) => Ok(
                PaletteModel {
                    new_palette_size: u32_at(d, 0),
                    first_color_index: first,
                    last_color_index: last,
                    entries,
                },
            ),
        }
    }
}

/// Whether a palette entry reads back unchanged: its flags name only the
/// name flag, it has a name exactly when flagged, and the name fits a `u16`
/// byte count.
pub open spec fn entry_well_formed(e: PaletteEntryModel) -> bool {
    &&& e.flags & PALETTE_ENTRY_HAS_NAME == e.flags
    &&& (e.flags == PALETTE_ENTRY_HAS_NAME <==> e.name is Some)
    &&& e.name matches Some(s) ==> encode_utf8_len(s) <= u16::MAX
}

/// Whether a palette chunk reads back unchanged: one well-formed entry for
/// each index from the first to the last.
pub open spec fn palette_well_formed(m: PaletteModel) -> bool {
    &&& m.first_color_index <= m.last_color_index
    &&& m.last_color_index - m.first_color_index < u32::MAX
    &&& m.entries.len() == m.last_color_index - m.first_color_index + 1
    &&& forall|i: int| 0 <= i < m.entries.len() ==> entry_well_formed(#[trigger] m.entries[i])
}

/// Whether every named entry's name fits a `u16` byte count.
pub open spec fn entry_names_fit(es: Seq<PaletteEntryModel>) -> bool {
    forall|i: int|
        0 <= i < es.len() ==> ((#[trigger] es[i]).name matches Some(s) ==> encode_utf8_len(s)
            <= u16::MAX)
}

impl PaletteEntry {
    /// Appends the entry's bytes.
    pub fn write(&self, data: &mut Vec<u8>)
        requires
            self@.name matches Some(s) ==> encode_utf8_len(s) <= u16::MAX,
        ensures
            final(data)@ == old(data)@ + entry_bytes(self@),
    {
        put_u16_le(data, self.flags.bits());
        put_u8(data, self.red);
        put_u8(data, self.green);
        put_u8(data, self.blue);
        put_u8(data, self.alpha);
        if self.flags.contains(PALETTE_ENTRY_HAS_NAME) {
            if let Some(name) = &self.name {
                put_name(data, name);
            }
        }
        assert(final(data)@ =~= old(data)@ + entry_bytes(self@));
    }

    /// Reads an entry at `pos`: the result is [`parse_entry`] there.
    pub fn read(data: &[u8], pos: usize) -> (r: Result<(PaletteEntry, usize), ReadError>)
        requires
            pos <= data@.len(),
        ensures
            match parse_entry(data@, pos as int) {
                Ok((m, q)) => r matches Ok((e, p)) && e@ == m && p == q,
                Err(e) => r matches Err(x) && x == e,
            },
    {
        let (flags_val, p) = read_u16(data, pos)?;
        let flags = PaletteEntryFlags::from_bits_truncate(flags_val);
        let (red, p) = read_u8(data, p)?;
        let (green, p) = read_u8(data, p)?;
        let (blue, p) = read_u8(data, p)?;
        let (alpha, p) = read_u8(data, p)?;
        if flags.contains(PALETTE_ENTRY_HAS_NAME) {
            let (name, q) = read_lossy_name(data, p)?;
            Ok((PaletteEntry { flags, red, green, blue, alpha, name: Some(name) }, q))
        } else {
            Ok((PaletteEntry { flags, red, green, blue, alpha, name: None }, p))
        }
    }
}

impl PaletteChunk {
    /// The chunk type of a palette chunk.
    pub fn chunk_type(&self) -> (t: u16)
        ensures
            t == PALETTE_CHUNK_TYPE,
    {
        PALETTE_CHUNK_TYPE
    }

    /// The chunk's bytes.
    pub fn to_block(&self) -> (b: Vec<u8>)
        requires
            entry_names_fit(self@.entries),
        ensures
            b@ == palette_bytes(self@),
    {
        let mut data: Vec<u8> = Vec::new();
        put_u32_le(&mut data, self.new_palette_size);
        put_u32_le(&mut data, self.first_color_index);
        put_u32_le(&mut data, self.last_color_index);
        put_zeros(&mut data, 8);
        let ghost head = data@;
        let mut i: usize = 0;
        while i < self.entries.len()
            invariant
                i <= self.entries@.len(),
                entry_names_fit(self@.entries),
                data@ == head + entry_list_bytes(entry_models(self.entries@).take(i as int)),
            decreases self.entries@.len() - i,
        {
            assert(entry_models(self.entries@)[i as int] == self.entries@[i as int]@);
            let ghost prev = entry_models(self.entries@).take(i as int);
            self.entries[i].write(&mut data);
            proof {
                let next = entry_models(self.entries@).take(i + 1);
                assert(next =~= prev.push(self.entries@[i as int]@));
                assert(Seq::new(next.len(), |j: int| entry_bytes(next[j])) =~= Seq::new(
                    prev.len(),
                    |j: int| entry_bytes(prev[j]),
                ).push(entry_bytes(self.entries@[i as int]@)));
                lemma_flat_push(
                    Seq::new(prev.len(), |j: int| entry_bytes(prev[j])),
                    entry_bytes(self.entries@[i as int]@),
                );
            }
            i = i + 1;
        }
        assert(entry_models(self.entries@).take(i as int) =~= self@.entries);
        data
    }

    /// Reads a palette chunk: the result is [`parse_palette`] of the bytes.
    pub fn from_block(data: &[u8]) -> (r: Result<PaletteChunk, ReadError>)
        requires
            palette_range_ok(data@),
        ensures
            match parse_palette(data@) {
                Ok(m) => r matches Ok(c) && c@ == m,
                Err(e) => r matches Err(x) && x == e,
            },
    {
        let (new_palette_size, p) = read_u32(data, 0)?;
        let (first_color_index, p) = read_u32(data, p)?;
        let (last_color_index, p) = read_u32(data, p)?;
        let mut p = skip_bytes(data, p, 8)?;
        let count: u32 = last_color_index - first_color_index + 1;
        let mut entries: Vec<PaletteEntry> = Vec::new();
        let mut i: u32 = 0;
        while i < count
            invariant
                i <= count,
                p <= data@.len(),
                avail(data@, 0, 20),
                first_color_index == u32_at(data@, 4),
                last_color_index == u32_at(data@, 8),
                count == last_color_index - first_color_index + 1,
                parse_entry_list(data@, 20, count as nat) == prepend(
                    entry_models(entries@),
                    parse_entry_list(data@, p as int, (count - i) as nat),
                ),
            decreases count - i,
        {
            let ghost acc = entry_models(entries@);
            match PaletteEntry::read(data, p) {
                Ok((entry, q)) => {
                    proof {
                        lemma_prepend_push(
                            acc,
                            entry@,
                            parse_entry_list(data@, q as int, (count - i - 1) as nat),
                        );
                    }
                    entries.push(entry);
                    assert(entry_models(entries@) =~= acc.push(entry@));
                    p = q;
                },
                Err(e) => {
                    return Err(e);
                },
            }
            i = i + 1;
        }
        assert(entry_models(entries@) + Seq::<PaletteEntryModel>::empty() =~= entry_models(
            entries@,
        ));
        Ok(PaletteChunk { new_palette_size, first_color_index, last_color_index, entries })
    }
}

/// One written entry reads back as the entry.
proof fn lemma_entry_roundtrip(e: PaletteEntryModel, d: Seq<u8>, p: int)
    requires
        entry_well_formed(e),
        0 <= p,
        p + entry_bytes(e).len() <= d.len(),
        d.subrange(p, p + entry_bytes(e).len()) == entry_bytes(e),
    ensures
        parse_entry(d, p) == Ok::<(PaletteEntryModel, int), ReadError>(
            (e, p + entry_bytes(e).len()),
        ),
{
    let eb = entry_bytes(e);
    assert(d.subrange(p, p + 2) =~= u16_le(e.flags)) by {
        assert(d.subrange(p, p + 2) =~= d.subrange(p, p + eb.len()).subrange(0, 2));
    }
    lemma_u16_at(d, p, e.flags);
    assert(d[p + 2] == eb[2]);
    assert(d[p + 3] == eb[3]);
    assert(d[p + 4] == eb[4]);
    assert(d[p + 5] == eb[5]);
    let f = e.flags;
    assert(f & PALETTE_ENTRY_HAS_NAME == PALETTE_ENTRY_HAS_NAME <==> f == PALETTE_ENTRY_HAS_NAME)
        by (bit_vector)
        requires
            f & PALETTE_ENTRY_HAS_NAME == f,
    ;
    assert(f & PALETTE_ENTRY_HAS_NAME == f) by (bit_vector)
        requires
            f & PALETTE_ENTRY_HAS_NAME == f,
    ;
    if let Some(s) = e.name {
        let nb = name_bytes(s);
        assert(d.subrange(p + 6, p + 6 + nb.len()) =~= nb) by {
            assert(d.subrange(p + 6, p + 6 + nb.len()) =~= d.subrange(p, p + eb.len()).subrange(
                6,
                6 + nb.len() as int,
            ));
        }
        lemma_name_roundtrip(s, d, p + 6);
    }
}

/// The entries written one after another read back as the entries.
proof fn lemma_entry_list_roundtrip(es: Seq<PaletteEntryModel>, d: Seq<u8>, p: int)
    requires
        forall|i: int| 0 <= i < es.len() ==> entry_well_formed(#[trigger] es[i]),
        0 <= p,
        p + entry_list_bytes(es).len() <= d.len(),
        d.subrange(p, p + entry_list_bytes(es).len()) == entry_list_bytes(es),
    ensures
        parse_entry_list(d, p, es.len()) == Ok::<(Seq<PaletteEntryModel>, int), ReadError>(
            (es, p + entry_list_bytes(es).len()),
        ),
    decreases es.len(),
{
    if es.len() > 0 {
        let e = es[0];
        let rest = es.skip(1);
        let eb = entry_bytes(e);
        assert(Seq::new(es.len(), |i: int| entry_bytes(es[i])).skip(1) =~= Seq::new(
            rest.len(),
            |i: int| entry_bytes(rest[i]),
        ));
        assert(entry_list_bytes(es) =~= eb + entry_list_bytes(rest));
        assert(d.subrange(p, p + eb.len()) =~= eb) by {
            assert(d.subrange(p, p + eb.len()) =~= d.subrange(
                p,
                p + entry_list_bytes(es).len(),
            ).subrange(0, eb.len() as int));
        }
        lemma_entry_roundtrip(e, d, p);
        let q = p + eb.len();
        assert(d.subrange(q, q + entry_list_bytes(rest).len()) =~= entry_list_bytes(rest)) by {
            assert(d.subrange(q, q + entry_list_bytes(rest).len()) =~= d.subrange(
                p,
                p + entry_list_bytes(es).len(),
            ).subrange(eb.len() as int, entry_list_bytes(es).len() as int));
        }
        assert forall|i: int| 0 <= i < rest.len() implies entry_well_formed(#[trigger] rest[i]) by {
            assert(rest[i] == es[i + 1]);
        }
        lemma_entry_list_roundtrip(rest, d, q);
        assert(seq![e] + rest =~= es);
    } else {
        assert(entry_list_bytes(es).len() == 0);
        assert(es =~= Seq::<PaletteEntryModel>::empty());
    }
}

/// Reading a written palette chunk gives it back, for every well-formed
/// chunk.
pub proof fn lemma_palette_roundtrip(m: PaletteModel)
    requires
        palette_well_formed(m),
    ensures
        palette_range_ok(palette_bytes(m)),
        parse_palette(palette_bytes(m)) == Ok::<PaletteModel, ReadError>(m),
{
    let d = palette_bytes(m);
    assert(d.subrange(0, 4) =~= u32_le(m.new_palette_size));
    lemma_u32_at(d, 0, m.new_palette_size);
    assert(d.subrange(4, 8) =~= u32_le(m.first_color_index));
    lemma_u32_at(d, 4, m.first_color_index);
    assert(d.subrange(8, 12) =~= u32_le(m.last_color_index));
    lemma_u32_at(d, 8, m.last_color_index);
    assert(d.subrange(20, 20 + entry_list_bytes(m.entries).len() as int) =~= entry_list_bytes(
        m.entries,
    ));
    lemma_entry_list_roundtrip(m.entries, d, 20);
}

} // verus!
