//! The tileset chunk.
use vstd::prelude::*;

use crate::bytes_le::{
    lemma_u16_at, lemma_u32_at, put_slice, put_u16_le, put_u32_le, put_zeros, u16_at, u16_le,
    u32_at, u32_le, zeros,
};
use crate::formats::aseprite::raw::{
    avail, encode_utf8_len, lemma_name_roundtrip, name_bytes, put_name, read_bytes,
    read_lossy_name, read_u16, read_u32, skip_bytes, ReadError,
};
use crate::strings::lossy_text;

verus! {

/// The chunk type of a tileset chunk.
pub const TILESET_CHUNK_TYPE: u16 = 0x2023;

/// The number of the flag: the tileset is in an external file.
pub const TILESET_EXTERNAL_FILE: u32 = 0x0001;

/// The number of the flag: the tiles are embedded in this file.
pub const TILESET_EMBEDDED: u32 = 0x0002;

/// The number of the flag: tile 0 is the empty tile.
pub const TILESET_ZERO_IS_EMPTY: u32 = 0x0004;

/// The number of the flag: tiles match their horizontal flips.
pub const TILESET_MATCH_X_FLIP: u32 = 0x0008;

/// The number of the flag: tiles match their vertical flips.
pub const TILESET_MATCH_Y_FLIP: u32 = 0x0010;

/// The number of the flag: tiles match their diagonal flips.
pub const TILESET_MATCH_D_FLIP: u32 = 0x0020;

/// All the flag bits that a tileset can have.
pub const TILESET_ALL_FLAGS: u32 = 0x003f;

/// A tileset chunk.
#[derive(Clone, Debug)]
pub struct TilesetChunk {
    pub id: u32,
    pub flags: u32,
    pub num_tiles: u32,
    pub tile_width: u16,
    pub tile_height: u16,
    pub base_index: i16,
    pub name: String,
    pub external_file_id: Option<u32>,
    pub external_tileset_id: Option<u32>,
    pub compressed_data: Option<Vec<u8>>,
}

/// The model of a [`TilesetChunk`]: the name by its characters and the
/// compressed tiles by their bytes.
pub struct TilesetModel {
    pub id: u32,
    pub flags: u32,
    pub num_tiles: u32,
    pub tile_width: u16,
    pub tile_height: u16,
    pub base_index: i16,
    pub name: Seq<char>,
    pub external_file_id: Option<u32>,
    pub external_tileset_id: Option<u32>,
    pub compressed_data: Option<Seq<u8>>,
}

impl View for TilesetChunk {
    type V = TilesetModel;

    open spec fn view(&self) -> TilesetModel {
        TilesetModel {
            id: self.id,
            flags: self.flags,
            num_tiles: self.num_tiles,
            tile_width: self.tile_width,
            tile_height: self.tile_height,
            base_index: self.base_index,
            name: self.name@,
            external_file_id: self.external_file_id,
            external_tileset_id: self.external_tileset_id,
            compressed_data: match self.compressed_data {
                Some(c) => Some(c@),
                None => None,
            },
        }
    }
}

/// `o`'s value, or 0.
pub open spec fn or_zero(o: Option<u32>) -> u32 {
    match o {
        Some(x) => x,
        None => 0,
    }
}

/// The bytes of a tileset chunk: the fixed fields, 14 reserved bytes, the
/// name; with the external-file flag the two external ids (0 when absent);
/// with the embedded flag the compressed tiles' byte count and bytes (a
/// count of 0 when there are none).
pub open spec fn tileset_bytes(m: TilesetModel) -> Seq<u8> {
    u32_le(m.id) + u32_le(m.flags) + u32_le(m.num_tiles) + u16_le(m.tile_width) + u16_le(
        m.tile_height,
    ) + u16_le(m.base_index as u16) + zeros(14) + name_bytes(m.name) + (if m.flags
        & TILESET_EXTERNAL_FILE == TILESET_EXTERNAL_FILE {
        u32_le(or_zero(m.external_file_id)) + u32_le(or_zero(m.external_tileset_id))
    } else {
        Seq::<u8>::empty()
    }) + if m.flags & TILESET_EMBEDDED == TILESET_EMBEDDED {
        match m.compressed_data {
            Some(c) => u32_le(c.len() as u32) + c,
            None => u32_le(0),
        }
    } else {
        Seq::<u8>::empty()
    }
}

/// What reading a tileset chunk from `d` gives: the fixed fields and the
/// name, then the external ids and the compressed tiles that the flags (the
/// bits that name no flag dropped) announce.
pub open spec fn parse_tileset(d: Seq<u8>) -> Result<TilesetModel, ReadError> {
    if !avail(d, 0, 34) || !avail(d, 34, u16_at(d, 32) as int) {
        Err(ReadError::UnexpectedEnd)
    } else {
        let n = u16_at(d, 32) as int;
        let q = 34 + n;
        let flags = u32_at(d, 4) & TILESET_ALL_FLAGS;
        let external = flags & TILESET_EXTERNAL_FILE == TILESET_EXTERNAL_FILE;
        let embedded = flags & TILESET_EMBEDDED == TILESET_EMBEDDED;
        let q2 = if external {
            q + 8
        } else {
            q
        };
        if external && !avail(d, q, 8) {
            Err(ReadError::UnexpectedEnd)
        } else if embedded && (!avail(d, q2, 4) || !avail(d, q2 + 4, u32_at(d, q2) as int)) {
            Err(ReadError::UnexpectedEnd)
        } else {
            Ok(
                TilesetModel {
                    id: u32_at(d, 0),
                    flags,
                    num_tiles: u32_at(d, 8),
                    tile_width: u16_at(d, 12),
                    tile_height: u16_at(d, 14),
                    base_index: u16_at(d, 16) as i16,
                    name: lossy_text(d.subrange(34, q)),
                    external_file_id: if external {
                        Some(u32_at(d, q))
                    } else {
                        None
                    },
                    external_tileset_id: if external {
                        Some(u32_at(d, q + 4))
                    } else {
                        None
                    },
                    compressed_data: if embedded {
                        Some(d.subrange(q2 + 4, q2 + 4 + u32_at(d, q2)))
                    } else {
                        None
                    },
                },
            )
        }
    }
}

/// Whether a tileset chunk reads back unchanged: its flags name only
/// tileset flags, it has both external ids exactly when flagged external
/// and compressed tiles exactly when flagged embedded, and the name and the
/// tiles fit their counts.
pub open spec fn tileset_well_formed(m: TilesetModel) -> bool {
    &&& m.flags & TILESET_ALL_FLAGS == m.flags
    &&& (m.flags & TILESET_EXTERNAL_FILE == TILESET_EXTERNAL_FILE <==> m.external_file_id is Some)
    &&& (m.flags & TILESET_EXTERNAL_FILE == TILESET_EXTERNAL_FILE
        <==> m.external_tileset_id is Some)
    &&& (m.flags & TILESET_EMBEDDED == TILESET_EMBEDDED <==> m.compressed_data is Some)
    &&& encode_utf8_len(m.name) <= u16::MAX
    &&& m.compressed_data matches Some(c) ==> c.len() <= u32::MAX
}

impl TilesetChunk {
    /// The chunk type of a tileset chunk.
    pub fn chunk_type(&self) -> (t: u16)
        ensures
            t == TILESET_CHUNK_TYPE,
    {
        TILESET_CHUNK_TYPE
    }

    /// The chunk's bytes.
    pub fn to_block(&self) -> (b: Vec<u8>)
        requires
            encode_utf8_len(self.name@) <= u16::MAX,
            self@.compressed_data matches Some(c) ==> c.len() <= u32::MAX,
        ensures
            b@ == tileset_bytes(self@),
    {
        let mut data: Vec<u8> = Vec::new();
        put_u32_le(&mut data, self.id);
        put_u32_le(&mut data, self.flags);
        put_u32_le(&mut data, self.num_tiles);
        put_u16_le(&mut data, self.tile_width);
        put_u16_le(&mut data, self.tile_height);
        put_u16_le(&mut data, self.base_index as u16);
        put_zeros(&mut data, 14);
        put_name(&mut data, &self.name);
        let ghost mid = data@;
        if self.flags & TILESET_EXTERNAL_FILE == TILESET_EXTERNAL_FILE {
            let file_id: u32 = match self.external_file_id {
                Some(x) => x,
                None => 0,
            };
            let tileset_id: u32 = match self.external_tileset_id {
                Some(x) => x,
                None => 0,
            };
            put_u32_le(&mut data, file_id);
            put_u32_le(&mut data, tileset_id);
        }
        if self.flags & TILESET_EMBEDDED == TILESET_EMBEDDED {
            if let Some(compressed) = &self.compressed_data {
                put_u32_le(&mut data, compressed.len() as u32);
                put_slice(&mut data, compressed.as_slice());
            } else {
                put_u32_le(&mut data, 0);
            }
        }
        assert(data@ =~= tileset_bytes(self@));
        data
    }

    /// Reads a tileset chunk: the result is [`parse_tileset`] of the bytes.
    pub fn from_block(data: &[u8]) -> (r: Result<TilesetChunk, ReadError>)
        ensures
            match parse_tileset(data@) {
                Ok(m) => r matches Ok(c) && c@ == m,
                Err(e) => r matches Err(x) && x == e,
            },
    {
        let (id, p) = read_u32(data, 0)?;
        let (flags_val, p) = read_u32(data, p)?;
        let flags = flags_val & TILESET_ALL_FLAGS;
        let (num_tiles, p) = read_u32(data, p)?;
        let (tile_width, p) = read_u16(data, p)?;
        let (tile_height, p) = read_u16(data, p)?;
        let (base_index, p) = read_u16(data, p)?;
        let p = skip_bytes(data, p, 14)?;
        let (name, p) = read_lossy_name(data, p)?;
        let (external_file_id, external_tileset_id, p) = if flags & TILESET_EXTERNAL_FILE
            == TILESET_EXTERNAL_FILE {
            let (a, p) = read_u32(data, p)?;
            let (b, p) = read_u32(data, p)?;
            (Some(a), Some(b), p)
        } else {
            (None, None, p)
        };
        let compressed_data = if flags & TILESET_EMBEDDED == TILESET_EMBEDDED {
            let (len, q) = read_u32(data, p)?;
            let (bytes, _q2) = read_bytes(data, q, len as usize)?;
            Some(bytes)
        } else {
            None
        };
        let c = TilesetChunk {
            id,
            flags,
            num_tiles,
            tile_width,
            tile_height,
            base_index: base_index as i16,
            name,
            external_file_id,
            external_tileset_id,
            compressed_data,
        };
        assert(c@ == parse_tileset(data@)->Ok_0);
        Ok(c)
    }
}

/// Reading a written tileset chunk gives it back, for every well-formed
/// chunk.
pub proof fn lemma_tileset_roundtrip(m: TilesetModel)
    requires
        tileset_well_formed(m),
    ensures
        parse_tileset(tileset_bytes(m)) == Ok::<TilesetModel, ReadError>(m),
{
    let d = tileset_bytes(m);
    let nb = name_bytes(m.name);
    let n = encode_utf8_len(m.name);
    assert(d.subrange(0, 4) =~= u32_le(m.id));
    lemma_u32_at(d, 0, m.id);
    assert(d.subrange(4, 8) =~= u32_le(m.flags));
    lemma_u32_at(d, 4, m.flags);
    assert(d.subrange(8, 12) =~= u32_le(m.num_tiles));
    lemma_u32_at(d, 8, m.num_tiles);
    assert(d.subrange(12, 14) =~= u16_le(m.tile_width));
    lemma_u16_at(d, 12, m.tile_width);
    assert(d.subrange(14, 16) =~= u16_le(m.tile_height));
    lemma_u16_at(d, 14, m.tile_height);
    assert(d.subrange(16, 18) =~= u16_le(m.base_index as u16));
    lemma_u16_at(d, 16, m.base_index as u16);
    crate::bytes_le::lemma_signed_casts(0, m.base_index, 0, 0);
    assert(d.subrange(32, 32 + nb.len() as int) =~= nb);
    lemma_name_roundtrip(m.name, d, 32);
    let q: int = 34 + n;
    let external = m.flags & TILESET_EXTERNAL_FILE == TILESET_EXTERNAL_FILE;
    if external {
        assert(d.subrange(q, q + 4) =~= u32_le(or_zero(m.external_file_id)));
        lemma_u32_at(d, q, or_zero(m.external_file_id));
        assert(d.subrange(q + 4, q + 8) =~= u32_le(or_zero(m.external_tileset_id)));
        lemma_u32_at(d, q + 4, or_zero(m.external_tileset_id));
    }
    let q2: int = if external {
        q + 8
    } else {
        q
    };
    if let Some(c) = m.compressed_data {
        assert(d.subrange(q2, q2 + 4) =~= u32_le(c.len() as u32));
        lemma_u32_at(d, q2, c.len() as u32);
        assert(d.subrange(q2 + 4, q2 + 4 + c.len()) =~= c);
    }
    assert(m.flags & TILESET_ALL_FLAGS == m.flags);
}

} // verus!
