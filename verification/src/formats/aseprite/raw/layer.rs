//! The layer chunk.
use vstd::prelude::*;

use crate::bytes_le::{put_slice, put_u16_le, put_u32_le, put_u8, put_zeros, u16_at, u16_le, u32_at, u32_le, zeros};
use crate::formats::aseprite::{
    blend_code, blend_of_code, lemma_blend_code_roundtrip, BlendMode, LayerFlags, LayerType,
    LAYER_ALL_FLAGS,
};
use crate::formats::aseprite::raw::{
    encode_utf8_len, avail, lemma_name_roundtrip, name_bytes, put_name, read_array16,
    read_lossy_name, read_u16, read_u32, read_u8, skip_bytes, ReadError,
};
use crate::strings::lossy_text;

verus! {

/// The chunk type of a layer chunk.
pub const LAYER_CHUNK_TYPE: u16 = 0x2004;

/// A layer chunk.
#[derive(Clone, Debug)]
pub struct LayerChunk {
    pub flags: LayerFlags,
    pub layer_type: LayerType,
    pub child_level: u16,
    pub default_width: u16,
    pub default_height: u16,
    pub blend_mode: BlendMode,
    pub opacity: u8,
    pub layer_name: String,
    pub uuid: Option<[u8; 16]>,
}

/// The model of a [`LayerChunk`]: flags by their bits, the name by its
/// characters, the UUID by its bytes.
pub struct LayerModel {
    pub flags: u16,
    pub layer_type: LayerType,
    pub child_level: u16,
    pub default_width: u16,
    pub default_height: u16,
    pub blend_mode: BlendMode,
    pub opacity: u8,
    pub layer_name: Seq<char>,
    pub uuid: Option<Seq<u8>>,
}

impl View for LayerChunk {
    type V = LayerModel;

    open spec fn view(&self) -> LayerModel {
        LayerModel {
            flags: self.flags@,
            layer_type: self.layer_type,
            child_level: self.child_level,
            default_width: self.default_width,
            default_height: self.default_height,
            blend_mode: self.blend_mode,
            opacity: self.opacity,
            layer_name: self.layer_name@,
            uuid: match self.uuid {
                Some(u) => Some(u@),
                None => None,
            },
        }
    }
}

/// The number that stands for a layer type in a file.
pub open spec fn layer_type_code(t: LayerType) -> u16 {
    match t {
        LayerType::Normal => 0,
        LayerType::Group => 1,
        LayerType::Tilemap { .. } => 2,
    }
}

/// The bytes of a layer chunk. The default width and height are written as 0.
pub open spec fn layer_bytes(m: LayerModel) -> Seq<u8> {
    u16_le(m.flags) + u16_le(layer_type_code(m.layer_type)) + u16_le(m.child_level) + u16_le(0)
        + u16_le(0) + u16_le(blend_code(m.blend_mode)) + seq![m.opacity] + zeros(3) + name_bytes(
        m.layer_name,
    ) + match m.layer_type {
        LayerType::Tilemap { tileset_index } => u32_le(tileset_index),
        _ => Seq::<u8>::empty(),
    } + match m.uuid {
        Some(u) => u,
        None => Seq::<u8>::empty(),
    }
}

/// What reading a layer chunk from `d` gives: the fields at their offsets,
/// the name after them, a tileset index after the name for a tilemap layer,
/// and a UUID when 16 more bytes follow; or the first error met in that
/// order of reading (the layer type is checked after the name, the blend
/// mode after the tileset index).
pub open spec fn parse_layer(d: Seq<u8>) -> Result<LayerModel, ReadError> {
    if !avail(d, 0, 18) {
        Err(ReadError::UnexpectedEnd)
    } else {
        let n = u16_at(d, 16) as int;
        let q = 18 + n;
        let code = u16_at(d, 2);
        if !avail(d, 18, n) {
            Err(ReadError::UnexpectedEnd)
        } else if code > 2 {
            Err(ReadError::InvalidLayerType(code))
        } else if code == 2 && !avail(d, q, 4) {
            Err(ReadError::UnexpectedEnd)
        } else {
            let layer_type = if code == 0 {
                LayerType::Normal
            } else if code == 1 {
                LayerType::Group
            } else {
                LayerType::Tilemap { tileset_index: u32_at(d, q) }
            };
            let q2 = if code == 2 {
                q + 4
            } else {
                q
            };
            match blend_of_code(u16_at(d, 10)) {
                None => Err(ReadError::InvalidBlendMode(u16_at(d, 10))),
                Some(blend_mode) => Ok(
                    LayerModel {
                        flags: u16_at(d, 0) & LAYER_ALL_FLAGS,
                        layer_type,
                        child_level: u16_at(d, 4),
                        default_width: 0,
                        default_height: 0,
                        blend_mode,
                        opacity: d[12],
                        layer_name: lossy_text(d.subrange(18, q)),
                        uuid: if avail(d, q2, 16) {
                            Some(d.subrange(q2, q2 + 16))
                        } else {
                            None
                        },
                    },
                ),
            }
        }
    }
}

/// Whether a layer chunk can be written and reads back unchanged: its flags
/// name only layer flags, its default size is 0 by 0 (it is not written),
/// its name fits a `u16` byte count, and a UUID has 16 bytes.
pub open spec fn layer_well_formed(m: LayerModel) -> bool {
    &&& m.flags & LAYER_ALL_FLAGS == m.flags
    &&& m.default_width == 0
    &&& m.default_height == 0
    &&& encode_utf8_len(m.layer_name) <= u16::MAX
    &&& m.uuid matches Some(u) ==> u.len() == 16
}

impl LayerChunk {
    /// The chunk type of a layer chunk.
    pub fn chunk_type(&self) -> (t: u16)
        ensures
            t == LAYER_CHUNK_TYPE,
    {
        LAYER_CHUNK_TYPE
    }

    /// The chunk's bytes.
    pub fn to_block(&self) -> (b: Vec<u8>)
        requires
            encode_utf8_len(self.layer_name@) <= u16::MAX,
        ensures
            b@ == layer_bytes(self@),
    {
        let mut data: Vec<u8> = Vec::new();
        put_u16_le(&mut data, self.flags.bits());
        let code: u16 = match self.layer_type {
            LayerType::Normal => 0,
            LayerType::Group => 1,
            LayerType::Tilemap { .. } => 2,
        };
        put_u16_le(&mut data, code);
        put_u16_le(&mut data, self.child_level);
        put_u16_le(&mut data, 0);
        put_u16_le(&mut data, 0);
        put_u16_le(&mut data, self.blend_mode.to_u16());
        put_u8(&mut data, self.opacity);
        put_zeros(&mut data, 3);
        put_name(&mut data, &self.layer_name);
        let ghost before_tail = data@;
        if let LayerType::Tilemap { tileset_index } = self.layer_type {
            put_u32_le(&mut data, tileset_index);
        }
        let ghost before_uuid = data@;
        if let Some(uuid) = &self.uuid {
            put_slice(&mut data, uuid.as_slice());
        }
        assert(data@ =~= layer_bytes(self@));
        data
    }

    /// Reads a layer chunk: the result is [`parse_layer`] of the bytes.
    pub fn from_block(data: &[u8]) -> (r: Result<LayerChunk, ReadError>)
        ensures
            match parse_layer(data@) {
                Ok(m) => r matches Ok(c) && c@ == m,
                Err(e) => r matches Err(x) && x == e,
            },
    {
        let (flags_val, p) = read_u16(data, 0)?;
        let (type_val, p) = read_u16(data, p)?;
        let (child_level, p) = read_u16(data, p)?;
        let (_default_width, p) = read_u16(data, p)?;
        let (_default_height, p) = read_u16(data, p)?;
        let (blend_val, p) = read_u16(data, p)?;
        let (opacity, p) = read_u8(data, p)?;
        let p = skip_bytes(data, p, 3)?;
        let (layer_name, p) = read_lossy_name(data, p)?;
        let (layer_type, p) = if type_val == 0 {
            (LayerType::Normal, p)
        } else if type_val == 1 {
            (LayerType::Group, p)
        } else if type_val == 2 {
            let (tileset_index, p) = read_u32(data, p)?;
            (LayerType::Tilemap { tileset_index }, p)
        } else {
            return Err(ReadError::InvalidLayerType(type_val));
        };
        let blend_mode = match BlendMode::from_u16(blend_val) {
            Some(b) => b,
            None => {
                return Err(ReadError::InvalidBlendMode(blend_val));
            },
        };
        let uuid = if data.len() - p >= 16 {
            let (u, _) = read_array16(data, p)?;
            Some(u)
        } else {
            None
        };
        let c = LayerChunk {
            flags: LayerFlags::from_bits_truncate(flags_val),
            layer_type,
            child_level,
            blend_mode,
            opacity,
            layer_name,
            uuid,
            default_width: 0,
            default_height: 0,
        };
        assert(c@ == parse_layer(data@)->Ok_0);
        Ok(c)
    }
}

/// Reading a written layer chunk gives it back, for every well-formed chunk.
pub proof fn lemma_layer_roundtrip(m: LayerModel)
    requires
        layer_well_formed(m),
    ensures
        parse_layer(layer_bytes(m)) == Ok::<LayerModel, ReadError>(m),
{
    let d = layer_bytes(m);
    let nb = name_bytes(m.layer_name);
    let n = encode_utf8_len(m.layer_name);
    let tail = match m.layer_type {
        LayerType::Tilemap { tileset_index } => u32_le(tileset_index),
        _ => Seq::<u8>::empty(),
    };
    let ub = match m.uuid {
        Some(u) => u,
        None => Seq::<u8>::empty(),
    };
    let head = u16_le(m.flags) + u16_le(layer_type_code(m.layer_type)) + u16_le(m.child_level)
        + u16_le(0) + u16_le(0) + u16_le(blend_code(m.blend_mode)) + seq![m.opacity] + zeros(3);
    assert(head.len() == 16);
    assert(d =~= head + nb + tail + ub);
    assert(d.subrange(16, 16 + nb.len() as int) =~= nb);
    lemma_name_roundtrip(m.layer_name, d, 16);
    assert(d.subrange(0, 2) =~= u16_le(m.flags));
    crate::bytes_le::lemma_u16_at(d, 0, m.flags);
    assert(d.subrange(2, 4) =~= u16_le(layer_type_code(m.layer_type)));
    crate::bytes_le::lemma_u16_at(d, 2, layer_type_code(m.layer_type));
    assert(d.subrange(4, 6) =~= u16_le(m.child_level));
    crate::bytes_le::lemma_u16_at(d, 4, m.child_level);
    assert(d.subrange(10, 12) =~= u16_le(blend_code(m.blend_mode)));
    crate::bytes_le::lemma_u16_at(d, 10, blend_code(m.blend_mode));
    lemma_blend_code_roundtrip(m.blend_mode);
    assert(d[12] == m.opacity);
    let q = 18 + n;
    if let LayerType::Tilemap { tileset_index } = m.layer_type {
        assert(d.subrange(q, q + 4) =~= u32_le(tileset_index));
        crate::bytes_le::lemma_u32_at(d, q, tileset_index);
    }
    let q2 = q + tail.len();
    assert(d.len() == q2 + ub.len());
    if let Some(u) = m.uuid {
        assert(d.subrange(q2, q2 + 16) =~= u);
    }
    assert(m.flags & LAYER_ALL_FLAGS == m.flags);
}

} // verus!
