//! The cel chunk: a layer's image in a frame, stored raw, linked to another
//! frame's cel, compressed, or as a compressed tilemap.
use vstd::prelude::*;

use crate::bytes_le::{
    copy_range, lemma_u16_at, lemma_u32_at, put_slice, put_u16_le, put_u32_le, put_u8, put_zeros,
    u16_at, u16_le, u32_at, u32_le, zeros,
};
use crate::formats::aseprite::raw::{avail, read_u16, read_u32, read_u8, skip_bytes, ReadError};

verus! {

/// The chunk type of a cel chunk.
pub const CEL_CHUNK_TYPE: u16 = 0x2005;

/// An uncompressed image.
#[derive(Clone, Debug)]
pub struct RawCel {
    pub width: u16,
    pub height: u16,
    pub pixels: Vec<u8>,
}

/// A cel that shows the cel of the same layer in another frame.
#[derive(Clone, Copy, Debug, PartialEq, Eq, Structural)]
pub struct LinkedCel {
    pub frame_position: u16,
}

/// A zlib-compressed image.
#[derive(Clone, Debug)]
pub struct CompressedCel {
    pub width: u16,
    pub height: u16,
    pub data: Vec<u8>,
}

/// A zlib-compressed tilemap.
#[derive(Clone, Debug)]
pub struct CompressedTilemapCel {
    pub width: u16,
    pub height: u16,
    pub bits_per_tile: u16,
    pub tile_id_bitmask: u32,
    pub x_flip_bitmask: u32,
    pub y_flip_bitmask: u32,
    pub diagonal_flip_bitmask: u32,
    pub tiles: Vec<u8>,
}

/// The content of a cel.
#[derive(Clone, Debug)]
pub enum CelType {
    Raw(RawCel),
    Linked(LinkedCel),
    Compressed(CompressedCel),
    CompressedTilemap(CompressedTilemapCel),
}

/// A cel chunk.
#[derive(Clone, Debug)]
pub struct CelChunk {
    pub layer_index: u16,
    pub x: i16,
    pub y: i16,
    pub opacity: u8,
    pub cel_type: CelType,
    pub z_index: i16,
    pub reserved: [u8; 5],
}

/// The model of a cel's content: byte vectors by their bytes.
pub enum CelTypeModel {
    Raw { width: u16, height: u16, pixels: Seq<u8> },
    Linked { frame_position: u16 },
    Compressed { width: u16, height: u16, data: Seq<u8> },
    CompressedTilemap {
        width: u16,
        height: u16,
        bits_per_tile: u16,
        tile_id_bitmask: u32,
        x_flip_bitmask: u32,
        y_flip_bitmask: u32,
        diagonal_flip_bitmask: u32,
        tiles: Seq<u8>,
    },
}

/// The model of a [`CelChunk`].
pub struct CelModel {
    pub layer_index: u16,
    pub x: i16,
    pub y: i16,
    pub opacity: u8,
    pub cel_type: CelTypeModel,
    pub z_index: i16,
    pub reserved: Seq<u8>,
}

impl View for CelType {
    type V = CelTypeModel;

    open spec fn view(&self) -> CelTypeModel {
        match self {
            CelType::Raw(c) => CelTypeModel::Raw {
                width: c.width,
                height: c.height,
                pixels: c.pixels@,
            },
            CelType::Linked(c) => CelTypeModel::Linked { frame_position: c.frame_position },
            CelType::Compressed(c) => CelTypeModel::Compressed {
                width: c.width,
                height: c.height,
                data: c.data@,
            },
            CelType::CompressedTilemap(c) => CelTypeModel::CompressedTilemap {
                width: c.width,
                height: c.height,
                bits_per_tile: c.bits_per_tile,
                tile_id_bitmask: c.tile_id_bitmask,
                x_flip_bitmask: c.x_flip_bitmask,
                y_flip_bitmask: c.y_flip_bitmask,
                diagonal_flip_bitmask: c.diagonal_flip_bitmask,
                tiles: c.tiles@,
            },
        }
    }
}

impl View for CelChunk {
    type V = CelModel;

    open spec fn view(&self) -> CelModel {
        CelModel {
            layer_index: self.layer_index,
            x: self.x,
            y: self.y,
            opacity: self.opacity,
            cel_type: self.cel_type@,
            z_index: self.z_index,
            reserved: self.reserved@,
        }
    }
}

/// The number that stands for a cel's content type in a file.
pub open spec fn cel_type_code(t: CelTypeModel) -> u16 {
    match t {
        CelTypeModel::Raw { .. } => 0,
        CelTypeModel::Linked { .. } => 1,
        CelTypeModel::Compressed { .. } => 2,
        CelTypeModel::CompressedTilemap { .. } => 3,
    }
}

/// The bytes of a cel's content.
pub open spec fn cel_body_bytes(t: CelTypeModel) -> Seq<u8> {
    match t {
        CelTypeModel::Raw { width, height, pixels } => u16_le(width) + u16_le(height) + pixels,
        CelTypeModel::Linked { frame_position } => u16_le(frame_position),
        CelTypeModel::Compressed { width, height, data } => u16_le(width) + u16_le(height) + data,
        CelTypeModel::CompressedTilemap {
            width,
            height,
            bits_per_tile,
            tile_id_bitmask,
            x_flip_bitmask,
            y_flip_bitmask,
            diagonal_flip_bitmask,
            tiles,
        } => u16_le(width) + u16_le(height) + u16_le(bits_per_tile) + u32_le(tile_id_bitmask)
            + u32_le(x_flip_bitmask) + u32_le(y_flip_bitmask) + u32_le(diagonal_flip_bitmask)
            + zeros(10) + tiles,
    }
}

/// The 16 bytes that precede a cel's content. The reserved bytes are
/// written as zeros.
pub open spec fn cel_head_bytes(m: CelModel) -> Seq<u8> {
    u16_le(m.layer_index) + u16_le(m.x as u16) + u16_le(m.y as u16) + seq![m.opacity] + u16_le(
        cel_type_code(m.cel_type),
    ) + u16_le(m.z_index as u16) + zeros(5)
}

/// The bytes of a cel chunk.
pub open spec fn cel_bytes(m: CelModel) -> Seq<u8> {
    cel_head_bytes(m) + cel_body_bytes(m.cel_type)
}

/// What reading a cel's content of type `code` from offset 16 of `d` gives:
/// the fixed fields, then all the rest of `d` as the pixels, data or tiles.
pub open spec fn parse_cel_body(code: u16, d: Seq<u8>) -> Result<CelTypeModel, ReadError> {
    if code == 0 {
        if !avail(d, 16, 4) {
            Err(ReadError::UnexpectedEnd)
        } else {
            Ok(
                CelTypeModel::Raw {
                    width: u16_at(d, 16),
                    height: u16_at(d, 18),
                    pixels: d.subrange(20, d.len() as int),
                },
            )
        }
    } else if code == 1 {
        if !avail(d, 16, 2) {
            Err(ReadError::UnexpectedEnd)
        } else {
            Ok(CelTypeModel::Linked { frame_position: u16_at(d, 16) })
        }
    } else if code == 2 {
        if !avail(d, 16, 4) {
            Err(ReadError::UnexpectedEnd)
        } else {
            Ok(
                CelTypeModel::Compressed {
                    width: u16_at(d, 16),
                    height: u16_at(d, 18),
                    data: d.subrange(20, d.len() as int),
                },
            )
        }
    } else if code == 3 {
        if !avail(d, 16, 32) {
            Err(ReadError::UnexpectedEnd)
        } else {
            Ok(
                CelTypeModel::CompressedTilemap {
                    width: u16_at(d, 16),
                    height: u16_at(d, 18),
                    bits_per_tile: u16_at(d, 20),
                    tile_id_bitmask: u32_at(d, 22),
                    x_flip_bitmask: u32_at(d, 26),
                    y_flip_bitmask: u32_at(d, 30),
                    diagonal_flip_bitmask: u32_at(d, 34),
                    tiles: d.subrange(48, d.len() as int),
                },
            )
        }
    } else {
        Err(ReadError::InvalidCelType(code))
    }
}

/// What reading a cel chunk from `d` gives: the 16-byte head, then the
/// content of the type it names; the reserved bytes read as zeros.
pub open spec fn parse_cel(d: Seq<u8>) -> Result<CelModel, ReadError> {
    if !avail(d, 0, 16) {
        Err(ReadError::UnexpectedEnd)
    } else {
        match parse_cel_body(u16_at(d, 7), d) {
            Err(e) => Err(e),
            Ok(cel_type) => Ok(
                CelModel {
                    layer_index: u16_at(d, 0),
                    x: u16_at(d, 2) as i16,
                    y: u16_at(d, 4) as i16,
                    opacity: d[6],
                    cel_type,
                    z_index: u16_at(d, 9) as i16,
                    reserved: zeros(5),
                },
            ),
        }
    }
}

/// Whether a cel chunk reads back unchanged: its reserved bytes are zeros
/// (they are written as zeros).
pub open spec fn cel_well_formed(m: CelModel) -> bool {
    m.reserved == zeros(5)
}

impl RawCel {
    /// Appends the cel's bytes.
    pub fn write(&self, data: &mut Vec<u8>)
        ensures
            final(data)@ == old(data)@ + cel_body_bytes(CelType::Raw(*self)@),
    {
        put_u16_le(data, self.width);
        put_u16_le(data, self.height);
        put_slice(data, self.pixels.as_slice());
        assert(final(data)@ =~= old(data)@ + cel_body_bytes(CelType::Raw(*self)@));
    }

    /// Reads the cel at offset 16 of `data`, taking all the rest as pixels.
    pub fn read(data: &[u8]) -> (r: Result<RawCel, ReadError>)
        requires
            data@.len() >= 16,
        ensures
            match parse_cel_body(0, data@) {
                Ok(m) => r matches Ok(c) && CelType::Raw(c)@ == m,
                Err(e) => r matches Err(x) && x == e,
            },
    {
        let (width, p) = read_u16(data, 16)?;
        let (height, p) = read_u16(data, p)?;
        let pixels = copy_range(data, p, data.len() - p);
        Ok(RawCel { width, height, pixels })
    }
}

impl LinkedCel {
    /// Appends the cel's bytes.
    pub fn write(&self, data: &mut Vec<u8>)
        ensures
            final(data)@ == old(data)@ + cel_body_bytes(CelType::Linked(*self)@),
    {
        put_u16_le(data, self.frame_position);
    }

    /// Reads the cel at offset 16 of `data`.
    pub fn read(data: &[u8]) -> (r: Result<LinkedCel, ReadError>)
        requires
            data@.len() >= 16,
        ensures
            match parse_cel_body(1, data@) {
                Ok(m) => r matches Ok(c) && CelType::Linked(c)@ == m,
                Err(e) => r matches Err(x) && x == e,
            },
    {
        let (frame_position, _p) = read_u16(data, 16)?;
        Ok(LinkedCel { frame_position })
    }
}

impl CompressedCel {
    /// Appends the cel's bytes.
    pub fn write(&self, data: &mut Vec<u8>)
        ensures
            final(data)@ == old(data)@ + cel_body_bytes(CelType::Compressed(*self)@),
    {
        put_u16_le(data, self.width);
        put_u16_le(data, self.height);
        put_slice(data, self.data.as_slice());
        assert(final(data)@ =~= old(data)@ + cel_body_bytes(CelType::Compressed(*self)@));
    }

    /// Reads the cel at offset 16 of `data`, taking all the rest as data.
    pub fn read(data: &[u8]) -> (r: Result<CompressedCel, ReadError>)
        requires
            data@.len() >= 16,
        ensures
            match parse_cel_body(2, data@) {
                Ok(m) => r matches Ok(c) && CelType::Compressed(c)@ == m,
                Err(e) => r matches Err(x) && x == e,
            },
    {
        let (width, p) = read_u16(data, 16)?;
        let (height, p) = read_u16(data, p)?;
        let rest = copy_range(data, p, data.len() - p);
        Ok(CompressedCel { width, height, data: rest })
    }
}

impl CompressedTilemapCel {
    /// Appends the cel's bytes.
    pub fn write(&self, data: &mut Vec<u8>)
        ensures
            final(data)@ == old(data)@ + cel_body_bytes(CelType::CompressedTilemap(*self)@),
    {
        put_u16_le(data, self.width);
        put_u16_le(data, self.height);
        put_u16_le(data, self.bits_per_tile);
        put_u32_le(data, self.tile_id_bitmask);
        put_u32_le(data, self.x_flip_bitmask);
        put_u32_le(data, self.y_flip_bitmask);
        put_u32_le(data, self.diagonal_flip_bitmask);
        put_zeros(data, 10);
        put_slice(data, self.tiles.as_slice());
        assert(final(data)@ =~= old(data)@ + cel_body_bytes(CelType::CompressedTilemap(*self)@));
    }

    /// Reads the cel at offset 16 of `data`, taking all the rest as tiles.
    pub fn read(data: &[u8]) -> (r: Result<CompressedTilemapCel, ReadError>)
        requires
            data@.len() >= 16,
        ensures
            match parse_cel_body(3, data@) {
                Ok(m) => r matches Ok(c) && CelType::CompressedTilemap(c)@ == m,
                Err(e) => r matches Err(x) && x == e,
            },
    {
        let (width, p) = read_u16(data, 16)?;
        let (height, p) = read_u16(data, p)?;
        let (bits_per_tile, p) = read_u16(data, p)?;
        let (tile_id_bitmask, p) = read_u32(data, p)?;
        let (x_flip_bitmask, p) = read_u32(data, p)?;
        let (y_flip_bitmask, p) = read_u32(data, p)?;
        let (diagonal_flip_bitmask, p) = read_u32(data, p)?;
        let p = skip_bytes(data, p, 10)?;
        let tiles = copy_range(data, p, data.len() - p);
        Ok(
            CompressedTilemapCel {
                width,
                height,
                bits_per_tile,
                tile_id_bitmask,
                x_flip_bitmask,
                y_flip_bitmask,
                diagonal_flip_bitmask,
                tiles,
            },
        )
    }
}

impl CelChunk {
    /// The chunk type of a cel chunk.
    pub fn chunk_type(&self) -> (t: u16)
        ensures
            t == CEL_CHUNK_TYPE,
    {
        CEL_CHUNK_TYPE
    }

    /// The chunk's bytes.
    pub fn to_block(&self) -> (b: Vec<u8>)
        ensures
            b@ == cel_bytes(self@),
    {
        let mut data: Vec<u8> = Vec::new();
        put_u16_le(&mut data, self.layer_index);
        put_u16_le(&mut data, self.x as u16);
        put_u16_le(&mut data, self.y as u16);
        put_u8(&mut data, self.opacity);
        let type_val: u16 = match &self.cel_type {
            CelType::Raw(_) => 0,
            CelType::Linked(_) => 1,
            CelType::Compressed(_) => 2,
            CelType::CompressedTilemap(_) => 3,
        };
        put_u16_le(&mut data, type_val);
        put_u16_le(&mut data, self.z_index as u16);
        put_zeros(&mut data, 5);
        assert(data@ =~= cel_head_bytes(self@));
        match &self.cel_type {
            CelType::Raw(cel) => cel.write(&mut data),
            CelType::Linked(cel) => cel.write(&mut data),
            CelType::Compressed(cel) => cel.write(&mut data),
            CelType::CompressedTilemap(cel) => cel.write(&mut data),
        }
        data
    }

    /// Reads a cel chunk: the result is [`parse_cel`] of the bytes.
    pub fn from_block(data: &[u8]) -> (r: Result<CelChunk, ReadError>)
        ensures
            match parse_cel(data@) {
                Ok(m) => r matches Ok(c) && c@ == m,
                Err(e) => r matches Err(x) && x == e,
            },
    {
        let (layer_index, p) = read_u16(data, 0)?;
        let (x, p) = read_u16(data, p)?;
        let (y, p) = read_u16(data, p)?;
        let (opacity, p) = read_u8(data, p)?;
        let (cel_type_val, p) = read_u16(data, p)?;
        let (z_index, p) = read_u16(data, p)?;
        let _p = skip_bytes(data, p, 5)?;
        let cel_type = if cel_type_val == 0 {
            CelType::Raw(RawCel::read(data)?)
        } else if cel_type_val == 1 {
            CelType::Linked(LinkedCel::read(data)?)
        } else if cel_type_val == 2 {
            CelType::Compressed(CompressedCel::read(data)?)
        } else if cel_type_val == 3 {
            CelType::CompressedTilemap(CompressedTilemapCel::read(data)?)
        } else {
            return Err(ReadError::InvalidCelType(cel_type_val));
        };
        let c = CelChunk {
            layer_index,
            x: x as i16,
            y: y as i16,
            opacity,
            cel_type,
            z_index: z_index as i16,
            reserved: [0u8; 5],
        };
        assert(c.reserved@ =~= zeros(5));
        Ok(c)
    }
}

/// Reading a written cel chunk gives it back, for every chunk whose
/// reserved bytes are zeros.
pub proof fn lemma_cel_roundtrip(m: CelModel)
    requires
        cel_well_formed(m),
    ensures
        parse_cel(cel_bytes(m)) == Ok::<CelModel, ReadError>(m),
{
    let d = cel_bytes(m);
    let h = cel_head_bytes(m);
    let body = cel_body_bytes(m.cel_type);
    assert(h.len() == 16);
    assert(d =~= h + body);
    assert(d.subrange(0, 2) =~= u16_le(m.layer_index));
    lemma_u16_at(d, 0, m.layer_index);
    assert(d.subrange(2, 4) =~= u16_le(m.x as u16));
    lemma_u16_at(d, 2, m.x as u16);
    assert(d.subrange(4, 6) =~= u16_le(m.y as u16));
    lemma_u16_at(d, 4, m.y as u16);
    assert(d.subrange(7, 9) =~= u16_le(cel_type_code(m.cel_type)));
    lemma_u16_at(d, 7, cel_type_code(m.cel_type));
    assert(d.subrange(9, 11) =~= u16_le(m.z_index as u16));
    lemma_u16_at(d, 9, m.z_index as u16);
    crate::bytes_le::lemma_signed_casts(0, m.x, 0, 0);
    crate::bytes_le::lemma_signed_casts(0, m.y, 0, 0);
    crate::bytes_le::lemma_signed_casts(0, m.z_index, 0, 0);
    match m.cel_type {
        CelTypeModel::Raw { width, height, pixels } => {
            assert(d.subrange(16, 18) =~= u16_le(width));
            lemma_u16_at(d, 16, width);
            assert(d.subrange(18, 20) =~= u16_le(height));
            lemma_u16_at(d, 18, height);
            assert(d.subrange(20, d.len() as int) =~= pixels);
        },
        CelTypeModel::Linked { frame_position } => {
            assert(d.subrange(16, 18) =~= u16_le(frame_position));
            lemma_u16_at(d, 16, frame_position);
        },
        CelTypeModel::Compressed { width, height, data } => {
            assert(d.subrange(16, 18) =~= u16_le(width));
            lemma_u16_at(d, 16, width);
            assert(d.subrange(18, 20) =~= u16_le(height));
            lemma_u16_at(d, 18, height);
            assert(d.subrange(20, d.len() as int) =~= data);
        },
        CelTypeModel::CompressedTilemap {
            width,
            height,
            bits_per_tile,
            tile_id_bitmask,
            x_flip_bitmask,
            y_flip_bitmask,
            diagonal_flip_bitmask,
            tiles,
        } => {
            assert(d.subrange(16, 18) =~= u16_le(width));
            lemma_u16_at(d, 16, width);
            assert(d.subrange(18, 20) =~= u16_le(height));
            lemma_u16_at(d, 18, height);
            assert(d.subrange(20, 22) =~= u16_le(bits_per_tile));
            lemma_u16_at(d, 20, bits_per_tile);
            assert(d.subrange(22, 26) =~= u32_le(tile_id_bitmask));
            lemma_u32_at(d, 22, tile_id_bitmask);
            assert(d.subrange(26, 30) =~= u32_le(x_flip_bitmask));
            lemma_u32_at(d, 26, x_flip_bitmask);
            assert(d.subrange(30, 34) =~= u32_le(y_flip_bitmask));
            lemma_u32_at(d, 30, y_flip_bitmask);
            assert(d.subrange(34, 38) =~= u32_le(diagonal_flip_bitmask));
            lemma_u32_at(d, 34, diagonal_flip_bitmask);
            assert(d.subrange(48, d.len() as int) =~= tiles);
        },
    }
}

} // verus!
