//! The cel extra chunk: precise bounds of the cel before it.
use vstd::prelude::*;

use crate::bytes_le::{lemma_u32_at, put_u32_le, put_zeros, u32_at, u32_le, zeros};
use crate::formats::aseprite::raw::{avail, read_u32, skip_bytes, ReadError};

verus! {

/// The chunk type of a cel extra chunk.
pub const CEL_EXTRA_CHUNK_TYPE: u16 = 0x2006;

/// A cel extra chunk: flags (1 when precise bounds are set) and the precise
/// position and size, in 16.16 fixed point.
#[derive(Clone, Copy, Debug, PartialEq, Eq, Structural)]
pub struct CelExtraChunk {
    pub flags: u32,
    pub precise_x: i32,
    pub precise_y: i32,
    pub width: i32,
    pub height: i32,
}

/// The bytes of a cel extra chunk: the five fields and 16 reserved bytes.
pub open spec fn cel_extra_bytes(c: CelExtraChunk) -> Seq<u8> {
    u32_le(c.flags) + u32_le(c.precise_x as u32) + u32_le(c.precise_y as u32) + u32_le(
        c.width as u32,
    ) + u32_le(c.height as u32) + zeros(16)
}

/// What reading a cel extra chunk from `d` gives: the fields at their
/// offsets, once the 36 bytes are there.
pub open spec fn parse_cel_extra(d: Seq<u8>) -> Result<CelExtraChunk, ReadError> {
    if !avail(d, 0, 36) {
        Err(ReadError::UnexpectedEnd)
    } else {
        Ok(
            CelExtraChunk {
                flags: u32_at(d, 0),
                precise_x: u32_at(d, 4) as i32,
                precise_y: u32_at(d, 8) as i32,
                width: u32_at(d, 12) as i32,
                height: u32_at(d, 16) as i32,
            },
        )
    }
}

impl CelExtraChunk {
    /// The chunk type of a cel extra chunk.
    pub fn chunk_type(&self) -> (t: u16)
        ensures
            t == CEL_EXTRA_CHUNK_TYPE,
    {
        CEL_EXTRA_CHUNK_TYPE
    }

    /// The chunk's 36 bytes.
    pub fn to_block(&self) -> (b: Vec<u8>)
        ensures
            b@ == cel_extra_bytes(*self),
    {
        let mut data: Vec<u8> = Vec::new();
        put_u32_le(&mut data, self.flags);
        put_u32_le(&mut data, self.precise_x as u32);
        put_u32_le(&mut data, self.precise_y as u32);
        put_u32_le(&mut data, self.width as u32);
        put_u32_le(&mut data, self.height as u32);
        put_zeros(&mut data, 16);
        assert(data@ =~= cel_extra_bytes(*self));
        data
    }

    /// Reads a cel extra chunk: the result is [`parse_cel_extra`] of the bytes.
    pub fn from_block(data: &[u8]) -> (r: Result<CelExtraChunk, ReadError>)
        ensures
            match parse_cel_extra(data@) {
                Ok(m) => r == Ok::<CelExtraChunk, ReadError>(m),
                Err(e) => r == Err::<CelExtraChunk, ReadError>(e),
            },
    {
        let (flags, p) = read_u32(data, 0)?;
        let (precise_x, p) = read_u32(data, p)?;
        let (precise_y, p) = read_u32(data, p)?;
        let (width, p) = read_u32(data, p)?;
        let (height, p) = read_u32(data, p)?;
        let _p = skip_bytes(data, p, 16)?;
        Ok(
            CelExtraChunk {
                flags,
                precise_x: precise_x as i32,
                precise_y: precise_y as i32,
                width: width as i32,
                height: height as i32,
            },
        )
    }
}

/// Reading a written cel extra chunk gives it back.
pub proof fn lemma_cel_extra_roundtrip(c: CelExtraChunk)
    ensures
        parse_cel_extra(cel_extra_bytes(c)) == Ok::<CelExtraChunk, ReadError>(c),
{
    let d = cel_extra_bytes(c);
    assert(d.subrange(0, 4) =~= u32_le(c.flags));
    lemma_u32_at(d, 0, c.flags);
    assert(d.subrange(4, 8) =~= u32_le(c.precise_x as u32));
    lemma_u32_at(d, 4, c.precise_x as u32);
    assert(d.subrange(8, 12) =~= u32_le(c.precise_y as u32));
    lemma_u32_at(d, 8, c.precise_y as u32);
    assert(d.subrange(12, 16) =~= u32_le(c.width as u32));
    lemma_u32_at(d, 12, c.width as u32);
    assert(d.subrange(16, 20) =~= u32_le(c.height as u32));
    lemma_u32_at(d, 16, c.height as u32);
    crate::bytes_le::lemma_signed_casts(0, 0, c.precise_x, 0);
    crate::bytes_le::lemma_signed_casts(0, 0, c.precise_y, 0);
    crate::bytes_le::lemma_signed_casts(0, 0, c.width, 0);
    crate::bytes_le::lemma_signed_casts(0, 0, c.height, 0);
}

} // verus!
