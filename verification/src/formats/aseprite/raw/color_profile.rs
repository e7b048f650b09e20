//! The color profile chunk: no profile, sRGB, or an embedded ICC profile.
use vstd::prelude::*;

use crate::bytes_le::{
    lemma_u16_at, lemma_u32_at, put_slice, put_u16_le, put_u32_le, put_zeros, u16_at, u16_le,
    u32_at, u32_le, zeros,
};
use crate::formats::aseprite::raw::{avail, read_bytes, read_u16, read_u32, skip_bytes, ReadError};

verus! {

/// The chunk type of a color profile chunk.
pub const COLOR_PROFILE_CHUNK_TYPE: u16 = 0x2007;

/// The number of the flag: the profile uses a fixed gamma.
pub const COLOR_PROFILE_FIXED_GAMMA: u16 = 0x0001;

/// The kind of a color profile.
#[derive(Clone, Copy, Debug, PartialEq, Eq, Structural)]
pub enum ColorProfileType {
    NoProfile,
    Srgb,
    Icc,
}

/// The number that stands for a profile type in a file.
pub open spec fn profile_type_code(t: ColorProfileType) -> u16 {
    match t {
        ColorProfileType::NoProfile => 0,
        ColorProfileType::Srgb => 1,
        ColorProfileType::Icc => 2,
    }
}

/// A color profile chunk.
#[derive(Clone, Debug)]
pub struct ColorProfileChunk {
    pub profile_type: ColorProfileType,
    pub flags: u16,
    /// The fixed gamma, in 16.16 fixed point.
    pub fixed_gamma: u32,
    pub icc_profile: Option<Vec<u8>>,
}

/// The model of a [`ColorProfileChunk`]: the ICC profile by its bytes.
pub struct ColorProfileModel {
    pub profile_type: ColorProfileType,
    pub flags: u16,
    pub fixed_gamma: u32,
    pub icc_profile: Option<Seq<u8>>,
}

impl View for ColorProfileChunk {
    type V = ColorProfileModel;

    open spec fn view(&self) -> ColorProfileModel {
        ColorProfileModel {
            profile_type: self.profile_type,
            flags: self.flags,
            fixed_gamma: self.fixed_gamma,
            icc_profile: match self.icc_profile {
                Some(p) => Some(p@),
                None => None,
            },
        }
    }
}

/// The bytes of a color profile chunk: type, flags, gamma, 8 reserved bytes,
/// and for an ICC profile its byte count and bytes (a count of 0 when there
/// are none).
pub open spec fn color_profile_bytes(m: ColorProfileModel) -> Seq<u8> {
    u16_le(profile_type_code(m.profile_type)) + u16_le(m.flags) + u32_le(m.fixed_gamma) + zeros(8)
        + if m.profile_type == ColorProfileType::Icc {
        match m.icc_profile {
            Some(p) => u32_le(p.len() as u32) + p,
            None => u32_le(0),
        }
    } else {
        Seq::<u8>::empty()
    }
}

/// What reading a color profile chunk from `d` gives: the 16-byte head (the
/// type checked once it is read), then for an ICC profile its count and
/// bytes.
pub open spec fn parse_color_profile(d: Seq<u8>) -> Result<ColorProfileModel, ReadError> {
    if !avail(d, 0, 16) {
        Err(ReadError::UnexpectedEnd)
    } else {
        let code = u16_at(d, 0);
        if code > 2 {
            Err(ReadError::InvalidColorProfileType(code))
        } else {
            let profile_type = if code == 0 {
                ColorProfileType::NoProfile
            } else if code == 1 {
                ColorProfileType::Srgb
            } else {
                ColorProfileType::Icc
            };
            let head = ColorProfileModel {
                profile_type,
                flags: u16_at(d, 2) & COLOR_PROFILE_FIXED_GAMMA,
                fixed_gamma: u32_at(d, 4),
                icc_profile: None,
            };
            if code != 2 {
                Ok(head)
            } else if !avail(d, 16, 4) || !avail(d, 20, u32_at(d, 16) as int) {
                Err(ReadError::UnexpectedEnd)
            } else {
                Ok(
                    ColorProfileModel {
                        icc_profile: Some(d.subrange(20, 20 + u32_at(d, 16))),
                        ..head
                    },
                )
            }
        }
    }
}

/// Whether a color profile chunk reads back unchanged: its flags name only
/// the gamma flag, and it has an ICC profile, of at most `u32::MAX` bytes,
/// exactly when it is of the ICC type.
pub open spec fn color_profile_well_formed(m: ColorProfileModel) -> bool {
    &&& m.flags & COLOR_PROFILE_FIXED_GAMMA == m.flags
    &&& (m.profile_type == ColorProfileType::Icc <==> m.icc_profile is Some)
    &&& m.icc_profile matches Some(p) ==> p.len() <= u32::MAX
}

impl ColorProfileChunk {
    /// The chunk type of a color profile chunk.
    pub fn chunk_type(&self) -> (t: u16)
        ensures
            t == COLOR_PROFILE_CHUNK_TYPE,
    {
        COLOR_PROFILE_CHUNK_TYPE
    }

    /// The chunk's bytes.
    pub fn to_block(&self) -> (b: Vec<u8>)
        requires
            self@.icc_profile matches Some(p) ==> p.len() <= u32::MAX,
        ensures
            b@ == color_profile_bytes(self@),
    {
        let mut data: Vec<u8> = Vec::new();
        let code: u16 = match self.profile_type {
            ColorProfileType::NoProfile => 0,
            ColorProfileType::Srgb => 1,
            ColorProfileType::Icc => 2,
        };
        put_u16_le(&mut data, code);
        put_u16_le(&mut data, self.flags);
        put_u32_le(&mut data, self.fixed_gamma);
        put_zeros(&mut data, 8);
        if self.profile_type == ColorProfileType::Icc {
            if let Some(icc) = &self.icc_profile {
                put_u32_le(&mut data, icc.len() as u32);
                put_slice(&mut data, icc.as_slice());
            } else {
                put_u32_le(&mut data, 0);
            }
        }
        assert(data@ =~= color_profile_bytes(self@));
        data
    }

    /// Reads a color profile chunk: the result is [`parse_color_profile`] of
    /// the bytes.
    pub fn from_block(data: &[u8]) -> (r: Result<ColorProfileChunk, ReadError>)
        ensures
            match parse_color_profile(data@) {
                Ok(m) => r matches Ok(c) && c@ == m,
                Err(e) => r matches Err(x) && x == e,
            },
    {
        let (type_val, p) = read_u16(data, 0)?;
        let (flags_val, p) = read_u16(data, p)?;
        let (fixed_gamma, p) = read_u32(data, p)?;
        let p = skip_bytes(data, p, 8)?;
        let profile_type = if type_val == 0 {
            ColorProfileType::NoProfile
        } else if type_val == 1 {
            ColorProfileType::Srgb
        } else if type_val == 2 {
            ColorProfileType::Icc
        } else {
            return Err(ReadError::InvalidColorProfileType(type_val));
        };
        let icc_profile = if type_val == 2 {
            let (len, q) = read_u32(data, p)?;
            let (bytes, _q2) = read_bytes(data, q, len as usize)?;
            Some(bytes)
        } else {
            None
        };
        Ok(
            ColorProfileChunk {
                profile_type,
                flags: flags_val & COLOR_PROFILE_FIXED_GAMMA,
                fixed_gamma,
                icc_profile,
            },
        )
    }
}

/// Reading a written color profile chunk gives it back, for every
/// well-formed chunk.
pub proof fn lemma_color_profile_roundtrip(m: ColorProfileModel)
    requires
        color_profile_well_formed(m),
    ensures
        parse_color_profile(color_profile_bytes(m)) == Ok::<ColorProfileModel, ReadError>(m),
{
    let d = color_profile_bytes(m);
    assert(d.subrange(0, 2) =~= u16_le(profile_type_code(m.profile_type)));
    lemma_u16_at(d, 0, profile_type_code(m.profile_type));
    assert(d.subrange(2, 4) =~= u16_le(m.flags));
    lemma_u16_at(d, 2, m.flags);
    assert(d.subrange(4, 8) =~= u32_le(m.fixed_gamma));
    lemma_u32_at(d, 4, m.fixed_gamma);
    if let Some(p) = m.icc_profile {
        assert(d.subrange(16, 20) =~= u32_le(p.len() as u32));
        lemma_u32_at(d, 16, p.len() as u32);
        assert(d.subrange(20, 20 + p.len() as int) =~= p);
    }
}

} // verus!
