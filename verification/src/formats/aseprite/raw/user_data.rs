//! The user data chunk: text, a color and a block of properties attached to
//! the chunk before it.
use vstd::prelude::*;

use crate::bytes_le::{copy_range, lemma_u32_at, put_slice, put_u32_le, u32_at, u32_le};
use crate::formats::aseprite::raw::{
    avail, encode_utf8_len, lemma_name_roundtrip, name_bytes, put_name, read_bytes,
    read_lossy_name, read_u32, ReadError,
};
use crate::strings::lossy_text;

verus! {

/// The chunk type of a user data chunk.
pub const USER_DATA_CHUNK_TYPE: u16 = 0x2020;

/// The number of the flag: the user data has text.
pub const USER_DATA_HAS_TEXT: u32 = 0x0001;

/// The number of the flag: the user data has a color.
pub const USER_DATA_HAS_COLOR: u32 = 0x0002;

/// The number of the flag: the user data has properties.
pub const USER_DATA_HAS_PROPERTIES: u32 = 0x0004;

/// A user data chunk.
#[derive(Clone, Debug)]
pub struct UserDataChunk {
    flags: u32,
    text: Option<String>,
    color: Option<[u8; 4]>,
    properties_data: Option<Vec<u8>>,
}

/// The model of a [`UserDataChunk`]: the flag bits, the text's characters,
/// the color's RGBA bytes, and the properties block (its `u32` size, then
/// its content).
pub struct UserDataModel {
    pub flags: u32,
    pub text: Option<Seq<char>>,
    pub color: Option<Seq<u8>>,
    pub properties_data: Option<Seq<u8>>,
}

impl View for UserDataChunk {
    type V = UserDataModel;

    closed spec fn view(&self) -> UserDataModel {
        UserDataModel {
            flags: self.flags,
            text: match self.text {
                Some(s) => Some(s@),
                None => None,
            },
            color: match self.color {
                Some(c) => Some(c@),
                None => None,
            },
            properties_data: match self.properties_data {
                Some(p) => Some(p@),
                None => None,
            },
        }
    }
}

/// Whether `flags` has all bits of `flag`.
pub open spec fn flag_set(flags: u32, flag: u32) -> bool {
    flags & flag == flag
}

/// The bytes of a user data chunk: the flags, then the text, color and
/// properties that are present.
pub open spec fn user_data_bytes(m: UserDataModel) -> Seq<u8> {
    u32_le(m.flags) + match m.text {
        Some(s) => name_bytes(s),
        None => Seq::<u8>::empty(),
    } + match m.color {
        Some(c) => c,
        None => Seq::<u8>::empty(),
    } + match m.properties_data {
        Some(p) => p,
        None => Seq::<u8>::empty(),
    }
}

/// What reading the text of user data at offset `p` of `d` gives, when it
/// is `present`, with the offset after it.
pub open spec fn parse_text(d: Seq<u8>, p: int, present: bool) -> Result<
    (Option<Seq<char>>, int),
    ReadError,
> {
    if !present {
        Ok((None, p))
    } else if !avail(d, p, 2) || !avail(d, p + 2, u16_at_spec(d, p)) {
        Err(ReadError::UnexpectedEnd)
    } else {
        let n = u16_at_spec(d, p);
        Ok((Some(lossy_text(d.subrange(p + 2, p + 2 + n))), p + 2 + n))
    }
}

/// The `u16` at offset `p` of `d`, as an integer.
pub open spec fn u16_at_spec(d: Seq<u8>, p: int) -> int {
    crate::bytes_le::u16_at(d, p) as int
}

/// What reading the color of user data at offset `p` of `d` gives, when it
/// is `present`, with the offset after it.
pub open spec fn parse_color(d: Seq<u8>, p: int, present: bool) -> Result<
    (Option<Seq<u8>>, int),
    ReadError,
> {
    if !present {
        Ok((None, p))
    } else if !avail(d, p, 4) {
        Err(ReadError::UnexpectedEnd)
    } else {
        Ok((Some(d.subrange(p, p + 4)), p + 4))
    }
}

/// What reading the properties block of user data at offset `p` of `d`
/// gives, when it is `present`, with the offset after it: its `u32` size,
/// which counts itself, must be at least 4.
pub open spec fn parse_properties_block(d: Seq<u8>, p: int, present: bool) -> Result<
    (Option<Seq<u8>>, int),
    ReadError,
> {
    if !present {
        Ok((None, p))
    } else if !avail(d, p, 4) {
        Err(ReadError::UnexpectedEnd)
    } else {
        let size = u32_at(d, p);
        if size < 4 {
            Err(ReadError::InvalidPropertiesSize(size))
        } else if !avail(d, p + 4, size - 4) {
            Err(ReadError::UnexpectedEnd)
        } else {
            Ok((Some(d.subrange(p, p + size)), p + size))
        }
    }
}

/// What reading a user data chunk from `d` gives: the flags (the bits that
/// name no flag dropped), then the text, color and properties they announce.
pub open spec fn parse_user_data(d: Seq<u8>) -> Result<UserDataModel, ReadError> {
    if !avail(d, 0, 4) {
        Err(ReadError::UnexpectedEnd)
    } else {
        let flags = u32_at(d, 0) & 7;
        match parse_text(d, 4, flag_set(flags, USER_DATA_HAS_TEXT)) {
            Err(e) => Err(e),
            Ok((text, p1)) => match parse_color(d, p1, flag_set(flags, USER_DATA_HAS_COLOR)) {
                Err(e) => Err(e),
                Ok((color, p2)) => match parse_properties_block(
                    d,
                    p2,
                    flag_set(flags, USER_DATA_HAS_PROPERTIES),
                ) {
                    Err(e) => Err(e),
                    Ok((properties_data, _)) => Ok(
                        UserDataModel { flags, text, color, properties_data },
                    ),
                },
            },
        }
    }
}

/// Whether user data reads back unchanged: its flags name only user data
/// flags and announce exactly the parts it has, the text fits a `u16` byte
/// count, the color has 4 bytes, and the properties block starts with its
/// own size as a `u32`.
pub open spec fn user_data_well_formed(m: UserDataModel) -> bool {
    &&& m.flags & 7 == m.flags
    &&& (flag_set(m.flags, USER_DATA_HAS_TEXT) <==> m.text is Some)
    &&& (flag_set(m.flags, USER_DATA_HAS_COLOR) <==> m.color is Some)
    &&& (flag_set(m.flags, USER_DATA_HAS_PROPERTIES) <==> m.properties_data is Some)
    &&& m.text matches Some(s) ==> encode_utf8_len(s) <= u16::MAX
    &&& m.color matches Some(c) ==> c.len() == 4
    &&& m.properties_data matches Some(p) ==> 4 <= p.len() <= u32::MAX && u32_at(p, 0) == p.len()
}

impl UserDataChunk {
    /// User data with the given flags and parts.
    pub fn new(
        flags: u32,
        text: Option<String>,
        color: Option<[u8; 4]>,
        properties_data: Option<Vec<u8>>,
    ) -> (c: Self)
        ensures
            c@.flags == flags,
            c@.text == match text {
                Some(s) => Some(s@),
                None => None::<Seq<char>>,
            },
            c@.color == match color {
                Some(x) => Some(x@),
                None => None::<Seq<u8>>,
            },
            c@.properties_data == match properties_data {
                Some(p) => Some(p@),
                None => None::<Seq<u8>>,
            },
    {
        UserDataChunk { flags, text, color, properties_data }
    }

    /// The flag bits.
    pub fn flags(&self) -> (f: u32)
        ensures
            f == self@.flags,
    {
        self.flags
    }

    /// The text, if any.
    pub fn text(&self) -> (t: Option<&String>)
        ensures
            match t {
                Some(s) => self@.text == Some(s@),
                None => self@.text is None,
            },
    {
        self.text.as_ref()
    }

    /// The color's RGBA bytes, if any.
    pub fn color(&self) -> (c: Option<[u8; 4]>)
        ensures
            match c {
                Some(x) => self@.color == Some(x@),
                None => self@.color is None,
            },
    {
        self.color
    }

    /// The properties block, if any.
    pub fn properties_data(&self) -> (p: Option<&Vec<u8>>)
        ensures
            match p {
                Some(x) => self@.properties_data == Some(x@),
                None => self@.properties_data is None,
            },
    {
        self.properties_data.as_ref()
    }

    /// The chunk type of a user data chunk.
    pub fn chunk_type(&self) -> (t: u16)
        ensures
            t == USER_DATA_CHUNK_TYPE,
    {
        USER_DATA_CHUNK_TYPE
    }

    /// The chunk's bytes.
    pub fn to_block(&self) -> (b: Vec<u8>)
        requires
            self@.text matches Some(s) ==> encode_utf8_len(s) <= u16::MAX,
        ensures
            b@ == user_data_bytes(self@),
    {
        let mut data: Vec<u8> = Vec::new();
        put_u32_le(&mut data, self.flags);
        if let Some(text) = &self.text {
            put_name(&mut data, text);
        }
        if let Some(color) = &self.color {
            put_slice(&mut data, color.as_slice());
        }
        if let Some(properties) = &self.properties_data {
            put_slice(&mut data, properties.as_slice());
        }
        assert(data@ =~= user_data_bytes(self@));
        data
    }

    /// Reads a user data chunk: the result is [`parse_user_data`] of the
    /// bytes.
    pub fn from_block(data: &[u8]) -> (r: Result<UserDataChunk, ReadError>)
        ensures
            match parse_user_data(data@) {
                Ok(m) => r matches Ok(c) && c@ == m,
                Err(e) => r matches Err(x) && x == e,
            },
    {
        let (flags_val, p) = read_u32(data, 0)?;
        let flags = flags_val & 7;
        let (text, p) = if flags & USER_DATA_HAS_TEXT == USER_DATA_HAS_TEXT {
            let (s, q) = read_lossy_name(data, p)?;
            (Some(s), q)
        } else {
            (None, p)
        };
        let (color, p) = if flags & USER_DATA_HAS_COLOR == USER_DATA_HAS_COLOR {
            let (bytes, q) = read_bytes(data, p, 4)?;
            let c: [u8; 4] = [bytes[0], bytes[1], bytes[2], bytes[3]];
            assert(c@ =~= bytes@);
            (Some(c), q)
        } else {
            (None, p)
        };
        let properties_data = if flags & USER_DATA_HAS_PROPERTIES == USER_DATA_HAS_PROPERTIES {
            let (size, q) = read_u32(data, p)?;
            if size < 4 {
                return Err(ReadError::InvalidPropertiesSize(size));
            }
            let (_content, _q2) = read_bytes(data, q, (size - 4) as usize)?;
            let block = copy_range(data, p, size as usize);
            Some(block)
        } else {
            None
        };
        let c = UserDataChunk { flags, text, color, properties_data };
        assert(c@ == parse_user_data(data@)->Ok_0);
        Ok(c)
    }
}

/// Reading written user data gives it back, for all well-formed user data.
pub proof fn lemma_user_data_roundtrip(m: UserDataModel)
    requires
        user_data_well_formed(m),
    ensures
        parse_user_data(user_data_bytes(m)) == Ok::<UserDataModel, ReadError>(m),
{
    let d = user_data_bytes(m);
    let tb = match m.text {
        Some(s) => name_bytes(s),
        None => Seq::<u8>::empty(),
    };
    let cb = match m.color {
        Some(c) => c,
        None => Seq::<u8>::empty(),
    };
    let pb = match m.properties_data {
        Some(p) => p,
        None => Seq::<u8>::empty(),
    };
    assert(d =~= u32_le(m.flags) + tb + cb + pb);
    assert(d.subrange(0, 4) =~= u32_le(m.flags));
    lemma_u32_at(d, 0, m.flags);
    if let Some(s) = m.text {
        assert(d.subrange(4, 4 + tb.len() as int) =~= tb);
        lemma_name_roundtrip(s, d, 4);
    }
    let p1: int = 4 + tb.len() as int;
    if let Some(c) = m.color {
        assert(d.subrange(p1, p1 + 4) =~= c);
    }
    let p2: int = p1 + cb.len() as int;
    if let Some(p) = m.properties_data {
        assert(d.subrange(p2, p2 + 4) =~= p.subrange(0, 4));
        assert(u32_at(d, p2) == u32_at(p, 0));
        assert(d.subrange(p2, p2 + p.len()) =~= p);
    }
}

} // verus!
