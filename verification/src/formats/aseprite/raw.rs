//! The binary layout of Aseprite files: the file header, frame headers,
//! chunk headers and chunks.
//!
//! Every chunk kind has a byte encoding (a spec function of its model and an
//! executable `to_block` that writes it) and, where the format is read, a
//! parse (a spec function over bytes and an executable `from_block`). Reading
//! what was written gives back the chunk, as each kind's round-trip law
//! states. Values are little-endian, but for the header's grid fields,
//! which are written big-endian.
use vstd::prelude::*;

use crate::bytes_le::{
    get_u16_le, get_u32_le, get_u64_le, copy_range, put_u16_be, put_u16_le, put_u32_le,
    put_u8, put_zeros, u16_at, u16_be, u16_le, u32_at, u32_le, u64_at, zeros,
};
use crate::strings::{lossy_text, string_from_utf8_lossy};


pub mod cel;
pub mod cel_extra;
pub mod color_profile;
pub mod external_files;
pub mod layer;
pub mod palette;
pub mod slice;
pub mod tags;
pub mod tileset;
pub mod user_data;

verus! {

/// Why reading a chunk failed.
#[derive(Debug, Clone, Copy, PartialEq, Eq, Structural)]
pub enum ReadError {
    /// The data ended before a value.
    UnexpectedEnd,
    /// A string is not valid UTF-8.
    InvalidUtf8,
    /// A layer type number that names no layer type.
    InvalidLayerType(u16),
    /// A blend mode number that names no blend mode.
    InvalidBlendMode(u16),
    /// A cel type number that names no cel type.
    InvalidCelType(u16),
    /// An animation direction number that names no direction.
    InvalidAnimationDirection(u8),
    /// A properties block whose size is below the 4 bytes of the size itself.
    InvalidPropertiesSize(u32),
    /// A color profile type number that names no profile type.
    InvalidColorProfileType(u16),
    /// An external file type number that names no file type.
    InvalidExternalFileType(u8),
    /// A property type number that names no property type.
    InvalidPropertyType(u16),
}

/// Whether `d` holds `n` bytes from offset `p`.
pub open spec fn avail(d: Seq<u8>, p: int, n: int) -> bool {
    0 <= p && 0 <= n && p + n <= d.len()
}

/// Reads the byte at `pos`; gives it and the position after it.
pub fn read_u8(data: &[u8], pos: usize) -> (r: Result<(u8, usize), ReadError>)
    requires
        pos <= data@.len(),
    ensures
        match r {
            Ok((v, p)) => avail(data@, pos as int, 1) && v == data@[pos as int] && p == pos + 1,
            Err(e) => !avail(data@, pos as int, 1) && e == ReadError::UnexpectedEnd,
        },
{
    if data.len() - pos >= 1 {
        Ok((data[pos], pos + 1))
    } else {
        Err(ReadError::UnexpectedEnd)
    }
}

/// Reads the little-endian `u16` at `pos`; gives it and the position after it.
pub fn read_u16(data: &[u8], pos: usize) -> (r: Result<(u16, usize), ReadError>)
    requires
        pos <= data@.len(),
    ensures
        match r {
            Ok((v, p)) => avail(data@, pos as int, 2) && v == u16_at(data@, pos as int) && p == pos
                + 2,
            Err(e) => !avail(data@, pos as int, 2) && e == ReadError::UnexpectedEnd,
        },
{
    if data.len() - pos >= 2 {
        Ok((get_u16_le(data, pos), pos + 2))
    } else {
        Err(ReadError::UnexpectedEnd)
    }
}

/// Reads the little-endian `u32` at `pos`; gives it and the position after it.
pub fn read_u32(data: &[u8], pos: usize) -> (r: Result<(u32, usize), ReadError>)
    requires
        pos <= data@.len(),
    ensures
        match r {
            Ok((v, p)) => avail(data@, pos as int, 4) && v == u32_at(data@, pos as int) && p == pos
                + 4,
            Err(e) => !avail(data@, pos as int, 4) && e == ReadError::UnexpectedEnd,
        },
{
    if data.len() - pos >= 4 {
        Ok((get_u32_le(data, pos), pos + 4))
    } else {
        Err(ReadError::UnexpectedEnd)
    }
}

/// Reads the little-endian `u64` at `pos`; gives it and the position after it.
pub fn read_u64(data: &[u8], pos: usize) -> (r: Result<(u64, usize), ReadError>)
    requires
        pos <= data@.len(),
    ensures
        match r {
            Ok((v, p)) => avail(data@, pos as int, 8) && v == u64_at(data@, pos as int) && p == pos
                + 8,
            Err(e) => !avail(data@, pos as int, 8) && e == ReadError::UnexpectedEnd,
        },
{
    if data.len() - pos >= 8 {
        Ok((get_u64_le(data, pos), pos + 8))
    } else {
        Err(ReadError::UnexpectedEnd)
    }
}

/// Reads `n` bytes from `pos`; gives them and the position after them.
pub fn read_bytes(data: &[u8], pos: usize, n: usize) -> (r: Result<(Vec<u8>, usize), ReadError>)
    requires
        pos <= data@.len(),
    ensures
        match r {
            Ok((v, p)) => avail(data@, pos as int, n as int) && v@ == data@.subrange(
                pos as int,
                pos + n,
            ) && p == pos + n,
            Err(e) => !avail(data@, pos as int, n as int) && e == ReadError::UnexpectedEnd,
        },
{
    if data.len() - pos >= n {
        Ok((copy_range(data, pos, n), pos + n))
    } else {
        Err(ReadError::UnexpectedEnd)
    }
}

/// Reads 16 bytes from `pos` as an array; gives it and the position after it.
pub fn read_array16(data: &[u8], pos: usize) -> (r: Result<([u8; 16], usize), ReadError>)
    requires
        pos <= data@.len(),
    ensures
        match r {
            Ok((v, p)) => avail(data@, pos as int, 16) && v@ == data@.subrange(pos as int, pos + 16)
                && p == pos + 16,
            Err(e) => !avail(data@, pos as int, 16) && e == ReadError::UnexpectedEnd,
        },
{
    if data.len() - pos < 16 {
        return Err(ReadError::UnexpectedEnd);
    }
    let mut a: [u8; 16] = [0u8; 16];
    let mut i: usize = 0;
    while i < 16
        invariant
            i <= 16,
            pos + 16 <= data@.len(),
            data@.len() <= usize::MAX,
            forall|j: int| 0 <= j < i ==> a@[j] == data@[pos + j],
        decreases 16 - i,
    {
        a[i] = data[pos + i];
        i = i + 1;
    }
    assert(a@ =~= data@.subrange(pos as int, pos + 16));
    Ok((a, pos + 16))
}

/// Skips `n` bytes from `pos`; gives the position after them.
pub fn skip_bytes(data: &[u8], pos: usize, n: usize) -> (r: Result<usize, ReadError>)
    requires
        pos <= data@.len(),
    ensures
        match r {
            Ok(p) => avail(data@, pos as int, n as int) && p == pos + n,
            Err(e) => !avail(data@, pos as int, n as int) && e == ReadError::UnexpectedEnd,
        },
{
    if data.len() - pos >= n {
        Ok(pos + n)
    } else {
        Err(ReadError::UnexpectedEnd)
    }
}

/// Reads a name as chunks store it: a `u16` byte count, then the bytes,
/// taken as text with replacement of invalid UTF-8; gives it and the
/// position after it.
pub fn read_lossy_name(data: &[u8], pos: usize) -> (r: Result<(String, usize), ReadError>)
    requires
        pos <= data@.len(),
    ensures
        match r {
            Ok((s, p)) => {
                let n = u16_at(data@, pos as int) as int;
                &&& avail(data@, pos as int, 2)
                &&& avail(data@, pos + 2, n)
                &&& s@ == lossy_text(data@.subrange(pos + 2, pos + 2 + n))
                &&& p == pos + 2 + n
            },
            Err(e) => e == ReadError::UnexpectedEnd && (!avail(data@, pos as int, 2) || !avail(
                data@,
                pos + 2,
                u16_at(data@, pos as int) as int,
            )),
        },
{
    let (n, p) = read_u16(data, pos)?;
    let (bytes, q) = read_bytes(data, p, n as usize)?;
    let s = string_from_utf8_lossy(bytes.as_slice());
    Ok((s, q))
}

/// The bytes of a name as chunks store it: its UTF-8 byte count as a `u16`,
/// then the bytes.
pub open spec fn name_bytes(s: Seq<char>) -> Seq<u8> {
    u16_le(encode_utf8_len(s) as u16) + vstd::utf8::encode_utf8(s)
}

/// The number of UTF-8 bytes of `s`.
pub open spec fn encode_utf8_len(s: Seq<char>) -> int {
    vstd::utf8::encode_utf8(s).len() as int
}

/// Appends a name as chunks store it: its UTF-8 byte count as a `u16`, then
/// the bytes.
pub fn put_name(out: &mut Vec<u8>, s: &String)
    requires
        encode_utf8_len(s@) <= u16::MAX,
    ensures
        final(out)@ == old(out)@ + name_bytes(s@),
{
    let b = s.as_str().as_bytes();
    put_u16_le(out, b.len() as u16);
    crate::bytes_le::put_slice(out, b);
    assert(final(out)@ =~= old(out)@ + name_bytes(s@));
}

/// A name written as chunks store it reads back as the name, leaving what
/// follows it.
pub proof fn lemma_name_roundtrip(s: Seq<char>, d: Seq<u8>, p: int)
    requires
        encode_utf8_len(s) <= u16::MAX,
        0 <= p,
        p + name_bytes(s).len() <= d.len(),
        d.subrange(p, p + name_bytes(s).len()) == name_bytes(s),
    ensures
        name_bytes(s).len() == 2 + encode_utf8_len(s),
        avail(d, p, 2),
        u16_at(d, p) as int == encode_utf8_len(s),
        avail(d, p + 2, encode_utf8_len(s)),
        lossy_text(d.subrange(p + 2, p + 2 + encode_utf8_len(s))) == s,
{
    let b = vstd::utf8::encode_utf8(s);
    let n = b.len() as u16;
    assert(d.subrange(p, p + 2) =~= u16_le(n)) by {
        assert(d.subrange(p, p + 2) =~= d.subrange(p, p + name_bytes(s).len()).subrange(0, 2));
    }
    crate::bytes_le::lemma_u16_at(d, p, n);
    assert(d.subrange(p + 2, p + 2 + b.len()) =~= b) by {
        assert(d.subrange(p + 2, p + 2 + b.len()) =~= d.subrange(
            p,
            p + name_bytes(s).len(),
        ).subrange(2, 2 + b.len() as int));
    }
    vstd::utf8::encode_utf8_valid_utf8(s);
    vstd::utf8::encode_utf8_decode_utf8(s);
}

/// The bytes of the parts, one after another.
pub open spec fn flat(parts: Seq<Seq<u8>>) -> Seq<u8>
    decreases parts.len(),
{
    if parts.len() == 0 {
        Seq::<u8>::empty()
    } else {
        parts[0] + flat(parts.skip(1))
    }
}

/// Appending a part appends its bytes.
pub proof fn lemma_flat_push(parts: Seq<Seq<u8>>, x: Seq<u8>)
    ensures
        flat(parts.push(x)) == flat(parts) + x,
    decreases parts.len(),
{
    if parts.len() == 0 {
        assert(parts.push(x).skip(1) =~= Seq::<Seq<u8>>::empty());
        assert(flat(parts.push(x).skip(1)) == Seq::<u8>::empty());
        assert(parts.push(x)[0] == x);
        assert(flat(parts) == Seq::<u8>::empty());
        assert(flat(parts.push(x)) =~= flat(parts) + x);
    } else {
        assert(parts.push(x).skip(1) =~= parts.skip(1).push(x));
        lemma_flat_push(parts.skip(1), x);
        assert(flat(parts.push(x)) =~= flat(parts) + x);
    }
}

/// The result of reading items after `acc` were read: `acc` followed by
/// the items read, or the error.
pub open spec fn prepend<T>(acc: Seq<T>, r: Result<(Seq<T>, int), ReadError>) -> Result<
    (Seq<T>, int),
    ReadError,
> {
    match r {
        Ok((items, q)) => Ok((acc + items, q)),
        Err(e) => Err(e),
    }
}

/// Prepending one item and then `acc` prepends `acc` with the item pushed.
pub proof fn lemma_prepend_push<T>(acc: Seq<T>, t: T, r: Result<(Seq<T>, int), ReadError>)
    ensures
        prepend(acc, prepend(seq![t], r)) == prepend(acc.push(t), r),
{
    if let Ok((items, q)) = r {
        assert(acc + (seq![t] + items) =~= acc.push(t) + items);
    }
}

/// The number of the flag: layers have an opacity.
pub const HEADER_HAS_LAYER_OPACITY: u32 = 0x0001;

/// The number of the flag: group layers have a blend mode.
pub const HEADER_HAS_LAYER_GROUP_BLEND: u32 = 0x0002;

/// The number of the flag: layers have UUIDs.
pub const HEADER_HAS_LAYER_UUIDS: u32 = 0x0004;

/// Flags for a whole file: a set of the `HEADER_*` bits.
#[derive(Debug, Clone, Copy, PartialEq, Eq, Structural)]
pub struct HeaderFlags {
    bits: u32,
}

impl View for HeaderFlags {
    /// The flag bits.
    type V = u32;

    closed spec fn view(&self) -> u32 {
        self.bits
    }
}

/// The flags of the bits `bits`, as they are.
pub closed spec fn header_flags_of(bits: u32) -> HeaderFlags {
    HeaderFlags { bits }
}

/// The flags of some bits hold those bits.
pub proof fn lemma_header_flags_of(bits: u32)
    ensures
        header_flags_of(bits)@ == bits,
{
}

impl HeaderFlags {
    /// The flags with no bit set.
    pub fn empty() -> (f: Self)
        ensures
            f@ == 0,
    {
        HeaderFlags { bits: 0 }
    }

    /// The flags of `bits`, without the bits that name no flag.
    pub fn from_bits_truncate(bits: u32) -> (f: Self)
        ensures
            f@ == bits & 7,
    {
        HeaderFlags { bits: bits & 7 }
    }

    /// The flag bits.
    pub fn bits(&self) -> (b: u32)
        ensures
            b == self@,
    {
        self.bits
    }

    /// Whether all bits of `flag` are set.
    pub fn contains(&self, flag: u32) -> (r: bool)
        ensures
            r == (self@ & flag == flag),
    {
        self.bits & flag == flag
    }

    /// These flags with the bits of `flag` set too (of those that name a flag).
    pub fn with(&self, flag: u32) -> (f: Self)
        ensures
            f@ == self@ | (flag & 7),
    {
        HeaderFlags { bits: self.bits | (flag & 7) }
    }
}

/// The 128-byte header of an Aseprite file.
pub struct Header {
    pub file_size: u32,
    pub frames_count: u16,
    pub width: u16,
    pub height: u16,
    /// Color depth in bits per pixel.
    pub color_depth: u16,
    /// Flags for all layers in the file.
    pub flags: HeaderFlags,
    /// The index of the transparent color if mode is indexed; otherwise 0.
    pub transparent_index: u8,
    /// Number of colors in the palette for indexed color mode.
    pub num_indexed_colors: u16,
    /// Pixel width (for non-square pixels); with the pixel height, gives the
    /// pixel aspect ratio. If zero, pixels are square.
    pub pixel_width: u8,
    /// Pixel height (for non-square pixels). If zero, pixels are square.
    pub pixel_height: u8,
    pub grid_x: i16,
    pub grid_y: i16,
    pub grid_width: u16,
    pub grid_height: u16,
    /// Padding to 128 bytes; written as zeros.
    pub reserved2: [u8; 84],
}

/// The magic number of a file header.
pub const HEADER_MAGIC: u16 = 0xA5E0;

/// The bytes of a file header.
pub open spec fn header_bytes(h: Header) -> Seq<u8> {
    u32_le(h.file_size) + u16_le(HEADER_MAGIC) + u16_le(h.frames_count) + u16_le(h.width)
        + u16_le(h.height) + u16_le(h.color_depth) + u32_le(h.flags@) + u16_le(0) + zeros(8)
        + seq![h.transparent_index] + zeros(3) + u16_le(h.num_indexed_colors) + seq![
        h.pixel_width,
    ] + seq![h.pixel_height] + u16_be(h.grid_x as u16) + u16_be(h.grid_y as u16) + u16_be(
        h.grid_width,
    ) + u16_be(h.grid_height) + zeros(84)
}

impl Header {
    /// The header's 128 bytes.
    pub fn to_block(&self) -> (b: Vec<u8>)
        ensures
            b@ == header_bytes(*self),
            b@.len() == 128,
    {
        let mut data: Vec<u8> = Vec::new();
        put_u32_le(&mut data, self.file_size);
        put_u16_le(&mut data, HEADER_MAGIC);
        put_u16_le(&mut data, self.frames_count);
        put_u16_le(&mut data, self.width);
        put_u16_le(&mut data, self.height);
        put_u16_le(&mut data, self.color_depth);
        put_u32_le(&mut data, self.flags.bits());
        put_u16_le(&mut data, 0);
        put_zeros(&mut data, 8);
        put_u8(&mut data, self.transparent_index);
        put_zeros(&mut data, 3);
        put_u16_le(&mut data, self.num_indexed_colors);
        put_u8(&mut data, self.pixel_width);
        put_u8(&mut data, self.pixel_height);
        put_u16_be(&mut data, self.grid_x as u16);
        put_u16_be(&mut data, self.grid_y as u16);
        put_u16_be(&mut data, self.grid_width);
        put_u16_be(&mut data, self.grid_height);
        put_zeros(&mut data, 84);
        assert(data@ =~= header_bytes(*self));
        data
    }
}

/// The header of a frame.
#[derive(Debug, Clone, Copy, PartialEq, Eq, Structural)]
pub struct FrameHeader {
    /// Frame data size in bytes, including this header.
    frame_size: u32,
    /// The duration of this frame in milliseconds.
    duration_ms: u16,
    /// Number of chunks in this frame.
    num_chunks: u32,
}

impl View for FrameHeader {
    /// The frame size, the duration and the number of chunks.
    type V = (u32, u16, u32);

    closed spec fn view(&self) -> (u32, u16, u32) {
        (self.frame_size, self.duration_ms, self.num_chunks)
    }
}

/// The magic number of a frame header.
pub const FRAME_MAGIC: u16 = 0xF1FA;

/// The bytes of a frame header: the old 16-bit chunk count holds the count
/// when it is below `0xFFFF` (and the new field is 0), else `0xFFFF` (and
/// the new field holds the count).
pub open spec fn frame_header_bytes(frame_size: u32, duration_ms: u16, num_chunks: u32) -> Seq<
    u8,
> {
    u32_le(frame_size) + u16_le(FRAME_MAGIC) + u16_le(
        if num_chunks < 0xFFFF {
            num_chunks as u16
        } else {
            0xFFFF
        },
    ) + u16_le(duration_ms) + zeros(2) + u32_le(
        if num_chunks < 0xFFFF {
            0
        } else {
            num_chunks
        },
    )
}

impl FrameHeader {
    /// The header of a frame of `frame_size` bytes, shown for `duration_ms`
    /// milliseconds, with `num_chunks` chunks.
    pub fn new(frame_size: u32, duration_ms: u16, num_chunks: u32) -> (h: Self)
        ensures
            h@ == (frame_size, duration_ms, num_chunks),
    {
        FrameHeader { frame_size, duration_ms, num_chunks }
    }

    /// The header's 16 bytes.
    pub fn to_block(&self) -> (b: Vec<u8>)
        ensures
            b@ == frame_header_bytes(self@.0, self@.1, self@.2),
            b@.len() == 16,
    {
        let mut data: Vec<u8> = Vec::new();
        put_u32_le(&mut data, self.frame_size);
        put_u16_le(&mut data, FRAME_MAGIC);
        let old_chunks: u16 = if self.num_chunks < 0xFFFF {
            self.num_chunks as u16
        } else {
            0xFFFF
        };
        put_u16_le(&mut data, old_chunks);
        put_u16_le(&mut data, self.duration_ms);
        put_zeros(&mut data, 2);
        put_u32_le(
            &mut data,
            if self.num_chunks < 0xFFFF {
                0
            } else {
                self.num_chunks
            },
        );
        assert(data@ =~= frame_header_bytes(self@.0, self@.1, self@.2));
        data
    }
}

/// The header of a chunk.
#[derive(Debug, Clone, Copy, PartialEq, Eq, Structural)]
pub struct ChunkHeader {
    /// Size of this chunk in bytes, including this header.
    chunk_size: u32,
    /// The type of this chunk.
    chunk_type: u16,
}

impl View for ChunkHeader {
    /// The chunk size and the chunk type.
    type V = (u32, u16);

    closed spec fn view(&self) -> (u32, u16) {
        (self.chunk_size, self.chunk_type)
    }
}

/// The bytes of a chunk header.
pub open spec fn chunk_header_bytes(chunk_size: u32, chunk_type: u16) -> Seq<u8> {
    u32_le(chunk_size) + u16_le(chunk_type)
}

impl ChunkHeader {
    /// The header of a chunk of `chunk_size` bytes of type `chunk_type`.
    pub fn new(chunk_size: u32, chunk_type: u16) -> (h: Self)
        ensures
            h@ == (chunk_size, chunk_type),
    {
        ChunkHeader { chunk_size, chunk_type }
    }

    /// The header's 6 bytes.
    pub fn to_block(&self) -> (b: Vec<u8>)
        ensures
            b@ == chunk_header_bytes(self@.0, self@.1),
            b@.len() == 6,
    {
        let mut data: Vec<u8> = Vec::new();
        put_u32_le(&mut data, self.chunk_size);
        put_u16_le(&mut data, self.chunk_type);
        assert(data@ =~= chunk_header_bytes(self@.0, self@.1));
        data
    }
}

/// A chunk of any kind.
#[derive(Clone, Debug)]
pub enum Chunk {
    Layer(layer::LayerChunk),
    Cel(cel::CelChunk),
    CelExtra(cel_extra::CelExtraChunk),
    ColorProfile(color_profile::ColorProfileChunk),
    ExternalFiles(external_files::ExternalFilesChunk),
    Tags(tags::TagsChunk),
    Palette(palette::PaletteChunk),
    UserData(user_data::UserDataChunk),
    Slice(slice::SliceChunk),
    Tileset(tileset::TilesetChunk),
}

/// The chunk type of a chunk.
pub open spec fn chunk_type_of(c: Chunk) -> u16 {
    match c {
        Chunk::Layer(_) => layer::LAYER_CHUNK_TYPE,
        Chunk::Cel(_) => cel::CEL_CHUNK_TYPE,
        Chunk::CelExtra(_) => cel_extra::CEL_EXTRA_CHUNK_TYPE,
        Chunk::ColorProfile(_) => color_profile::COLOR_PROFILE_CHUNK_TYPE,
        Chunk::ExternalFiles(_) => external_files::EXTERNAL_FILES_CHUNK_TYPE,
        Chunk::Tags(_) => tags::TAGS_CHUNK_TYPE,
        Chunk::Palette(_) => palette::PALETTE_CHUNK_TYPE,
        Chunk::UserData(_) => user_data::USER_DATA_CHUNK_TYPE,
        Chunk::Slice(_) => slice::SLICE_CHUNK_TYPE,
        Chunk::Tileset(_) => tileset::TILESET_CHUNK_TYPE,
    }
}

/// The bytes of a chunk's content, without its header.
pub open spec fn chunk_value_bytes(c: Chunk) -> Seq<u8> {
    match c {
        Chunk::Layer(x) => layer::layer_bytes(x@),
        Chunk::Cel(x) => cel::cel_bytes(x@),
        Chunk::CelExtra(x) => cel_extra::cel_extra_bytes(x),
        Chunk::ColorProfile(x) => color_profile::color_profile_bytes(x@),
        Chunk::ExternalFiles(x) => external_files::external_files_bytes(x@),
        Chunk::Tags(x) => tags::tags_bytes(x@),
        Chunk::Palette(x) => palette::palette_bytes(x@),
        Chunk::UserData(x) => user_data::user_data_bytes(x@),
        Chunk::Slice(x) => slice::slice_bytes(x@),
        Chunk::Tileset(x) => tileset::tileset_bytes(x@),
    }
}

/// Whether a chunk's content can be written: its names and counts fit the
/// widths they are written with.
pub open spec fn chunk_writable(c: Chunk) -> bool {
    match c {
        Chunk::Layer(x) => encode_utf8_len(x.layer_name@) <= u16::MAX,
        Chunk::Cel(_) => true,
        Chunk::CelExtra(_) => true,
        Chunk::ColorProfile(x) => x@.icc_profile matches Some(p) ==> p.len() <= u32::MAX,
        Chunk::ExternalFiles(x) => external_files::external_files_well_formed(x@),
        Chunk::Tags(x) => tags::tags_well_formed(x@),
        Chunk::Palette(x) => palette::entry_names_fit(x@.entries),
        Chunk::UserData(x) => x@.text matches Some(s) ==> encode_utf8_len(s) <= u16::MAX,
        Chunk::Slice(x) => x@.keys.len() <= u32::MAX && encode_utf8_len(x.name@) <= u16::MAX,
        Chunk::Tileset(x) => encode_utf8_len(x.name@) <= u16::MAX && (x@.compressed_data matches Some(
            d,
        ) ==> d.len() <= u32::MAX),
    }
}

/// The bytes of a chunk with its header: the size (header included) and the
/// type, then the content.
pub open spec fn chunk_block_bytes(c: Chunk) -> Seq<u8> {
    chunk_header_bytes((chunk_value_bytes(c).len() + 6) as u32, chunk_type_of(c))
        + chunk_value_bytes(c)
}

impl Chunk {
    /// The chunk's type.
    pub fn chunk_type(&self) -> (t: u16)
        ensures
            t == chunk_type_of(*self),
    {
        match self {
            Chunk::Layer(x) => x.chunk_type(),
            Chunk::Cel(x) => x.chunk_type(),
            Chunk::CelExtra(x) => x.chunk_type(),
            Chunk::ColorProfile(x) => x.chunk_type(),
            Chunk::ExternalFiles(x) => x.chunk_type(),
            Chunk::Tags(x) => x.chunk_type(),
            Chunk::Palette(x) => x.chunk_type(),
            Chunk::UserData(x) => x.chunk_type(),
            Chunk::Slice(x) => x.chunk_type(),
            Chunk::Tileset(x) => x.chunk_type(),
        }
    }

    /// The chunk's content, without its header.
    pub fn value_block(&self) -> (b: Vec<u8>)
        requires
            chunk_writable(*self),
        ensures
            b@ == chunk_value_bytes(*self),
    {
        match self {
            Chunk::Layer(x) => x.to_block(),
            Chunk::Cel(x) => x.to_block(),
            Chunk::CelExtra(x) => x.to_block(),
            Chunk::ColorProfile(x) => x.to_block(),
            Chunk::ExternalFiles(x) => x.to_block(),
            Chunk::Tags(x) => x.to_block(),
            Chunk::Palette(x) => x.to_block(),
            Chunk::UserData(x) => x.to_block(),
            Chunk::Slice(x) => x.to_block(),
            Chunk::Tileset(x) => x.to_block(),
        }
    }

    /// The chunk with its header.
    pub fn to_block(&self) -> (b: Vec<u8>)
        requires
            chunk_writable(*self),
            chunk_value_bytes(*self).len() + 6 <= u32::MAX,
        ensures
            b@ == chunk_block_bytes(*self),
    {
        let mut body = self.value_block();
        let header = ChunkHeader::new((body.len() + 6) as u32, self.chunk_type());
        let mut block = header.to_block();
        block.append(&mut body);
        block
    }
}

/// A chunk ready to be written into a frame.
#[derive(Clone, Debug)]
pub struct ChunkBlock {
    pub data: Chunk,
}

impl ChunkBlock {
    /// The chunk block of `value`.
    pub fn from_value(value: Chunk) -> (b: Self)
        ensures
            b.data == value,
    {
        ChunkBlock { data: value }
    }

    /// The chunk with its header: its size, header included, and its type,
    /// then its contents. The size must fit in a `u32`.
    pub fn to_block(&self) -> (b: Vec<u8>)
        requires
            chunk_writable(self.data),
            chunk_value_bytes(self.data).len() + 6 <= u32::MAX,
        ensures
            b@ == chunk_block_bytes(self.data),
    {
        self.data.to_block()
    }
}

/// The bytes of the chunks with their headers, one after another.
pub open spec fn chunks_bytes(chunks: Seq<Chunk>) -> Seq<u8> {
    flat(Seq::new(chunks.len(), |i: int| chunk_block_bytes(chunks[i])))
}

/// The bytes of a frame: its header (size, the duration, the chunk count),
/// then the chunks.
pub open spec fn frame_block_bytes(duration_ms: u16, chunks: Seq<Chunk>) -> Seq<u8> {
    frame_header_bytes((chunks_bytes(chunks).len() + 16) as u32, duration_ms, chunks.len() as u32)
        + chunks_bytes(chunks)
}

/// Builds a frame of the chunks, shown for `duration_ms` milliseconds.
///
/// The chunk count and the frame size, header included, must fit in a
/// `u32`, as each chunk's size must.
pub fn build_frame_block(duration_ms: u16, chunks: &Vec<Chunk>) -> (b: Vec<u8>)
    requires
        chunks@.len() <= u32::MAX,
        forall|i: int|
            0 <= i < chunks@.len() ==> chunk_writable(#[trigger] chunks@[i])
                && chunk_value_bytes(chunks@[i]).len() + 6 <= u32::MAX,
        chunks_bytes(chunks@).len() + 16 <= u32::MAX,
    ensures
        b@ == frame_block_bytes(duration_ms, chunks@),
{
    let mut contents: Vec<u8> = Vec::new();
    let mut i: usize = 0;
    while i < chunks.len()
        invariant
            i <= chunks@.len(),
            forall|j: int|
                0 <= j < chunks@.len() ==> chunk_writable(#[trigger] chunks@[j])
                    && chunk_value_bytes(chunks@[j]).len() + 6 <= u32::MAX,
            contents@ == chunks_bytes(chunks@.take(i as int)),
        decreases chunks@.len() - i,
    {
        let ghost prev = chunks@.take(i as int);
        let mut block = chunks[i].to_block();
        contents.append(&mut block);
        proof {
            let next = chunks@.take(i + 1);
            assert(next =~= prev.push(chunks@[i as int]));
            assert(Seq::new(next.len(), |j: int| chunk_block_bytes(next[j])) =~= Seq::new(
                prev.len(),
                |j: int| chunk_block_bytes(prev[j]),
            ).push(chunk_block_bytes(chunks@[i as int])));
            lemma_flat_push(
                Seq::new(prev.len(), |j: int| chunk_block_bytes(prev[j])),
                chunk_block_bytes(chunks@[i as int]),
            );
        }
        i = i + 1;
    }
    assert(chunks@.take(i as int) =~= chunks@);
    let header = FrameHeader::new((contents.len() + 16) as u32, duration_ms, chunks.len() as u32);
    let mut block = header.to_block();
    block.append(&mut contents);
    block
}

} // verus!
