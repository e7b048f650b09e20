//! Where each field of an Aseprite file's headers lies, and what a written
//! sprite file's headers say about the file: its size, its frame count,
//! and each frame's size and duration.
use vstd::prelude::*;

use crate::bytes_le::{lemma_u16_at, lemma_u16_le_roundtrip, lemma_u32_at, u16_at, u16_be, u16_from_le, u16_le, u32_at, u32_le};
use crate::formats::aseprite::backing::SpriteContents;
use crate::formats::aseprite::model::{
    depth_fields, frame_bytes, is_sprite_header, sprite_file_bytes, sprite_file_flags,
    sprite_frames_bytes,
};
use crate::formats::aseprite::raw::{
    chunk_header_bytes, flat, frame_header_bytes, header_bytes, Header, FRAME_MAGIC, HEADER_MAGIC,
};

verus! {

/// The `u16` stored big-endian at offset `i` of `s`.
pub open spec fn u16_be_at(s: Seq<u8>, i: int) -> u16 {
    u16_from_le(s[i + 1], s[i])
}

/// Where a `u16` written little-endian at `i` of `s` is read.
proof fn lemma_u16_in(s: Seq<u8>, i: int, x: u16)
    requires
        0 <= i,
        i + 2 <= s.len(),
        s.subrange(i, i + 2) == u16_le(x),
    ensures
        u16_at(s, i) == x,
{
    lemma_u16_at(s, i, x);
}

/// A `u16` written big-endian reads back big-endian.
proof fn lemma_u16_be_in(s: Seq<u8>, i: int, x: u16)
    requires
        0 <= i,
        i + 2 <= s.len(),
        s.subrange(i, i + 2) == u16_be(x),
    ensures
        u16_be_at(s, i) == x,
{
    lemma_u16_le_roundtrip(x);
    assert(s[i] == s.subrange(i, i + 2)[0]);
    assert(s[i + 1] == s.subrange(i, i + 2)[1]);
    assert(u16_be(x)[0] == u16_le(x)[1]);
    assert(u16_be(x)[1] == u16_le(x)[0]);
}

/// The 128 bytes of a file header hold, little-endian: the file size at 0,
/// the magic number at 4, the frame count at 6, the width at 8, the height
/// at 10, the color depth at 12, the flags at 14, the transparent index at
/// 28, the number of colors at 32, the pixel width and height at 34 and
/// 35; and, big-endian, the grid's position and size at 36 to 43.
pub proof fn lemma_header_fields(h: Header)
    ensures
        header_bytes(h).len() == 128,
        u32_at(header_bytes(h), 0) == h.file_size,
        u16_at(header_bytes(h), 4) == HEADER_MAGIC,
        u16_at(header_bytes(h), 6) == h.frames_count,
        u16_at(header_bytes(h), 8) == h.width,
        u16_at(header_bytes(h), 10) == h.height,
        u16_at(header_bytes(h), 12) == h.color_depth,
        u32_at(header_bytes(h), 14) == h.flags@,
        header_bytes(h)[28] == h.transparent_index,
        u16_at(header_bytes(h), 32) == h.num_indexed_colors,
        header_bytes(h)[34] == h.pixel_width,
        header_bytes(h)[35] == h.pixel_height,
        u16_be_at(header_bytes(h), 36) == h.grid_x as u16,
        u16_be_at(header_bytes(h), 38) == h.grid_y as u16,
        u16_be_at(header_bytes(h), 40) == h.grid_width,
        u16_be_at(header_bytes(h), 42) == h.grid_height,
{
    let b = header_bytes(h);
    assert(b.subrange(0, 4) =~= u32_le(h.file_size));
    lemma_u32_at(b, 0, h.file_size);
    assert(b.subrange(4, 6) =~= u16_le(HEADER_MAGIC));
    lemma_u16_in(b, 4, HEADER_MAGIC);
    assert(b.subrange(6, 8) =~= u16_le(h.frames_count));
    lemma_u16_in(b, 6, h.frames_count);
    assert(b.subrange(8, 10) =~= u16_le(h.width));
    lemma_u16_in(b, 8, h.width);
    assert(b.subrange(10, 12) =~= u16_le(h.height));
    lemma_u16_in(b, 10, h.height);
    assert(b.subrange(12, 14) =~= u16_le(h.color_depth));
    lemma_u16_in(b, 12, h.color_depth);
    assert(b.subrange(14, 18) =~= u32_le(h.flags@));
    lemma_u32_at(b, 14, h.flags@);
    assert(b.subrange(32, 34) =~= u16_le(h.num_indexed_colors));
    lemma_u16_in(b, 32, h.num_indexed_colors);
    assert(b.subrange(36, 38) =~= u16_be(h.grid_x as u16));
    lemma_u16_be_in(b, 36, h.grid_x as u16);
    assert(b.subrange(38, 40) =~= u16_be(h.grid_y as u16));
    lemma_u16_be_in(b, 38, h.grid_y as u16);
    assert(b.subrange(40, 42) =~= u16_be(h.grid_width));
    lemma_u16_be_in(b, 40, h.grid_width);
    assert(b.subrange(42, 44) =~= u16_be(h.grid_height));
    lemma_u16_be_in(b, 42, h.grid_height);
}

/// The 16 bytes of a frame header hold, little-endian: the frame's size at
/// 0, the magic number at 4, the chunk count at 6 (or `0xFFFF` when it
/// does not fit, and then the count at 12), and the duration at 8.
pub proof fn lemma_frame_header_fields(frame_size: u32, duration_ms: u16, num_chunks: u32)
    ensures
        frame_header_bytes(frame_size, duration_ms, num_chunks).len() == 16,
        u32_at(frame_header_bytes(frame_size, duration_ms, num_chunks), 0) == frame_size,
        u16_at(frame_header_bytes(frame_size, duration_ms, num_chunks), 4) == FRAME_MAGIC,
        num_chunks < 0xFFFF ==> u16_at(frame_header_bytes(frame_size, duration_ms, num_chunks), 6)
            == num_chunks && u32_at(frame_header_bytes(frame_size, duration_ms, num_chunks), 12) == 0,
        num_chunks >= 0xFFFF ==> u16_at(frame_header_bytes(frame_size, duration_ms, num_chunks), 6)
            == 0xFFFF && u32_at(frame_header_bytes(frame_size, duration_ms, num_chunks), 12)
            == num_chunks,
        u16_at(frame_header_bytes(frame_size, duration_ms, num_chunks), 8) == duration_ms,
{
    let b = frame_header_bytes(frame_size, duration_ms, num_chunks);
    let old_count: u16 = if num_chunks < 0xFFFF {
        num_chunks as u16
    } else {
        0xFFFF
    };
    let new_count: u32 = if num_chunks < 0xFFFF {
        0
    } else {
        num_chunks
    };
    assert(b.subrange(0, 4) =~= u32_le(frame_size));
    lemma_u32_at(b, 0, frame_size);
    assert(b.subrange(4, 6) =~= u16_le(FRAME_MAGIC));
    lemma_u16_in(b, 4, FRAME_MAGIC);
    assert(b.subrange(6, 8) =~= u16_le(old_count));
    lemma_u16_in(b, 6, old_count);
    assert(b.subrange(8, 10) =~= u16_le(duration_ms));
    lemma_u16_in(b, 8, duration_ms);
    assert(b.subrange(12, 16) =~= u32_le(new_count));
    lemma_u32_at(b, 12, new_count);
}

/// The 6 bytes of a chunk header hold the chunk's size at 0 and its type
/// at 4, little-endian.
pub proof fn lemma_chunk_header_fields(chunk_size: u32, chunk_type: u16)
    ensures
        chunk_header_bytes(chunk_size, chunk_type).len() == 6,
        u32_at(chunk_header_bytes(chunk_size, chunk_type), 0) == chunk_size,
        u16_at(chunk_header_bytes(chunk_size, chunk_type), 4) == chunk_type,
{
    let b = chunk_header_bytes(chunk_size, chunk_type);
    assert(b.subrange(0, 4) =~= u32_le(chunk_size));
    lemma_u32_at(b, 0, chunk_size);
    assert(b.subrange(4, 6) =~= u16_le(chunk_type));
    lemma_u16_in(b, 4, chunk_type);
}

/// A written sprite file says its own size, its frame count, its width,
/// height and color mode, and its layer flags; and each of its frames says
/// its own size and duration.
pub proof fn lemma_sprite_file_fields(c: SpriteContents)
    requires
        sprite_frames_bytes(c).len() + 128 <= u32::MAX,
        c.frames@.len() <= u16::MAX,
    ensures
        u32_at(sprite_file_bytes(c), 0) == sprite_file_bytes(c).len(),
        u16_at(sprite_file_bytes(c), 6) == c.frames@.len(),
        u16_at(sprite_file_bytes(c), 8) == c.width,
        u16_at(sprite_file_bytes(c), 10) == c.height,
        u16_at(sprite_file_bytes(c), 12) == depth_fields(c.color_depth).0,
        u32_at(sprite_file_bytes(c), 14) == sprite_file_flags(c),
        sprite_file_bytes(c).subrange(128, sprite_file_bytes(c).len() as int) == sprite_frames_bytes(c),
        forall|i: int|
            0 <= i < c.frames@.len() ==> frame_bytes(c, i).len() <= u32::MAX ==> u32_at(
                #[trigger] frame_bytes(c, i),
                0,
            ) == frame_bytes(c, i).len() && u16_at(frame_bytes(c, i), 8) == c.frames@[i].duration_ms,
{
    let frames = sprite_frames_bytes(c);
    crate::formats::aseprite::raw::lemma_header_flags_of(sprite_file_flags(c) as u32);
    let size = (frames.len() + 128) as u32;
    let w = Header {
        file_size: size,
        frames_count: c.frames@.len() as u16,
        width: c.width,
        height: c.height,
        color_depth: depth_fields(c.color_depth).0,
        flags: crate::formats::aseprite::raw::header_flags_of(sprite_file_flags(c) as u32),
        transparent_index: c.transparent_color,
        num_indexed_colors: depth_fields(c.color_depth).1,
        pixel_width: c.pixel_width,
        pixel_height: c.pixel_height,
        grid_x: 0,
        grid_y: 0,
        grid_width: 0,
        grid_height: 0,
        reserved2: vstd::pervasive::arbitrary(),
    };
    assert(is_sprite_header(w, c, size));
    let h = choose|h: Header| #[trigger] is_sprite_header(h, c, size);
    lemma_header_fields(h);
    let b = sprite_file_bytes(c);
    let hb = header_bytes(h);
    assert(b == hb + frames);
    assert(b.subrange(0, 128) =~= hb);
    assert forall|k: int| 0 <= k < 128 implies b[k] == hb[k] by {}
    assert(b.subrange(128, b.len() as int) =~= frames);
    assert forall|i: int| 0 <= i < c.frames@.len() && frame_bytes(c, i).len() <= u32::MAX implies u32_at(
        #[trigger] frame_bytes(c, i),
        0,
    ) == frame_bytes(c, i).len() && u16_at(frame_bytes(c, i), 8) == c.frames@[i].duration_ms by {
        let bs = crate::formats::aseprite::writer::frame_blocks(c, i);
        let body = flat(bs);
        lemma_frame_header_fields((body.len() + 16) as u32, c.frames@[i].duration_ms, bs.len() as u32);
        let fb = frame_bytes(c, i);
        let fh = frame_header_bytes((body.len() + 16) as u32, c.frames@[i].duration_ms, bs.len() as u32);
        assert(fb == fh + body);
        assert forall|k: int| 0 <= k < 16 implies fb[k] == fh[k] by {}
    }
}

} // verus!
