//! The chunks of a sprite's frames, as an Aseprite file holds them.
//!
//! The first frame holds the palette, when it has entries, followed by the
//! sprite's user data when it has some; then each layer (followed by its
//! user data, when it has some); then, when there are tags, the tags with
//! one user data chunk per tag. Every frame then holds its cels in index order, each followed by
//! its user data when it has some. User data is written with its text and
//! color.
use vstd::prelude::*;

use crate::formats::aseprite::backing::{
    CelContents, CelData, LayerContents, SpriteContents, TagContents, UserDataContents,
};
use crate::bytes_le::zeros;
use crate::formats::aseprite::raw::cel::{
    cel_bytes, lemma_cel_roundtrip, parse_cel, CelChunk, CelModel, CelType, CelTypeModel,
    LinkedCel, RawCel, CEL_CHUNK_TYPE,
};
use crate::formats::aseprite::raw::layer::{
    layer_bytes, lemma_layer_roundtrip, parse_layer, LayerChunk, LayerModel, LAYER_CHUNK_TYPE,
};
use crate::formats::aseprite::raw::ReadError;
use crate::formats::aseprite::LAYER_ALL_FLAGS;
use crate::formats::aseprite::raw::palette::{
    lemma_palette_roundtrip, palette_bytes, parse_palette, PaletteChunk, PaletteEntryFlags,
    PaletteEntryModel, PaletteModel, PALETTE_CHUNK_TYPE,
};
use crate::formats::aseprite::raw::tags::{
    lemma_tags_roundtrip, parse_tags, tags_bytes, Tag, TagModel, TagsChunk, TAGS_CHUNK_TYPE,
};
use crate::formats::aseprite::raw::user_data::{
    lemma_user_data_roundtrip, parse_user_data, user_data_bytes, UserDataChunk, UserDataModel,
    USER_DATA_CHUNK_TYPE, USER_DATA_HAS_COLOR, USER_DATA_HAS_TEXT,
};
use crate::formats::aseprite::raw::{
    chunk_block_bytes, chunk_header_bytes, chunk_writable, encode_utf8_len, Chunk,
};
use crate::formats::aseprite::{AnimationDirection, CelIndex, PaletteEntry};

verus! {

/// A chunk of type `t` with the content `v`, with its header.
pub open spec fn block_of(t: u16, v: Seq<u8>) -> Seq<u8> {
    chunk_header_bytes((v.len() + 6) as u32, t) + v
}

/// The chunks with their headers.
pub open spec fn chunk_blocks(cs: Seq<Chunk>) -> Seq<Seq<u8>> {
    Seq::new(cs.len(), |j: int| chunk_block_bytes(cs[j]))
}

/// Whether every chunk can be written.
pub open spec fn all_writable(cs: Seq<Chunk>) -> bool {
    forall|j: int| 0 <= j < cs.len() ==> chunk_writable(#[trigger] cs[j])
}

/// Whether user data has a text or a color to write.
pub open spec fn has_user_data(u: UserDataContents) -> bool {
    u.text is Some || u.color is Some
}

/// Whether user data's text, if any, fits a `u16` byte count.
pub open spec fn text_fits(u: UserDataContents) -> bool {
    u.text matches Some(s) ==> encode_utf8_len(s@) <= u16::MAX
}

/// The user data chunk written for user data: its text and its color.
pub open spec fn user_data_model_of(u: UserDataContents) -> UserDataModel {
    UserDataModel {
        flags: ((if u.text is Some {
            USER_DATA_HAS_TEXT
        } else {
            0
        }) + (if u.color is Some {
            USER_DATA_HAS_COLOR
        } else {
            0
        })) as u32,
        text: match u.text {
            Some(s) => Some(s@),
            None => None,
        },
        color: match u.color {
            Some(c) => Some(seq![c@.0, c@.1, c@.2, c@.3]),
            None => None,
        },
        properties_data: None,
    }
}

/// The block of a user data chunk.
pub open spec fn user_data_block(u: UserDataContents) -> Seq<u8> {
    block_of(USER_DATA_CHUNK_TYPE, user_data_bytes(user_data_model_of(u)))
}

/// The user data block written after an element: one when it has user
/// data, none otherwise.
pub open spec fn optional_user_data_blocks(u: UserDataContents) -> Seq<Seq<u8>> {
    if has_user_data(u) {
        seq![user_data_block(u)]
    } else {
        seq![]
    }
}

/// The layer chunk written for a layer (at the top level, with no default
/// size).
pub open spec fn layer_model_of(l: LayerContents) -> LayerModel {
    LayerModel {
        flags: l.flags@,
        layer_type: l.layer_type,
        child_level: 0,
        default_width: 0,
        default_height: 0,
        blend_mode: l.blend_mode,
        opacity: l.opacity,
        layer_name: l.name@,
        uuid: match l.uuid {
            Some(u) => Some(u@),
            None => None,
        },
    }
}

/// The blocks of the layers: each layer, then its user data if it has some.
pub open spec fn layer_blocks(ls: Seq<LayerContents>) -> Seq<Seq<u8>>
    decreases ls.len(),
{
    if ls.len() == 0 {
        seq![]
    } else {
        layer_blocks(ls.drop_last()) + seq![block_of(LAYER_CHUNK_TYPE, layer_bytes(layer_model_of(ls.last())))]
            + optional_user_data_blocks(ls.last().user_data)
    }
}

/// The direction written for a tag's direction.
pub open spec fn raw_direction(d: AnimationDirection) -> crate::formats::aseprite::raw::tags::AnimationDirection {
    match d {
        AnimationDirection::Forward => crate::formats::aseprite::raw::tags::AnimationDirection::Forward,
        AnimationDirection::Backward => crate::formats::aseprite::raw::tags::AnimationDirection::Reverse,
        AnimationDirection::PingPong => crate::formats::aseprite::raw::tags::AnimationDirection::PingPong,
        AnimationDirection::PingPongReverse => crate::formats::aseprite::raw::tags::AnimationDirection::PingPongReverse,
    }
}

/// The tag written for a tag (repeated for ever).
pub open spec fn tag_model_of(t: TagContents) -> TagModel {
    TagModel {
        from_frame: t.from_frame as u16,
        to_frame: t.to_frame as u16,
        direction: raw_direction(t.direction),
        repeat: 0,
        name: t.name@,
    }
}

/// The blocks of the tags: none without tags, else the tags chunk and one
/// user data chunk per tag.
pub open spec fn tag_blocks(ts: Seq<TagContents>) -> Seq<Seq<u8>> {
    if ts.len() == 0 {
        seq![]
    } else {
        seq![block_of(TAGS_CHUNK_TYPE, tags_bytes(Seq::new(ts.len(), |i: int| tag_model_of(ts[i]))))]
            + Seq::new(ts.len(), |i: int| user_data_block(ts[i].user_data))
    }
}

/// The cel chunk written for the cel at `k` (a cel of pixels is written
/// uncompressed).
pub open spec fn cel_model_of(k: CelIndex, cel: CelContents) -> CelModel {
    CelModel {
        layer_index: k@.0,
        x: cel.position@.0,
        y: cel.position@.1,
        opacity: cel.opacity,
        cel_type: match cel.contents {
            CelData::Pixels(p) => CelTypeModel::Raw { width: p.width, height: p.height, pixels: p.data@ },
            CelData::Linked(f) => CelTypeModel::Linked { frame_position: f@ },
            CelData::Tilemap => CelTypeModel::Linked { frame_position: 0 },
        },
        z_index: 0,
        reserved: seq![0u8, 0u8, 0u8, 0u8, 0u8],
    }
}

/// The blocks of the cels of `frame`, in order: each cel (but a tilemap
/// cel, which has no data to write), then its user data if it has some.
pub open spec fn cel_blocks(cels: Seq<(CelIndex, CelContents)>, frame: u16) -> Seq<Seq<u8>>
    decreases cels.len(),
{
    if cels.len() == 0 {
        seq![]
    } else {
        let prev = cel_blocks(cels.drop_last(), frame);
        let e = cels.last();
        if e.0@.1 == frame && !(e.1.contents is Tilemap) {
            prev + seq![block_of(CEL_CHUNK_TYPE, cel_bytes(cel_model_of(e.0, e.1)))]
                + optional_user_data_blocks(e.1.user_data)
        } else {
            prev
        }
    }
}

/// The palette entry written for an entry: its color, and its name when
/// it has one (flagged as named).
pub open spec fn palette_entry_model_of(e: PaletteEntry) -> PaletteEntryModel {
    PaletteEntryModel {
        flags: if e@.1 is Some {
            1
        } else {
            0
        },
        red: e@.0@.0,
        green: e@.0@.1,
        blue: e@.0@.2,
        alpha: e@.0@.3,
        name: e@.1,
    }
}

/// The blocks of the palette: none when it has no entry, else the palette
/// chunk (every entry, from index 0) and the sprite's user data if it has
/// some.
pub open spec fn palette_blocks(c: SpriteContents) -> Seq<Seq<u8>> {
    let es = c.palette.entries@;
    if es.len() == 0 {
        seq![]
    } else {
        seq![
            block_of(
                PALETTE_CHUNK_TYPE,
                palette_bytes(
                    PaletteModel {
                        new_palette_size: es.len() as u32,
                        first_color_index: 0,
                        last_color_index: (es.len() - 1) as u32,
                        entries: Seq::new(es.len(), |i: int| palette_entry_model_of(es[i])),
                    },
                ),
            ),
        ] + optional_user_data_blocks(c.user_data)
    }
}

/// The blocks of the chunks of the frame at `i`.
pub open spec fn frame_blocks(c: SpriteContents, i: int) -> Seq<Seq<u8>> {
    (if i == 0 {
        palette_blocks(c) + layer_blocks(c.layers@) + tag_blocks(c.tags@)
    } else {
        seq![]
    }) + cel_blocks(c.cels@, i as u16)
}

/// Whether every name and text of the sprite fits a `u16` byte count, and
/// its tags fit the tags chunk.
pub open spec fn names_fit(c: SpriteContents) -> bool {
    &&& forall|i: int|
        0 <= i < c.layers@.len() ==> encode_utf8_len((#[trigger] c.layers@[i]).name@) <= u16::MAX
            && text_fits(c.layers@[i].user_data)
    &&& c.tags@.len() <= u16::MAX
    &&& forall|i: int|
        0 <= i < c.tags@.len() ==> encode_utf8_len((#[trigger] c.tags@[i]).name@) <= u16::MAX
            && text_fits(c.tags@[i].user_data) && c.tags@[i].from_frame <= u16::MAX
            && c.tags@[i].to_frame <= u16::MAX
    &&& forall|i: int| 0 <= i < c.cels@.len() ==> text_fits((#[trigger] c.cels@[i]).1.user_data)
    &&& c.palette.entries@.len() <= u32::MAX
    &&& forall|i: int|
        0 <= i < c.palette.entries@.len() ==> ((#[trigger] c.palette.entries@[i])@.1 matches Some(s)
            ==> encode_utf8_len(s) <= u16::MAX)
    &&& text_fits(c.user_data)
}

/// Appends the user data chunk of `u`.
fn push_user_data(chunks: &mut Vec<Chunk>, u: &UserDataContents)
    requires
        all_writable(old(chunks)@),
        text_fits(*u),
    ensures
        all_writable(final(chunks)@),
        chunk_blocks(final(chunks)@) == chunk_blocks(old(chunks)@).push(user_data_block(*u)),
{
    let flags: u32 = (if u.text.is_some() {
        USER_DATA_HAS_TEXT
    } else {
        0
    }) + (if u.color.is_some() {
        USER_DATA_HAS_COLOR
    } else {
        0
    });
    let text = match &u.text {
        Some(s) => Some(s.clone()),
        None => None,
    };
    let color = match &u.color {
        Some(c) => Some([c.red(), c.green(), c.blue(), c.alpha()]),
        None => None,
    };
    let chunk = UserDataChunk::new(flags, text, color, None);
    proof {
        assert(chunk@.text == user_data_model_of(*u).text);
        if let Some(c) = u.color {
            assert(color.unwrap()@ =~= seq![c@.0, c@.1, c@.2, c@.3]);
        }
        assert(chunk@ == user_data_model_of(*u));
    }
    let ghost before = chunks@;
    chunks.push(Chunk::UserData(chunk));
    assert(chunk_blocks(chunks@) =~= chunk_blocks(before).push(user_data_block(*u)));
}

/// Appends the user data chunk of `u` when it has user data.
fn push_optional_user_data(chunks: &mut Vec<Chunk>, u: &UserDataContents)
    requires
        all_writable(old(chunks)@),
        text_fits(*u),
    ensures
        all_writable(final(chunks)@),
        chunk_blocks(final(chunks)@) == chunk_blocks(old(chunks)@) + optional_user_data_blocks(*u),
{
    if u.text.is_some() || u.color.is_some() {
        push_user_data(chunks, u);
        assert(chunk_blocks(chunks@) =~= chunk_blocks(old(chunks)@) + optional_user_data_blocks(*u));
    } else {
        assert(chunk_blocks(chunks@) =~= chunk_blocks(old(chunks)@) + optional_user_data_blocks(*u));
    }
}

/// Appends the chunks of the palette.
pub(crate) fn push_palette(chunks: &mut Vec<Chunk>, c: &SpriteContents)
    requires
        all_writable(old(chunks)@),
        names_fit(*c),
    ensures
        all_writable(final(chunks)@),
        chunk_blocks(final(chunks)@) == chunk_blocks(old(chunks)@) + palette_blocks(*c),
{
    let es = &c.palette.entries;
    if es.len() == 0 {
        assert(chunk_blocks(chunks@) =~= chunk_blocks(old(chunks)@) + palette_blocks(*c));
        return;
    }
    let ghost ms = Seq::new(es@.len(), |i: int| palette_entry_model_of(es@[i]));
    let mut entries: Vec<crate::formats::aseprite::raw::palette::PaletteEntry> = Vec::new();
    let mut i: usize = 0;
    while i < es.len()
        invariant
            i <= es@.len(),
            es == &c.palette.entries,
            ms == Seq::new(es@.len(), |i: int| palette_entry_model_of(es@[i])),
            entries@.len() == i,
            forall|j: int| 0 <= j < i ==> (#[trigger] entries@[j])@ == ms[j],
        decreases es@.len() - i,
    {
        let e = &es[i];
        let color = e.color();
        let name: Option<String> = match e.name() {
            Some(s) => Some(String::from_str(s)),
            None => None,
        };
        let bits: u16 = if name.is_some() {
            1
        } else {
            0
        };
        assert(bits & 1 == bits) by (bit_vector)
            requires
                bits <= 1,
        ;
        let entry = crate::formats::aseprite::raw::palette::PaletteEntry {
            flags: PaletteEntryFlags::from_bits_truncate(bits),
            red: color.red(),
            green: color.green(),
            blue: color.blue(),
            alpha: color.alpha(),
            name,
        };
        assert(entry@ == ms[i as int]);
        entries.push(entry);
        i = i + 1;
    }
    let n = es.len() as u32;
    let chunk = PaletteChunk {
        new_palette_size: n,
        first_color_index: 0,
        last_color_index: n - 1,
        entries,
    };
    assert(chunk@.entries =~= ms);
    proof {
        assert forall|j: int| 0 <= j < ms.len() implies ((#[trigger] ms[j]).name matches Some(s)
            ==> encode_utf8_len(s) <= u16::MAX) by {
            assert(es@[j]@.1 matches Some(s) ==> encode_utf8_len(s) <= u16::MAX);
        }
    }
    let ghost before = chunks@;
    chunks.push(Chunk::Palette(chunk));
    assert(chunk_blocks(chunks@) =~= chunk_blocks(before).push(palette_blocks(*c)[0]));
    push_optional_user_data(chunks, &c.user_data);
    assert(chunk_blocks(chunks@) =~= chunk_blocks(old(chunks)@) + palette_blocks(*c));
}

/// Appends the chunks of the layers.
pub(crate) fn push_layers(chunks: &mut Vec<Chunk>, c: &SpriteContents)
    requires
        all_writable(old(chunks)@),
        names_fit(*c),
    ensures
        all_writable(final(chunks)@),
        chunk_blocks(final(chunks)@) == chunk_blocks(old(chunks)@) + layer_blocks(c.layers@),
{
    let mut i: usize = 0;
    assert(c.layers@.take(0) =~= Seq::<LayerContents>::empty());
    assert(chunk_blocks(chunks@) =~= chunk_blocks(old(chunks)@) + layer_blocks(c.layers@.take(0)));
    while i < c.layers.len()
        invariant
            i <= c.layers@.len(),
            names_fit(*c),
            all_writable(chunks@),
            chunk_blocks(chunks@) == chunk_blocks(old(chunks)@) + layer_blocks(c.layers@.take(i as int)),
        decreases c.layers@.len() - i,
    {
        let l = &c.layers[i];
        assert(encode_utf8_len(l.name@) <= u16::MAX && text_fits(l.user_data));
        let chunk = LayerChunk {
            flags: l.flags,
            layer_type: l.layer_type,
            child_level: 0,
            default_width: 0,
            default_height: 0,
            blend_mode: l.blend_mode,
            opacity: l.opacity,
            layer_name: l.name.clone(),
            uuid: l.uuid,
        };
        assert(chunk@ == layer_model_of(*l));
        let ghost before = chunks@;
        chunks.push(Chunk::Layer(chunk));
        assert(chunk_blocks(chunks@) =~= chunk_blocks(before).push(
            block_of(LAYER_CHUNK_TYPE, layer_bytes(layer_model_of(*l))),
        ));
        push_optional_user_data(chunks, &l.user_data);
        proof {
            let t = c.layers@.take(i + 1);
            assert(t.drop_last() =~= c.layers@.take(i as int));
            assert(t.last() == *l);
            assert(chunk_blocks(chunks@) =~= chunk_blocks(old(chunks)@) + layer_blocks(t));
        }
        i = i + 1;
    }
    assert(c.layers@.take(i as int) =~= c.layers@);
}

/// The direction written for a tag's direction.
fn raw_direction_of(d: AnimationDirection) -> (r: crate::formats::aseprite::raw::tags::AnimationDirection)
    ensures
        r == raw_direction(d),
{
    match d {
        AnimationDirection::Forward => crate::formats::aseprite::raw::tags::AnimationDirection::Forward,
        AnimationDirection::Backward => crate::formats::aseprite::raw::tags::AnimationDirection::Reverse,
        AnimationDirection::PingPong => crate::formats::aseprite::raw::tags::AnimationDirection::PingPong,
        AnimationDirection::PingPongReverse => crate::formats::aseprite::raw::tags::AnimationDirection::PingPongReverse,
    }
}

/// Appends the chunks of the tags.
pub(crate) fn push_tags(chunks: &mut Vec<Chunk>, c: &SpriteContents)
    requires
        all_writable(old(chunks)@),
        names_fit(*c),
    ensures
        all_writable(final(chunks)@),
        chunk_blocks(final(chunks)@) == chunk_blocks(old(chunks)@) + tag_blocks(c.tags@),
{
    if c.tags.len() == 0 {
        assert(chunk_blocks(chunks@) =~= chunk_blocks(old(chunks)@) + tag_blocks(c.tags@));
        return;
    }
    let ghost ms = Seq::new(c.tags@.len(), |i: int| tag_model_of(c.tags@[i]));
    let mut tags: Vec<Tag> = Vec::new();
    let mut i: usize = 0;
    while i < c.tags.len()
        invariant
            i <= c.tags@.len(),
            names_fit(*c),
            ms == Seq::new(c.tags@.len(), |i: int| tag_model_of(c.tags@[i])),
            tags@.len() == i,
            forall|j: int| 0 <= j < i ==> (#[trigger] tags@[j])@ == ms[j],
        decreases c.tags@.len() - i,
    {
        let t = &c.tags[i];
        assert(t.from_frame <= u16::MAX && t.to_frame <= u16::MAX);
        let tag = Tag {
            from_frame: t.from_frame as u16,
            to_frame: t.to_frame as u16,
            direction: raw_direction_of(t.direction),
            repeat: 0,
            name: t.name.clone(),
        };
        assert(tag@ == ms[i as int]);
        tags.push(tag);
        i = i + 1;
    }
    let chunk = TagsChunk { tags };
    assert(chunk@ =~= ms);
    proof {
        assert forall|j: int| 0 <= j < ms.len() implies encode_utf8_len((#[trigger] ms[j]).name)
            <= u16::MAX by {
            assert(encode_utf8_len(c.tags@[j].name@) <= u16::MAX);
        }
    }
    let ghost before = chunks@;
    chunks.push(Chunk::Tags(chunk));
    assert(chunk_blocks(chunks@) =~= chunk_blocks(before).push(block_of(TAGS_CHUNK_TYPE, tags_bytes(ms))));
    let ghost head = chunk_blocks(chunks@);
    let mut k: usize = 0;
    while k < c.tags.len()
        invariant
            k <= c.tags@.len(),
            names_fit(*c),
            all_writable(chunks@),
            chunk_blocks(chunks@) == head + Seq::new(k as nat, |j: int| user_data_block(c.tags@[j].user_data)),
        decreases c.tags@.len() - k,
    {
        assert(text_fits(c.tags@[k as int].user_data));
        let ghost prev = chunks@;
        push_user_data(chunks, &c.tags[k].user_data);
        assert(chunk_blocks(chunks@) =~= head + Seq::new((k + 1) as nat, |j: int| user_data_block(c.tags@[j].user_data)));
        k = k + 1;
    }
    assert(chunk_blocks(chunks@) =~= chunk_blocks(old(chunks)@) + tag_blocks(c.tags@));
}

/// Appends the chunks of the cels of `frame`.
pub(crate) fn push_cels(chunks: &mut Vec<Chunk>, c: &SpriteContents, frame: u16)
    requires
        all_writable(old(chunks)@),
        names_fit(*c),
    ensures
        all_writable(final(chunks)@),
        chunk_blocks(final(chunks)@) == chunk_blocks(old(chunks)@) + cel_blocks(c.cels@, frame),
{
    let mut i: usize = 0;
    assert(c.cels@.take(0) =~= Seq::<(CelIndex, CelContents)>::empty());
    assert(chunk_blocks(chunks@) =~= chunk_blocks(old(chunks)@) + cel_blocks(c.cels@.take(0), frame));
    while i < c.cels.len()
        invariant
            i <= c.cels@.len(),
            names_fit(*c),
            all_writable(chunks@),
            chunk_blocks(chunks@) == chunk_blocks(old(chunks)@) + cel_blocks(c.cels@.take(i as int), frame),
        decreases c.cels@.len() - i,
    {
        let idx = c.cels[i].0;
        let cel = &c.cels[i].1;
        let ghost e = c.cels@[i as int];
        proof {
            let t = c.cels@.take(i + 1);
            assert(t.drop_last() =~= c.cels@.take(i as int));
            assert(t.last() == e);
        }
        if idx.frame().as_u16() == frame {
            let cel_type: Option<CelType> = match &cel.contents {
                CelData::Pixels(p) => Some(
                    CelType::Raw(RawCel { width: p.width, height: p.height, pixels: p.data.clone() }),
                ),
                CelData::Linked(f) => Some(CelType::Linked(LinkedCel { frame_position: f.as_u16() })),
                CelData::Tilemap => None,
            };
            if let Some(ct) = cel_type {
                let pos = cel.position;
                let chunk = CelChunk {
                    layer_index: idx.layer().as_u16(),
                    x: pos.x(),
                    y: pos.y(),
                    opacity: cel.opacity,
                    cel_type: ct,
                    z_index: 0,
                    reserved: [0u8; 5],
                };
                proof {
                    if cel.contents is Pixels {
                        let p = cel.contents->Pixels_0;
                        assert(ct@ == CelTypeModel::Raw { width: p.width, height: p.height, pixels: p.data@ });
                    }
                    assert(cel_bytes(chunk@) == cel_bytes(cel_model_of(idx, *cel)));
                }
                let ghost before = chunks@;
                chunks.push(Chunk::Cel(chunk));
                assert(chunk_blocks(chunks@) =~= chunk_blocks(before).push(
                    block_of(CEL_CHUNK_TYPE, cel_bytes(cel_model_of(idx, *cel))),
                ));
                assert(text_fits(c.cels@[i as int].1.user_data));
                push_optional_user_data(chunks, &cel.user_data);
                proof {
                    let t = c.cels@.take(i + 1);
                    assert(chunk_blocks(chunks@) =~= chunk_blocks(old(chunks)@) + cel_blocks(t, frame));
                }
            }
        }
        i = i + 1;
    }
    assert(c.cels@.take(i as int) =~= c.cels@);
}

/// The user data chunk written for user data reads back with its text and
/// its color (red, green, blue, alpha), and no properties.
pub proof fn lemma_written_user_data(u: UserDataContents)
    requires
        text_fits(u),
    ensures
        parse_user_data(user_data_bytes(user_data_model_of(u))) matches Ok(m) && m.text == (match u.text {
            Some(s) => Some(s@),
            None => None::<Seq<char>>,
        }) && m.color == (match u.color {
            Some(c) => Some(seq![c@.0, c@.1, c@.2, c@.3]),
            None => None::<Seq<u8>>,
        }) && m.properties_data is None,
{
    let m = user_data_model_of(u);
    let f = m.flags;
    assert(f <= 3);
    assert(f & 7 == f && ((f & 1 == 1) <==> (f == 1 || f == 3)) && ((f & 2 == 2) <==> (f == 2
        || f == 3)) && (f & 4 != 4)) by (bit_vector)
        requires
            f <= 3,
    ;
    lemma_user_data_roundtrip(m);
}

/// The layer chunk written for a layer reads back with the layer's flags,
/// type, blend mode, opacity, name and UUID, at the top level.
pub proof fn lemma_written_layer(l: LayerContents)
    requires
        l.flags@ & LAYER_ALL_FLAGS == l.flags@,
        encode_utf8_len(l.name@) <= u16::MAX,
    ensures
        parse_layer(layer_bytes(layer_model_of(l))) matches Ok(m) && m.flags == l.flags@
            && m.layer_type == l.layer_type && m.blend_mode == l.blend_mode && m.opacity
            == l.opacity && m.layer_name == l.name@ && m.child_level == 0 && m.uuid == (match l.uuid {
            Some(u) => Some(u@),
            None => None::<Seq<u8>>,
        }),
{
    lemma_layer_roundtrip(layer_model_of(l));
}

/// The cel chunk written for a cel that is not a tilemap reads back with
/// the cel's layer, position and opacity, and its pixels (width, height,
/// bytes) or the frame it links to.
pub proof fn lemma_written_cel(k: CelIndex, cel: CelContents)
    requires
        !(cel.contents is Tilemap),
    ensures
        parse_cel(cel_bytes(cel_model_of(k, cel))) matches Ok(m) && m.layer_index == k@.0 && m.x
            == cel.position@.0 && m.y == cel.position@.1 && m.opacity == cel.opacity && match cel.contents {
            CelData::Pixels(p) => m.cel_type == CelTypeModel::Raw {
                width: p.width,
                height: p.height,
                pixels: p.data@,
            },
            CelData::Linked(f) => m.cel_type == CelTypeModel::Linked { frame_position: f@ },
            CelData::Tilemap => false,
        },
{
    assert(cel_model_of(k, cel).reserved =~= zeros(5));
    lemma_cel_roundtrip(cel_model_of(k, cel));
}

/// The tags chunk written for tags reads back with each tag's frames,
/// direction and name, in order.
pub proof fn lemma_written_tags(ts: Seq<TagContents>)
    requires
        0 < ts.len() <= u16::MAX,
        forall|i: int|
            0 <= i < ts.len() ==> encode_utf8_len((#[trigger] ts[i]).name@) <= u16::MAX
                && ts[i].from_frame <= u16::MAX && ts[i].to_frame <= u16::MAX,
    ensures
        parse_tags(tags_bytes(Seq::new(ts.len(), |i: int| tag_model_of(ts[i])))) matches Ok(ms)
            && ms.len() == ts.len() && forall|i: int|
            0 <= i < ts.len() ==> (#[trigger] ms[i]).from_frame == ts[i].from_frame
                && ms[i].to_frame == ts[i].to_frame && ms[i].direction == raw_direction(
                ts[i].direction,
            ) && ms[i].name == ts[i].name@,
{
    let ms = Seq::new(ts.len(), |i: int| tag_model_of(ts[i]));
    lemma_tags_roundtrip(ms);
}

/// The palette chunk written for a sprite's palette reads back with every
/// entry's color and name, from index 0.
pub proof fn lemma_written_palette(c: SpriteContents)
    requires
        0 < c.palette.entries@.len() <= u32::MAX,
        forall|i: int|
            0 <= i < c.palette.entries@.len() ==> ((#[trigger] c.palette.entries@[i])@.1 matches Some(s)
                ==> encode_utf8_len(s) <= u16::MAX),
    ensures
        ({
            let es = c.palette.entries@;
            let model = PaletteModel {
                new_palette_size: es.len() as u32,
                first_color_index: 0,
                last_color_index: (es.len() - 1) as u32,
                entries: Seq::new(es.len(), |i: int| palette_entry_model_of(es[i])),
            };
            parse_palette(palette_bytes(model)) matches Ok(m) && m.first_color_index == 0
                && m.entries.len() == es.len() && forall|i: int|
                0 <= i < es.len() ==> (#[trigger] m.entries[i]).red == es[i]@.0@.0 && m.entries[i].green
                    == es[i]@.0@.1 && m.entries[i].blue == es[i]@.0@.2 && m.entries[i].alpha
                    == es[i]@.0@.3 && m.entries[i].name == es[i]@.1
        }),
{
    let es = c.palette.entries@;
    let model = PaletteModel {
        new_palette_size: es.len() as u32,
        first_color_index: 0,
        last_color_index: (es.len() - 1) as u32,
        entries: Seq::new(es.len(), |i: int| palette_entry_model_of(es[i])),
    };
    assert forall|i: int| 0 <= i < model.entries.len() implies crate::formats::aseprite::raw::palette::entry_well_formed(
        #[trigger] model.entries[i],
    ) by {
        let f = model.entries[i].flags;
        assert(f & 1 == f) by (bit_vector)
            requires
                f <= 1,
        ;
    }
    lemma_palette_roundtrip(model);
}

} // verus!
