//! Read-only views of a valid sprite.
use vstd::prelude::*;

use crate::formats::aseprite::backing::{
    cel_index_lt, cels_sorted, sprite_valid, validate_sprite, CelContents, CelData, CelPixelData,
    SpriteContents, UserDataContents, ValidationError, reports_first_fault,
};
use crate::formats::aseprite::props::PropertyMap;
use crate::formats::aseprite::raw::{
    build_frame_block, chunk_block_bytes, chunk_value_bytes, chunk_writable, flat,
    frame_header_bytes, header_bytes, lemma_flat_push, Chunk, Header, HeaderFlags,
    HEADER_HAS_LAYER_OPACITY, HEADER_HAS_LAYER_UUIDS,
};
use crate::formats::aseprite::writer::{
    chunk_blocks, frame_blocks, names_fit, push_cels, push_layers, push_palette, push_tags,
};
use crate::formats::aseprite::{
    AnimationDirection, BlendMode, CelIndex, Color, ColorDepth, FrameIndex, LayerIndex, Point16,
    LAYER_VISIBLE,
};

verus! {

/// Whether some layer of the sprite is not fully opaque.
pub open spec fn layers_have_opacity(c: SpriteContents) -> bool {
    exists|i: int| 0 <= i < c.layers@.len() && (#[trigger] c.layers@[i]).opacity != 255
}

/// Whether some layer of the sprite has a UUID.
pub open spec fn layers_have_uuids(c: SpriteContents) -> bool {
    exists|i: int| 0 <= i < c.layers@.len() && (#[trigger] c.layers@[i]).uuid is Some
}

/// The file flags of the sprite: layer opacity when a layer is not fully
/// opaque, layer UUIDs when a layer has one.
pub open spec fn sprite_file_flags(c: SpriteContents) -> int {
    (if layers_have_opacity(c) {
        HEADER_HAS_LAYER_OPACITY
    } else {
        0
    }) + (if layers_have_uuids(c) {
        HEADER_HAS_LAYER_UUIDS
    } else {
        0
    })
}

/// The color depth in bits per pixel written for a sprite's color mode,
/// and its number of indexed colors.
pub open spec fn depth_fields(d: ColorDepth) -> (u16, u16) {
    match d {
        ColorDepth::Indexed(n) => (n, n),
        ColorDepth::Grayscale => (16, 0),
        ColorDepth::Rgba => (32, 0),
    }
}

/// The bytes of the frame at `i`: its header (size, duration, chunk count),
/// then its chunks (see [`frame_blocks`]).
pub open spec fn frame_bytes(c: SpriteContents, i: int) -> Seq<u8> {
    let bs = frame_blocks(c, i);
    frame_header_bytes((flat(bs).len() + 16) as u32, c.frames@[i].duration_ms, bs.len() as u32)
        + flat(bs)
}

/// The bytes of the sprite's frames, one after another.
pub open spec fn sprite_frames_bytes(c: SpriteContents) -> Seq<u8> {
    flat(Seq::new(c.frames@.len(), |i: int| frame_bytes(c, i)))
}

/// Whether the sprite fits the file's fields: its frame count fits a
/// `u16`, its names and texts fit a `u16` byte count, each frame's chunk
/// count fits a `u32`, and the file's size fits a `u32`.
pub open spec fn sprite_writable(c: SpriteContents) -> bool {
    &&& c.frames@.len() <= u16::MAX
    &&& names_fit(c)
    &&& forall|i: int| 0 <= i < c.frames@.len() ==> (#[trigger] frame_blocks(c, i)).len() <= u32::MAX
    &&& sprite_frames_bytes(c).len() + 128 <= u32::MAX
}

/// A part of a flattened list of parts is no longer than the whole.
proof fn lemma_flat_part(ps: Seq<Seq<u8>>, j: int)
    requires
        0 <= j < ps.len(),
    ensures
        ps[j].len() <= flat(ps).len(),
    decreases j,
{
    if j > 0 {
        lemma_flat_part(ps.skip(1), j - 1);
        assert(ps.skip(1)[j - 1] == ps[j]);
    }
}

/// Whether `h` is the header written for the sprite `c` in a file of
/// `size` bytes: its frame count, size, color mode, flags, transparent
/// index and pixel ratio, and no grid.
pub open spec fn is_sprite_header(h: Header, c: SpriteContents, size: u32) -> bool {
    &&& h.file_size == size
    &&& h.frames_count == c.frames@.len()
    &&& h.width == c.width
    &&& h.height == c.height
    &&& h.color_depth == depth_fields(c.color_depth).0
    &&& h.num_indexed_colors == depth_fields(c.color_depth).1
    &&& h.flags@ == sprite_file_flags(c)
    &&& h.transparent_index == c.transparent_color
    &&& h.pixel_width == c.pixel_width
    &&& h.pixel_height == c.pixel_height
    &&& h.grid_x == 0 && h.grid_y == 0 && h.grid_width == 0 && h.grid_height == 0
}

/// The bytes of a sprite's file: its header, then its frames.
pub open spec fn sprite_file_bytes(c: SpriteContents) -> Seq<u8> {
    let frames = sprite_frames_bytes(c);
    let h = choose|h: Header| #[trigger] is_sprite_header(h, c, (frames.len() + 128) as u32);
    header_bytes(h) + frames
}


/// A read-only, valid Aseprite sprite. Its cels are in index order.
pub struct Sprite {
    contents: SpriteContents,
}

impl Sprite {
    /// The sprite's contents.
    pub closed spec fn contents_spec(&self) -> SpriteContents {
        self.contents
    }

    /// The sprite is valid and its cels are in index order.
    #[verifier::type_invariant]
    spec fn inv(&self) -> bool {
        sprite_valid(self.contents) && cels_sorted(self.contents.cels@)
    }

    /// Validates `contents` as a sprite: the sprite when they are valid,
    /// else the error for their first fault. The cels must be in index order.
    pub fn new(contents: SpriteContents) -> (r: Result<Self, ValidationError>)
        requires
            cels_sorted(contents.cels@),
        ensures
            match r {
                Ok(s) => s.contents_spec() == contents && sprite_valid(contents),
                Err(e) => reports_first_fault(contents, e),
            },
    {
        match validate_sprite(&contents) {
            Ok(()) => Ok(Sprite { contents }),
            Err(e) => Err(e),
        }
    }

    /// The width of the sprite in pixels.
    pub fn width(&self) -> (w: u16)
        ensures
            w == self.contents_spec().width,
    {
        self.contents.width
    }

    /// The height of the sprite in pixels.
    pub fn height(&self) -> (h: u16)
        ensures
            h == self.contents_spec().height,
    {
        self.contents.height
    }

    /// The pixel aspect ratio's width.
    pub fn pixel_width(&self) -> (w: u8)
        ensures
            w == self.contents_spec().pixel_width,
    {
        self.contents.pixel_width
    }

    /// The pixel aspect ratio's height.
    pub fn pixel_height(&self) -> (h: u8)
        ensures
            h == self.contents_spec().pixel_height,
    {
        self.contents.pixel_height
    }

    /// The color depth of the sprite.
    pub fn color_depth(&self) -> (d: ColorDepth)
        ensures
            d == self.contents_spec().color_depth,
    {
        self.contents.color_depth
    }

    /// The number of frames.
    pub fn frame_count(&self) -> (n: usize)
        ensures
            n == self.contents_spec().frames@.len(),
    {
        self.contents.frames.len()
    }

    /// The sprite as the bytes of an Aseprite file: the header, then each
    /// frame with its duration and chunks: the palette, layers and tags in the first
    /// frame, and each frame's cels (see the `writer` module). The sprite
    /// must fit the file's fields.
    pub fn to_block(&self) -> (b: Vec<u8>)
        requires
            sprite_writable(self.contents_spec()),
        ensures
            b@ == sprite_file_bytes(self.contents_spec()),
    {
        let c = &self.contents;
        let mut has_opacity = false;
        let mut has_uuids = false;
        let mut i: usize = 0;
        while i < c.layers.len()
            invariant
                i <= c.layers@.len(),
                has_opacity <==> exists|j: int| 0 <= j < i && (#[trigger] c.layers@[j]).opacity != 255,
                has_uuids <==> exists|j: int| 0 <= j < i && (#[trigger] c.layers@[j]).uuid is Some,
            decreases c.layers@.len() - i,
        {
            if c.layers[i].opacity != 255 {
                has_opacity = true;
            }
            if c.layers[i].uuid.is_some() {
                has_uuids = true;
            }
            i = i + 1;
        }
        let mut frames: Vec<u8> = Vec::new();
        let ghost parts = Seq::new(c.frames@.len(), |j: int| frame_bytes(*c, j));
        let mut k: usize = 0;
        while k < c.frames.len()
            invariant
                k <= c.frames@.len(),
                sprite_writable(*c),
                parts == Seq::new(c.frames@.len(), |j: int| frame_bytes(*c, j)),
                frames@ == flat(parts.take(k as int)),
            decreases c.frames@.len() - k,
        {
            let mut chunks: Vec<Chunk> = Vec::new();
            assert(chunk_blocks(chunks@) =~= Seq::<Seq<u8>>::empty());
            if k == 0 {
                push_palette(&mut chunks, c);
                push_layers(&mut chunks, c);
                push_tags(&mut chunks, c);
            }
            push_cels(&mut chunks, c, k as u16);
            let ghost bs = frame_blocks(*c, k as int);
            proof {
                assert(chunk_blocks(chunks@) =~= bs);
                assert(crate::formats::aseprite::raw::chunks_bytes(chunks@) =~= flat(bs));
                assert(parts[k as int] == frame_bytes(*c, k as int));
                lemma_flat_part(parts, k as int);
                assert(flat(parts) == sprite_frames_bytes(*c));
                assert forall|j: int| 0 <= j < chunks@.len() implies chunk_writable(
                    #[trigger] chunks@[j],
                ) && chunk_value_bytes(chunks@[j]).len() + 6 <= u32::MAX by {
                    lemma_flat_part(bs, j);
                    assert(bs[j] == chunk_block_bytes(chunks@[j]));
                }
            }
            let mut block = build_frame_block(c.frames[k].duration_ms, &chunks);
            proof {
                assert(block@ == parts[k as int]);
                assert(parts.take(k + 1) =~= parts.take(k as int).push(parts[k as int]));
                lemma_flat_push(parts.take(k as int), parts[k as int]);
            }
            frames.append(&mut block);
            k = k + 1;
        }
        assert(parts.take(k as int) =~= parts);
        let (color_depth, num_indexed_colors): (u16, u16) = match c.color_depth {
            ColorDepth::Indexed(n) => (n, n),
            ColorDepth::Grayscale => (16, 0),
            ColorDepth::Rgba => (32, 0),
        };
        let bits: u32 = (if has_opacity {
            HEADER_HAS_LAYER_OPACITY
        } else {
            0
        }) + (if has_uuids {
            HEADER_HAS_LAYER_UUIDS
        } else {
            0
        });
        assert(bits & 7 == bits) by (bit_vector)
            requires
                bits <= 5,
        ;
        let header = Header {
            file_size: (frames.len() + 128) as u32,
            frames_count: c.frames.len() as u16,
            width: c.width,
            height: c.height,
            color_depth,
            flags: HeaderFlags::from_bits_truncate(bits),
            transparent_index: c.transparent_color,
            num_indexed_colors,
            pixel_width: c.pixel_width,
            pixel_height: c.pixel_height,
            grid_x: 0,
            grid_y: 0,
            grid_width: 0,
            grid_height: 0,
            reserved2: [0u8; 84],
        };
        let mut block = header.to_block();
        proof {
            let size = (frames@.len() + 128) as u32;
            assert(is_sprite_header(header, *c, size));
            let h = choose|h: Header| #[trigger] is_sprite_header(h, *c, size);
            assert(header_bytes(h) == header_bytes(header));
        }
        block.append(&mut frames);
        block
    }

    /// The frame at `index`, if there is one. (A frame index is a `u16`.)
    pub fn frame(&self, index: usize) -> (f: Option<FrameView<'_>>)
        requires
            index < self.contents_spec().frames@.len() ==> index <= u16::MAX,
        ensures
            f is Some <==> index < self.contents_spec().frames@.len(),
            f matches Some(v) ==> v.index_spec()@ == index && v.sprite_spec() == self,
    {
        if index < self.contents.frames.len() {
            Some(FrameView { sprite: self, index: FrameIndex::from_u16(index as u16) })
        } else {
            None
        }
    }

    /// The number of layers.
    pub fn layer_count(&self) -> (n: usize)
        ensures
            n == self.contents_spec().layers@.len(),
    {
        self.contents.layers.len()
    }

    /// The layer at `index`, if there is one. (A layer index is a `u16`.)
    pub fn layer(&self, index: usize) -> (l: Option<LayerView<'_>>)
        requires
            index < self.contents_spec().layers@.len() ==> index <= u16::MAX,
        ensures
            l is Some <==> index < self.contents_spec().layers@.len(),
            l matches Some(v) ==> v.index_spec()@ == index && v.sprite_spec() == self,
    {
        if index < self.contents.layers.len() {
            Some(LayerView { sprite: self, index: LayerIndex::from_u16(index as u16) })
        } else {
            None
        }
    }

    /// The number of tags.
    pub fn tag_count(&self) -> (n: usize)
        ensures
            n == self.contents_spec().tags@.len(),
    {
        self.contents.tags.len()
    }

    /// The tag at `index`, if there is one.
    pub fn tag(&self, index: usize) -> (t: Option<TagView<'_>>)
        ensures
            t is Some <==> index < self.contents_spec().tags@.len(),
            t matches Some(v) ==> v.index_spec() == index && v.sprite_spec() == self,
    {
        if index < self.contents.tags.len() {
            proof {
                use_type_invariant(self);
            }
            Some(TagView { sprite: self, index })
        } else {
            None
        }
    }

    /// The number of cels.
    pub fn cel_count(&self) -> (n: usize)
        ensures
            n == self.contents_spec().cels@.len(),
    {
        self.contents.cels.len()
    }

    /// The cel of `layer` in `frame`, if there is one.
    pub fn cel(&self, layer: LayerIndex, frame: FrameIndex) -> (c: Option<CelView<'_>>)
        ensures
            c is Some <==> exists|k: int|
                0 <= k < self.contents_spec().cels@.len() && (#[trigger] self.contents_spec().cels@[k]).0@
                    == (layer@, frame@),
            c matches Some(v) ==> v.index_spec()@ == (layer@, frame@) && v.sprite_spec() == self
                && exists|k: int|
                0 <= k < self.contents_spec().cels@.len() && (#[trigger] self.contents_spec().cels@[k]).0@
                    == (layer@, frame@) && *v.contents_spec() == self.contents_spec().cels@[k].1,
    {
        let mut k: usize = 0;
        while k < self.contents.cels.len()
            invariant
                k <= self.contents.cels@.len(),
                forall|j: int| 0 <= j < k ==> (#[trigger] self.contents.cels@[j]).0@ != (layer@, frame@),
            decreases self.contents.cels@.len() - k,
        {
            let idx = self.contents.cels[k].0;
            if idx.layer() == layer && idx.frame() == frame {
                return Some(CelView { sprite: self, index: idx, contents: &self.contents.cels[k].1 });
            }
            k = k + 1;
        }
        None
    }

    /// The palette, when the sprite is in indexed color mode.
    pub fn palette(&self) -> (p: Option<PaletteView<'_>>)
        ensures
            p is Some <==> self.contents_spec().color_depth is Indexed,
            p matches Some(v) ==> v.sprite_spec() == self,
    {
        match self.contents.color_depth {
            ColorDepth::Indexed(_) => Some(PaletteView { sprite: self }),
            _ => None,
        }
    }

    /// The sprite's own user data.
    pub fn user_data(&self) -> (u: &UserDataContents)
        ensures
            *u == self.contents_spec().user_data,
    {
        &self.contents.user_data
    }
}

/// A read-only view of a frame of a sprite.
#[derive(Clone, Copy)]
pub struct FrameView<'a> {
    sprite: &'a Sprite,
    index: FrameIndex,
}

impl<'a> FrameView<'a> {
    /// The frame's index.
    pub closed spec fn index_spec(&self) -> FrameIndex {
        self.index
    }

    /// The sprite of the frame.
    pub closed spec fn sprite_spec(&self) -> &'a Sprite {
        self.sprite
    }

    /// The frame is one of the sprite's.
    #[verifier::type_invariant]
    spec fn inv(&self) -> bool {
        self.index@ < self.sprite.contents.frames@.len()
    }

    /// The frame's index.
    pub fn index(&self) -> (i: FrameIndex)
        ensures
            i == self.index_spec(),
    {
        self.index
    }

    /// The frame's duration in milliseconds.
    pub fn duration(&self) -> (d: u16)
        ensures
            self.index_spec()@ < self.sprite_spec().contents_spec().frames@.len(),
            d == self.sprite_spec().contents_spec().frames@[self.index_spec()@ as int].duration_ms,
    {
        proof {
            use_type_invariant(self);
        }
        self.sprite.contents.frames[self.index.as_usize()].duration_ms
    }

    /// The frame's cel on `layer`, if there is one.
    pub fn cel(&self, layer: LayerIndex) -> (c: Option<CelView<'a>>)
        ensures
            c matches Some(v) ==> v.index_spec()@ == (layer@, self.index_spec()@),
    {
        self.sprite.cel(layer, self.index)
    }

    /// The sprite of the frame.
    pub fn sprite(&self) -> (s: &'a Sprite)
        ensures
            s == self.sprite_spec(),
    {
        self.sprite
    }
}

/// A read-only view of a layer of a sprite.
#[derive(Clone, Copy)]
pub struct LayerView<'a> {
    sprite: &'a Sprite,
    index: LayerIndex,
}

impl<'a> LayerView<'a> {
    /// The layer's index.
    pub closed spec fn index_spec(&self) -> LayerIndex {
        self.index
    }

    /// The sprite of the layer.
    pub closed spec fn sprite_spec(&self) -> &'a Sprite {
        self.sprite
    }

    /// The layer is one of the sprite's.
    #[verifier::type_invariant]
    spec fn inv(&self) -> bool {
        self.index@ < self.sprite.contents.layers@.len()
    }

    /// The layer's index.
    pub fn index(&self) -> (i: LayerIndex)
        ensures
            i == self.index_spec(),
    {
        self.index
    }

    /// The layer's name.
    pub fn name(&self) -> (n: &str)
        ensures
            self.index_spec()@ < self.sprite_spec().contents_spec().layers@.len(),
            n@ == self.sprite_spec().contents_spec().layers@[self.index_spec()@ as int].name@,
    {
        proof {
            use_type_invariant(self);
        }
        self.sprite.contents.layers[self.index.as_usize()].name.as_str()
    }

    /// Whether the layer is visible.
    pub fn is_visible(&self) -> (v: bool)
        ensures
            self.index_spec()@ < self.sprite_spec().contents_spec().layers@.len(),
            v == (self.sprite_spec().contents_spec().layers@[self.index_spec()@ as int].flags@
                & LAYER_VISIBLE == LAYER_VISIBLE),
    {
        proof {
            use_type_invariant(self);
        }
        self.sprite.contents.layers[self.index.as_usize()].flags.contains(LAYER_VISIBLE)
    }

    /// The layer's opacity (0-255).
    pub fn opacity(&self) -> (o: u8)
        ensures
            self.index_spec()@ < self.sprite_spec().contents_spec().layers@.len(),
            o == self.sprite_spec().contents_spec().layers@[self.index_spec()@ as int].opacity,
    {
        proof {
            use_type_invariant(self);
        }
        self.sprite.contents.layers[self.index.as_usize()].opacity
    }

    /// The layer's blend mode.
    pub fn blend_mode(&self) -> (m: BlendMode)
        ensures
            self.index_spec()@ < self.sprite_spec().contents_spec().layers@.len(),
            m == self.sprite_spec().contents_spec().layers@[self.index_spec()@ as int].blend_mode,
    {
        proof {
            use_type_invariant(self);
        }
        self.sprite.contents.layers[self.index.as_usize()].blend_mode
    }

    /// The layer's cel in `frame`, if there is one.
    pub fn cel(&self, frame: FrameIndex) -> (c: Option<CelView<'a>>)
        ensures
            c matches Some(v) ==> v.index_spec()@ == (self.index_spec()@, frame@),
    {
        self.sprite.cel(self.index, frame)
    }

    /// The sprite of the layer.
    pub fn sprite(&self) -> (s: &'a Sprite)
        ensures
            s == self.sprite_spec(),
    {
        self.sprite
    }

    /// The layer's user data.
    pub fn user_data(&self) -> (u: &'a UserDataContents)
        ensures
            self.index_spec()@ < self.sprite_spec().contents_spec().layers@.len(),
            *u == self.sprite_spec().contents_spec().layers@[self.index_spec()@ as int].user_data,
    {
        proof {
            use_type_invariant(self);
        }
        &self.sprite.contents.layers[self.index.as_usize()].user_data
    }

    /// The layer's user data color, if set.
    pub fn color(&self) -> (c: Option<Color>)
        ensures
            self.index_spec()@ < self.sprite_spec().contents_spec().layers@.len(),
            c == self.sprite_spec().contents_spec().layers@[self.index_spec()@ as int].user_data.color,
    {
        self.user_data().color
    }

    /// The layer's user data text, if set.
    pub fn data(&self) -> (t: Option<&'a str>)
        ensures
            self.index_spec()@ < self.sprite_spec().contents_spec().layers@.len(),
            match t {
                Some(s) => self.sprite_spec().contents_spec().layers@[self.index_spec()@ as int].user_data.text
                    matches Some(x) && x@ == s@,
                None => self.sprite_spec().contents_spec().layers@[self.index_spec()@ as int].user_data.text
                    is None,
            },
    {
        match &self.user_data().text {
            Some(s) => Some(s.as_str()),
            None => None,
        }
    }

    /// The layer's general user data properties, if any.
    pub fn properties(&self) -> (p: Option<&'a PropertyMap>)
        ensures
            self.index_spec()@ < self.sprite_spec().contents_spec().layers@.len(),
            match p {
                Some(m) => self.sprite_spec().contents_spec().layers@[self.index_spec()@ as int].user_data.general
                    == Some(*m),
                None => self.sprite_spec().contents_spec().layers@[self.index_spec()@ as int].user_data.general
                    is None,
            },
    {
        self.user_data().general.as_ref()
    }
}

/// A read-only view of an animation tag of a sprite.
#[derive(Clone, Copy)]
pub struct TagView<'a> {
    sprite: &'a Sprite,
    index: usize,
}

impl<'a> TagView<'a> {
    /// The tag's place among the sprite's tags.
    pub closed spec fn index_spec(&self) -> usize {
        self.index
    }

    /// The sprite of the tag.
    pub closed spec fn sprite_spec(&self) -> &'a Sprite {
        self.sprite
    }

    /// The tag is one of the sprite's.
    #[verifier::type_invariant]
    spec fn inv(&self) -> bool {
        self.index < self.sprite.contents.tags@.len() && sprite_valid(self.sprite.contents)
    }

    /// The tag's name.
    pub fn name(&self) -> (n: &str)
        ensures
            self.index_spec() < self.sprite_spec().contents_spec().tags@.len(),
            n@ == self.sprite_spec().contents_spec().tags@[self.index_spec() as int].name@,
    {
        proof {
            use_type_invariant(self);
        }
        self.sprite.contents.tags[self.index].name.as_str()
    }

    /// The frames of the tag: from its first frame up to and including its
    /// last.
    pub fn range(&self) -> (r: core::ops::Range<usize>)
        ensures
            self.index_spec() < self.sprite_spec().contents_spec().tags@.len(),
            r.start == self.sprite_spec().contents_spec().tags@[self.index_spec() as int].from_frame,
            r.end == self.sprite_spec().contents_spec().tags@[self.index_spec() as int].to_frame + 1,
    {
        proof {
            use_type_invariant(self);
            use_type_invariant(self.sprite);
            crate::formats::aseprite::backing::lemma_valid_tag_in_frames(
                self.sprite.contents,
                self.index as int,
            );
        }
        let _frame_count = self.sprite.contents.frames.len();
        let tag = &self.sprite.contents.tags[self.index];
        (tag.from_frame as usize)..(tag.to_frame as usize + 1)
    }

    /// The frames of the tag, in order: one view for each index of
    /// [`TagView::range`]. (A frame index is a `u16`.)
    pub fn frames(&self) -> (r: Vec<FrameView<'a>>)
        requires
            self.index_spec() < self.sprite_spec().contents_spec().tags@.len() ==> self.sprite_spec().contents_spec().tags@[self.index_spec() as int].to_frame
                <= u16::MAX,
        ensures
            self.index_spec() < self.sprite_spec().contents_spec().tags@.len(),
            r@.len() == self.sprite_spec().contents_spec().tags@[self.index_spec() as int].to_frame + 1
                - self.sprite_spec().contents_spec().tags@[self.index_spec() as int].from_frame,
            forall|i: int|
                0 <= i < r@.len() ==> (#[trigger] r@[i]).index_spec()@ == self.sprite_spec().contents_spec().tags@[self.index_spec() as int].from_frame
                    + i && r@[i].sprite_spec() == self.sprite_spec(),
    {
        proof {
            use_type_invariant(self);
            use_type_invariant(self.sprite);
            crate::formats::aseprite::backing::lemma_valid_tag_in_frames(
                self.sprite.contents,
                self.index as int,
            );
        }
        let tag = &self.sprite.contents.tags[self.index];
        let from = tag.from_frame;
        let to = tag.to_frame;
        let mut r: Vec<FrameView<'a>> = Vec::new();
        let mut f: u32 = from;
        while f <= to
            invariant
                from <= f <= to + 1,
                to <= u16::MAX,
                to < self.sprite.contents.frames@.len(),
                r@.len() == f - from,
                forall|i: int|
                    0 <= i < r@.len() ==> (#[trigger] r@[i]).index@ == from + i && r@[i].sprite
                        == self.sprite,
            decreases to + 1 - f,
        {
            r.push(FrameView { sprite: self.sprite, index: FrameIndex::from_u16(f as u16) });
            f = f + 1;
        }
        r
    }

    /// The tag's animation direction.
    pub fn direction(&self) -> (d: AnimationDirection)
        ensures
            self.index_spec() < self.sprite_spec().contents_spec().tags@.len(),
            d == self.sprite_spec().contents_spec().tags@[self.index_spec() as int].direction,
    {
        proof {
            use_type_invariant(self);
        }
        self.sprite.contents.tags[self.index].direction
    }

    /// The tag's user data.
    pub fn user_data(&self) -> (u: &'a UserDataContents)
        ensures
            self.index_spec() < self.sprite_spec().contents_spec().tags@.len(),
            *u == self.sprite_spec().contents_spec().tags@[self.index_spec() as int].user_data,
    {
        proof {
            use_type_invariant(self);
        }
        &self.sprite.contents.tags[self.index].user_data
    }
}

/// A read-only view of a cel of a sprite.
#[derive(Clone, Copy)]
pub struct CelView<'a> {
    sprite: &'a Sprite,
    index: CelIndex,
    contents: &'a CelContents,
}

impl<'a> CelView<'a> {
    /// The cel's index.
    pub closed spec fn index_spec(&self) -> CelIndex {
        self.index
    }

    /// The sprite of the cel.
    pub closed spec fn sprite_spec(&self) -> &'a Sprite {
        self.sprite
    }

    /// The cel's contents.
    pub closed spec fn contents_spec(&self) -> &'a CelContents {
        self.contents
    }

    /// The cel is one of the sprite's, at its index.
    #[verifier::type_invariant]
    spec fn inv(&self) -> bool {
        exists|k: int|
            0 <= k < self.sprite.contents.cels@.len() && (#[trigger] self.sprite.contents.cels@[k]).0
                == self.index && *self.contents == self.sprite.contents.cels@[k].1
    }

    /// What the cel shows: its pixels, with the sprite's color mode, or a
    /// tilemap; a linked cel shows what the cel of its layer in the linked
    /// frame shows (which, in a valid sprite, is not itself a link).
    pub fn image(&self) -> (r: CelImage<'a>)
        ensures
            ({
                let c = self.sprite_spec().contents_spec();
                let shown = image_data(c, self.index_spec()@.0, self.index_spec()@.1);
                match r {
                    CelImage::RawPixels(px) => shown == Some(CelData::Pixels(*px.data_spec()))
                        && px.color_mode_spec() == c.color_depth,
                    CelImage::Tilemap => shown == Some(CelData::Tilemap),
                }
            }),
    {
        proof {
            use_type_invariant(self);
            use_type_invariant(self.sprite);
        }
        let ghost c = self.sprite.contents;
        let ghost k = choose|k: int|
            0 <= k < c.cels@.len() && (#[trigger] c.cels@[k]).0 == self.index && *self.contents
                == c.cels@[k].1;
        proof {
            lemma_cel_at(c, k);
            crate::formats::aseprite::backing::lemma_valid_cel(c, k);
        }
        match &self.contents.contents {
            CelData::Pixels(px) => CelImage::RawPixels(
                CelPixels { inner: px, color_depth: self.sprite.contents.color_depth },
            ),
            CelData::Tilemap => CelImage::Tilemap,
            CelData::Linked(t) => {
                let target = *t;
                let layer = self.index.layer();
                proof {
                    assert(crate::formats::aseprite::backing::shows_image_at(c, layer@, target@));
                    let k2 = choose|k2: int|
                        0 <= k2 < c.cels@.len() && (#[trigger] c.cels@[k2]).0@ == (layer@, target@)
                            && !(c.cels@[k2].1.contents is Linked);
                    lemma_cel_at(c, k2);
                }
                match self.sprite.cel(layer, target) {
                    Some(v) => {
                        proof {
                            let k3 = choose|k3: int|
                                0 <= k3 < c.cels@.len() && (#[trigger] c.cels@[k3]).0@ == (
                                    layer@,
                                    target@,
                                ) && *v.contents_spec() == c.cels@[k3].1;
                            lemma_cel_at(c, k3);
                        }
                        match &v.contents.contents {
                            CelData::Pixels(px) => CelImage::RawPixels(
                                CelPixels { inner: px, color_depth: self.sprite.contents.color_depth },
                            ),
                            _ => CelImage::Tilemap,
                        }
                    },
                    None => {
                        proof {
                            assert(false);
                        }
                        CelImage::Tilemap
                    },
                }
            },
        }
    }

    /// The cel's index (layer and frame).
    pub fn index(&self) -> (i: CelIndex)
        ensures
            i == self.index_spec(),
    {
        self.index
    }

    /// The cel's position on the canvas.
    pub fn position(&self) -> (p: Point16)
        ensures
            p == self.contents_spec().position,
    {
        self.contents.position
    }

    /// The cel's opacity (0-255).
    pub fn opacity(&self) -> (o: u8)
        ensures
            o == self.contents_spec().opacity,
    {
        self.contents.opacity
    }

    /// The cel that this cel links to, when it is a linked cel.
    pub fn linked_cel(&self) -> (c: Option<CelView<'a>>)
        ensures
            c matches Some(v) ==> self.contents_spec().contents matches CelData::Linked(f)
                && v.index_spec()@ == (self.index_spec()@.0, f@),
    {
        if let CelData::Linked(frame_index) = &self.contents.contents {
            self.sprite.cel(self.index.layer(), *frame_index)
        } else {
            None
        }
    }

    /// The layer of the cel.
    pub fn layer(&self) -> (l: LayerIndex)
        ensures
            l@ == self.index_spec()@.0,
    {
        self.index.layer()
    }

    /// The frame of the cel.
    pub fn frame(&self) -> (f: FrameIndex)
        ensures
            f@ == self.index_spec()@.1,
    {
        self.index.frame()
    }

    /// The sprite of the cel.
    pub fn sprite(&self) -> (s: &'a Sprite)
        ensures
            s == self.sprite_spec(),
    {
        self.sprite
    }

    /// The cel's user data.
    pub fn user_data(&self) -> (u: &'a UserDataContents)
        ensures
            *u == self.contents_spec().user_data,
    {
        &self.contents.user_data
    }
}

/// A read-only view of a sprite's palette.
#[derive(Clone, Copy)]
pub struct PaletteView<'a> {
    sprite: &'a Sprite,
}

impl<'a> PaletteView<'a> {
    /// The sprite of the palette.
    pub closed spec fn sprite_spec(&self) -> &'a Sprite {
        self.sprite
    }

    /// The number of entries.
    pub fn len(&self) -> (n: usize)
        ensures
            n == self.sprite_spec().contents_spec().palette.entries@.len(),
    {
        self.sprite.contents.palette.entries.len()
    }

    /// Whether the palette has no entries.
    pub fn is_empty(&self) -> (b: bool)
        ensures
            b == (self.sprite_spec().contents_spec().palette.entries@.len() == 0),
    {
        self.sprite.contents.palette.entries.len() == 0
    }

    /// The color at `index`, if the palette has that many entries.
    pub fn color(&self, index: usize) -> (c: Option<Color>)
        ensures
            match c {
                Some(x) => index < self.sprite_spec().contents_spec().palette.entries@.len() && x
                    == self.sprite_spec().contents_spec().palette.entries@[index as int]@.0,
                None => index >= self.sprite_spec().contents_spec().palette.entries@.len(),
            },
    {
        if index < self.sprite.contents.palette.entries.len() {
            Some(self.sprite.contents.palette.entries[index].color())
        } else {
            None
        }
    }
}

/// The contents of the cel of `layer` in `frame`, if the sprite has one.
pub open spec fn cel_data_at(c: SpriteContents, layer: u16, frame: u16) -> Option<CelData> {
    if exists|k: int| 0 <= k < c.cels@.len() && (#[trigger] c.cels@[k]).0@ == (layer, frame) {
        Some(
            c.cels@[choose|k: int| 0 <= k < c.cels@.len() && (#[trigger] c.cels@[k]).0@ == (layer, frame)].1.contents,
        )
    } else {
        None
    }
}

/// What the cel of `layer` in `frame` shows: its contents, or, for a link,
/// the contents of the cel of that layer in the linked frame.
pub open spec fn image_data(c: SpriteContents, layer: u16, frame: u16) -> Option<CelData> {
    match cel_data_at(c, layer, frame) {
        Some(CelData::Linked(t)) => cel_data_at(c, layer, t@),
        other => other,
    }
}

/// In sorted cels, the cel at place `k` is the one found at its index.
proof fn lemma_cel_at(c: SpriteContents, k: int)
    requires
        cels_sorted(c.cels@),
        0 <= k < c.cels@.len(),
    ensures
        cel_data_at(c, c.cels@[k].0@.0, c.cels@[k].0@.1) == Some(c.cels@[k].1.contents),
{
    let key = c.cels@[k].0@;
    assert(0 <= k < c.cels@.len() && c.cels@[k].0@ == (key.0, key.1));
    let j = choose|j: int| 0 <= j < c.cels@.len() && (#[trigger] c.cels@[j]).0@ == (key.0, key.1);
    if j < k {
        assert(cel_index_lt(c.cels@[j].0, c.cels@[k].0));
    } else if k < j {
        assert(cel_index_lt(c.cels@[k].0, c.cels@[j].0));
    }
}

/// What a cel shows.
pub enum CelImage<'a> {
    /// Pixels.
    RawPixels(CelPixels<'a>),
    /// Tilemap data (reserved for future use).
    Tilemap,
}

/// The pixels of a cel, with the sprite's color mode.
#[derive(Clone, Copy)]
pub struct CelPixels<'a> {
    inner: &'a CelPixelData,
    color_depth: ColorDepth,
}

impl<'a> CelPixels<'a> {
    /// The pixel data.
    pub closed spec fn data_spec(&self) -> &'a CelPixelData {
        self.inner
    }

    /// The color mode.
    pub closed spec fn color_mode_spec(&self) -> ColorDepth {
        self.color_depth
    }

    /// The width of the image in pixels.
    pub fn width(&self) -> (w: u16)
        ensures
            w == self.data_spec().width,
    {
        self.inner.width
    }

    /// The height of the image in pixels.
    pub fn height(&self) -> (h: u16)
        ensures
            h == self.data_spec().height,
    {
        self.inner.height
    }

    /// The color mode of the pixels.
    pub fn color_mode(&self) -> (d: ColorDepth)
        ensures
            d == self.color_mode_spec(),
    {
        self.color_depth
    }

    /// The pixel bytes, row by row.
    pub fn bytes(&self) -> (b: &'a [u8])
        ensures
            b@ == self.data_spec().data@,
    {
        self.inner.data.as_slice()
    }
}

} // verus!
