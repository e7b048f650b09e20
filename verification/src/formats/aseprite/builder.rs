//! Builders that create a sprite's contents step by step and validate them
//! into a [`Sprite`].
use vstd::prelude::*;

use crate::formats::aseprite::backing::{
    cel_index_lt, cels_sorted, reports_first_fault, sprite_valid, CelContents, CelData,
    CelPixelData, ColorProfile, FrameContents, LayerContents, PaletteContents, SpriteContents,
    TagContents, UserDataContents, ValidationError,
};
use crate::formats::aseprite::model::Sprite;
use crate::formats::aseprite::props::{lookup, Property};
use crate::formats::aseprite::{
    AnimationDirection, BlendMode, CelIndex, Color, ColorDepth, FrameIndex, LayerFlags,
    LayerIndex, LayerType, PaletteEntry, Point16, Point32, Size32,
};

verus! {

/// Builds a frame that was added to a sprite.
pub struct FrameBuilder<'a> {
    pub index: FrameIndex,
    pub contents: &'a mut FrameContents,
}

impl FrameBuilder<'_> {
    /// The frame's index.
    pub fn index(&self) -> (i: FrameIndex)
        ensures
            i == self.index,
    {
        self.index
    }

    /// Sets the frame's duration in milliseconds.
    pub fn set_duration(&mut self, duration_ms: u16)
        ensures
            final(self).index == old(self).index,
            final(self).contents.duration_ms == duration_ms,
            *final(final(self).contents) == *final(old(self).contents),
    {
        self.contents.duration_ms = duration_ms;
    }
}

/// Builds a layer that was added to a sprite.
pub struct LayerBuilder<'a> {
    pub index: LayerIndex,
    pub contents: &'a mut LayerContents,
}

impl LayerBuilder<'_> {
    /// The layer's index.
    pub fn index(&self) -> (i: LayerIndex)
        ensures
            i == self.index,
    {
        self.index
    }

    /// Sets the layer's name.
    pub fn set_name(&mut self, name: String)
        ensures
            final(self).index == old(self).index,
            final(self).contents.name == name,
            final(self).contents.flags == old(self).contents.flags,
            final(self).contents.layer_type == old(self).contents.layer_type,
            final(self).contents.blend_mode == old(self).contents.blend_mode,
            final(self).contents.opacity == old(self).contents.opacity,
            *final(final(self).contents) == *final(old(self).contents),
    {
        self.contents.name = name;
    }

    /// Sets the layer's flags.
    pub fn set_flags(&mut self, flags: LayerFlags)
        ensures
            final(self).index == old(self).index,
            final(self).contents.flags == flags,
            final(self).contents.name == old(self).contents.name,
            final(self).contents.layer_type == old(self).contents.layer_type,
            *final(final(self).contents) == *final(old(self).contents),
    {
        self.contents.flags = flags;
    }

    /// Sets the layer's type.
    pub fn set_type(&mut self, layer_type: LayerType)
        ensures
            final(self).index == old(self).index,
            final(self).contents.layer_type == layer_type,
            final(self).contents.name == old(self).contents.name,
            *final(final(self).contents) == *final(old(self).contents),
    {
        self.contents.layer_type = layer_type;
    }

    /// Sets the layer's blend mode.
    pub fn set_blend_mode(&mut self, mode: BlendMode)
        ensures
            final(self).index == old(self).index,
            final(self).contents.blend_mode == mode,
            final(self).contents.layer_type == old(self).contents.layer_type,
            *final(final(self).contents) == *final(old(self).contents),
    {
        self.contents.blend_mode = mode;
    }

    /// Sets the layer's opacity.
    pub fn set_opacity(&mut self, opacity: u8)
        ensures
            final(self).index == old(self).index,
            final(self).contents.opacity == opacity,
            final(self).contents.layer_type == old(self).contents.layer_type,
            final(self).contents.name == old(self).contents.name,
            *final(final(self).contents) == *final(old(self).contents),
    {
        self.contents.opacity = opacity;
    }
}

/// Builds a cel that was added to a sprite.
pub struct CelBuilder<'a> {
    pub index: CelIndex,
    pub contents: &'a mut CelContents,
}

impl CelBuilder<'_> {
    /// The cel's index.
    pub fn index(&self) -> (i: CelIndex)
        ensures
            i == self.index,
    {
        self.index
    }

    /// Sets the cel's position.
    pub fn set_position(&mut self, x: i16, y: i16)
        ensures
            final(self).index == old(self).index,
            final(self).contents.position@ == (x, y),
            final(self).contents.contents == old(self).contents.contents,
            *final(final(self).contents) == *final(old(self).contents),
    {
        self.contents.position = Point16::new(x, y);
    }

    /// Sets the cel's opacity.
    pub fn set_opacity(&mut self, opacity: u8)
        ensures
            final(self).index == old(self).index,
            final(self).contents.opacity == opacity,
            final(self).contents.contents == old(self).contents.contents,
            *final(final(self).contents) == *final(old(self).contents),
    {
        self.contents.opacity = opacity;
    }

    /// Sets the cel's content to pixels.
    pub fn set_image(&mut self, width: u16, height: u16, data: Vec<u8>)
        ensures
            final(self).index == old(self).index,
            final(self).contents.contents == CelData::Pixels(CelPixelData { width, height, data }),
            final(self).contents.opacity == old(self).contents.opacity,
            *final(final(self).contents) == *final(old(self).contents),
    {
        self.contents.contents = CelData::Pixels(CelPixelData { width, height, data });
    }

    /// Sets the cel's content to a link to the same layer's cel in another
    /// frame.
    pub fn set_linked(&mut self, frame_index: FrameIndex)
        ensures
            final(self).index == old(self).index,
            final(self).contents.contents == CelData::Linked(frame_index),
            final(self).contents.opacity == old(self).contents.opacity,
            *final(final(self).contents) == *final(old(self).contents),
    {
        self.contents.contents = CelData::Linked(frame_index);
    }

    /// Sets the text and color of the cel's user data.
    pub fn set_user_data(&mut self, text: Option<String>, color: Option<Color>)
        ensures
            final(self).index == old(self).index,
            final(self).contents.user_data.text == text,
            final(self).contents.user_data.color == color,
            final(self).contents.user_data.general == old(self).contents.user_data.general,
            final(self).contents.user_data.extensions == old(self).contents.user_data.extensions,
            final(self).contents.contents == old(self).contents.contents,
            *final(final(self).contents) == *final(old(self).contents),
    {
        self.contents.user_data.text = text;
        self.contents.user_data.color = color;
    }

    /// Sets a property of the extension named `extension_id` in the cel's
    /// user data.
    pub fn set_extension_property(&mut self, extension_id: &str, key: &str, value: Property)
        requires
            old(self).contents.user_data.wf(),
        ensures
            final(self).index == old(self).index,
            final(self).contents.user_data.wf(),
            final(self).contents.contents == old(self).contents.contents,
            *final(final(self).contents) == *final(old(self).contents),
    {
        self.contents.user_data.set_extension_property(
            extension_id.to_owned(),
            key.to_owned(),
            value,
        );
    }

    /// Sets a general property in the cel's user data.
    pub fn set_general_property(&mut self, key: &str, value: Property)
        requires
            old(self).contents.user_data.wf(),
        ensures
            final(self).index == old(self).index,
            final(self).contents.user_data.wf(),
            final(self).contents.user_data.general matches Some(g) && lookup(g@, key@) == Some(
                value@,
            ),
            final(self).contents.contents == old(self).contents.contents,
            *final(final(self).contents) == *final(old(self).contents),
    {
        self.contents.user_data.set_general_property(key.to_owned(), value);
    }
}

/// The contents of a new cel: at the origin, opaque, with no pixels.
pub open spec fn default_cel(c: CelContents) -> bool {
    &&& c.position@ == (0i16, 0i16)
    &&& c.opacity == 255
    &&& c.contents matches CelData::Pixels(p) && p.width == 0 && p.height == 0 && p.data@.len()
        == 0
    &&& c.user_data.text is None && c.user_data.color is None && c.user_data.general is None
        && c.user_data.extensions@.len() == 0
    &&& c.precise_position@ == (0i32, 0i32)
    &&& c.precise_size@ == (0i32, 0i32)
}

/// Builds a sprite.
pub struct SpriteBuilder {
    contents: SpriteContents,
}

impl SpriteBuilder {
    /// The contents built so far.
    pub closed spec fn contents_spec(&self) -> SpriteContents {
        self.contents
    }

    /// The contents built so far keep their cels in index order.
    pub open spec fn wf(&self) -> bool {
        cels_sorted(self.contents_spec().cels@)
    }

    /// A builder of an empty sprite of the given color mode: 0 by 0 pixels,
    /// square pixels, no frames, layers, tags or cels.
    pub fn new(color_mode: ColorDepth) -> (b: Self)
        ensures
            b.wf(),
            b.contents_spec().color_depth == color_mode,
            b.contents_spec().width == 0,
            b.contents_spec().height == 0,
            b.contents_spec().pixel_width == 1,
            b.contents_spec().pixel_height == 1,
            b.contents_spec().transparent_color == 0,
            b.contents_spec().frames@.len() == 0,
            b.contents_spec().layers@.len() == 0,
            b.contents_spec().tags@.len() == 0,
            b.contents_spec().cels@.len() == 0,
            b.contents_spec().palette.entries@.len() == 0,
    {
        SpriteBuilder {
            contents: SpriteContents {
                color_depth: color_mode,
                width: 0,
                height: 0,
                pixel_height: 1,
                pixel_width: 1,
                transparent_color: 0,
                frames: Vec::new(),
                layers: Vec::new(),
                tags: Vec::new(),
                cels: Vec::new(),
                color_profile: ColorProfile::NoProfile,
                palette: PaletteContents { entries: Vec::new() },
                user_data: UserDataContents::empty(),
            },
        }
    }

    /// Adds a frame of duration 0; gives its builder.
    pub fn add_frame(&mut self) -> (f: FrameBuilder<'_>)
        requires
            old(self).contents_spec().frames@.len() <= u16::MAX,
        ensures
            f.index@ == old(self).contents_spec().frames@.len(),
            f.contents.duration_ms == 0,
            final(self).contents_spec() == (SpriteContents {
                frames: final(self).contents_spec().frames,
                ..old(self).contents_spec()
            }),
            final(self).contents_spec().frames@ == old(self).contents_spec().frames@.push(
                *final(f.contents),
            ),
    {
        let frame_index = self.contents.frames.len();
        self.contents.frames.push(FrameContents { duration_ms: 0 });
        FrameBuilder {
            index: FrameIndex::from_u16(frame_index as u16),
            contents: &mut self.contents.frames[frame_index],
        }
    }

    /// Adds a normal, opaque layer with no name; gives its builder.
    pub fn add_layer(&mut self) -> (l: LayerBuilder<'_>)
        requires
            old(self).contents_spec().layers@.len() <= u16::MAX,
        ensures
            l.index@ == old(self).contents_spec().layers@.len(),
            l.contents.name@.len() == 0,
            l.contents.flags@ == 0,
            l.contents.layer_type == LayerType::Normal,
            l.contents.blend_mode == BlendMode::Normal,
            l.contents.opacity == 255,
            l.contents.uuid is None,
            l.contents.user_data.wf(),
            final(self).contents_spec() == (SpriteContents {
                layers: final(self).contents_spec().layers,
                ..old(self).contents_spec()
            }),
            final(self).contents_spec().layers@ == old(self).contents_spec().layers@.push(
                *final(l.contents),
            ),
    {
        let layer_index = self.contents.layers.len();
        let layer = LayerContents {
            name: String::new(),
            flags: LayerFlags::empty(),
            layer_type: LayerType::Normal,
            blend_mode: BlendMode::Normal,
            opacity: 255,
            uuid: None,
            user_data: UserDataContents::empty(),
        };
        self.contents.layers.push(layer);
        LayerBuilder {
            index: LayerIndex::from_u16(layer_index as u16),
            contents: &mut self.contents.layers[layer_index],
        }
    }

    /// Adds a cel of `layer` in `frame`, unless there is one already; gives
    /// the builder of the cel.
    pub fn add_cel(&mut self, layer: LayerIndex, frame: FrameIndex) -> (c: CelBuilder<'_>)
        requires
            old(self).wf(),
        ensures
            final(self).wf(),
            c.index@ == (layer@, frame@),
            final(self).contents_spec() == (SpriteContents {
                cels: final(self).contents_spec().cels,
                ..old(self).contents_spec()
            }),
            exists|k: int|
                0 <= k < final(self).contents_spec().cels@.len() && final(self).contents_spec().cels@[k]
                    == (c.index, *final(c.contents)) && ({
                    let old_cels = old(self).contents_spec().cels@;
                    if exists|j: int| 0 <= j < old_cels.len() && (#[trigger] old_cels[j]).0 == c.index {
                        k < old_cels.len() && old_cels[k].0 == c.index && *c.contents == old_cels[k].1
                            && final(self).contents_spec().cels@ == old_cels.update(
                            k,
                            (c.index, *final(c.contents)),
                        )
                    } else {
                        default_cel(*c.contents) && final(self).contents_spec().cels@
                            == old_cels.insert(k, (c.index, *final(c.contents)))
                    }
                }),
    {
        let index = CelIndex::new(layer, frame);
        let ghost old_cels = self.contents.cels@;
        let n = self.contents.cels.len();
        let mut i: usize = 0;
        while i < n
            invariant_except_break
                i <= n,
                n == self.contents.cels@.len(),
                self.contents.cels@ == old_cels,
                index@ == (layer@, frame@),
                forall|j: int| 0 <= j < i ==> cel_index_lt((#[trigger] old_cels[j]).0, index),
            ensures
                i <= n,
                n == self.contents.cels@.len(),
                self.contents.cels@ == old_cels,
                index@ == (layer@, frame@),
                forall|j: int| 0 <= j < i ==> cel_index_lt((#[trigger] old_cels[j]).0, index),
                i < n ==> !cel_index_lt(old_cels[i as int].0, index),
            decreases n - i,
        {
            let idx = self.contents.cels[i].0;
            if idx.layer().as_u16() < layer.as_u16() || (idx.layer().as_u16() == layer.as_u16()
                && idx.frame().as_u16() < frame.as_u16()) {
                i = i + 1;
            } else {
                break;
            }
        }
        let existing = i < n && {
            let idx = self.contents.cels[i].0;
            idx.layer().as_u16() == layer.as_u16() && idx.frame().as_u16() == frame.as_u16()
        };
        if !existing {
            let cel = CelContents {
                position: Point16::new(0, 0),
                opacity: 255,
                contents: CelData::Pixels(CelPixelData { width: 0, height: 0, data: Vec::new() }),
                user_data: UserDataContents::empty(),
                precise_position: Point32::new(0, 0),
                precise_size: Size32::new(0, 0),
            };
            self.contents.cels.insert(i, (index, cel));
            proof {
                let ns = self.contents.cels@;
                assert(ns =~= old_cels.insert(i as int, ns[i as int]));
                assert forall|a: int, b: int|
                    0 <= a < b < ns.len() implies cel_index_lt(
                    (#[trigger] ns[a]).0,
                    (#[trigger] ns[b]).0,
                ) by {
                    if a < i && b > i {
                        assert(ns[b] == old_cels[b - 1]);
                    } else if a == i && b > i {
                        assert(ns[b] == old_cels[b - 1]);
                    } else if a > i {
                        assert(ns[a] == old_cels[a - 1]);
                        assert(ns[b] == old_cels[b - 1]);
                    }
                }
                assert forall|j: int| 0 <= j < old_cels.len() implies (#[trigger] old_cels[j]).0
                    != index by {
                    if j >= i {
                        assert(!cel_index_lt(old_cels[i as int].0, index));
                    }
                }
            }
        } else {
            proof {
                assert(self.contents.cels@[i as int].0 == index);
            }
        }
        let ghost mid = self.contents.cels@;
        CelBuilder { index, contents: &mut self.contents.cels[i].1 }
    }

    /// Adds a tag of frames `from_frame` to `to_frame`, black, with no user
    /// data.
    pub fn add_tag(
        &mut self,
        from_frame: u32,
        to_frame: u32,
        name: String,
        direction: AnimationDirection,
    )
        ensures
            final(self).contents_spec() == (SpriteContents {
                tags: final(self).contents_spec().tags,
                ..old(self).contents_spec()
            }),
            final(self).contents_spec().tags@.len() == old(self).contents_spec().tags@.len() + 1,
            forall|i: int|
                0 <= i < old(self).contents_spec().tags@.len() ==> final(self).contents_spec().tags@[i]
                    == old(self).contents_spec().tags@[i],
            ({
                let t = final(self).contents_spec().tags@.last();
                &&& t.from_frame == from_frame
                &&& t.to_frame == to_frame
                &&& t.name == name
                &&& t.color@ == (0u8, 0u8, 0u8, 255u8)
                &&& t.direction == direction
                &&& t.user_data.text is None && t.user_data.general is None
            }),
    {
        self.contents.tags.push(
            TagContents {
                from_frame,
                to_frame,
                name,
                color: Color::from_rgba(0, 0, 0, 255),
                direction,
                user_data: UserDataContents::empty(),
            },
        );
    }

    /// Sets the palette.
    pub fn set_palette(&mut self, entries: Vec<PaletteEntry>)
        ensures
            final(self).contents_spec() == (SpriteContents {
                palette: PaletteContents { entries },
                ..old(self).contents_spec()
            }),
    {
        self.contents.palette.entries = entries;
    }

    /// Sets the index of the transparent color.
    pub fn set_transparent_color(&mut self, color: u8)
        ensures
            final(self).contents_spec() == (SpriteContents {
                transparent_color: color,
                ..old(self).contents_spec()
            }),
    {
        self.contents.transparent_color = color;
    }

    /// Validates the contents and builds the [`Sprite`]: the sprite when
    /// they are valid, else the error for their first fault.
    pub fn build(self) -> (r: Result<Sprite, ValidationError>)
        requires
            self.wf(),
        ensures
            match r {
                Ok(s) => s.contents_spec() == self.contents_spec() && sprite_valid(
                    self.contents_spec(),
                ),
                Err(e) => reports_first_fault(self.contents_spec(), e),
            },
    {
        Sprite::new(self.contents)
    }

    /// Sets the width in pixels.
    pub fn set_width(&mut self, width: u16)
        ensures
            final(self).contents_spec() == (SpriteContents { width, ..old(self).contents_spec() }),
    {
        self.contents.width = width;
    }

    /// Sets the height in pixels.
    pub fn set_height(&mut self, height: u16)
        ensures
            final(self).contents_spec() == (SpriteContents { height, ..old(self).contents_spec() }),
    {
        self.contents.height = height;
    }

    /// Sets the pixel aspect ratio.
    pub fn set_pixel_ratio(&mut self, pixel_width: u8, pixel_height: u8)
        ensures
            final(self).contents_spec() == (SpriteContents {
                pixel_width,
                pixel_height,
                ..old(self).contents_spec()
            }),
    {
        self.contents.pixel_width = pixel_width;
        self.contents.pixel_height = pixel_height;
    }

    /// Sets a property of the extension named `extension_id` in the sprite's
    /// user data.
    pub fn set_extension_property(&mut self, extension_id: &str, key: &str, value: Property)
        requires
            old(self).contents_spec().user_data.wf(),
        ensures
            final(self).contents_spec().user_data.wf(),
            final(self).contents_spec() == (SpriteContents {
                user_data: final(self).contents_spec().user_data,
                ..old(self).contents_spec()
            }),
    {
        self.contents.user_data.set_extension_property(
            extension_id.to_owned(),
            key.to_owned(),
            value,
        );
    }
}

} // verus!
