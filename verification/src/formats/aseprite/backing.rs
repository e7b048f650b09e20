//! The in-memory contents of a sprite, and the rules a valid sprite keeps.
use vstd::prelude::*;
use vstd::utf8::encode_utf8;

use crate::formats::aseprite::props::{
    keys_sorted, lemma_lookup_insert, lemma_lookup_update, lookup, Property, PropertyMap,
    PropertyModel,
};
use crate::formats::aseprite::{
    AnimationDirection, BlendMode, CelIndex, Color, ColorDepth, FrameIndex, LayerFlags,
    LayerIndex, LayerType, PaletteEntry, Point16, Point32, Size32,
};
use crate::strings::{compare_strings, lemma_lex_transitive, lex_lt, KeyOrder};

verus! {

/// User data of a sprite, layer, tag or cel: text, a color, general
/// properties, and properties of named extensions in the order of their
/// names' UTF-8 bytes.
pub struct UserDataContents {
    pub text: Option<String>,
    pub color: Option<Color>,
    pub general: Option<PropertyMap>,
    pub extensions: Vec<(String, PropertyMap)>,
}

/// The extensions' properties by name: each name with its properties.
pub open spec fn extensions_model(es: Seq<(String, PropertyMap)>) -> Seq<
    (Seq<char>, Seq<(Seq<char>, PropertyModel)>),
> {
    Seq::new(es.len(), |i: int| (es[i].0@, es[i].1@))
}

impl UserDataContents {
    /// User data with nothing in it.
    pub fn empty() -> (u: Self)
        ensures
            u.text is None,
            u.color is None,
            u.general is None,
            u.extensions@.len() == 0,
            u.wf(),
    {
        UserDataContents { text: None, color: None, general: None, extensions: Vec::new() }
    }

    /// The user data is well formed: the extension names are in increasing
    /// order and every property map is well formed.
    pub open spec fn wf(&self) -> bool {
        &&& keys_sorted(extensions_model(self.extensions@))
        &&& forall|i: int| 0 <= i < self.extensions@.len() ==> (#[trigger] self.extensions@[i]).1.wf()
        &&& self.general matches Some(g) ==> g.wf()
    }

    /// The names of the extensions with properties, in order.
    pub fn extension_names(&self) -> (names: Vec<&str>)
        ensures
            names@.len() == self.extensions@.len(),
            forall|i: int|
                0 <= i < names@.len() ==> (#[trigger] names@[i])@ == self.extensions@[i].0@,
    {
        let mut names: Vec<&str> = Vec::new();
        let mut i: usize = 0;
        while i < self.extensions.len()
            invariant
                i <= self.extensions@.len(),
                names@.len() == i,
                forall|j: int| 0 <= j < i ==> (#[trigger] names@[j])@ == self.extensions@[j].0@,
            decreases self.extensions@.len() - i,
        {
            names.push(self.extensions[i].0.as_str());
            i = i + 1;
        }
        names
    }

    /// Sets a general property.
    pub fn set_general_property(&mut self, key: String, value: Property)
        requires
            old(self).wf(),
        ensures
            final(self).wf(),
            final(self).text == old(self).text,
            final(self).color == old(self).color,
            final(self).extensions == old(self).extensions,
            final(self).general matches Some(g) && forall|k: Seq<char>|
                #[trigger] lookup(g@, k) == if k == key@ {
                    Some(value@)
                } else {
                    match old(self).general {
                        Some(og) => lookup(og@, k),
                        None => None,
                    }
                },
    {
        let mut g = match self.general.take() {
            Some(g) => g,
            None => {
                let e = PropertyMap::new();
                assert forall|k: Seq<char>| #[trigger] lookup(e@, k) == None::<PropertyModel> by {}
                e
            },
        };
        g.set(key, value);
        self.general = Some(g);
    }

    /// Sets a property of the extension named `extension`, adding the
    /// extension in name order if it has no properties yet.
    pub fn set_extension_property(&mut self, extension: String, key: String, value: Property)
        requires
            old(self).wf(),
        ensures
            final(self).wf(),
            final(self).text == old(self).text,
            final(self).color == old(self).color,
            final(self).general == old(self).general,
            forall|n: Seq<char>|
                n != extension@ ==> #[trigger] lookup(extensions_model(final(self).extensions@), n)
                    == lookup(extensions_model(old(self).extensions@), n),
            lookup(extensions_model(final(self).extensions@), extension@) matches Some(m)
                && forall|k: Seq<char>|
                #[trigger] lookup(m, k) == if k == key@ {
                    Some(value@)
                } else {
                    match lookup(extensions_model(old(self).extensions@), extension@) {
                        Some(om) => lookup(om, k),
                        None => None,
                    }
                },
    {
        let ghost old_ext = extensions_model(self.extensions@);
        let n = self.extensions.len();
        let mut i: usize = 0;
        let mut found = false;
        while i < n
            invariant_except_break
                !found,
                i <= n,
                n == self.extensions@.len(),
                extensions_model(self.extensions@) == old_ext,
                forall|j: int|
                    0 <= j < i ==> lex_lt(encode_utf8(#[trigger] old_ext[j].0), encode_utf8(extension@)),
            ensures
                i <= n,
                n == self.extensions@.len(),
                extensions_model(self.extensions@) == old_ext,
                forall|j: int|
                    0 <= j < i ==> lex_lt(encode_utf8(#[trigger] old_ext[j].0), encode_utf8(extension@)),
                found ==> i < n && old_ext[i as int].0 == extension@,
                !found && i < n ==> lex_lt(encode_utf8(extension@), encode_utf8(old_ext[i as int].0)),
            decreases n - i,
        {
            assert(old_ext[i as int].0 == self.extensions@[i as int].0@);
            match compare_strings(&self.extensions[i].0, &extension) {
                KeyOrder::Less => {
                    i = i + 1;
                },
                KeyOrder::Equal => {
                    assert(old_ext[i as int].0 == extension@);
                    found = true;
                    break;
                },
                KeyOrder::Greater => {
                    break;
                },
            }
        }
        let ghost ext_model = extension@;
        if found {
            let ghost old_entries = self.extensions@;
            let (name, mut map) = self.extensions.remove(i);
            assert(map.wf());
            let ghost old_map = map@;
            map.set(key, value);
            let ghost new_map = map@;
            self.extensions.insert(i, (name, map));
            proof {
                assert(extensions_model(self.extensions@) =~= old_ext.update(
                    i as int,
                    (ext_model, new_map),
                ));
                lemma_lookup_update(old_ext, i as int, ext_model, new_map);
                assert(lookup(old_ext, ext_model) == Some(old_map)) by {
                    lemma_lookup_update(old_ext, i as int, ext_model, old_map);
                    assert(old_ext.update(i as int, (ext_model, old_map)) =~= old_ext);
                }
                assert forall|j: int|
                    0 <= j < self.extensions@.len() implies (#[trigger] self.extensions@[j]).1.wf() by {
                    if j != i {
                        assert(self.extensions@[j] == old_entries[j]);
                    }
                }
            }
        } else {
            let mut map = PropertyMap::new();
            assert forall|k: Seq<char>| #[trigger] lookup(map@, k) == None::<PropertyModel> by {}
            map.set(key, value);
            let ghost new_map = map@;
            let ghost old_entries = self.extensions@;
            self.extensions.insert(i, (extension, map));
            proof {
                assert(extensions_model(self.extensions@) =~= old_ext.insert(
                    i as int,
                    (ext_model, new_map),
                ));
                let ns = extensions_model(self.extensions@);
                assert forall|a: int, b: int|
                    0 <= a < b < ns.len() implies lex_lt(
                    encode_utf8(#[trigger] ns[a].0),
                    encode_utf8(#[trigger] ns[b].0),
                ) by {
                    if a < i && b == i {
                    } else if a < i && b > i {
                        assert(ns[a] == old_ext[a]);
                        assert(ns[b] == old_ext[b - 1]);
                        if b - 1 > i {
                            lemma_lex_transitive(
                                encode_utf8(ext_model),
                                encode_utf8(old_ext[i as int].0),
                                encode_utf8(old_ext[b - 1].0),
                            );
                        }
                        lemma_lex_transitive(
                            encode_utf8(old_ext[a].0),
                            encode_utf8(ext_model),
                            encode_utf8(old_ext[b - 1].0),
                        );
                    } else if a == i {
                        assert(ns[b] == old_ext[b - 1]);
                        if b - 1 > i {
                            lemma_lex_transitive(
                                encode_utf8(ext_model),
                                encode_utf8(old_ext[i as int].0),
                                encode_utf8(old_ext[b - 1].0),
                            );
                        }
                    } else if a > i {
                        assert(ns[a] == old_ext[a - 1]);
                        assert(ns[b] == old_ext[b - 1]);
                    } else {
                        assert(ns[a] == old_ext[a]);
                        assert(ns[b] == old_ext[b]);
                    }
                }
                lemma_lookup_insert(old_ext, i as int, ext_model, new_map);
                assert(lookup(old_ext, ext_model) is None) by {
                    if exists|j: int| 0 <= j < old_ext.len() && (#[trigger] old_ext[j]).0 == ext_model {
                        let j = choose|j: int| 0 <= j < old_ext.len() && (#[trigger] old_ext[j]).0 == ext_model;
                        if j < i {
                            crate::strings::lemma_lex_irreflexive(encode_utf8(ext_model));
                        } else {
                            if j > i {
                                lemma_lex_transitive(
                                    encode_utf8(ext_model),
                                    encode_utf8(old_ext[i as int].0),
                                    encode_utf8(old_ext[j].0),
                                );
                            }
                            crate::strings::lemma_lex_irreflexive(encode_utf8(ext_model));
                        }
                    }
                }
                assert forall|j: int|
                    0 <= j < self.extensions@.len() implies (#[trigger] self.extensions@[j]).1.wf() by {
                    if j < i {
                        assert(self.extensions@[j] == old_entries[j]);
                    } else if j > i {
                        assert(self.extensions@[j] == old_entries[j - 1]);
                    }
                }
            }
        }
    }
}

/// The contents of an animation tag.
pub struct TagContents {
    pub from_frame: u32,
    pub to_frame: u32,
    pub name: String,
    pub color: Color,
    pub direction: AnimationDirection,
    pub user_data: UserDataContents,
}

/// The contents of a layer.
pub struct LayerContents {
    pub name: String,
    pub flags: LayerFlags,
    pub layer_type: LayerType,
    pub blend_mode: BlendMode,
    pub opacity: u8,
    pub uuid: Option<[u8; 16]>,
    pub user_data: UserDataContents,
}

/// The pixels of a cel.
pub struct CelPixelData {
    pub width: u16,
    pub height: u16,
    pub data: Vec<u8>,
}

/// What a cel shows.
pub enum CelData {
    /// Pixels.
    Pixels(CelPixelData),
    /// The cel of the same layer in another frame.
    Linked(FrameIndex),
    /// Tilemap data (reserved for future use).
    Tilemap,
}

/// The contents of a cel.
pub struct CelContents {
    pub position: Point16,
    pub opacity: u8,
    pub contents: CelData,
    pub user_data: UserDataContents,
    pub precise_position: Point32,
    pub precise_size: Size32,
}

/// The contents of a frame.
#[derive(Debug, Clone, Copy, PartialEq, Eq, Structural)]
pub struct FrameContents {
    pub duration_ms: u16,
}

/// An ICC color profile.
pub struct IccProfile {
    pub data: Vec<u8>,
}

/// The color profile of a sprite.
pub enum ColorProfile {
    /// No color profile.
    NoProfile,
    /// The sRGB color profile.
    Srgb,
    /// An embedded ICC profile.
    Icc(IccProfile),
}

/// The palette of a sprite.
pub struct PaletteContents {
    pub entries: Vec<PaletteEntry>,
}

/// The contents of a sprite. Its cels are kept in the order of their
/// indices (by layer, then frame), each index at most once.
pub struct SpriteContents {
    pub color_depth: ColorDepth,
    pub width: u16,
    pub height: u16,
    pub pixel_height: u8,
    pub pixel_width: u8,
    pub transparent_color: u8,
    pub frames: Vec<FrameContents>,
    pub layers: Vec<LayerContents>,
    pub tags: Vec<TagContents>,
    pub cels: Vec<(CelIndex, CelContents)>,
    pub color_profile: ColorProfile,
    pub palette: PaletteContents,
    pub user_data: UserDataContents,
}

/// Whether cel index `a` comes before `b`: by layer, then by frame.
pub open spec fn cel_index_lt(a: CelIndex, b: CelIndex) -> bool {
    a@.0 < b@.0 || (a@.0 == b@.0 && a@.1 < b@.1)
}

/// Whether the cels are in strictly increasing order of their indices.
pub open spec fn cels_sorted(cels: Seq<(CelIndex, CelContents)>) -> bool {
    forall|i: int, j: int|
        0 <= i < j < cels.len() ==> cel_index_lt((#[trigger] cels[i]).0, (#[trigger] cels[j]).0)
}

/// Errors that can occur during sprite validation.
#[derive(Debug)]
pub enum ValidationError {
    /// The sprite has invalid dimensions.
    InvalidDimensions { width: u16, height: u16 },
    /// The sprite has an invalid pixel ratio.
    InvalidPixelRatio { width: u8, height: u8 },
    /// A tag references an invalid frame range.
    InvalidTagRange { index: usize, from: u32, to: u32, frame_count: usize },
    /// A cel references an invalid layer.
    InvalidCelLayer { index: CelIndex, layer: LayerIndex, layer_count: usize },
    /// A cel references an invalid frame.
    InvalidCelFrame { index: CelIndex, frame: FrameIndex, frame_count: usize },
    /// A cel is assigned to a group layer.
    CelOnGroupLayer { index: CelIndex },
    /// A cel has content of a type that its layer's type does not hold.
    CelLayerTypeMismatch { index: CelIndex, cel_type: &'static str, layer_type: &'static str },
    /// A linked cel references an invalid target frame.
    InvalidLinkedCelTarget { index: CelIndex, target: FrameIndex, frame_count: usize },
    /// A linked cel references itself.
    LinkedCelSelfReference { index: CelIndex },
    /// A linked cel's target frame has no cel of its layer that shows an
    /// image of its own (none at all, or one that is itself a link).
    LinkedCelTargetNotImage { index: CelIndex, target: FrameIndex },
}

/// What is wrong with a cel, if anything.
pub enum CelFault {
    InvalidLayer,
    InvalidFrame,
    OnGroupLayer,
    TilemapOnNormalLayer,
    PixelsOnTilemapLayer,
    InvalidLinkTarget(FrameIndex),
    SelfReference,
    TargetNotImage(FrameIndex),
}

/// Whether the sprite has a cel of `layer` in `frame` that is not a link.
pub open spec fn shows_image_at(c: SpriteContents, layer: u16, frame: u16) -> bool {
    exists|k: int|
        0 <= k < c.cels@.len() && (#[trigger] c.cels@[k]).0@ == (layer, frame) && !(
        c.cels@[k].1.contents is Linked)
}

/// What is wrong with the cel at `idx` showing `data`, checked in this
/// order: its layer exists, its frame exists, its layer is not a group, its
/// content suits its layer's type, and a link goes to another existing frame
/// where its layer has a cel that is not a link (so that every link leads,
/// in one step, to an image).
pub open spec fn cel_fault(c: SpriteContents, idx: CelIndex, data: CelData) -> Option<CelFault> {
    if idx@.0 >= c.layers@.len() {
        Some(CelFault::InvalidLayer)
    } else if idx@.1 >= c.frames@.len() {
        Some(CelFault::InvalidFrame)
    } else {
        let lt = c.layers@[idx@.0 as int].layer_type;
        if lt == LayerType::Group {
            Some(CelFault::OnGroupLayer)
        } else if lt == LayerType::Normal && data is Tilemap {
            Some(CelFault::TilemapOnNormalLayer)
        } else if lt != LayerType::Normal && data is Pixels {
            Some(CelFault::PixelsOnTilemapLayer)
        } else {
            match data {
                CelData::Linked(target) => if target@ >= c.frames@.len() {
                    Some(CelFault::InvalidLinkTarget(target))
                } else if target@ == idx@.1 {
                    Some(CelFault::SelfReference)
                } else if !shows_image_at(c, idx@.0, target@) {
                    Some(CelFault::TargetNotImage(target))
                } else {
                    None
                },
                _ => None,
            }
        }
    }
}

/// Whether a tag's frame range lies within `frame_count` frames and does not
/// run backwards.
pub open spec fn tag_ok(t: TagContents, frame_count: int) -> bool {
    t.from_frame < frame_count && t.to_frame < frame_count && t.from_frame <= t.to_frame
}

/// The first tag from place `i` on whose range is invalid, if any.
pub open spec fn first_bad_tag(c: SpriteContents, i: int) -> Option<int>
    decreases c.tags@.len() - i,
{
    if i < 0 || i >= c.tags@.len() {
        None
    } else if !tag_ok(c.tags@[i], c.frames@.len() as int) {
        Some(i)
    } else {
        first_bad_tag(c, i + 1)
    }
}

/// The first cel from place `i` on that has a fault, if any.
pub open spec fn first_bad_cel(c: SpriteContents, i: int) -> Option<int>
    decreases c.cels@.len() - i,
{
    if i < 0 || i >= c.cels@.len() {
        None
    } else if cel_fault(c, c.cels@[i].0, c.cels@[i].1.contents) is Some {
        Some(i)
    } else {
        first_bad_cel(c, i + 1)
    }
}

/// Whether `e` reports the first thing wrong with the sprite `c`, in the
/// order of checking: the dimensions, the pixel ratio, the tags in order,
/// then the cels in order.
pub open spec fn reports_first_fault(c: SpriteContents, e: ValidationError) -> bool {
    let dims_ok = c.width != 0 && c.height != 0;
    let ratio_ok = c.pixel_width != 0 && c.pixel_height != 0;
    let tags_ok = first_bad_tag(c, 0) is None;
    match e {
        ValidationError::InvalidDimensions { width, height } => !dims_ok && width == c.width
            && height == c.height,
        ValidationError::InvalidPixelRatio { width, height } => dims_ok && !ratio_ok && width
            == c.pixel_width && height == c.pixel_height,
        ValidationError::InvalidTagRange { index, from, to, frame_count } => dims_ok && ratio_ok
            && first_bad_tag(c, 0) == Some(index as int) && from == c.tags@[index as int].from_frame
            && to == c.tags@[index as int].to_frame && frame_count == c.frames@.len(),
        _ => dims_ok && ratio_ok && tags_ok && first_bad_cel(c, 0) is Some && {
            let k = first_bad_cel(c, 0)->Some_0;
            let idx = c.cels@[k].0;
            let fault = cel_fault(c, idx, c.cels@[k].1.contents)->Some_0;
            match e {
                ValidationError::InvalidCelLayer { index, layer, layer_count } => fault
                    is InvalidLayer && index == idx && layer@ == idx@.0 && layer_count
                    == c.layers@.len(),
                ValidationError::InvalidCelFrame { index, frame, frame_count } => fault
                    is InvalidFrame && index == idx && frame@ == idx@.1 && frame_count
                    == c.frames@.len(),
                ValidationError::CelOnGroupLayer { index } => fault is OnGroupLayer && index == idx,
                ValidationError::CelLayerTypeMismatch { index, cel_type, layer_type } => index
                    == idx && ((fault is TilemapOnNormalLayer && cel_type@ == "Tilemap"@
                    && layer_type@ == "Normal"@) || (fault is PixelsOnTilemapLayer && cel_type@
                    == "Pixels"@ && layer_type@ == "Tilemap"@)),
                ValidationError::InvalidLinkedCelTarget { index, target, frame_count } => index
                    == idx && fault == CelFault::InvalidLinkTarget(target) && frame_count
                    == c.frames@.len(),
                ValidationError::LinkedCelSelfReference { index } => index == idx && fault
                    is SelfReference,
                ValidationError::LinkedCelTargetNotImage { index, target } => index == idx && fault
                    == CelFault::TargetNotImage(target),
                _ => false,
            }
        },
    }
}

/// Whether the sprite is valid: positive dimensions and pixel ratio, tags
/// within the frames, and cels without faults.
pub open spec fn sprite_valid(c: SpriteContents) -> bool {
    &&& c.width != 0 && c.height != 0
    &&& c.pixel_width != 0 && c.pixel_height != 0
    &&& first_bad_tag(c, 0) is None
    &&& first_bad_cel(c, 0) is None
}

/// The first bad tag from `i` on is the first from `j` on, when the tags in
/// between are good.
proof fn lemma_first_bad_tag_step(c: SpriteContents, i: int)
    requires
        0 <= i < c.tags@.len(),
        tag_ok(c.tags@[i], c.frames@.len() as int),
    ensures
        first_bad_tag(c, i) == first_bad_tag(c, i + 1),
{
}

/// Checks the cel at place `k` of the sprite's cels: the error for its
/// fault, if it has one.
fn check_cel(c: &SpriteContents, k: usize) -> (r: Option<ValidationError>)
    requires
        k < c.cels@.len(),
    ensures
        r is None <==> cel_fault(*c, c.cels@[k as int].0, c.cels@[k as int].1.contents) is None,
        r matches Some(e) ==> {
            let idx = c.cels@[k as int].0;
            let fault = cel_fault(*c, idx, c.cels@[k as int].1.contents)->Some_0;
            match e {
                ValidationError::InvalidCelLayer { index, layer, layer_count } => fault
                    is InvalidLayer && index == idx && layer@ == idx@.0 && layer_count
                    == c.layers@.len(),
                ValidationError::InvalidCelFrame { index, frame, frame_count } => fault
                    is InvalidFrame && index == idx && frame@ == idx@.1 && frame_count
                    == c.frames@.len(),
                ValidationError::CelOnGroupLayer { index } => fault is OnGroupLayer && index == idx,
                ValidationError::CelLayerTypeMismatch { index, cel_type, layer_type } => index
                    == idx && ((fault is TilemapOnNormalLayer && cel_type@ == "Tilemap"@
                    && layer_type@ == "Normal"@) || (fault is PixelsOnTilemapLayer && cel_type@
                    == "Pixels"@ && layer_type@ == "Tilemap"@)),
                ValidationError::InvalidLinkedCelTarget { index, target, frame_count } => index
                    == idx && fault == CelFault::InvalidLinkTarget(target) && frame_count
                    == c.frames@.len(),
                ValidationError::LinkedCelSelfReference { index } => index == idx && fault
                    is SelfReference,
                ValidationError::LinkedCelTargetNotImage { index, target } => index == idx && fault
                    == CelFault::TargetNotImage(target),
                _ => false,
            }
        },
{
    let index = c.cels[k].0;
    let cel = &c.cels[k].1;
    if index.layer().as_usize() >= c.layers.len() {
        return Some(
            ValidationError::InvalidCelLayer {
                index,
                layer: index.layer(),
                layer_count: c.layers.len(),
            },
        );
    }
    if index.frame().as_usize() >= c.frames.len() {
        return Some(
            ValidationError::InvalidCelFrame {
                index,
                frame: index.frame(),
                frame_count: c.frames.len(),
            },
        );
    }
    let layer = &c.layers[index.layer().as_usize()];
    match layer.layer_type {
        LayerType::Group => {
            return Some(ValidationError::CelOnGroupLayer { index });
        },
        LayerType::Normal => {
            if let CelData::Tilemap = cel.contents {
                return Some(
                    ValidationError::CelLayerTypeMismatch {
                        index,
                        cel_type: "Tilemap",
                        layer_type: "Normal",
                    },
                );
            }
        },
        LayerType::Tilemap { .. } => {
            if let CelData::Pixels(_) = cel.contents {
                return Some(
                    ValidationError::CelLayerTypeMismatch {
                        index,
                        cel_type: "Pixels",
                        layer_type: "Tilemap",
                    },
                );
            }
        },
    }
    if let CelData::Linked(target_frame) = cel.contents {
        if target_frame.as_usize() >= c.frames.len() {
            return Some(
                ValidationError::InvalidLinkedCelTarget {
                    index,
                    target: target_frame,
                    frame_count: c.frames.len(),
                },
            );
        }
        if target_frame == index.frame() {
            return Some(ValidationError::LinkedCelSelfReference { index });
        }
        if !shows_image(c, index.layer(), target_frame) {
            return Some(ValidationError::LinkedCelTargetNotImage { index, target: target_frame });
        }
    }
    None
}

/// Whether the sprite has a cel of `layer` in `frame` that is not a link.
fn shows_image(c: &SpriteContents, layer: LayerIndex, frame: FrameIndex) -> (r: bool)
    ensures
        r == shows_image_at(*c, layer@, frame@),
{
    let mut k: usize = 0;
    while k < c.cels.len()
        invariant
            k <= c.cels@.len(),
            forall|j: int|
                0 <= j < k ==> !((#[trigger] c.cels@[j]).0@ == (layer@, frame@) && !(
                c.cels@[j].1.contents is Linked)),
        decreases c.cels@.len() - k,
    {
        let idx = c.cels[k].0;
        if idx.layer() == layer && idx.frame() == frame {
            if let CelData::Linked(_) = c.cels[k].1.contents {
            } else {
                return true;
            }
        }
        k = k + 1;
    }
    false
}

/// Validates the contents of a sprite: `Ok` exactly when the sprite is
/// valid, else the error for the first fault in the order of checking.
pub fn validate_sprite(c: &SpriteContents) -> (r: Result<(), ValidationError>)
    ensures
        match r {
            Ok(()) => sprite_valid(*c),
            Err(e) => reports_first_fault(*c, e),
        },
{
    if c.width == 0 || c.height == 0 {
        return Err(ValidationError::InvalidDimensions { width: c.width, height: c.height });
    }
    if c.pixel_width == 0 || c.pixel_height == 0 {
        return Err(
            ValidationError::InvalidPixelRatio { width: c.pixel_width, height: c.pixel_height },
        );
    }
    let mut i: usize = 0;
    while i < c.tags.len()
        invariant
            i <= c.tags@.len(),
            c.width != 0 && c.height != 0,
            c.pixel_width != 0 && c.pixel_height != 0,
            first_bad_tag(*c, 0) == first_bad_tag(*c, i as int),
        decreases c.tags@.len() - i,
    {
        let tag = &c.tags[i];
        if tag.from_frame as usize >= c.frames.len() || tag.to_frame as usize >= c.frames.len()
            || tag.from_frame > tag.to_frame {
            return Err(
                ValidationError::InvalidTagRange {
                    index: i,
                    from: tag.from_frame,
                    to: tag.to_frame,
                    frame_count: c.frames.len(),
                },
            );
        }
        proof {
            lemma_first_bad_tag_step(*c, i as int);
        }
        i = i + 1;
    }
    let mut k: usize = 0;
    while k < c.cels.len()
        invariant
            k <= c.cels@.len(),
            c.width != 0 && c.height != 0,
            c.pixel_width != 0 && c.pixel_height != 0,
            first_bad_tag(*c, 0) is None,
            first_bad_cel(*c, 0) == first_bad_cel(*c, k as int),
        decreases c.cels@.len() - k,
    {
        match check_cel(c, k) {
            Some(e) => {
                return Err(e);
            },
            None => {},
        }
        k = k + 1;
    }
    Ok(())
}

impl SpriteContents {
    /// The user data of the sprite, of its layers, of its tags and of its
    /// cels, in that order.
    pub fn user_data_list(&self) -> (v: Vec<&UserDataContents>)
        ensures
            v@.len() == 1 + self.layers@.len() + self.tags@.len() + self.cels@.len(),
            *v@[0] == self.user_data,
            forall|i: int| 0 <= i < self.layers@.len() ==> *v@[1 + i] == (#[trigger] self.layers@[i]).user_data,
            forall|i: int|
                0 <= i < self.tags@.len() ==> *v@[1 + self.layers@.len() + i]
                    == (#[trigger] self.tags@[i]).user_data,
            forall|i: int|
                0 <= i < self.cels@.len() ==> *v@[1 + self.layers@.len() + self.tags@.len() + i]
                    == (#[trigger] self.cels@[i]).1.user_data,
    {
        let mut v: Vec<&UserDataContents> = Vec::new();
        v.push(&self.user_data);
        let mut i: usize = 0;
        while i < self.layers.len()
            invariant
                i <= self.layers@.len(),
                v@.len() == 1 + i,
                *v@[0] == self.user_data,
                forall|j: int| 0 <= j < i ==> *v@[1 + j] == (#[trigger] self.layers@[j]).user_data,
            decreases self.layers@.len() - i,
        {
            v.push(&self.layers[i].user_data);
            i = i + 1;
        }
        let mut i: usize = 0;
        while i < self.tags.len()
            invariant
                i <= self.tags@.len(),
                v@.len() == 1 + self.layers@.len() + i,
                *v@[0] == self.user_data,
                forall|j: int|
                    0 <= j < self.layers@.len() ==> *v@[1 + j] == (#[trigger] self.layers@[j]).user_data,
                forall|j: int|
                    0 <= j < i ==> *v@[1 + self.layers@.len() + j]
                        == (#[trigger] self.tags@[j]).user_data,
            decreases self.tags@.len() - i,
        {
            v.push(&self.tags[i].user_data);
            i = i + 1;
        }
        let mut i: usize = 0;
        while i < self.cels.len()
            invariant
                i <= self.cels@.len(),
                v@.len() == 1 + self.layers@.len() + self.tags@.len() + i,
                *v@[0] == self.user_data,
                forall|j: int|
                    0 <= j < self.layers@.len() ==> *v@[1 + j] == (#[trigger] self.layers@[j]).user_data,
                forall|j: int|
                    0 <= j < self.tags@.len() ==> *v@[1 + self.layers@.len() + j]
                        == (#[trigger] self.tags@[j]).user_data,
                forall|j: int|
                    0 <= j < i ==> *v@[1 + self.layers@.len() + self.tags@.len() + j]
                        == (#[trigger] self.cels@[j]).1.user_data,
            decreases self.cels@.len() - i,
        {
            v.push(&self.cels[i].1.user_data);
            i = i + 1;
        }
        v
    }
}

/// In a valid sprite every tag's frames lie within the frames.
pub proof fn lemma_valid_tag_in_frames(c: SpriteContents, i: int)
    requires
        sprite_valid(c),
        0 <= i < c.tags@.len(),
    ensures
        tag_ok(c.tags@[i], c.frames@.len() as int),
{
    lemma_no_bad_tag_from(c, 0, i);
}

/// With no bad tag from `j` on, the tag at `i` (from `j` on) is good.
proof fn lemma_no_bad_tag_from(c: SpriteContents, j: int, i: int)
    requires
        0 <= j <= i < c.tags@.len(),
        first_bad_tag(c, j) is None,
    ensures
        tag_ok(c.tags@[i], c.frames@.len() as int),
    decreases i - j,
{
    if j < i {
        lemma_no_bad_tag_from(c, j + 1, i);
    }
}

/// In a valid sprite no cel has a fault.
pub proof fn lemma_valid_cel(c: SpriteContents, i: int)
    requires
        sprite_valid(c),
        0 <= i < c.cels@.len(),
    ensures
        cel_fault(c, c.cels@[i].0, c.cels@[i].1.contents) is None,
{
    lemma_no_bad_cel_from(c, 0, i);
}

/// With no bad cel from `j` on, the cel at `i` (from `j` on) is good.
proof fn lemma_no_bad_cel_from(c: SpriteContents, j: int, i: int)
    requires
        0 <= j <= i < c.cels@.len(),
        first_bad_cel(c, j) is None,
    ensures
        cel_fault(c, c.cels@[i].0, c.cels@[i].1.contents) is None,
    decreases i - j,
{
    if j < i {
        lemma_no_bad_cel_from(c, j + 1, i);
    }
}

} // verus!
