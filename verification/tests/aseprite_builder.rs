use sciproj::formats::aseprite::backing::{
    CelContents, CelData, ColorProfile, LayerContents, PaletteContents, SpriteContents,
    TagContents, UserDataContents, ValidationError,
};
use sciproj::formats::aseprite::builder::SpriteBuilder;
use sciproj::formats::aseprite::model::CelImage;
use sciproj::formats::aseprite::{
    AnimationDirection, BlendMode, CelIndex, Color, ColorDepth, FrameIndex, LayerFlags,
    LayerIndex, LayerType, Point16, Point32, Size32,
};

#[test]
fn test_builder_basic() {
    let mut builder = SpriteBuilder::new(ColorDepth::Rgba);
    builder.set_width(32);
    builder.set_height(32);

    let mut frame = builder.add_frame();
    frame.set_duration(100);

    let mut layer = builder.add_layer();
    layer.set_name("Layer 1".to_string());
    layer.set_opacity(128);

    let mut cel = builder.add_cel(LayerIndex::from_u16(0), FrameIndex::from_u16(0));
    cel.set_opacity(200);
    cel.set_image(32, 32, vec![0u8; 32 * 32 * 4]);

    let result = builder.build();
    assert!(result.is_ok());
    let sprite = result.unwrap();
    assert_eq!(sprite.width(), 32);
    assert_eq!(sprite.height(), 32);
    assert_eq!(sprite.frame(0).unwrap().duration(), 100);
    assert_eq!(sprite.layer(0).unwrap().name(), "Layer 1");
    assert_eq!(sprite.layer(0).unwrap().opacity(), 128);
    let cel = sprite.cel(LayerIndex::from_u16(0), FrameIndex::from_u16(0)).unwrap();
    assert_eq!(cel.opacity(), 200);
    assert!(sprite.palette().is_none());
}

#[test]
fn test_builder_invalid_dimensions() {
    let mut builder = SpriteBuilder::new(ColorDepth::Rgba);
    builder.set_width(0); // Invalid
    builder.set_height(32);
    builder.add_frame();

    match builder.build() {
        Err(ValidationError::InvalidDimensions { width, .. }) => assert_eq!(width, 0),
        _ => panic!("Expected InvalidDimensions error"),
    }
}

#[test]
fn test_builder_invalid_tag_range() {
    let mut builder = SpriteBuilder::new(ColorDepth::Rgba);
    builder.set_width(10);
    builder.set_height(10);
    builder.add_frame(); // Index 0

    // Add tag referencing frame 1 (invalid, only 0 exists)
    builder.add_tag(0, 1, "Tag1".to_string(), AnimationDirection::Forward);

    match builder.build() {
        Err(ValidationError::InvalidTagRange { index, to, .. }) => {
            assert_eq!(index, 0);
            assert_eq!(to, 1);
        }
        _ => panic!("Expected InvalidTagRange error"),
    }
}

#[test]
fn test_builder_layer_consistency() {
    let mut builder = SpriteBuilder::new(ColorDepth::Rgba);
    builder.set_width(10);
    builder.set_height(10);
    builder.add_frame();

    // Add a Group layer (index 0)
    let mut layer_builder = builder.add_layer();
    layer_builder.set_type(LayerType::Group);

    // Add a pixel cel to Group layer (invalid)
    builder.add_cel(LayerIndex::from_u16(0), FrameIndex::from_u16(0));

    match builder.build() {
        Err(ValidationError::CelOnGroupLayer { index }) => {
            assert_eq!(index.layer(), LayerIndex::from_u16(0));
            assert_eq!(index.frame(), FrameIndex::from_u16(0));
        }
        _ => panic!("Expected CelOnGroupLayer error"),
    }
}

#[test]
fn builder_rejects_zero_pixel_ratio() {
    let mut builder = SpriteBuilder::new(ColorDepth::Rgba);
    builder.set_width(4);
    builder.set_height(4);
    builder.set_pixel_ratio(0, 1);
    match builder.build() {
        Err(ValidationError::InvalidPixelRatio { width, height }) => {
            assert_eq!(width, 0);
            assert_eq!(height, 1);
        }
        _ => panic!("Expected InvalidPixelRatio error"),
    }
}

#[test]
fn builder_rejects_cel_on_missing_layer_and_frame() {
    let mut builder = SpriteBuilder::new(ColorDepth::Rgba);
    builder.set_width(4);
    builder.set_height(4);
    builder.add_frame();
    builder.add_cel(LayerIndex::from_u16(3), FrameIndex::from_u16(0));
    match builder.build() {
        Err(ValidationError::InvalidCelLayer { layer, layer_count, .. }) => {
            assert_eq!(layer, LayerIndex::from_u16(3));
            assert_eq!(layer_count, 0);
        }
        _ => panic!("Expected InvalidCelLayer error"),
    }

    let mut builder = SpriteBuilder::new(ColorDepth::Rgba);
    builder.set_width(4);
    builder.set_height(4);
    builder.add_layer();
    builder.add_cel(LayerIndex::from_u16(0), FrameIndex::from_u16(2));
    match builder.build() {
        Err(ValidationError::InvalidCelFrame { frame, frame_count, .. }) => {
            assert_eq!(frame, FrameIndex::from_u16(2));
            assert_eq!(frame_count, 0);
        }
        _ => panic!("Expected InvalidCelFrame error"),
    }
}

#[test]
fn builder_checks_linked_cels() {
    let mut builder = SpriteBuilder::new(ColorDepth::Rgba);
    builder.set_width(4);
    builder.set_height(4);
    builder.add_frame();
    builder.add_frame();
    builder.add_layer();
    let mut cel = builder.add_cel(LayerIndex::from_u16(0), FrameIndex::from_u16(1));
    cel.set_linked(FrameIndex::from_u16(1));
    match builder.build() {
        Err(ValidationError::LinkedCelSelfReference { index }) => {
            assert_eq!(index.frame(), FrameIndex::from_u16(1));
        }
        _ => panic!("Expected LinkedCelSelfReference error"),
    }

    let mut builder = SpriteBuilder::new(ColorDepth::Rgba);
    builder.set_width(4);
    builder.set_height(4);
    builder.add_frame();
    builder.add_layer();
    let mut cel = builder.add_cel(LayerIndex::from_u16(0), FrameIndex::from_u16(0));
    cel.set_linked(FrameIndex::from_u16(5));
    match builder.build() {
        Err(ValidationError::InvalidLinkedCelTarget { target, frame_count, .. }) => {
            assert_eq!(target, FrameIndex::from_u16(5));
            assert_eq!(frame_count, 1);
        }
        _ => panic!("Expected InvalidLinkedCelTarget error"),
    }

    let mut builder = SpriteBuilder::new(ColorDepth::Rgba);
    builder.set_width(4);
    builder.set_height(4);
    builder.add_frame();
    builder.add_frame();
    builder.add_layer();
    builder.add_cel(LayerIndex::from_u16(0), FrameIndex::from_u16(0));
    let mut cel = builder.add_cel(LayerIndex::from_u16(0), FrameIndex::from_u16(1));
    cel.set_linked(FrameIndex::from_u16(0));
    let sprite = builder.build().unwrap();
    let linked = sprite.cel(LayerIndex::from_u16(0), FrameIndex::from_u16(1)).unwrap();
    let target = linked.linked_cel().unwrap();
    assert_eq!(target.frame(), FrameIndex::from_u16(0));
}

#[test]
fn builder_reports_type_mismatch() {
    let mut builder = SpriteBuilder::new(ColorDepth::Rgba);
    builder.set_width(4);
    builder.set_height(4);
    builder.add_frame();
    let mut layer = builder.add_layer();
    layer.set_type(LayerType::Tilemap { tileset_index: 0 });
    builder.add_cel(LayerIndex::from_u16(0), FrameIndex::from_u16(0));
    match builder.build() {
        Err(ValidationError::CelLayerTypeMismatch { cel_type, layer_type, .. }) => {
            assert_eq!(cel_type, "Pixels");
            assert_eq!(layer_type, "Tilemap");
        }
        _ => panic!("Expected CelLayerTypeMismatch error"),
    }
}

#[test]
fn adding_a_cel_twice_keeps_one_cel() {
    let mut builder = SpriteBuilder::new(ColorDepth::Indexed(16));
    builder.set_width(4);
    builder.set_height(4);
    builder.add_frame();
    builder.add_layer();
    builder.add_cel(LayerIndex::from_u16(0), FrameIndex::from_u16(0)).set_opacity(9);
    builder.add_cel(LayerIndex::from_u16(0), FrameIndex::from_u16(0));
    let sprite = builder.build().unwrap();
    assert_eq!(sprite.cel_count(), 1);
    let cel = sprite.cel(LayerIndex::from_u16(0), FrameIndex::from_u16(0)).unwrap();
    assert_eq!(cel.opacity(), 9);
    assert!(sprite.palette().is_some());
}

fn user_data(text: &str) -> UserDataContents {
    let mut u = UserDataContents::empty();
    u.text = Some(text.to_string());
    u
}

#[test]
fn test_visit_user_data() {
    let mut sprite = SpriteContents {
        color_depth: ColorDepth::Rgba,
        width: 10,
        height: 10,
        pixel_width: 1,
        pixel_height: 1,
        transparent_color: 0,
        frames: vec![],
        layers: vec![],
        tags: vec![],
        cels: vec![],
        color_profile: ColorProfile::NoProfile,
        palette: PaletteContents { entries: vec![] },
        user_data: user_data("Sprite"),
    };

    sprite.layers.push(LayerContents {
        name: "L1".to_string(),
        flags: LayerFlags::empty(),
        layer_type: LayerType::Normal,
        blend_mode: BlendMode::Normal,
        opacity: 255,
        uuid: None,
        user_data: user_data("Layer"),
    });

    sprite.tags.push(TagContents {
        from_frame: 0,
        to_frame: 1,
        name: "T1".to_string(),
        color: Color::from_rgba(0, 0, 0, 0),
        direction: AnimationDirection::Forward,
        user_data: user_data("Tag"),
    });

    let cel_idx = CelIndex::new(LayerIndex::from_u16(0), FrameIndex::from_u16(0));
    sprite.cels.push((
        cel_idx,
        CelContents {
            position: Point16::new(0, 0),
            opacity: 255,
            contents: CelData::Tilemap,
            precise_position: Point32::new(0, 0),
            precise_size: Size32::new(0, 0),
            user_data: user_data("Cel"),
        },
    ));

    let mut visited = Vec::new();
    for ud in sprite.user_data_list() {
        if let Some(txt) = &ud.text {
            visited.push(txt.clone());
        }
    }

    assert!(visited.contains(&"Sprite".to_string()));
    assert!(visited.contains(&"Layer".to_string()));
    assert!(visited.contains(&"Tag".to_string()));
    assert!(visited.contains(&"Cel".to_string()));
    assert_eq!(visited.len(), 4);
}

#[test]
fn tag_lists_the_frames_of_its_range() {
    let mut builder = SpriteBuilder::new(ColorDepth::Rgba);
    builder.set_width(4);
    builder.set_height(4);
    for d in [10u16, 20, 30, 40] {
        builder.add_frame().set_duration(d);
    }
    builder.add_tag(1, 2, "Walk".to_string(), AnimationDirection::Forward);
    let sprite = builder.build().unwrap();
    let tag = sprite.tag(0).unwrap();
    assert_eq!(tag.range(), 1..3);
    let frames = tag.frames();
    assert_eq!(frames.len(), 2);
    assert_eq!(frames[0].index(), FrameIndex::from_u16(1));
    assert_eq!(frames[1].duration(), 30);
}

#[test]
fn cels_are_ordered_by_layer_then_frame() {
    let cel = |l: u16, f: u16| CelIndex::new(LayerIndex::from_u16(l), FrameIndex::from_u16(f));
    assert_eq!(cel(2, 7).layer(), LayerIndex::from_u16(2));
    assert_eq!(cel(2, 7).frame(), FrameIndex::from_u16(7));
    assert!(cel(1, 9) < cel(2, 0));
    assert!(cel(2, 0) < cel(2, 1));
    assert_eq!(cel(3, 4).cmp(&cel(3, 4)), std::cmp::Ordering::Equal);
    assert_eq!(cel(3, 4).partial_cmp(&cel(1, 8)), Some(std::cmp::Ordering::Greater));
    let mut cels = vec![cel(1, 1), cel(0, 5), cel(1, 0)];
    cels.sort();
    assert_eq!(cels, vec![cel(0, 5), cel(1, 0), cel(1, 1)]);
}

#[test]
fn test_sprite_to_block_serialization() {
    // 1. Create a Sprite using the Builder
    let mut builder = SpriteBuilder::new(ColorDepth::Rgba);
    builder.set_width(32);
    builder.set_height(32);

    // Add a frame
    let mut frame_builder = builder.add_frame();
    frame_builder.set_duration(100);
    let frame_idx = frame_builder.index();

    // Add a layer
    let mut layer_builder = builder.add_layer();
    layer_builder.set_name("Layer 1".to_string());
    // We know we added at index 0
    let layer_idx = layer_builder.index();

    // Add a cel with some pixel data
    let mut pixels = vec![0u8; 32 * 32 * 4];
    // Fill with red
    for i in 0..(32 * 32) {
        pixels[i * 4] = 255; // R
        pixels[i * 4 + 1] = 0; // G
        pixels[i * 4 + 2] = 0; // B
        pixels[i * 4 + 3] = 255; // A
    }

    {
        let mut cel_builder = builder.add_cel(layer_idx, frame_idx);
        cel_builder.set_image(32, 32, pixels);
    }

    let sprite = builder.build().expect("Failed to build sprite");

    // 2. Serialize using to_block
    let block = sprite.to_block();

    // 3. functional verification
    // Minimally check size. Header (128) + Frame Header (16) + ...
    assert!(block.len() > 144, "Block too small: {}", block.len());
    assert_eq!(&block[0..4], &(block.len() as u32).to_le_bytes());
}

#[test]
fn sprite_file_holds_header_frames_and_chunks() {
    let mut builder = SpriteBuilder::new(ColorDepth::Rgba);
    builder.set_width(8);
    builder.set_height(6);
    builder.add_frame().set_duration(100);
    builder.add_frame().set_duration(250);
    let mut layer = builder.add_layer();
    layer.set_name("L".to_string());
    layer.set_opacity(128);
    builder.add_cel(LayerIndex::from_u16(0), FrameIndex::from_u16(1)).set_image(1, 1, vec![1, 2, 3, 4]);
    let sprite = builder.build().unwrap();
    let bytes = sprite.to_block();
    // The layer chunk: 6-byte header, 16 fixed bytes, the name (2 + 1).
    let layer_chunk = 6 + 16 + 3;
    // The cel chunk: 6-byte header, 16 fixed bytes, size (4), 4 pixel bytes.
    let cel_chunk = 6 + 16 + 4 + 4;
    let first = 16 + layer_chunk;
    let second = 16 + cel_chunk;
    assert_eq!(bytes.len(), 128 + first + second);
    assert_eq!(&bytes[0..4], &(bytes.len() as u32).to_le_bytes());
    assert_eq!(&bytes[4..6], &0xA5E0u16.to_le_bytes());
    assert_eq!(&bytes[6..8], &2u16.to_le_bytes());
    assert_eq!(&bytes[12..14], &32u16.to_le_bytes());
    assert_eq!(&bytes[14..18], &1u32.to_le_bytes());
    // The first frame: its size, magic number, one chunk, its duration.
    assert_eq!(&bytes[128..132], &(first as u32).to_le_bytes());
    assert_eq!(&bytes[132..134], &0xF1FAu16.to_le_bytes());
    assert_eq!(&bytes[134..136], &1u16.to_le_bytes());
    assert_eq!(&bytes[136..138], &100u16.to_le_bytes());
    // Its layer chunk.
    assert_eq!(&bytes[144..148], &(layer_chunk as u32).to_le_bytes());
    assert_eq!(&bytes[148..150], &0x2004u16.to_le_bytes());
    // The second frame holds the cel.
    let f2 = 128 + first;
    assert_eq!(&bytes[f2 + 6..f2 + 8], &1u16.to_le_bytes());
    assert_eq!(&bytes[f2 + 8..f2 + 10], &250u16.to_le_bytes());
    assert_eq!(&bytes[f2 + 16 + 4..f2 + 16 + 6], &0x2005u16.to_le_bytes());
    assert_eq!(&bytes[bytes.len() - 4..], &[1, 2, 3, 4]);
}

#[test]
fn a_linked_cel_shows_the_pixels_it_links_to() {
    let mut builder = SpriteBuilder::new(ColorDepth::Rgba);
    builder.set_width(2);
    builder.set_height(1);
    builder.add_frame();
    builder.add_frame();
    builder.add_layer();
    builder.add_cel(LayerIndex::from_u16(0), FrameIndex::from_u16(0)).set_image(2, 1, vec![1, 2, 3, 4, 5, 6, 7, 8]);
    builder.add_cel(LayerIndex::from_u16(0), FrameIndex::from_u16(1)).set_linked(FrameIndex::from_u16(0));
    let sprite = builder.build().unwrap();
    let linked = sprite.cel(LayerIndex::from_u16(0), FrameIndex::from_u16(1)).unwrap();
    match linked.image() {
        CelImage::RawPixels(px) => {
            assert_eq!((px.width(), px.height()), (2, 1));
            assert_eq!(px.bytes(), &[1, 2, 3, 4, 5, 6, 7, 8]);
            assert!(matches!(px.color_mode(), ColorDepth::Rgba));
        }
        CelImage::Tilemap => panic!("the linked cel has pixels"),
    }
}

#[test]
fn a_link_must_lead_to_an_image() {
    let mut builder = SpriteBuilder::new(ColorDepth::Rgba);
    builder.set_width(2);
    builder.set_height(1);
    builder.add_frame();
    builder.add_frame();
    builder.add_frame();
    builder.add_layer();
    // Frame 1 links to frame 2, which links back: no image at either end.
    builder.add_cel(LayerIndex::from_u16(0), FrameIndex::from_u16(1)).set_linked(FrameIndex::from_u16(2));
    builder.add_cel(LayerIndex::from_u16(0), FrameIndex::from_u16(2)).set_linked(FrameIndex::from_u16(1));
    match builder.build() {
        Err(ValidationError::LinkedCelTargetNotImage { index, target }) => {
            assert_eq!(index, CelIndex::new(LayerIndex::from_u16(0), FrameIndex::from_u16(1)));
            assert_eq!(target, FrameIndex::from_u16(2));
        }
        _ => panic!("Expected LinkedCelTargetNotImage error"),
    }
}

#[test]
fn a_link_to_a_frame_without_a_cel_is_refused() {
    let mut builder = SpriteBuilder::new(ColorDepth::Rgba);
    builder.set_width(2);
    builder.set_height(1);
    builder.add_frame();
    builder.add_frame();
    builder.add_layer();
    builder.add_cel(LayerIndex::from_u16(0), FrameIndex::from_u16(1)).set_linked(FrameIndex::from_u16(0));
    assert!(matches!(builder.build(), Err(ValidationError::LinkedCelTargetNotImage { .. })));
}

#[test]
fn sprite_file_holds_palette_and_cel_user_data() {
    let mut builder = SpriteBuilder::new(ColorDepth::Indexed(2));
    builder.set_width(1);
    builder.set_height(1);
    builder.add_frame();
    builder.add_layer().set_name("L".to_string());
    builder.set_palette(vec![
        sciproj::formats::aseprite::PaletteEntry::new(Color::from_rgba(255, 0, 0, 255), None),
        sciproj::formats::aseprite::PaletteEntry::new(Color::from_rgba(0, 0, 255, 255), Some("b".to_string())),
    ]);
    let mut cel = builder.add_cel(LayerIndex::from_u16(0), FrameIndex::from_u16(0));
    cel.set_image(1, 1, vec![1]);
    cel.set_user_data(Some("hi".to_string()), None);
    let sprite = builder.build().unwrap();
    let bytes = sprite.to_block();
    let palette = 6 + 20 + 6 + (6 + 2 + 1);
    let layer = 6 + 16 + 3;
    let cel_chunk = 6 + 16 + 4 + 1;
    let user_data = 6 + 4 + 2 + 2;
    assert_eq!(bytes.len(), 128 + 16 + palette + layer + cel_chunk + user_data);
    // Four chunks in the frame.
    assert_eq!(&bytes[134..136], &4u16.to_le_bytes());
    // The palette chunk comes first: two entries, from 0 to 1.
    assert_eq!(&bytes[148..150], &0x2019u16.to_le_bytes());
    assert_eq!(&bytes[150..154], &2u32.to_le_bytes());
    assert_eq!(&bytes[154..158], &0u32.to_le_bytes());
    assert_eq!(&bytes[158..162], &1u32.to_le_bytes());
    // The user data chunk comes last, with its text.
    let ud = bytes.len() - user_data;
    assert_eq!(&bytes[ud + 4..ud + 6], &0x2020u16.to_le_bytes());
    assert_eq!(&bytes[ud + 6..], &[1, 0, 0, 0, 2, 0, b'h', b'i']);
}
