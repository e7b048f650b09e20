use sciproj::formats::aseprite::raw::cel::{CelChunk, CelType, LinkedCel, RawCel};
use sciproj::formats::aseprite::raw::cel_extra::CelExtraChunk;
use sciproj::formats::aseprite::raw::color_profile::{ColorProfileChunk, ColorProfileType};
use sciproj::formats::aseprite::raw::external_files::{
    ExternalFileEntry, ExternalFileType, ExternalFilesChunk,
};
use sciproj::formats::aseprite::raw::layer::LayerChunk;
use sciproj::formats::aseprite::raw::palette::{PaletteChunk, PaletteEntry, PaletteEntryFlags};
use sciproj::formats::aseprite::raw::slice::{SliceChunk, SliceKey};
use sciproj::formats::aseprite::raw::tags::{AnimationDirection, Tag, TagsChunk};
use sciproj::formats::aseprite::raw::tileset::TilesetChunk;
use sciproj::formats::aseprite::raw::user_data::UserDataChunk;
use sciproj::formats::aseprite::raw::{
    build_frame_block, Chunk, ChunkHeader, FrameHeader, Header, HeaderFlags, ReadError,
};
use sciproj::formats::aseprite::{BlendMode, LayerFlags, LayerType, LAYER_VISIBLE};

fn layer(name: &str, layer_type: LayerType, uuid: Option<[u8; 16]>) -> LayerChunk {
    LayerChunk {
        flags: LayerFlags::from_bits_truncate(LAYER_VISIBLE),
        layer_type,
        child_level: 2,
        default_width: 0,
        default_height: 0,
        blend_mode: BlendMode::Screen,
        opacity: 77,
        layer_name: name.to_string(),
        uuid,
    }
}

#[test]
fn layer_chunk_bytes_and_round_trip() {
    let c = layer("Ab", LayerType::Normal, None);
    let b = c.to_block();
    assert_eq!(
        b,
        vec![1, 0, 0, 0, 2, 0, 0, 0, 0, 0, 2, 0, 77, 0, 0, 0, 2, 0, b'A', b'b']
    );
    let r = LayerChunk::from_block(&b).unwrap();
    assert_eq!(r.layer_name, "Ab");
    assert_eq!(r.flags.bits(), LAYER_VISIBLE);
    assert_eq!(r.blend_mode, BlendMode::Screen);
    assert_eq!(r.child_level, 2);
    assert_eq!(r.opacity, 77);
    assert!(r.uuid.is_none());

    let t = layer("T", LayerType::Tilemap { tileset_index: 7 }, Some([9u8; 16]));
    let r = LayerChunk::from_block(&t.to_block()).unwrap();
    assert_eq!(r.layer_type, LayerType::Tilemap { tileset_index: 7 });
    assert_eq!(r.uuid, Some([9u8; 16]));
}

#[test]
fn layer_chunk_errors() {
    assert_eq!(LayerChunk::from_block(&[0u8; 5]).err(), Some(ReadError::UnexpectedEnd));
    let mut b = layer("x", LayerType::Normal, None).to_block();
    b[2] = 9;
    assert_eq!(LayerChunk::from_block(&b).err(), Some(ReadError::InvalidLayerType(9)));
    let mut b = layer("x", LayerType::Normal, None).to_block();
    b[10] = 40;
    assert_eq!(LayerChunk::from_block(&b).err(), Some(ReadError::InvalidBlendMode(40)));
}

#[test]
fn cel_chunk_round_trip() {
    let c = CelChunk {
        layer_index: 3,
        x: -5,
        y: 6,
        opacity: 200,
        cel_type: CelType::Raw(RawCel { width: 2, height: 1, pixels: vec![1, 2, 3, 4] }),
        z_index: -1,
        reserved: [0; 5],
    };
    let b = c.to_block();
    assert_eq!(b.len(), 16 + 4 + 4);
    let r = CelChunk::from_block(&b).unwrap();
    assert_eq!(r.layer_index, 3);
    assert_eq!(r.x, -5);
    assert_eq!(r.y, 6);
    assert_eq!(r.z_index, -1);
    match r.cel_type {
        CelType::Raw(raw) => {
            assert_eq!((raw.width, raw.height), (2, 1));
            assert_eq!(raw.pixels, vec![1, 2, 3, 4]);
        }
        _ => panic!("expected a raw cel"),
    }

    let l = CelChunk {
        layer_index: 0,
        x: 0,
        y: 0,
        opacity: 1,
        cel_type: CelType::Linked(LinkedCel { frame_position: 12 }),
        z_index: 0,
        reserved: [0; 5],
    };
    match CelChunk::from_block(&l.to_block()).unwrap().cel_type {
        CelType::Linked(x) => assert_eq!(x.frame_position, 12),
        _ => panic!("expected a linked cel"),
    }
    let mut bad = l.to_block();
    bad[7] = 8;
    assert_eq!(CelChunk::from_block(&bad).err(), Some(ReadError::InvalidCelType(8)));
}

#[test]
fn cel_extra_round_trip() {
    let c = CelExtraChunk { flags: 1, precise_x: -65536, precise_y: 3, width: 4, height: -5 };
    let b = c.to_block();
    assert_eq!(b.len(), 36);
    assert_eq!(CelExtraChunk::from_block(&b), Ok(c));
    assert_eq!(CelExtraChunk::from_block(&b[..35]), Err(ReadError::UnexpectedEnd));
}

#[test]
fn tags_chunk_round_trip() {
    let c = TagsChunk {
        tags: vec![
            Tag {
                from_frame: 0,
                to_frame: 3,
                direction: AnimationDirection::PingPong,
                repeat: 2,
                name: "walk".to_string(),
            },
            Tag {
                from_frame: 4,
                to_frame: 4,
                direction: AnimationDirection::Reverse,
                repeat: 0,
                name: "idle".to_string(),
            },
        ],
    };
    let b = c.to_block();
    assert_eq!(b.len(), 10 + 2 * 19 + 8);
    let r = TagsChunk::from_block(&b).unwrap();
    assert_eq!(r.tags.len(), 2);
    assert_eq!(r.tags[0].name, "walk");
    assert_eq!(r.tags[0].direction, AnimationDirection::PingPong);
    assert_eq!(r.tags[1].from_frame, 4);
    assert_eq!(r.tags[1].direction, AnimationDirection::Reverse);

    let mut bad = b.clone();
    bad[10 + 4] = 7;
    assert_eq!(
        TagsChunk::from_block(&bad).err(),
        Some(ReadError::InvalidAnimationDirection(7))
    );
}

#[test]
fn palette_chunk_round_trip() {
    let c = PaletteChunk {
        new_palette_size: 2,
        first_color_index: 0,
        last_color_index: 1,
        entries: vec![
            PaletteEntry {
                flags: PaletteEntryFlags::from_bits_truncate(0),
                red: 1,
                green: 2,
                blue: 3,
                alpha: 4,
                name: None,
            },
            PaletteEntry {
                flags: PaletteEntryFlags::from_bits_truncate(1),
                red: 5,
                green: 6,
                blue: 7,
                alpha: 8,
                name: Some("sky".to_string()),
            },
        ],
    };
    let b = c.to_block();
    assert_eq!(b.len(), 20 + 6 + 6 + 2 + 3);
    let r = PaletteChunk::from_block(&b).unwrap();
    assert_eq!(r.entries.len(), 2);
    assert_eq!(r.entries[0].name, None);
    assert_eq!(r.entries[1].name.as_deref(), Some("sky"));
    assert_eq!(r.entries[1].blue, 7);
}

#[test]
fn user_data_chunk_round_trip() {
    let props = vec![6, 0, 0, 0, 0xaa, 0xbb];
    let c = UserDataChunk::new(7, Some("hi".to_string()), Some([1, 2, 3, 4]), Some(props.clone()));
    let b = c.to_block();
    let r = UserDataChunk::from_block(&b).unwrap();
    assert_eq!(r.flags(), 7);
    assert_eq!(r.text().map(|s| s.as_str()), Some("hi"));
    assert_eq!(r.color(), Some([1, 2, 3, 4]));
    assert_eq!(r.properties_data(), Some(&props));

    let bad = vec![4, 0, 0, 0, 2, 0, 0, 0];
    assert_eq!(UserDataChunk::from_block(&bad).err(), Some(ReadError::InvalidPropertiesSize(2)));
}

#[test]
fn slice_tileset_profile_and_files_round_trip() {
    let s = SliceChunk {
        num_slice_keys: 1,
        flags: 2,
        name: "hit".to_string(),
        keys: vec![SliceKey {
            frame_number: 1,
            x: -2,
            y: 3,
            width: 4,
            height: 5,
            center: None,
            pivot: Some((6, -7)),
        }],
    };
    let r = SliceChunk::from_block(&s.to_block()).unwrap();
    assert_eq!(r.keys, s.keys);
    assert_eq!(r.name, "hit");

    let t = TilesetChunk {
        id: 1,
        flags: 3,
        num_tiles: 4,
        tile_width: 8,
        tile_height: 8,
        base_index: 1,
        name: "tiles".to_string(),
        external_file_id: Some(5),
        external_tileset_id: Some(6),
        compressed_data: Some(vec![1, 2, 3]),
    };
    let r = TilesetChunk::from_block(&t.to_block()).unwrap();
    assert_eq!(r.external_file_id, Some(5));
    assert_eq!(r.external_tileset_id, Some(6));
    assert_eq!(r.compressed_data, Some(vec![1, 2, 3]));

    let p = ColorProfileChunk {
        profile_type: ColorProfileType::Icc,
        flags: 1,
        fixed_gamma: 65536,
        icc_profile: Some(vec![9, 9]),
    };
    let r = ColorProfileChunk::from_block(&p.to_block()).unwrap();
    assert_eq!(r.profile_type, ColorProfileType::Icc);
    assert_eq!(r.icc_profile, Some(vec![9, 9]));
    let mut bad = p.to_block();
    bad[0] = 5;
    assert_eq!(ColorProfileChunk::from_block(&bad).err(), Some(ReadError::InvalidColorProfileType(5)));

    let f = ExternalFilesChunk {
        entries: vec![ExternalFileEntry {
            entry_id: 3,
            file_type: ExternalFileType::Tileset,
            file_name_or_id: "a.aseprite".to_string(),
        }],
    };
    let r = ExternalFilesChunk::from_block(&f.to_block()).unwrap();
    assert_eq!(r.entries[0].file_name_or_id, "a.aseprite");
    assert_eq!(r.entries[0].file_type, ExternalFileType::Tileset);
}

#[test]
fn headers_have_their_sizes() {
    let h = Header {
        file_size: 1000,
        frames_count: 2,
        width: 32,
        height: 16,
        color_depth: 32,
        flags: HeaderFlags::from_bits_truncate(1),
        transparent_index: 0,
        num_indexed_colors: 0,
        pixel_width: 1,
        pixel_height: 1,
        grid_x: 0,
        grid_y: 1,
        grid_width: 16,
        grid_height: 16,
        reserved2: [0; 84],
    };
    let b = h.to_block();
    assert_eq!(b.len(), 128);
    assert_eq!(&b[0..6], &[0xe8, 0x03, 0, 0, 0xe0, 0xa5]);
    // Grid fields are written big-endian.
    assert_eq!(&b[36..40], &[0, 0, 0, 1]);

    let f = FrameHeader::new(100, 50, 3).to_block();
    assert_eq!(f, vec![100, 0, 0, 0, 0xfa, 0xf1, 3, 0, 50, 0, 0, 0, 0, 0, 0, 0]);
    let f = FrameHeader::new(100, 50, 0x1_0000).to_block();
    assert_eq!(&f[6..8], &[0xff, 0xff]);
    assert_eq!(&f[12..16], &[0, 0, 1, 0]);

    assert_eq!(ChunkHeader::new(10, 0x2004).to_block(), vec![10, 0, 0, 0, 4, 0x20]);
}

#[test]
fn frame_block_holds_its_chunks() {
    let chunks = vec![
        Chunk::CelExtra(CelExtraChunk { flags: 0, precise_x: 0, precise_y: 0, width: 0, height: 0 }),
        Chunk::Layer(layer("L", LayerType::Group, None)),
    ];
    let b = build_frame_block(40, &chunks);
    let extra_len = 6 + 36;
    let layer_len = 6 + 19;
    assert_eq!(b.len(), 16 + extra_len + layer_len);
    assert_eq!(&b[0..4], &((b.len() as u32).to_le_bytes()));
    assert_eq!(&b[6..8], &[2, 0]);
    assert_eq!(&b[16..22], &[42, 0, 0, 0, 6, 0x20]);
    assert_eq!(&b[16 + extra_len..16 + extra_len + 6], &[25, 0, 0, 0, 4, 0x20]);
}

#[test]
fn chunk_block_writes_size_type_and_contents() {
    let chunk = UserDataChunk::new(0, None, None, None);
    let block = sciproj::formats::aseprite::raw::ChunkBlock::from_value(
        sciproj::formats::aseprite::raw::Chunk::UserData(chunk),
    );
    assert_eq!(block.to_block(), vec![10, 0, 0, 0, 0x20, 0x20, 0, 0, 0, 0]);
}
