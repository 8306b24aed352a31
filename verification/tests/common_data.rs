use lib::bsp_render::{BspRender, Face, TexInfo};
use lib::bsp::{LUMP_TEXTURES, LUMP_PLANES, LUMP_CLIPNODES, LUMP_MODELS, MAX_MAP_HULLS, Bsp, BspError, BSP_VERSION, HEADER_LUMPS, LUMP_ENTITIES, LUMP_LEAFS, LUMP_NODES, LUMP_VISIBILITY};
use lib::collision::BspCollision;
use lib::crc::crc_block;
use lib::defs::{CONTENTS_EMPTY, CONTENTS_SOLID};
use lib::md4::{block_checksum, digest, Md4};
use lib::pak::{Pak, PakError};
use lib::palette::Palette;
use lib::pcx::{PcxError, PcxImage};
use lib::mdl::{AliasModel, MdlError, MdlFrameGroup, MdlSkin, IDPOLYHEADER, MDL_VERSION};
use lib::spr::{Sprite, SpriteFrame, SpriteImage, SprError, IDSPRITE, SPR_VERSION};
use lib::vfs::{is_safe_relative_path, QuakeFs, Source};
use lib::wad::{Wad, WadError};

fn hex(bytes: &[u8]) -> String {
    bytes.iter().map(|b| format!("{:02x}", b)).collect()
}

#[test]
fn md4_empty_digest_matches_reference() {
    let digest = digest(b"");
    assert_eq!(hex(&digest), "31d6cfe0d16ae931b73c59d7e0c089c0");
}

#[test]
fn md4_multiple_updates_match_single_pass() {
    let mut md4 = Md4::new();
    md4.update(b"a");
    md4.update(b"bc");
    let digest = md4.finalize();
    assert_eq!(hex(&digest), "a448017aaf21d8525fc10ae87aa6729d");
}

#[test]
fn md4_clones_fed_apart_or_together_agree() {
    let mut start = Md4::new();
    start.update(b"quake");
    let mut split = start.clone();
    let mut joined = start.clone();
    split.update(b"a");
    split.update(b"bc");
    joined.update(b"abc");
    let expected = digest(b"quakeabc");
    assert_eq!(split.finalize(), expected);
    assert_eq!(joined.finalize(), expected);
    assert_eq!(hex(&start.finalize()), hex(&digest(b"quake")));
}

#[test]
fn block_checksum_empty_matches_reference() {
    assert_eq!(block_checksum(b""), 0xc6f640b7);
}

#[test]
fn md4_long_message_reference() {
    let msg = b"12345678901234567890123456789012345678901234567890123456789012345678901234567890";
    assert_eq!(hex(&digest(msg)), "e33b4ddc9c38f2199c3e7b164fcc0536");
    let mut md4 = Md4::new();
    md4.update(&msg[..30]);
    md4.update(&msg[30..]);
    assert_eq!(hex(&md4.finalize()), "e33b4ddc9c38f2199c3e7b164fcc0536");
}

#[test]
fn crc_reference_value() {
    assert_eq!(crc_block(b"123456789"), 0x29b1);
    assert_eq!(crc_block(b""), 0xffff);
}

fn bsp_bytes(payloads: &[Vec<u8>]) -> Vec<u8> {
    let mut data = Vec::new();
    data.extend_from_slice(&BSP_VERSION.to_le_bytes());
    let mut cursor = 4 + HEADER_LUMPS * 8;
    for p in payloads {
        data.extend_from_slice(&(cursor as u32).to_le_bytes());
        data.extend_from_slice(&(p.len() as u32).to_le_bytes());
        cursor += p.len();
    }
    for p in payloads {
        data.extend_from_slice(p);
    }
    data
}

#[test]
fn parses_header() {
    let mut data = Vec::new();
    data.extend_from_slice(&BSP_VERSION.to_le_bytes());
    for _ in 0..HEADER_LUMPS {
        data.extend_from_slice(&0u32.to_le_bytes());
        data.extend_from_slice(&0u32.to_le_bytes());
    }

    let bsp = Bsp::from_bytes(data).unwrap();
    assert_eq!(bsp.version, BSP_VERSION);
    assert_eq!(bsp.lumps.len(), HEADER_LUMPS);
}

#[test]
fn bsp_rejects_bad_headers() {
    assert_eq!(Bsp::from_bytes(vec![0; 10]).unwrap_err(), BspError::InvalidHeader);
    let mut data = vec![0u8; 124];
    data[0] = 30;
    assert_eq!(Bsp::from_bytes(data).unwrap_err(), BspError::UnsupportedVersion(30));
    let mut data = bsp_bytes(&vec![Vec::new(); HEADER_LUMPS]);
    data[8..12].copy_from_slice(&1000u32.to_le_bytes());
    let bsp = Bsp::from_bytes(data).unwrap();
    assert_eq!(bsp.lump_slice(0).unwrap_err(), BspError::InvalidLump);
    assert_eq!(bsp.lump_slice(15).unwrap_err(), BspError::InvalidLump);
    let c = block_checksum(b"");
    assert_eq!(bsp.map_checksums().unwrap(), (0, c));
}

#[test]
fn reads_entities_text() {
    let entities = b"{\"classname\" \"worldspawn\"}\n\0";
    let mut data = Vec::new();
    data.extend_from_slice(&BSP_VERSION.to_le_bytes());

    let header_size = 4 + HEADER_LUMPS * 8;
    let entities_offset = header_size as u32;
    let entities_len = entities.len() as u32;

    for i in 0..HEADER_LUMPS {
        if i == LUMP_ENTITIES {
            data.extend_from_slice(&entities_offset.to_le_bytes());
            data.extend_from_slice(&entities_len.to_le_bytes());
        } else {
            data.extend_from_slice(&0u32.to_le_bytes());
            data.extend_from_slice(&0u32.to_le_bytes());
        }
    }

    data.extend_from_slice(entities);

    let bsp = Bsp::from_bytes(data).unwrap();
    let text = bsp.entities_text().unwrap();
    assert_eq!(text, "{\"classname\" \"worldspawn\"}\n");
}

#[test]
fn computes_map_checksums() {
    let mut data = Vec::new();
    data.extend_from_slice(&BSP_VERSION.to_le_bytes());

    let header_size = 4 + HEADER_LUMPS * 8;
    let mut offsets = Vec::with_capacity(HEADER_LUMPS);
    let mut payloads = Vec::with_capacity(HEADER_LUMPS);
    let mut cursor = header_size;

    for i in 0..HEADER_LUMPS {
        let payload = vec![i as u8; 4];
        offsets.push((cursor as u32, payload.len() as u32));
        cursor += payload.len();
        payloads.push(payload);
    }

    for (offset, length) in &offsets {
        data.extend_from_slice(&offset.to_le_bytes());
        data.extend_from_slice(&length.to_le_bytes());
    }

    for payload in &payloads {
        data.extend_from_slice(payload);
    }

    let bsp = Bsp::from_bytes(data).unwrap();
    let (checksum, checksum2) = bsp.map_checksums().unwrap();

    let mut expected = 0u32;
    let mut expected2 = 0u32;
    for i in 0..HEADER_LUMPS {
        if i == LUMP_ENTITIES {
            continue;
        }
        let value = block_checksum(&payloads[i]);
        expected ^= value;
        if i == LUMP_VISIBILITY || i == LUMP_LEAFS || i == LUMP_NODES {
            continue;
        }
        expected2 ^= value;
    }

    assert_eq!(checksum, expected);
    assert_eq!(checksum2, expected2);
}

#[test]
fn loads_palette_bytes() {
    let mut bytes = Vec::new();
    for i in 0..256 {
        bytes.push(i as u8);
        bytes.push(0);
        bytes.push(255u8.saturating_sub(i as u8));
    }

    let palette = Palette::from_bytes(&bytes).unwrap();
    assert_eq!(palette.rgba_for(0, None), [0, 0, 255, 255]);
    assert_eq!(palette.rgba_for(255, None), [255, 0, 0, 255]);
    assert_eq!(palette.rgba_for(7, Some(7)), [0, 0, 0, 0]);
}

#[test]
fn expands_indices_to_rgba() {
    let bytes = [10u8, 20, 30].repeat(256);
    let palette = Palette::from_bytes(&bytes).unwrap();
    let rgba = palette.expand_indices(&[0, 1], None);
    assert_eq!(rgba, vec![10, 20, 30, 255, 10, 20, 30, 255]);
}

#[test]
fn palette_too_short() {
    assert!(Palette::from_bytes(&[0u8; 767]).is_err());
}

fn build_pcx_2x2() -> Vec<u8> {
    let mut data = vec![0u8; 128];
    data[0] = 0x0a;
    data[1] = 5;
    data[2] = 1;
    data[3] = 8;
    data[8..10].copy_from_slice(&1u16.to_le_bytes());
    data[10..12].copy_from_slice(&1u16.to_le_bytes());
    data[65] = 1;
    data[66..68].copy_from_slice(&2u16.to_le_bytes());

    data.extend_from_slice(&[0u8, 1u8, 2u8, 3u8]);

    data.push(0x0c);
    let mut palette = vec![0u8; 768];
    palette[0..3].copy_from_slice(&[10, 20, 30]);
    palette[3..6].copy_from_slice(&[40, 50, 60]);
    palette[6..9].copy_from_slice(&[70, 80, 90]);
    palette[9..12].copy_from_slice(&[100, 110, 120]);
    data.extend_from_slice(&palette);

    data
}

#[test]
fn decodes_indices_and_palette() {
    let bytes = build_pcx_2x2();
    let pcx = PcxImage::from_bytes(&bytes).unwrap();
    assert_eq!(pcx.width, 2);
    assert_eq!(pcx.height, 2);
    assert_eq!(pcx.indices, vec![0, 1, 2, 3]);
    assert!(pcx.palette.is_some());
    let rgba = pcx.expand_rgba(None).unwrap();
    assert_eq!(rgba[0..4], [10, 20, 30, 255]);
    assert_eq!(rgba[4..8], [40, 50, 60, 255]);
}

#[test]
fn pcx_run_length_and_errors() {
    let mut data = vec![0u8; 128];
    data[0] = 0x0a;
    data[2] = 1;
    data[3] = 8;
    data[8..10].copy_from_slice(&2u16.to_le_bytes());
    data[65] = 1;
    data[66..68].copy_from_slice(&4u16.to_le_bytes());
    data.extend_from_slice(&[0xc3, 9, 0xc2, 5]);
    let pcx = PcxImage::from_bytes(&data).unwrap();
    assert_eq!(pcx.width, 3);
    assert_eq!(pcx.height, 1);
    assert_eq!(pcx.indices, vec![9, 9, 9]);
    assert!(pcx.palette.is_none());
    assert_eq!(pcx.expand_rgba(None).unwrap_err(), PcxError::MissingPalette);
    let mut short = data.clone();
    short.truncate(130);
    assert_eq!(PcxImage::from_bytes(&short).unwrap_err(), PcxError::UnexpectedEof);
    let mut bad = data.clone();
    bad[3] = 4;
    assert_eq!(PcxImage::from_bytes(&bad).unwrap_err(), PcxError::UnsupportedFormat);
    assert_eq!(PcxImage::from_bytes(&data[..100]).unwrap_err(), PcxError::InvalidHeader);
}

#[test]
fn expands_sprite_frame_to_rgba() {
    let mut palette_bytes = vec![0u8; 256 * 3];
    palette_bytes[0] = 5;
    palette_bytes[1] = 6;
    palette_bytes[2] = 7;
    let palette = Palette::from_bytes(&palette_bytes).unwrap();
    let image = SpriteImage {
        width: 1,
        height: 1,
        origin: (0, 0),
        pixels: vec![0],
    };
    let rgba = image.expand_rgba(&palette);
    assert_eq!(rgba, vec![5, 6, 7, 255]);
}

#[test]
fn sprite_index_255_is_transparent() {
    let palette = Palette::from_bytes(&[200u8; 768]).unwrap();
    let image = SpriteImage { width: 2, height: 1, origin: (1, -1), pixels: vec![255, 1] };
    assert_eq!(image.expand_rgba(&palette), vec![0, 0, 0, 0, 200, 200, 200, 255]);
}

fn pak_directory(entries: &[(&str, u32, u32)]) -> Vec<u8> {
    let mut dir = Vec::new();
    for (name, offset, length) in entries {
        let mut field = [0u8; 56];
        field[..name.len()].copy_from_slice(name.as_bytes());
        dir.extend_from_slice(&field);
        dir.extend_from_slice(&offset.to_le_bytes());
        dir.extend_from_slice(&length.to_le_bytes());
    }
    dir
}

#[test]
fn pak_header_and_directory() {
    let mut header = Vec::new();
    header.extend_from_slice(b"PACK");
    header.extend_from_slice(&12u32.to_le_bytes());
    header.extend_from_slice(&128u32.to_le_bytes());
    assert_eq!(Pak::parse_header(&header).unwrap(), (12, 128));
    header[8] = 100;
    assert_eq!(Pak::parse_header(&header).unwrap_err(), PakError::InvalidDirectory);
    assert_eq!(Pak::parse_header(b"BAD!00000000").unwrap_err(), PakError::InvalidHeader);

    let dir = pak_directory(&[("SOUND/TEST.WAV", 12, 4), ("test.txt", 16, 5)]);
    let pak = Pak::from_directory("pak0.pak".to_string(), &dir);
    assert_eq!(pak.entries().len(), 2);
    assert_eq!(pak.find("test.txt").unwrap().offset, 16);
    assert!(pak.find("TEST.TXT").is_none());
    assert_eq!(pak.find_case_insensitive("sound/test.wav").unwrap().length, 4);
    assert_eq!(pak.dir_crc(), crc_block(&dir));
    assert_ne!(pak.dir_crc(), 0);
    assert!(!pak.is_stock_pak0());
}

#[test]
fn rejects_unsafe_paths() {
    let fsys = QuakeFs::new();
    assert!(!fsys.contains("../id1/pak0.pak", &[]));
    assert!(!fsys.contains("C:\\id1\\pak0.pak", &[]));
}

#[test]
fn search_order_prefers_latest_pack() {
    assert!(is_safe_relative_path("maps/e1m1.bsp"));
    assert!(!is_safe_relative_path("/etc/passwd"));
    assert!(!is_safe_relative_path("a/../b"));
    assert!(!is_safe_relative_path(""));
    let p0 = Pak::from_directory("pak0.pak".to_string(), &pak_directory(&[("foo.txt", 12, 4)]));
    let p1 = Pak::from_directory("pak1.pak".to_string(), &pak_directory(&[("foo.txt", 40, 4)]));
    let mut fsys = QuakeFs::new();
    assert!(fsys.is_empty());
    fsys.add_game_dir("id1".to_string(), vec![p0, p1]);
    assert_eq!(fsys.search_paths().len(), 3);
    match fsys.find_source("foo.txt", &[false, false, true]).unwrap() {
        Source::Pack(i, entry) => {
            assert_eq!(i, 0);
            assert_eq!(entry.offset, 40);
        }
        Source::Dir(_) => panic!("expected pack"),
    }
    match fsys.find_source("bar.txt", &[false, false, true]).unwrap() {
        Source::Dir(i) => assert_eq!(i, 2),
        Source::Pack(..) => panic!("expected directory"),
    }
    assert!(!fsys.contains("bar.txt", &[false, false, false]));
}

fn wad_bytes(entries: &[(&str, &[u8])]) -> Vec<u8> {
    let mut data = vec![0u8; 12];
    let mut records = Vec::new();
    for (name, bytes) in entries {
        let pos = data.len() as u32;
        data.extend_from_slice(bytes);
        records.push((name, pos, bytes.len() as u32));
    }
    let dir = data.len() as u32;
    for (name, pos, len) in &records {
        data.extend_from_slice(&pos.to_le_bytes());
        data.extend_from_slice(&len.to_le_bytes());
        data.extend_from_slice(&len.to_le_bytes());
        data.push(0x44);
        data.push(0);
        data.extend_from_slice(&[0, 0]);
        let mut field = [0u8; 16];
        field[..name.len()].copy_from_slice(name.as_bytes());
        data.extend_from_slice(&field);
    }
    data[0..4].copy_from_slice(b"WAD2");
    data[4..8].copy_from_slice(&(entries.len() as u32).to_le_bytes());
    data[8..12].copy_from_slice(&dir.to_le_bytes());
    data
}

#[test]
fn wad_reads_entries_from_memory() {
    let wad = Wad::from_bytes(wad_bytes(&[("CONCHARS", b"abcd")])).unwrap();
    assert_eq!(wad.get("conchars").unwrap(), b"abcd");
    assert_eq!(wad.get("CONCHARS").unwrap(), b"abcd");
    assert_eq!(wad.entries()[0].name, "conchars");
    assert_eq!(wad.path(), "<memory>");
    assert_eq!(wad.get("other").unwrap_err(), WadError::EntryNotFound);
    assert_eq!(Wad::from_bytes(b"BAD!".to_vec()).unwrap_err(), WadError::InvalidHeader);
    let mut bad = wad_bytes(&[("X", b"y")]);
    bad[4] = 9;
    assert_eq!(Wad::from_bytes(bad).unwrap_err(), WadError::InvalidDirectory);
}

fn put_i32(buf: &mut Vec<u8>, value: i32) {
    buf.extend_from_slice(&value.to_le_bytes());
}

fn put_u32(buf: &mut Vec<u8>, value: u32) {
    buf.extend_from_slice(&value.to_le_bytes());
}

fn put_f32(buf: &mut Vec<u8>, value: f32) {
    buf.extend_from_slice(&value.to_le_bytes());
}

fn build_minimal_sprite() -> Vec<u8> {
    let mut data = Vec::new();
    put_u32(&mut data, IDSPRITE);
    put_i32(&mut data, SPR_VERSION);
    put_i32(&mut data, 0);
    put_f32(&mut data, 0.0);
    put_i32(&mut data, 2);
    put_i32(&mut data, 1);
    put_i32(&mut data, 1);
    put_f32(&mut data, 0.0);
    put_i32(&mut data, 0);

    put_i32(&mut data, 0);
    put_i32(&mut data, 2);
    put_i32(&mut data, 1);
    put_i32(&mut data, 0);
    put_i32(&mut data, 0);
    data.extend_from_slice(&[0u8, 1u8]);

    data
}

#[test]
fn parses_minimal_sprite() {
    let bytes = build_minimal_sprite();
    let sprite = Sprite::from_bytes(&bytes).unwrap();
    assert_eq!(sprite.header.num_frames, 1);
    match &sprite.frames[0] {
        SpriteFrame::Single(frame) => {
            assert_eq!(frame.width, 2);
            assert_eq!(frame.height, 1);
            assert_eq!(frame.pixels, vec![0, 1]);
        }
        _ => panic!("expected single frame"),
    }
}

#[test]
fn parses_sprite_frame_group() {
    let mut data = Vec::new();
    put_u32(&mut data, IDSPRITE);
    put_i32(&mut data, SPR_VERSION);
    put_i32(&mut data, 2);
    put_f32(&mut data, 8.5);
    put_i32(&mut data, 1);
    put_i32(&mut data, 1);
    put_i32(&mut data, 1);
    put_f32(&mut data, 0.0);
    put_i32(&mut data, 0);
    put_i32(&mut data, 1);
    put_i32(&mut data, 2);
    put_f32(&mut data, 0.1);
    put_f32(&mut data, 0.2);
    for pixel in [3u8, 4u8] {
        put_i32(&mut data, 1);
        put_i32(&mut data, 1);
        put_i32(&mut data, -1);
        put_i32(&mut data, 1);
        data.push(pixel);
    }
    let sprite = Sprite::from_bytes(&data).unwrap();
    assert_eq!(sprite.header.sprite_type, 2);
    assert_eq!(f32::from_bits(sprite.header.bounding_radius), 8.5);
    match &sprite.frames[0] {
        SpriteFrame::Group { intervals, frames } => {
            assert_eq!(intervals, &vec![0.1f32.to_bits(), 0.2f32.to_bits()]);
            assert_eq!(frames.len(), 2);
            assert_eq!(frames[0].origin, (-1, 1));
            assert_eq!(frames[1].pixels, vec![4]);
        }
        _ => panic!("expected group"),
    }
}

#[test]
fn sprite_errors() {
    let mut bytes = build_minimal_sprite();
    bytes[0] = b'X';
    assert!(matches!(Sprite::from_bytes(&bytes), Err(SprError::InvalidHeader)));

    let mut bytes = build_minimal_sprite();
    bytes[4] = 2;
    assert!(matches!(Sprite::from_bytes(&bytes), Err(SprError::UnsupportedVersion(2))));

    let bytes = build_minimal_sprite();
    assert!(matches!(Sprite::from_bytes(&bytes[..bytes.len() - 1]), Err(SprError::UnexpectedEof)));

    let mut bytes = build_minimal_sprite();
    bytes[36] = 5;
    assert!(matches!(Sprite::from_bytes(&bytes), Err(SprError::UnsupportedFrameType(5))));

    let mut bytes = build_minimal_sprite();
    bytes[16..20].copy_from_slice(&(-1i32).to_le_bytes());
    assert!(matches!(Sprite::from_bytes(&bytes), Err(SprError::InvalidData("width"))));
}

fn put_trivertx(buf: &mut Vec<u8>, x: u8, y: u8, z: u8, normal: u8) {
    buf.push(x);
    buf.push(y);
    buf.push(z);
    buf.push(normal);
}

fn build_minimal_mdl() -> Vec<u8> {
    let mut data = Vec::new();
    put_u32(&mut data, IDPOLYHEADER);
    put_i32(&mut data, MDL_VERSION);
    put_f32(&mut data, 1.0);
    put_f32(&mut data, 1.0);
    put_f32(&mut data, 1.0);
    put_f32(&mut data, 0.0);
    put_f32(&mut data, 0.0);
    put_f32(&mut data, 0.0);
    put_f32(&mut data, 10.0);
    put_f32(&mut data, 0.0);
    put_f32(&mut data, 0.0);
    put_f32(&mut data, 0.0);
    put_i32(&mut data, 1);
    put_i32(&mut data, 1);
    put_i32(&mut data, 1);
    put_i32(&mut data, 3);
    put_i32(&mut data, 1);
    put_i32(&mut data, 1);
    put_i32(&mut data, 0);
    put_i32(&mut data, 0);
    put_f32(&mut data, 0.0);

    put_i32(&mut data, 0);
    data.push(0);

    put_i32(&mut data, 1);
    put_i32(&mut data, 0);
    put_i32(&mut data, 1);
    put_i32(&mut data, 2);

    put_i32(&mut data, 0);
    put_trivertx(&mut data, 0, 0, 0, 0);
    put_trivertx(&mut data, 0, 0, 0, 0);
    let mut name = [0u8; 16];
    name[..5].copy_from_slice(b"frame");
    data.extend_from_slice(&name);
    put_trivertx(&mut data, 1, 2, 3, 4);
    put_trivertx(&mut data, 4, 5, 6, 7);
    put_trivertx(&mut data, 7, 8, 9, 10);

    data
}

#[test]
fn parses_minimal_alias_model() {
    let bytes = build_minimal_mdl();
    let model = AliasModel::from_bytes(&bytes).unwrap();
    assert_eq!(model.header.num_verts, 3);
    assert_eq!(model.skins.len(), 1);
    assert_eq!(model.triangles.len(), 1);
    assert_eq!(model.triangles[0].indices, [0, 1, 2]);
    assert!(model.triangles[0].faces_front);
    match &model.frames[0] {
        MdlFrameGroup::Single(frame) => {
            assert_eq!(frame.name, "frame");
            let v = frame.vertices[0];
            let position: Vec<f32> = (0..3)
                .map(|i| {
                    f32::from_bits(model.header.scale[i]) * v.coords[i] as f32
                        + f32::from_bits(model.header.translate[i])
                })
                .collect();
            assert_eq!(position, vec![1.0, 2.0, 3.0]);
            assert_eq!(frame.vertices[1].normal_index, 7);
        }
        _ => panic!("expected single frame"),
    }
}

#[test]
fn expands_skin_to_rgba() {
    let mut palette_bytes = vec![0u8; 256 * 3];
    palette_bytes[0] = 10;
    palette_bytes[1] = 20;
    palette_bytes[2] = 30;
    let palette = Palette::from_bytes(&palette_bytes).unwrap();
    let skin = MdlSkin::Single { width: 1, height: 1, indices: vec![0] };
    let rgba = skin.expand_rgba(&palette);
    assert_eq!(rgba[0], vec![10, 20, 30, 255]);
}

#[test]
fn alias_model_errors() {
    let mut bytes = build_minimal_mdl();
    bytes[0] = 0;
    assert!(matches!(AliasModel::from_bytes(&bytes), Err(MdlError::InvalidHeader)));

    let mut bytes = build_minimal_mdl();
    bytes[4] = 7;
    assert!(matches!(AliasModel::from_bytes(&bytes), Err(MdlError::UnsupportedVersion(7))));

    let bytes = build_minimal_mdl();
    assert!(matches!(AliasModel::from_bytes(&bytes[..bytes.len() - 1]), Err(MdlError::UnexpectedEof)));

    let mut bytes = build_minimal_mdl();
    bytes[84] = 3;
    assert!(matches!(AliasModel::from_bytes(&bytes), Err(MdlError::UnsupportedSkinType(3))));

    let mut bytes = build_minimal_mdl();
    bytes[93..97].copy_from_slice(&70000i32.to_le_bytes());
    assert!(matches!(AliasModel::from_bytes(&bytes), Err(MdlError::InvalidData("triangle index out of range"))));

    let mut bytes = build_minimal_mdl();
    bytes[105] = 9;
    assert!(matches!(AliasModel::from_bytes(&bytes), Err(MdlError::UnsupportedFrameType(9))));

    let mut bytes = build_minimal_mdl();
    bytes[60..64].copy_from_slice(&(-3i32).to_le_bytes());
    assert!(matches!(AliasModel::from_bytes(&bytes), Err(MdlError::InvalidData("num_verts"))));
}

#[test]
fn parses_texture_names() {
    let mut lumps = vec![Vec::new(); HEADER_LUMPS];
    let mut textures = Vec::new();

    textures.extend_from_slice(&1i32.to_le_bytes());
    textures.extend_from_slice(&8i32.to_le_bytes());

    let mut name = [0u8; 16];
    name[..4].copy_from_slice(b"WALL");
    textures.extend_from_slice(&name);
    textures.extend_from_slice(&64u32.to_le_bytes());
    textures.extend_from_slice(&32u32.to_le_bytes());
    textures.extend_from_slice(&0u32.to_le_bytes());
    textures.extend_from_slice(&0u32.to_le_bytes());
    textures.extend_from_slice(&0u32.to_le_bytes());
    textures.extend_from_slice(&0u32.to_le_bytes());

    lumps[LUMP_TEXTURES] = textures;

    let data = bsp_bytes(&lumps);
    let bsp = Bsp::from_bytes(data).unwrap();
    let render = BspRender::from_bsp(&bsp).unwrap();

    assert_eq!(render.textures.len(), 1);
    assert_eq!(render.textures[0].name, "wall");
    assert_eq!(render.textures[0].width, 64);
    assert_eq!(render.textures[0].height, 32);
}

fn bits3(x: f32, y: f32, z: f32) -> [u32; 3] {
    [x.to_bits(), y.to_bits(), z.to_bits()]
}

#[test]
fn builds_face_vertices() {
    let render = BspRender {
        vertices: vec![bits3(0.0, 0.0, 0.0), bits3(1.0, 0.0, 0.0), bits3(1.0, 1.0, 0.0), bits3(0.0, 1.0, 0.0)],
        edges: vec![[0, 1], [1, 2], [2, 3], [3, 0]],
        surf_edges: vec![0, 1, 2, 3],
        texinfo: vec![TexInfo {
            s_vec: bits3(1.0, 0.0, 0.0),
            s_offset: 0.0f32.to_bits(),
            t_vec: bits3(0.0, 1.0, 0.0),
            t_offset: 0.0f32.to_bits(),
            texture_id: 0,
            flags: 0,
        }],
        faces: vec![Face { plane_num: 0, side: 0, first_edge: 0, num_edges: 4, texinfo: 0, styles: [0; 4], light_ofs: 0 }],
        textures: Vec::new(),
        lighting: Vec::new(),
    };

    let verts = render.face_vertices(0).unwrap();
    assert_eq!(verts.len(), 4);
    assert_eq!(verts[0], bits3(0.0, 0.0, 0.0));
    assert_eq!(verts[2], bits3(1.0, 1.0, 0.0));
    let info = render.texinfo[0];
    let dot = |p: [u32; 3], v: [u32; 3]| (0..3).map(|i| f32::from_bits(p[i]) * f32::from_bits(v[i])).sum::<f32>();
    let tex = [
        dot(verts[3], info.s_vec) + f32::from_bits(info.s_offset),
        dot(verts[3], info.t_vec) + f32::from_bits(info.t_offset),
    ];
    assert_eq!(tex, [0.0, 1.0]);
}

#[test]
fn face_vertices_follow_reversed_edges_and_refuse_missing_ones() {
    let mut render = BspRender {
        vertices: vec![bits3(0.0, 0.0, 0.0), bits3(2.0, 0.0, 0.0), bits3(2.0, 2.0, 0.0)],
        edges: vec![[0, 0], [0, 1], [1, 2], [2, 0]],
        surf_edges: vec![1, -2, 3],
        texinfo: vec![TexInfo { s_vec: [0; 3], s_offset: 0, t_vec: [0; 3], t_offset: 0, texture_id: 0, flags: 0 }],
        faces: vec![Face { plane_num: 0, side: 0, first_edge: 0, num_edges: 3, texinfo: 0, styles: [0; 4], light_ofs: 0 }],
        textures: Vec::new(),
        lighting: Vec::new(),
    };
    let verts = render.face_vertices(0).unwrap();
    assert_eq!(verts, vec![bits3(0.0, 0.0, 0.0), bits3(2.0, 2.0, 0.0), bits3(2.0, 2.0, 0.0)]);
    assert!(render.face_vertices(1).is_none());
    render.surf_edges[1] = -9;
    assert!(render.face_vertices(0).is_none());
    render.faces[0].texinfo = 5;
    assert!(render.face_vertices(0).is_none());
}

#[test]
fn render_lumps_must_hold_whole_records() {
    let mut lumps = vec![Vec::new(); HEADER_LUMPS];
    lumps[lib::bsp::LUMP_VERTEXES] = vec![0u8; 13];
    let bsp = Bsp::from_bytes(bsp_bytes(&lumps)).unwrap();
    assert!(matches!(BspRender::from_bsp(&bsp), Err(BspError::InvalidLump)));
}

fn leaf_record(contents: i32) -> Vec<u8> {
    let mut leaf = Vec::new();
    put_i32(&mut leaf, contents);
    put_i32(&mut leaf, 0);
    leaf.extend_from_slice(&[0u8; 20]);
    leaf
}

fn collision_lumps(node_children: (i16, i16)) -> Vec<Vec<u8>> {
    let mut lumps = vec![Vec::new(); HEADER_LUMPS];
    let mut planes = Vec::new();
    put_f32(&mut planes, 1.0);
    put_f32(&mut planes, 0.0);
    put_f32(&mut planes, 0.0);
    put_f32(&mut planes, 64.0);
    put_i32(&mut planes, 0);
    lumps[LUMP_PLANES] = planes;

    let mut clipnodes = Vec::new();
    put_i32(&mut clipnodes, 0);
    clipnodes.extend_from_slice(&(CONTENTS_SOLID as i16).to_le_bytes());
    clipnodes.extend_from_slice(&(CONTENTS_EMPTY as i16).to_le_bytes());
    lumps[LUMP_CLIPNODES] = clipnodes;

    let mut nodes = Vec::new();
    put_i32(&mut nodes, 0);
    nodes.extend_from_slice(&node_children.0.to_le_bytes());
    nodes.extend_from_slice(&node_children.1.to_le_bytes());
    nodes.extend_from_slice(&[0u8; 16]);
    lumps[LUMP_NODES] = nodes;

    let mut leafs = leaf_record(CONTENTS_SOLID);
    leafs.extend_from_slice(&leaf_record(CONTENTS_EMPTY));
    lumps[LUMP_LEAFS] = leafs;

    let mut models = Vec::new();
    for _ in 0..9 {
        put_f32(&mut models, 0.0);
    }
    for _ in 0..MAX_MAP_HULLS {
        put_i32(&mut models, 0);
    }
    put_i32(&mut models, 0);
    put_i32(&mut models, 0);
    put_i32(&mut models, 0);
    lumps[LUMP_MODELS] = models;
    lumps
}

#[test]
fn parses_collision_lumps() {
    let data = bsp_bytes(&collision_lumps((-1, -2)));
    let bsp = Bsp::from_bytes(data).unwrap();
    let collision = BspCollision::from_bsp(&bsp).unwrap();

    assert_eq!(collision.planes.len(), 1);
    assert_eq!(collision.clipnodes.len(), 1);
    assert_eq!(collision.hull0_clipnodes.len(), 1);
    assert_eq!(collision.models.len(), 1);

    let hull0 = collision.hull(0, 0).unwrap();
    assert_eq!(hull0.clipnodes[0].children, [CONTENTS_SOLID, CONTENTS_EMPTY]);
    let hull1 = collision.hull(0, 1).unwrap();
    assert_eq!(hull1.clip_mins, [(-16.0f32).to_bits(), (-16.0f32).to_bits(), (-24.0f32).to_bits()]);
    assert_eq!(hull1.clip_maxs, [16.0f32.to_bits(), 16.0f32.to_bits(), 32.0f32.to_bits()]);
}

#[test]
fn collision_planes_and_hull_limits() {
    let mut lumps = collision_lumps((-1, -2));
    let mut planes = Vec::new();
    put_f32(&mut planes, -1.0);
    put_f32(&mut planes, -0.0);
    put_f32(&mut planes, -0.5);
    put_f32(&mut planes, 8.0);
    put_i32(&mut planes, 3);
    lumps[LUMP_PLANES] = planes;
    let bsp = Bsp::from_bytes(bsp_bytes(&lumps)).unwrap();
    let collision = BspCollision::from_bsp(&bsp).unwrap();
    assert_eq!(collision.planes[0].signbits, 1 | 4);
    assert_eq!(collision.planes[0].plane_type, 3);
    assert_eq!(collision.planes[0].dist, 8.0f32.to_bits());
    let hull2 = collision.hull(0, 2).unwrap();
    assert_eq!(hull2.clip_maxs, [32.0f32.to_bits(), 32.0f32.to_bits(), 64.0f32.to_bits()]);
    assert_eq!(hull2.lastclipnode, 0);
    assert!(collision.hull(0, 3).is_none());
    assert!(collision.hull(1, 0).is_none());
}

#[test]
fn collision_rejects_missing_leaf_and_ragged_lumps() {
    let bsp = Bsp::from_bytes(bsp_bytes(&collision_lumps((-1, -3)))).unwrap();
    assert!(matches!(BspCollision::from_bsp(&bsp), Err(BspError::InvalidLump)));
    let mut lumps = collision_lumps((-1, -2));
    lumps[LUMP_CLIPNODES].push(0);
    let bsp = Bsp::from_bytes(bsp_bytes(&lumps)).unwrap();
    assert!(matches!(BspCollision::from_bsp(&bsp), Err(BspError::InvalidLump)));
    let bsp = Bsp::from_bytes(bsp_bytes(&collision_lumps((5, -1)))).unwrap();
    let collision = BspCollision::from_bsp(&bsp).unwrap();
    assert_eq!(collision.hull0_clipnodes[0].children, [5, CONTENTS_SOLID]);
}
