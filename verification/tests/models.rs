use lib::mdl::{IDPOLYHEADER, MDL_VERSION};
use lib::model_cache::{wants_model_file, ModelCache, ModelCacheError, ModelKind};
use lib::palette::Palette;
use lib::bsp_render::{BspRender, BspTexture, Face, TexInfo};
use lib::render::{
    is_transparent_texture_name, texture_index_for_face, texture_name_for_face, triangulate_fan, model_kind_from_name, rgba_from_palette, rgba_from_rgb, RenderEntityKind, RendererConfig, UiLayer,
};
use lib::sound::sound_name_for;
use lib::spr::{IDSPRITE, SPR_VERSION};
use lib::vfs::FsError;
use lib::client::{console_step, is_safe_download_path, ConsoleStep};
use lib::input::{map_key_action, Action, Key};
use lib::downloads::{download_command, model_download_candidates, next_download, skin_download_candidates, sound_download_candidates};
use lib::info::InfoString;
use lib::protocol::MAX_INFO_STRING;
use lib::state::PlayerInfo;

fn word_i32(data: &mut Vec<u8>, v: i32) {
    data.extend_from_slice(&v.to_le_bytes());
}

fn word_f32(data: &mut Vec<u8>, v: f32) {
    data.extend_from_slice(&v.to_le_bytes());
}

fn sprite_file() -> Vec<u8> {
    let mut data = Vec::new();
    data.extend_from_slice(&IDSPRITE.to_le_bytes());
    word_i32(&mut data, SPR_VERSION);
    word_i32(&mut data, 0);
    word_f32(&mut data, 0.0);
    word_i32(&mut data, 2);
    word_i32(&mut data, 1);
    word_i32(&mut data, 1);
    word_f32(&mut data, 0.0);
    word_i32(&mut data, 0);
    word_i32(&mut data, 0);
    word_i32(&mut data, 2);
    word_i32(&mut data, 1);
    word_i32(&mut data, 0);
    word_i32(&mut data, 0);
    data.extend_from_slice(&[1u8, 255u8]);
    data
}

fn alias_file() -> Vec<u8> {
    let mut data = Vec::new();
    data.extend_from_slice(&IDPOLYHEADER.to_le_bytes());
    word_i32(&mut data, MDL_VERSION);
    for v in [1.0f32, 1.0, 1.0, 0.0, 0.0, 0.0, 10.0, 0.0, 0.0, 0.0] {
        word_f32(&mut data, v);
    }
    for v in [1, 1, 1, 3, 1, 1, 0, 0] {
        word_i32(&mut data, v);
    }
    word_f32(&mut data, 0.0);
    word_i32(&mut data, 0);
    data.push(2);
    for v in [1, 0, 1, 2] {
        word_i32(&mut data, v);
    }
    word_i32(&mut data, 0);
    data.extend_from_slice(&[0u8; 8]);
    let mut name = [0u8; 16];
    name[..5].copy_from_slice(b"frame");
    data.extend_from_slice(&name);
    data.extend_from_slice(&[0u8; 12]);
    data
}

fn grey_palette() -> Palette {
    let mut bytes = Vec::new();
    for i in 0..256u32 {
        let v = i as u8;
        bytes.extend_from_slice(&[v, v / 2, 7]);
    }
    Palette::from_bytes(&bytes).unwrap()
}

#[test]
fn renderer_config_defaults_to_720p() {
    let config = RendererConfig::default();
    assert_eq!((config.width, config.height, config.vsync), (1280, 720, true));
    assert!(UiLayer::default().texts.is_empty());
}

#[test]
fn model_kind_follows_name() {
    assert_eq!(model_kind_from_name("*3"), RenderEntityKind::Brush);
    assert_eq!(model_kind_from_name("progs/s_light.SPR"), RenderEntityKind::Sprite);
    assert_eq!(model_kind_from_name("progs/player.mdl"), RenderEntityKind::Alias);
    assert_eq!(model_kind_from_name("spr"), RenderEntityKind::Alias);
}

#[test]
fn rgba_helpers_replace_alpha() {
    let palette = grey_palette();
    assert_eq!(rgba_from_palette(Some(&palette), 10, 128), [10, 5, 7, 128]);
    assert_eq!(rgba_from_palette(Some(&palette), 255, 9), [255, 127, 7, 9]);
    assert_eq!(rgba_from_palette(None, 10, 64), [255, 255, 255, 64]);
    assert_eq!(rgba_from_rgb([1, 2, 3], 4), [1, 2, 3, 4]);
}

#[test]
fn sound_names_skip_missing_and_empty() {
    let names = vec![String::new(), "misc/foo.wav".to_string(), String::new()];
    assert_eq!(sound_name_for(&names, 1), Some("misc/foo.wav"));
    assert_eq!(sound_name_for(&names, 0), None);
    assert_eq!(sound_name_for(&names, 2), None);
    assert_eq!(sound_name_for(&names, 3), None);
}

#[test]
fn download_paths_stay_inside() {
    assert!(is_safe_download_path("sound/misc/foo.wav"));
    assert!(!is_safe_download_path("../foo.wav"));
    assert!(!is_safe_download_path("/etc/passwd"));
    assert!(!is_safe_download_path("c:foo"));
    assert!(!is_safe_download_path(""));
}

#[test]
fn model_files_wanted_by_extension() {
    assert!(wants_model_file("progs/player.mdl"));
    assert!(wants_model_file("progs/flame.SPR"));
    assert!(wants_model_file("maps/b_bh10.bsp"));
    assert!(!wants_model_file("*1"));
    assert!(!wants_model_file(""));
    assert!(!wants_model_file("progs/noext"));
    assert!(!wants_model_file("progs/.hidden"));
    assert!(!wants_model_file("progs/a.mdl/.."));
    assert!(wants_model_file("progs/a.mdl/"));
}

#[test]
fn model_cache_loads_models_and_sprites() {
    let palette = grey_palette();
    let names = vec![
        String::new(),
        "*1".to_string(),
        "progs/player.MDL".to_string(),
        "progs/flame.spr".to_string(),
        "maps/b_bh10.bsp".to_string(),
        "progs/missing.mdl".to_string(),
    ];
    let files = vec![
        None,
        None,
        Some(Ok(alias_file())),
        Some(Ok(sprite_file())),
        Some(Ok(vec![1, 2, 3])),
        Some(Err(FsError::NotFound)),
    ];
    let mut cache = ModelCache::new();
    cache.load(Some(&palette), &names, &files).unwrap();
    let models = cache.models();
    assert_eq!(models.len(), 6);
    assert!(models[0].is_none() && models[1].is_none() && models[4].is_none() && models[5].is_none());
    let alias = models[2].as_ref().unwrap();
    assert!(matches!(alias.kind, ModelKind::Alias(_)));
    assert_eq!(alias.textures.len(), 1);
    assert_eq!(alias.textures[0].rgba, vec![2, 1, 7, 255]);
    let sprite = models[3].as_ref().unwrap();
    assert!(matches!(sprite.kind, ModelKind::Sprite(_)));
    assert_eq!((sprite.textures[0].width, sprite.textures[0].height), (2, 1));
    assert_eq!(sprite.textures[0].rgba, vec![1, 0, 7, 255, 0, 0, 0, 0]);

    cache.load(None, &names, &files).unwrap();
    assert!(cache.models()[2].as_ref().unwrap().textures.is_empty());
    cache.clear();
    assert!(cache.models().is_empty());
}

#[test]
fn model_cache_stops_at_first_failure() {
    let names = vec!["progs/a.mdl".to_string(), "progs/b.wav".to_string(), "progs/c.mdl".to_string()];
    let files = vec![Some(Ok(alias_file())), Some(Ok(vec![0])), Some(Ok(vec![0]))];
    let mut cache = ModelCache::new();
    match cache.load(None, &names, &files) {
        Err(ModelCacheError::UnsupportedFormat(name)) => assert_eq!(name, "progs/b.wav"),
        other => panic!("unexpected {:?}", other),
    }
    assert_eq!(cache.models().len(), 3);
    assert!(cache.models()[0].is_some());
    assert!(cache.models()[2].is_none());

    let names = vec!["progs/a.mdl".to_string(), "progs/c.spr".to_string()];
    let files = vec![Some(Err(FsError::InvalidPath)), Some(Ok(vec![0]))];
    assert!(matches!(cache.load(None, &names, &files), Err(ModelCacheError::Fs(FsError::InvalidPath))));
    let files = vec![Some(Ok(vec![0])), None];
    assert!(matches!(cache.load(None, &names, &files), Err(ModelCacheError::Mdl(_))));
    let files = vec![Some(Ok(alias_file())), Some(Ok(vec![0]))];
    assert!(matches!(cache.load(None, &names, &files), Err(ModelCacheError::Spr(_))));
}

#[test]
fn maps_press_to_plus_command() {
    let cmd = map_key_action(Key::Up, Action::Press).unwrap();
    assert_eq!(cmd, "+forward");
}

#[test]
fn maps_release_to_minus_command() {
    let cmd = map_key_action(Key::Space, Action::Release).unwrap();
    assert_eq!(cmd, "-jump");
}

#[test]
fn ignores_repeat() {
    assert!(map_key_action(Key::Up, Action::Repeat).is_none());
}

#[test]
fn unbound_keys_give_nothing() {
    assert!(map_key_action(Key::Other, Action::Press).is_none());
    assert_eq!(map_key_action(Key::Left, Action::Press).unwrap(), "+moveleft");
    assert_eq!(map_key_action(Key::Right, Action::Release).unwrap(), "-moveright");
    assert_eq!(map_key_action(Key::Down, Action::Press).unwrap(), "+back");
}

#[test]
fn download_candidates_follow_lists() {
    let sounds = vec![String::new(), "misc/foo.wav".to_string(), "weapons/ax1.wav".to_string()];
    assert_eq!(sound_download_candidates(&sounds), vec!["sound/misc/foo.wav", "sound/weapons/ax1.wav"]);
    let models = vec![String::new(), "maps/start.bsp".to_string(), "*1".to_string(), "progs/player.mdl".to_string()];
    assert_eq!(model_download_candidates(&models), vec!["maps/start.bsp", "progs/player.mdl"]);
}

#[test]
fn skin_candidates_come_from_userinfo() {
    let mut first = PlayerInfo::new();
    first.userinfo = InfoString::from_raw("\\name\\unit\\skin\\ base.pcx ", MAX_INFO_STRING);
    let mut second = PlayerInfo::new();
    second.userinfo = InfoString::from_raw("\\name\\other", MAX_INFO_STRING);
    let mut third = PlayerInfo::new();
    third.userinfo = InfoString::from_raw("\\skin\\.pcx", MAX_INFO_STRING);
    let mut fourth = PlayerInfo::new();
    fourth.userinfo = InfoString::from_raw("\\skin\\cyber", MAX_INFO_STRING);
    assert_eq!(skin_download_candidates(&[first, second, third, fourth]), vec!["skins/base.pcx", "skins/cyber.pcx"]);
}

#[test]
fn next_download_skips_unsafe_names() {
    let mut queue = vec!["../evil.wav".to_string(), "sound/ok.wav".to_string(), "skins/b.pcx".to_string()];
    assert_eq!(next_download(&mut queue), Some("sound/ok.wav".to_string()));
    assert_eq!(queue, vec!["skins/b.pcx".to_string()]);
    assert_eq!(next_download(&mut queue), Some("skins/b.pcx".to_string()));
    assert_eq!(next_download(&mut queue), None);
    let mut bad = vec!["/abs".to_string()];
    assert_eq!(next_download(&mut bad), None);
    assert!(bad.is_empty());
    assert_eq!(download_command("sound/ok.wav"), "download sound/ok.wav");
}

fn small_world() -> BspRender {
    let texinfo = |texture_id: i32| TexInfo {
        s_vec: [0; 3],
        s_offset: 0,
        t_vec: [0; 3],
        t_offset: 0,
        texture_id,
        flags: 0,
    };
    BspRender {
        vertices: Vec::new(),
        edges: Vec::new(),
        surf_edges: Vec::new(),
        texinfo: vec![texinfo(0), texinfo(1), texinfo(-1), texinfo(7)],
        faces: Vec::new(),
        textures: vec![
            BspTexture { name: "wall".to_string(), width: 64, height: 64, offsets: [0; 4] },
            BspTexture { name: String::new(), width: 0, height: 0, offsets: [0; 4] },
        ],
        lighting: Vec::new(),
    }
}

fn face_with(texinfo: u16) -> Face {
    Face { plane_num: 0, side: 0, first_edge: 0, num_edges: 3, texinfo, styles: [0; 4], light_ofs: -1 }
}

#[test]
fn fan_triangles_share_first_corner() {
    assert_eq!(triangulate_fan(5), vec![0, 1, 2, 0, 2, 3, 0, 3, 4]);
    assert_eq!(triangulate_fan(3), vec![0, 1, 2]);
    assert!(triangulate_fan(2).is_empty());
    assert!(is_transparent_texture_name("{water"));
    assert!(!is_transparent_texture_name("wall"));
}

#[test]
fn face_texture_lookups() {
    let world = small_world();
    let map = vec![Some(3), None];
    assert_eq!(texture_name_for_face(&world, &face_with(0)), Some("wall".to_string()));
    assert_eq!(texture_index_for_face(&world, &face_with(0), &map), Some(3));
    assert_eq!(texture_name_for_face(&world, &face_with(1)), None);
    assert_eq!(texture_index_for_face(&world, &face_with(1), &map), None);
    assert_eq!(texture_name_for_face(&world, &face_with(2)), None);
    assert_eq!(texture_name_for_face(&world, &face_with(3)), None);
    assert_eq!(texture_index_for_face(&world, &face_with(3), &map), None);
    assert_eq!(texture_name_for_face(&world, &face_with(9)), None);
}

#[test]
fn console_lines_quit_send_or_wait() {
    assert_eq!(console_step("QUIT", true), ConsoleStep::Quit);
    assert_eq!(console_step("exit", false), ConsoleStep::Quit);
    assert_eq!(console_step("say hi", true), ConsoleStep::Send("say hi".to_string()));
    assert_eq!(console_step("say hi", false), ConsoleStep::Queue("say hi".to_string()));
}

#[test]
fn info_setters_stay_within_limit_and_keep_other_keys() {
    let mut info = InfoString::new(24);
    info.set("name", "unit").unwrap();
    info.set("team", "RED").unwrap();
    assert!(info.set("skin", "a_very_long_skin_name").is_err());
    assert!(info.as_str().len() <= 24);
    assert_eq!(info.as_str(), "\\name\\unit\\team\\red");
    info.set("name", "x").unwrap();
    assert_eq!(lib::info::value_for_key(info.as_str(), "team"), Some("red".to_string()));
    assert_eq!(lib::info::value_for_key(info.as_str(), "name"), Some("x".to_string()));
    info.remove("team");
    assert!(info.as_str().len() <= 24);
    assert_eq!(info.as_str(), "\\name\\x");
}

#[test]
fn entity_lump_does_not_change_map_checksums() {
    let build = |entities: &[u8]| {
        let mut payloads: Vec<Vec<u8>> = (0..15u8).map(|i| vec![i; 4]).collect();
        payloads[0] = entities.to_vec();
        let mut data = Vec::new();
        data.extend_from_slice(&29i32.to_le_bytes());
        let mut cursor = 4 + 15 * 8;
        for p in &payloads {
            data.extend_from_slice(&(cursor as u32).to_le_bytes());
            data.extend_from_slice(&(p.len() as u32).to_le_bytes());
            cursor += p.len();
        }
        for p in &payloads {
            data.extend_from_slice(p);
        }
        lib::bsp::Bsp::from_bytes(data).unwrap().map_checksums().unwrap()
    };
    assert_eq!(build(b"{}"), build(b"{ \"classname\" \"worldspawn\" }"));
}
