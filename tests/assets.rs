use bn_content::json::Json;
use bn_content::numbers::{as_i64, as_u64};
use bn_content::palette::{extract_first_id, find_palette_in_json, parse_palette_json};
use bn_content::settings::{
    game_path_info, has_bn_binary, is_skipped_mod_dir, sort_mods, sort_tilesets, AvailableModInfo, GamePathProbe,
};
use bn_content::terrain::{collect_furniture_types, collect_terrain_types, extract_name, extract_terrain_from_json};
use bn_content::tileset::encode_tileset_image;
use bn_content::tileset::{
    build_tileset_config, convert_global_to_local, extract_first_sprite_index, get_png_dimensions,
    tileset_sheet_files, SpriteSheetRange, TilesetInfo,
};
use bn_content::workspace::PackMetadata;

fn j(text: &str) -> Json {
    Json::from_text(text).unwrap()
}

fn png(width: u32, height: u32) -> Vec<u8> {
    let mut b = vec![0x89, b'P', b'N', b'G', b'\r', b'\n', 0x1a, b'\n', 0, 0, 0, 13, b'I', b'H', b'D', b'R'];
    b.extend_from_slice(&width.to_be_bytes());
    b.extend_from_slice(&height.to_be_bytes());
    b
}

#[test]
fn png_header_dimensions() {
    assert_eq!(get_png_dimensions(&png(320, 64)).unwrap(), (320, 64));
    assert_eq!(get_png_dimensions(&png(70000, 1)).unwrap(), (70000, 1));
    assert!(get_png_dimensions(&vec![0u8; 10]).is_err());
    let mut bad = png(1, 1);
    bad[1] = b'X';
    assert!(get_png_dimensions(&bad).is_err());
}

#[test]
fn json_integers() {
    assert_eq!(as_u64(&j("32")), Some(32));
    assert_eq!(as_u64(&j("-1")), None);
    assert_eq!(as_u64(&j("1.5")), None);
    assert_eq!(as_u64(&j("18446744073709551615")), Some(u64::MAX));
    assert_eq!(as_i64(&j("-9223372036854775808")), Some(i64::MIN));
    assert_eq!(as_i64(&j("9223372036854775808")), None);
    assert_eq!(as_i64(&j("\"5\"")), None);
}

#[test]
fn first_sprite_index_forms() {
    assert_eq!(extract_first_sprite_index(Some(&j("7"))), Some(7));
    assert_eq!(extract_first_sprite_index(Some(&j("[4, 5, 6, 7]"))), Some(4));
    assert_eq!(extract_first_sprite_index(Some(&j(r#"[{"weight": 2, "sprite": 9}]"#))), Some(9));
    assert_eq!(extract_first_sprite_index(Some(&j("[]"))), None);
    assert_eq!(extract_first_sprite_index(Some(&j("\"x\""))), None);
    assert_eq!(extract_first_sprite_index(None), None);
}

fn range(file: &str, start: i32, end: i32) -> SpriteSheetRange {
    SpriteSheetRange { file: file.to_string(), start_index: start, end_index: end, sprite_width: 32, sprite_height: 32 }
}

#[test]
fn global_index_to_local() {
    let ranges = vec![range("a.png", 0, 10), range("b.png", 10, 25)];
    assert_eq!(convert_global_to_local(Some(3), &ranges), (Some(3), Some("a.png".to_string())));
    assert_eq!(convert_global_to_local(Some(12), &ranges), (Some(2), Some("b.png".to_string())));
    assert_eq!(convert_global_to_local(Some(25), &ranges), (None, None));
    assert_eq!(convert_global_to_local(Some(-1), &ranges), (None, None));
    assert_eq!(convert_global_to_local(None, &ranges), (None, None));
}

const CONFIG: &str = r#"{
  "tile_info": [{"width": 16, "height": 16}],
  "tiles-new": [
    {"file": "a.png", "tiles": [{"id": "t_floor", "fg": 3}, {"id": ["t_wall", "t_wall_b"], "fg": [1, 2], "bg": 5}]},
    {"file": "b.png", "sprite_width": 32, "sprite_height": 32, "sprite_offset_x": -8,
     "tiles": [{"id": "f_chair", "fg": [{"weight": 1, "sprite": 10}]}, {"id": "t_floor", "bg": 11}, {"fg": 1}]}
  ]
}"#;

#[test]
fn tileset_configuration() {
    let files = tileset_sheet_files(CONFIG).unwrap();
    assert_eq!(files, vec!["a.png".to_string(), "b.png".to_string()]);
    let images = vec![Some((64, 32)), Some((64, 64))];
    let c = build_tileset_config("set", CONFIG, &images).unwrap();
    assert_eq!(c.name, "set");
    assert_eq!((c.tile_width, c.tile_height), (16, 16));
    assert_eq!(c.sprite_sheets.len(), 2);
    assert_eq!(c.sprite_sheets[0].sprite_width, 16);
    assert_eq!(c.sprite_sheets[1].sprite_width, 32);
    assert_eq!(c.sprite_sheets[1].sprite_offset_x, -8);
    let find = |id: &str| c.mappings.iter().find(|m| m.id == id).unwrap().clone();
    assert_eq!(c.mappings.len(), 4);
    let wall = find("t_wall_b");
    assert_eq!((wall.fg, wall.bg, wall.file.as_str()), (Some(1), Some(5), "a.png"));
    let chair = find("f_chair");
    assert_eq!((chair.fg, chair.file.as_str()), (Some(2), "b.png"));
    let floor = find("t_floor");
    assert_eq!((floor.fg, floor.bg, floor.file.as_str()), (None, Some(3), "b.png"));
    assert!(build_tileset_config("set", "{}", &images).is_err());
    assert!(build_tileset_config("set", "{", &images).is_err());
}

#[test]
fn palette_parsing() {
    assert_eq!(extract_first_id(&j("\"t_floor\"")), Some("t_floor".to_string()));
    assert_eq!(extract_first_id(&j(r#"["t_a", "t_b"]"#)), Some("t_a".to_string()));
    assert_eq!(extract_first_id(&j(r#"[["t_w", 2], "t_b"]"#)), Some("t_w".to_string()));
    assert_eq!(extract_first_id(&j("3")), None);
    let pal = j(r#"{"type": "palette", "id": "p", "terrain": {"b": "t_b", "a": ["t_a"]},
        "furniture": {"a": "f_a", "c": [["f_c", 1]]}, "palettes": ["other", 1]}"#);
    let data = parse_palette_json(&pal, "p").unwrap();
    let symbols: Vec<&str> = data.mappings.iter().map(|m| m.symbol.as_str()).collect();
    assert_eq!(symbols, vec!["a", "b", "c"]);
    assert_eq!(data.mappings[0].terrain, Some("t_a".to_string()));
    assert_eq!(data.mappings[0].furniture, Some("f_a".to_string()));
    assert_eq!(data.mappings[2].terrain, None);
    assert_eq!(data.mappings[2].furniture, Some("f_c".to_string()));
    assert_eq!(data.includes, vec!["other".to_string()]);
    assert!(parse_palette_json(&j("[]"), "p").is_err());
}

#[test]
fn palette_search() {
    let doc = j(r#"[{"type": "terrain", "id": "p"}, [{"type": "palette", "id": "q"}, {"type": "palette", "id": "p", "n": 1}], {"type": "palette", "id": "p", "n": 2}]"#);
    let found = find_palette_in_json(&doc, "p").unwrap();
    assert_eq!(found.get("n").map(|n| matches!(n, Json::Number(t) if t == "1")), Some(true));
    assert!(find_palette_in_json(&doc, "zz").is_none());
}

#[test]
fn terrain_and_furniture_listing() {
    let texts = vec![
        r##"[{"type": "terrain", "id": "t_b", "name": {"str": "B"}, "symbol": "#", "color": "red"},
            {"type": "terrain", "id": "t_a"}, {"type": "furniture", "id": "f_x"}]"##.to_string(),
        "not json".to_string(),
        r#"[[{"type": "terrain", "id": "t_a", "name": "second"}]]"#.to_string(),
    ];
    let t = collect_terrain_types(&texts);
    let ids: Vec<&str> = t.iter().map(|x| x.id.as_str()).collect();
    assert_eq!(ids, vec!["t_a", "t_b"]);
    assert_eq!(t[0].name, "t_a");
    assert_eq!(t[0].symbol, ".");
    assert_eq!(t[0].color, "white");
    assert_eq!(t[1].name, "B");
    let f = collect_furniture_types(&texts);
    assert_eq!(f.len(), 1);
    assert_eq!(f[0].symbol, "#");
    let mut out = Vec::new();
    extract_terrain_from_json(&j(r#"{"type": "terrain", "id": "t"}"#), &mut out);
    assert_eq!(out.len(), 1);
    assert_eq!(extract_name(Some(&j("\"N\""))), Some("N".to_string()));
    assert_eq!(extract_name(None), None);
}

fn probe() -> GamePathProbe {
    GamePathProbe {
        exists: true,
        has_data_json: true,
        has_bundle_data_json: false,
        has_repo_marker: false,
        root_files: vec!["readme.txt".to_string(), "cataclysm-tiles".to_string()],
        bundle_resource_files: vec![],
        has_bundle_binary: false,
    }
}

#[test]
fn game_path_classification() {
    assert!(has_bn_binary(&vec!["cataclysm-bn.exe".to_string()]));
    assert!(!has_bn_binary(&vec!["cataclysm".to_string()]));
    let info = game_path_info("/g", &probe()).unwrap();
    assert_eq!(info.path_type, "installed");
    assert!(info.is_bn_root);
    let mut p = probe();
    p.has_repo_marker = true;
    p.root_files.clear();
    assert_eq!(game_path_info("/g", &p).unwrap().path_type, "repository");
    let mut p = probe();
    p.has_data_json = false;
    p.has_bundle_data_json = true;
    p.has_bundle_binary = true;
    let info = game_path_info("/G.app", &p).unwrap();
    assert_eq!(info.path_type, "macos_app");
    assert_eq!(info.data_path, "/G.app/Contents/Resources");
    assert!(info.is_bn_root);
    p.has_bundle_data_json = false;
    assert!(game_path_info("/G.app", &p).is_err());
    p.exists = false;
    assert!(game_path_info("/G.app", &p).is_err());
}

fn meta(id: Option<&str>) -> PackMetadata {
    PackMetadata {
        mod_id: id.map(|s| s.to_string()),
        mod_type: None,
        dependencies: vec![],
        description: None,
        version: None,
        lua_api_version: None,
        authors: vec![],
        category: None,
    }
}

#[test]
fn mod_and_tileset_ordering() {
    assert!(is_skipped_mod_dir("bn"));
    assert!(!is_skipped_mod_dir("bnx"));
    let mods = vec![
        AvailableModInfo { path: "/m/z".to_string(), metadata: meta(Some("zeta")) },
        AvailableModInfo { path: "/m/n".to_string(), metadata: meta(None) },
        AvailableModInfo { path: "/m/a".to_string(), metadata: meta(Some("alpha")) },
    ];
    let sorted = sort_mods(mods);
    let paths: Vec<&str> = sorted.iter().map(|m| m.path.as_str()).collect();
    assert_eq!(paths, vec!["/m/n", "/m/a", "/m/z"]);
    let sets = vec![
        TilesetInfo { name: "b".to_string(), path: "b".to_string() },
        TilesetInfo { name: "a".to_string(), path: "a".to_string() },
    ];
    let names: Vec<String> = sort_tilesets(sets).into_iter().map(|t| t.name).collect();
    assert_eq!(names, vec!["a".to_string(), "b".to_string()]);
}

#[test]
fn tileset_image_as_base64() {
    assert_eq!(encode_tileset_image(&vec![]), "");
    assert_eq!(encode_tileset_image(&b"Man".to_vec()), "TWFu");
    assert_eq!(encode_tileset_image(&b"Ma".to_vec()), "TWE=");
    assert_eq!(encode_tileset_image(&vec![0xfb, 0xff]), "+/8=");
}

#[test]
fn builders_succeed_on_well_formed_input() {
    assert!(build_tileset_config("s", r#"{"tile_info": []}"#, &vec![]).is_err());
    let c = build_tileset_config("s", r#"{"tile_info": [{}]}"#, &vec![]).unwrap();
    assert_eq!((c.tile_width, c.tile_height), (32, 32));
    assert!(c.sprite_sheets.is_empty() && c.mappings.is_empty());
    let p = parse_palette_json(&j("{}"), "p").unwrap();
    assert!(p.mappings.is_empty() && p.includes.is_empty());
    let p = parse_palette_json(&j(r#"{"terrain": {"x": "t_1", "x": "t_2"}}"#), "p").unwrap();
    assert_eq!(p.mappings[0].terrain, Some("t_2".to_string()));
}
