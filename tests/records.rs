use bn_content::entity::{Entity, EntityMeta};
use bn_content::json::Json;
use bn_content::keys::{file_stem_of, make_unique_key};
use bn_content::loader::{
    create_pack_from_result, detect_pack_name, is_entity_file, is_excluded_dir, load_content_pack, load_entities_from_file,
    load_pack_metadata, load_pack_metadata_for_base_game, FileText, LoadError, PackFile,
};

fn meta(text: &str) -> Option<EntityMeta> {
    EntityMeta::from_json(&Json::from_text(text).unwrap())
}

#[test]
fn recipe_id_from_result_and_suffix() {
    let m = meta(r#"{"type": "recipe", "result": "knife", "id_suffix": "steel"}"#).unwrap();
    assert_eq!(m.id, "knife_steel");
    let m = meta(r#"{"type": "uncraft", "result": "knife"}"#).unwrap();
    assert_eq!(m.id, "knife");
    let m = meta(r#"{"type": "recipe", "id": "r1", "result": "knife"}"#).unwrap();
    assert_eq!(m.id, "r1");
    assert_eq!(m.references.len(), 1);
    assert_eq!(m.references[0].field_path, "result");
    assert_eq!(m.references[0].target_id, "knife");
    assert!(meta(r#"{"type": "recipe", "category": "x"}"#).is_none());
}

#[test]
fn mapgen_id_forms() {
    assert_eq!(meta(r#"{"type": "mapgen", "om_terrain": "house"}"#).unwrap().id, "house");
    assert_eq!(meta(r#"{"type": "mapgen", "om_terrain": ["a", "b"]}"#).unwrap().id, "a");
    assert_eq!(meta(r#"{"type": "mapgen", "om_terrain": [["n", "e"], ["s"]]}"#).unwrap().id, "n");
    assert_eq!(meta(r#"{"type": "mapgen", "nested_mapgen_id": "nest"}"#).unwrap().id, "nest");
    assert_eq!(meta(r#"{"type": "mapgen", "om_terrain": 5, "id": "fallback"}"#).unwrap().id, "fallback");
    assert!(meta(r#"{"type": "mapgen"}"#).is_none());
}

#[test]
fn abstract_and_plain_ids() {
    let m = meta(r#"{"type": "MONSTER", "abstract": "mon_base", "id": "ignored"}"#).unwrap();
    assert_eq!(m.id, "mon_base");
    assert_eq!(meta(r#"{"type": "palette", "id": "pal"}"#).unwrap().id, "pal");
    assert!(meta(r#"{"type": "GENERIC"}"#).is_none());
    assert!(meta(r#"{"id": "x"}"#).is_none());
    assert!(meta(r#"["type"]"#).is_none());
}

#[test]
fn display_name_and_copy_from() {
    let m = meta(r#"{"type": "GENERIC", "id": "a", "name": {"str": "Apple"}, "copy-from": "base"}"#).unwrap();
    assert_eq!(m.display_name, Some("Apple".to_string()));
    assert_eq!(m.copy_from, Some("base".to_string()));
    assert_eq!(m.references[0].field_path, "copy-from");
    assert_eq!(m.references[0].expected_type, Some("GENERIC".to_string()));
    let m = meta(r#"{"type": "GENERIC", "id": "a", "name": 3}"#).unwrap();
    assert_eq!(m.display_name, None);
}

#[test]
fn entity_key_is_type_and_id() {
    let e = Entity::from_json(Json::from_text(r#"{"type": "ITEM", "id": "rock"}"#).unwrap(), "a.json".to_string(), 4).unwrap();
    assert_eq!(e.key(), "ITEM:rock");
    assert_eq!(e.array_index, 4);
    assert!(!e.dirty);
    let d = e.to_data(true);
    assert_eq!(d.key, "ITEM:rock");
    assert!(d.read_only);
    assert_eq!(d.json_text, "{\n  \"type\": \"ITEM\",\n  \"id\": \"rock\"\n}");
}

#[test]
fn file_records_skip_comments_and_keep_indices() {
    let text = r#"[{"comment": "x"}, 7, {"type": "ITEM", "id": "a"}, {"type": "ITEM"}, {"type": "ITEM", "id": "b"}]"#;
    let v = load_entities_from_file("/p/items.json", "items.json", text).unwrap();
    assert_eq!(v.len(), 2);
    assert_eq!(v[0].array_index, 2);
    assert_eq!(v[1].array_index, 4);
    assert_eq!(v[1].source_file, "items.json");
}

#[test]
fn file_that_is_no_array_is_a_parse_error() {
    match load_entities_from_file("/p/x.json", "x.json", r#"{"type": "ITEM"}"#) {
        Err(LoadError::ParseError { path, message }) => {
            assert_eq!(path, "/p/x.json");
            assert_eq!(message, "Expected JSON array at root");
        }
        _ => panic!("expected a parse error"),
    }
    assert!(matches!(load_entities_from_file("/p/x.json", "x.json", "[1,"), Err(LoadError::ParseError { .. })));
}

#[test]
fn broken_files_are_recorded_and_others_load() {
    let files = vec![
        PackFile { path: "/p/bad.json".to_string(), relative: "bad.json".to_string(), content: Ok("{".to_string()) },
        PackFile { path: "/p/gone.json".to_string(), relative: "gone.json".to_string(), content: Err("denied".to_string()) },
        PackFile { path: "/p/ok.json".to_string(), relative: "ok.json".to_string(), content: Ok(r#"[{"type": "ITEM", "id": "a"}]"#.to_string()) },
    ];
    let (result, pack) = load_content_pack("/p", Some("p"), false, None, false, &FileText::Missing, &FileText::Missing, &files);
    assert_eq!(result.load_stats.files_scanned, 3);
    assert_eq!(result.load_stats.entities_loaded, 1);
    assert_eq!(result.load_stats.errors.len(), 2);
    assert_eq!(result.load_stats.errors[1], "/p/gone.json: IO error reading /p/gone.json: denied");
    assert!(result.load_stats.errors[0].starts_with("/p/bad.json: Parse error in /p/bad.json: "));
    assert_eq!(pack.entities.len(), 1);
    assert_eq!(result.name, "p");
}

#[test]
fn repeated_collisions_in_one_file_count_up() {
    let text = r#"[{"type": "T", "id": "x"}, {"type": "T", "id": "x"}, {"type": "T", "id": "x"}, {"type": "T", "id": "x"}]"#;
    let files = vec![PackFile { path: "/p/d/f.json".to_string(), relative: "d/f.json".to_string(), content: Ok(text.to_string()) }];
    let (_, pack) = load_content_pack("/p", None, false, None, false, &FileText::Missing, &FileText::Missing, &files);
    let keys: Vec<&str> = pack.entities.iter().map(|(k, _)| k.as_str()).collect();
    assert_eq!(keys, vec!["T:x", "T:x@f", "T:x@f_1", "T:x@f_2"]);
    assert_eq!(pack.name, "Unknown Pack");
}

#[test]
fn unique_key_counts_past_ten() {
    let mut taken = Vec::new();
    taken.push(("k@f".to_string(), Entity::from_json(Json::from_text(r#"{"type": "T", "id": "x"}"#).unwrap(), "f.json".to_string(), 0).unwrap()));
    for n in 1..=10 {
        taken.push((format!("k@f_{}", n), Entity::from_json(Json::from_text(r#"{"type": "T", "id": "x"}"#).unwrap(), "f.json".to_string(), n).unwrap()));
    }
    assert_eq!(make_unique_key("k", "dir/f.json", &taken), "k@f_11");
}

#[test]
fn file_stems() {
    assert_eq!(file_stem_of("a/b/monsters.json"), "monsters");
    assert_eq!(file_stem_of("archive.tar.json"), "archive.tar");
    assert_eq!(file_stem_of(".hidden"), ".hidden");
    assert_eq!(file_stem_of("noext"), "noext");
    assert_eq!(file_stem_of(""), "unknown");
}

#[test]
fn walk_filters() {
    assert!(is_entity_file("items.json"));
    assert!(!is_entity_file("modinfo.json"));
    assert!(!is_entity_file("notes.txt"));
    assert!(!is_entity_file(".json"));
    let ex = vec!["tests".to_string(), "build".to_string()];
    assert!(is_excluded_dir("build", &ex));
    assert!(!is_excluded_dir("data", &ex));
}

#[test]
fn manifest_metadata() {
    let text = r#"[{"id": "mymod", "type": "SUPPLEMENTAL", "name": "My Mod", "authors": "Ann",
        "dependencies": ["bn", 3], "version": "1.0", "category": "content", "lua_api_version": "2"}]"#;
    let m = load_pack_metadata(&FileText::Text(text.to_string())).unwrap();
    assert_eq!(m.mod_id, Some("mymod".to_string()));
    assert_eq!(m.mod_type, Some("SUPPLEMENTAL".to_string()));
    assert_eq!(m.authors, vec!["Ann".to_string()]);
    assert_eq!(m.dependencies, vec!["bn".to_string()]);
    assert_eq!(m.lua_api_version, Some("2".to_string()));
    let m = load_pack_metadata(&FileText::Text(r#"{"authors": ["A", "B"]}"#.to_string())).unwrap();
    assert_eq!(m.authors, vec!["A".to_string(), "B".to_string()]);
    assert!(load_pack_metadata(&FileText::Text("[]".to_string())).is_none());
    assert!(load_pack_metadata(&FileText::Missing).is_none());
    assert!(load_pack_metadata(&FileText::Unreadable("x".to_string())).is_none());
}

#[test]
fn base_game_falls_back_to_bundled_manifest() {
    let bundled = FileText::Text(r#"{"id": "bn", "type": "CORE"}"#.to_string());
    let m = load_pack_metadata_for_base_game(&FileText::Missing, &bundled).unwrap();
    assert_eq!(m.mod_id, Some("bn".to_string()));
    let root = FileText::Text(r#"{"id": "root"}"#.to_string());
    assert_eq!(load_pack_metadata_for_base_game(&root, &bundled).unwrap().mod_id, Some("root".to_string()));
    assert!(load_pack_metadata_for_base_game(&FileText::Unreadable("e".to_string()), &bundled).is_none());
}

#[test]
fn pack_name_resolution() {
    let manifest = FileText::Text(r#"[{"name": "Named"}]"#.to_string());
    assert_eq!(detect_pack_name(&manifest, Some("dir")), "Named");
    assert_eq!(detect_pack_name(&FileText::Text("{}".to_string()), Some("dir")), "dir");
    assert_eq!(detect_pack_name(&FileText::Missing, None), "Unknown Pack");
    let (r, _) = load_content_pack("/p", Some("dir"), false, Some("Given".to_string()), false, &manifest, &FileText::Missing, &vec![]);
    assert_eq!(r.name, "Given");
}

#[test]
fn editor_text_keeps_key_order() {
    let e = Entity::from_json(
        Json::from_text(r#"{"id": "rock", "type": "ITEM", "tags": [], "w": {"a": 1}}"#).unwrap(),
        "a.json".to_string(),
        0,
    )
    .unwrap();
    assert_eq!(
        e.to_data(false).json_text,
        "{\n  \"id\": \"rock\",\n  \"type\": \"ITEM\",\n  \"tags\": [],\n  \"w\": {\n    \"a\": 1\n  }\n}"
    );
}

#[test]
fn pack_rebuilt_from_result_holds_the_records() {
    let files = vec![
        PackFile { path: "/p/a.json".to_string(), relative: "a.json".to_string(), content: Ok(r#"[{"type": "MONSTER", "id": "mon_x"}]"#.to_string()) },
        PackFile { path: "/p/d/b.json".to_string(), relative: "d/b.json".to_string(), content: Ok(r#"[{"type": "MONSTER", "id": "mon_x"}]"#.to_string()) },
    ];
    let (result, _) = load_content_pack("/p", Some("p"), true, None, false, &FileText::Missing, &FileText::Missing, &files);
    let pack = create_pack_from_result(&result, "/p", true, None, false, &FileText::Missing, &FileText::Missing, &files);
    assert_eq!(pack.id, result.pack_id);
    let keys: Vec<&str> = pack.entities.iter().map(|(k, _)| k.as_str()).collect();
    assert_eq!(keys, vec!["MONSTER:mon_x", "MONSTER:mon_x@b"]);
    assert_eq!(pack.entities[0].1.source_file, "a.json");
    assert_eq!(pack.entities[1].1.source_file, "d/b.json");
    assert_eq!(pack.entities[1].1.array_index, 0);
    assert!(pack.read_only);
}
