use bn_content::commands::find_loaded_palette;
use bn_content::commands::{
    add_pack, close_pack, get_entity, get_workspace_state, mark_file_saved, reload_pack, save_plan,
    update_entity, Workspace,
};
use bn_content::json::{Json, Member};
use bn_content::loader::{load_content_pack, load_entities_from_file, FileText, PackFile};
use bn_content::printer::serialize_with_priority_fields;
use bn_content::save::patch_file_text;
use bn_content::workspace::{ContentPack, WorkspaceError};

fn file(relative: &str, content: &str) -> PackFile {
    PackFile {
        path: format!("/pack/{}", relative),
        relative: relative.to_string(),
        content: Ok(content.to_string()),
    }
}

fn load(files: &Vec<PackFile>, read_only: bool) -> (Workspace, u128) {
    let (_, pack) = load_content_pack(
        "/pack", Some("pack"), read_only, None, false, &FileText::Missing, &FileText::Missing, files,
    );
    let id = pack.id;
    let mut ws = Workspace::new();
    add_pack(&mut ws, pack);
    (ws, id)
}

const MONSTERS: &str = r#"[
  {"type": "MONSTER", "id": "mon_x", "name": "X", "hp": 10},
  {"type": "MONSTER", "id": "mon_z", "hp": 20}
]"#;

#[test]
fn clean_pack_has_nothing_to_save() {
    let (ws, id) = load(&vec![file("monsters.json", MONSTERS)], false);
    let plan = save_plan(&ws, id).unwrap();
    assert!(plan.is_empty());
}

#[test]
fn whitespace_only_edit_round_trips_through_save() {
    let (mut ws, id) = load(&vec![file("monsters.json", MONSTERS)], false);
    let text = "{ \"type\":\"MONSTER\",\n\n  \"id\":   \"mon_z\", \"hp\": 20 }";
    let r = update_entity(&mut ws, id, "MONSTER:mon_z", text).unwrap();
    assert!(r.accepted);
    let plan = save_plan(&ws, id).unwrap();
    assert_eq!(plan.len(), 1);
    assert_eq!(plan[0].file, "monsters.json");
    let (written, saved) = patch_file_text(MONSTERS, &plan[0].edits).unwrap();
    assert_eq!(saved, 1);
    let reread = load_entities_from_file("/pack/monsters.json", "monsters.json", &written).unwrap();
    assert_eq!(reread.len(), 2);
    let submitted = Json::from_text(text).unwrap();
    assert_eq!(
        serialize_with_priority_fields(&reread[1].json),
        serialize_with_priority_fields(&submitted)
    );
    assert_eq!(reread[1].meta.id, "mon_z");
    assert_eq!(reread[1].meta.entity_type, "MONSTER");
    assert_eq!(reread[0].meta.display_name, Some("X".to_string()));
}

#[test]
fn read_only_pack_refuses_edits_and_saves() {
    let (mut ws, id) = load(&vec![file("monsters.json", MONSTERS)], true);
    let before = get_entity(&ws, id, "MONSTER:mon_x").unwrap();
    let r = update_entity(&mut ws, id, "MONSTER:mon_x", r#"{"type": "MONSTER", "id": "mon_x", "hp": 1}"#);
    assert!(matches!(r, Err(WorkspaceError::ReadOnly)));
    let r = update_entity(&mut ws, id, "MONSTER:mon_x", "{ broken");
    assert!(matches!(r, Err(WorkspaceError::ReadOnly)));
    assert!(matches!(save_plan(&ws, id), Err(WorkspaceError::ReadOnly)));
    let after = get_entity(&ws, id, "MONSTER:mon_x").unwrap();
    assert_eq!(before.json_text, after.json_text);
    assert!(!after.dirty);
}

#[test]
fn changing_the_id_rekeys_the_record() {
    let (mut ws, id) = load(&vec![file("monsters.json", MONSTERS)], false);
    let r = update_entity(&mut ws, id, "MONSTER:mon_x", r#"{"type": "MONSTER", "id": "mon_y", "hp": 10}"#).unwrap();
    assert!(r.accepted);
    assert_eq!(r.new_key, Some("MONSTER:mon_y".to_string()));
    assert!(matches!(get_entity(&ws, id, "MONSTER:mon_x"), Err(WorkspaceError::EntityNotFound(_))));
    let moved = get_entity(&ws, id, "MONSTER:mon_y").unwrap();
    assert!(moved.dirty);
    assert_eq!(moved.source_file, "monsters.json");
}

#[test]
fn rename_onto_a_taken_key_is_suffixed() {
    let (mut ws, id) = load(&vec![file("monsters.json", MONSTERS)], false);
    let r = update_entity(&mut ws, id, "MONSTER:mon_x", r#"{"type": "MONSTER", "id": "mon_z"}"#).unwrap();
    assert_eq!(r.new_key, Some("MONSTER:mon_z@monsters".to_string()));
    assert!(get_entity(&ws, id, "MONSTER:mon_z").is_ok());
    assert!(get_entity(&ws, id, "MONSTER:mon_z@monsters").is_ok());
}

#[test]
fn slot_beyond_the_end_is_skipped() {
    let edits = vec![
        (0usize, Json::from_text(r#"{"type": "MONSTER", "id": "a"}"#).unwrap()),
        (5usize, Json::from_text(r#"{"type": "MONSTER", "id": "b"}"#).unwrap()),
    ];
    let (text, saved) = patch_file_text(r#"[{"type": "MONSTER", "id": "old"}]"#, &edits).unwrap();
    assert_eq!(saved, 1);
    assert_eq!(text, "[\n  {\n    \"type\": \"MONSTER\",\n    \"id\": \"a\"\n  }\n]");
}

#[test]
fn patch_refuses_a_file_that_is_no_array() {
    assert!(patch_file_text(r#"{"a": 1}"#, &vec![]).is_err());
    assert!(patch_file_text("[1,", &vec![]).is_err());
}

fn member(key: &str, value: Json) -> Member {
    Member { key: key.to_string(), value }
}

#[test]
fn priority_fields_come_first() {
    let obj = Json::Object(vec![
        member("description", Json::Str("d".to_string())),
        member("id", Json::Str("x".to_string())),
        member("type", Json::Str("MONSTER".to_string())),
        member("name", Json::Str("Y".to_string())),
    ]);
    assert_eq!(
        serialize_with_priority_fields(&obj),
        "{\n  \"type\": \"MONSTER\",\n  \"id\": \"x\",\n  \"name\": \"Y\",\n  \"description\": \"d\"\n}"
    );
}

#[test]
fn printer_formats_scalars_and_empty_containers() {
    let v = Json::from_text(r#"{"a": [], "b": {}, "c": null, "d": true, "e": -1.5, "f": "q\"t", "g": [1, false]}"#).unwrap();
    assert_eq!(
        serialize_with_priority_fields(&v),
        "{\n  \"a\": [],\n  \"b\": {},\n  \"c\": null,\n  \"d\": true,\n  \"e\": -1.5,\n  \"f\": \"q\\\"t\",\n  \"g\": [\n    1,\n    false\n  ]\n}"
    );
}

#[test]
fn invalid_text_changes_nothing() {
    let (mut ws, id) = load(&vec![file("monsters.json", MONSTERS)], false);
    let before = get_entity(&ws, id, "MONSTER:mon_x").unwrap();
    let r = update_entity(&mut ws, id, "MONSTER:mon_x", "{\"type\": \"MONSTER\", \"id\": ").unwrap();
    assert!(!r.accepted);
    assert!(!r.validation.valid);
    assert_eq!(r.validation.errors[0].code, "INVALID_JSON");
    assert_eq!(r.new_key, None);
    let after = get_entity(&ws, id, "MONSTER:mon_x").unwrap();
    assert_eq!(before.json_text, after.json_text);
    assert!(!after.dirty);
    assert!(save_plan(&ws, id).unwrap().is_empty());
}

#[test]
fn valid_text_without_type_string_is_an_error() {
    let (mut ws, id) = load(&vec![file("monsters.json", MONSTERS)], false);
    let r = update_entity(&mut ws, id, "MONSTER:mon_x", r#"{"type": 5, "id": "mon_x"}"#);
    assert!(matches!(r, Err(WorkspaceError::NoMetadata)));
}

#[test]
fn unknown_pack_and_key_are_not_found() {
    let (mut ws, id) = load(&vec![file("monsters.json", MONSTERS)], false);
    assert!(matches!(get_entity(&ws, id + 1, "MONSTER:mon_x"), Err(WorkspaceError::PackNotFound(_))));
    let r = update_entity(&mut ws, id, "MONSTER:nope", r#"{"type": "MONSTER", "id": "nope"}"#);
    assert!(matches!(r, Err(WorkspaceError::EntityNotFound(k)) if k == "MONSTER:nope"));
}

#[test]
fn dirty_pack_cannot_close_without_force() {
    let (mut ws, id) = load(&vec![file("monsters.json", MONSTERS)], false);
    update_entity(&mut ws, id, "MONSTER:mon_x", r#"{"type": "MONSTER", "id": "mon_x", "hp": 11}"#).unwrap();
    assert!(matches!(close_pack(&mut ws, id, false), Err(WorkspaceError::UnsavedFiles(1))));
    assert_eq!(get_workspace_state(&ws).packs.len(), 1);
    assert!(close_pack(&mut ws, id, true).is_ok());
    assert_eq!(get_workspace_state(&ws).load_order.len(), 0);
}

#[test]
fn saving_a_file_clears_its_records() {
    let files = vec![file("monsters.json", MONSTERS), file("other.json", r#"[{"type": "ITEM", "id": "rock"}]"#)];
    let (mut ws, id) = load(&files, false);
    update_entity(&mut ws, id, "MONSTER:mon_x", r#"{"type": "MONSTER", "id": "mon_x", "hp": 11}"#).unwrap();
    update_entity(&mut ws, id, "MONSTER:mon_z", r#"{"type": "MONSTER", "id": "mon_z", "hp": 21}"#).unwrap();
    update_entity(&mut ws, id, "ITEM:rock", r#"{"type": "ITEM", "id": "rock", "weight": 3}"#).unwrap();
    let plan = save_plan(&ws, id).unwrap();
    assert_eq!(plan.len(), 2);
    assert_eq!(plan[0].file, "monsters.json");
    assert_eq!(plan[0].edits.len(), 2);
    assert_eq!(plan[1].file, "other.json");
    mark_file_saved(&mut ws, id, &"monsters.json".to_string()).unwrap();
    assert!(!get_entity(&ws, id, "MONSTER:mon_x").unwrap().dirty);
    assert!(get_entity(&ws, id, "ITEM:rock").unwrap().dirty);
    let state = get_workspace_state(&ws);
    assert!(state.packs[0].has_dirty_files);
    mark_file_saved(&mut ws, id, &"other.json".to_string()).unwrap();
    assert!(!get_workspace_state(&ws).packs[0].has_dirty_files);
}

#[test]
fn reload_keeps_id_and_place() {
    let (mut ws, id) = load(&vec![file("monsters.json", MONSTERS)], false);
    let (_, second) = load_content_pack(
        "/other", Some("other"), false, None, false, &FileText::Missing, &FileText::Missing, &vec![],
    );
    let second_id = second.id;
    add_pack(&mut ws, second);
    let fresh: ContentPack = load_content_pack(
        "/pack", Some("pack"), false, None, false, &FileText::Missing, &FileText::Missing,
        &vec![file("monsters.json", r#"[{"type": "MONSTER", "id": "mon_q"}]"#)],
    ).1;
    reload_pack(&mut ws, id, fresh).unwrap();
    let state = get_workspace_state(&ws);
    assert_eq!(state.load_order, vec![id, second_id]);
    assert!(get_entity(&ws, id, "MONSTER:mon_q").is_ok());
    assert!(get_entity(&ws, id, "MONSTER:mon_x").is_err());
}

#[test]
fn edit_keeping_type_and_id_keeps_a_suffixed_key() {
    let files = vec![
        file("a.json", r#"[{"type": "MONSTER", "id": "mon_x"}]"#),
        file("b.json", r#"[{"type": "MONSTER", "id": "mon_x"}]"#),
    ];
    let (mut ws, id) = load(&files, false);
    let r = update_entity(&mut ws, id, "MONSTER:mon_x", r#"{"type": "MONSTER", "id": "mon_w"}"#).unwrap();
    assert_eq!(r.new_key, Some("MONSTER:mon_w".to_string()));
    let r = update_entity(&mut ws, id, "MONSTER:mon_x@b", r#"{"type": "MONSTER", "id": "mon_x", "hp": 5, "speed": 1}"#).unwrap();
    assert!(r.accepted);
    assert_eq!(r.new_key, None);
    assert!(get_entity(&ws, id, "MONSTER:mon_x").is_err());
    let kept = get_entity(&ws, id, "MONSTER:mon_x@b").unwrap();
    assert!(kept.dirty);
    assert_eq!(kept.source_file, "b.json");
}

#[test]
fn loaded_palette_is_found_in_load_order() {
    let (ws, _) = load(&vec![file("p.json", r#"[{"type": "palette", "id": "pal", "terrain": {"a": "t_a"}}]"#)], false);
    assert!(find_loaded_palette(&ws, "pal").is_some());
    assert!(find_loaded_palette(&ws, "other").is_none());
}
