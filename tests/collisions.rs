use bn_content::commands::{get_entity, update_entity, add_pack, Workspace};
use bn_content::loader::{load_content_pack, FileText, PackFile};

fn file(relative: &str, content: &str) -> PackFile {
    PackFile {
        path: format!("/pack/{}", relative),
        relative: relative.to_string(),
        content: Ok(content.to_string()),
    }
}

#[test]
fn colliding_ids_get_distinct_storage_keys() {
    let files = vec![
        file("a.json", r#"[{"type": "MONSTER", "id": "mon_x", "hp": 1}]"#),
        file("monsters/b.json", r#"[{"type": "MONSTER", "id": "mon_x", "hp": 2}]"#),
    ];
    let (result, pack) = load_content_pack(
        "/pack", Some("pack"), false, None, false, &FileText::Missing, &FileText::Missing, &files,
    );
    assert_eq!(result.load_stats.entities_loaded, 2);
    let keys: Vec<String> = pack.entities.iter().map(|(k, _)| k.clone()).collect();
    assert_eq!(keys, vec!["MONSTER:mon_x".to_string(), "MONSTER:mon_x@b".to_string()]);
    let id = pack.id;
    let mut ws = Workspace::new();
    add_pack(&mut ws, pack);
    assert!(get_entity(&ws, id, "MONSTER:mon_x").is_ok());
    assert!(get_entity(&ws, id, "MONSTER:mon_x@b").is_ok());
    let r = update_entity(&mut ws, id, "MONSTER:mon_x@b", r#"{"type": "MONSTER", "id": "mon_x", "hp": 3}"#).unwrap();
    assert!(r.accepted);
    assert_eq!(r.new_key, None);
    let first = get_entity(&ws, id, "MONSTER:mon_x").unwrap();
    let second = get_entity(&ws, id, "MONSTER:mon_x@b").unwrap();
    assert!(!first.dirty);
    assert!(second.dirty);
    assert!(second.json_text.contains("\"hp\": 3"));
}

#[test]
fn each_load_gets_a_fresh_id() {
    let (a, _) = load_content_pack("/p", None, false, None, false, &FileText::Missing, &FileText::Missing, &vec![]);
    let (b, _) = load_content_pack("/p", None, false, None, false, &FileText::Missing, &FileText::Missing, &vec![]);
    assert_ne!(a.pack_id, b.pack_id);
}

#[test]
fn two_files_same_stem_in_different_dirs() {
    let files = vec![
        file("a/x.json", r#"[{"type": "T", "id": "k"}]"#),
        file("b/x.json", r#"[{"type": "T", "id": "k"}]"#),
        file("c/x.json", r#"[{"type": "T", "id": "k"}]"#),
    ];
    let (_, pack) = load_content_pack("/pack", None, false, None, false, &FileText::Missing, &FileText::Missing, &files);
    let keys: Vec<&str> = pack.entities.iter().map(|(k, _)| k.as_str()).collect();
    assert_eq!(keys, vec!["T:k", "T:k@x", "T:k@x_1"]);
}
