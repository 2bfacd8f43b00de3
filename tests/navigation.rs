use bn_content::commands::{add_pack, Workspace};
use bn_content::loader::{load_content_pack, FileText, PackFile};
use bn_content::search::search_entities;

fn pack_files() -> Vec<PackFile> {
    vec![
        PackFile {
            path: "/p/b.json".to_string(),
            relative: "b.json".to_string(),
            content: Ok(r#"[{"type": "ITEM", "id": "zz_rock", "name": "Rock"},
                            {"type": "ITEM", "id": "apple", "name": "Big Apple"},
                            {"type": "MONSTER", "id": "mon_rock"}]"#.to_string()),
        },
        PackFile {
            path: "/p/a.json".to_string(),
            relative: "a.json".to_string(),
            content: Ok(r#"[{"type": "ITEM", "id": "ROCK"}, {"type": "ITEM", "id": "pebble", "name": "a rock"}]"#.to_string()),
        },
    ]
}

#[test]
fn tree_groups_sorted() {
    let (result, _) = load_content_pack("/p", Some("p"), false, None, false, &FileText::Missing, &FileText::Missing, &pack_files());
    let tree = result.entity_tree;
    let items = tree.by_type.iter().find(|(t, _)| t == "ITEM").unwrap();
    let names: Vec<String> = items.1.iter().map(|s| s.display_name.clone().unwrap_or(s.id.clone())).collect();
    assert_eq!(names, vec!["Big Apple", "ROCK", "Rock", "a rock"]);
    let b = tree.by_file.iter().find(|(f, _)| f == "b.json").unwrap();
    let idx: Vec<usize> = b.1.iter().map(|s| s.array_index).collect();
    assert_eq!(idx, vec![0, 1, 2]);
    assert_eq!(tree.by_type.len(), 2);
    assert_eq!(tree.by_file.len(), 2);
}

#[test]
fn search_ranks_exact_first() {
    let (_, pack) = load_content_pack("/p", Some("p"), false, None, false, &FileText::Missing, &FileText::Missing, &pack_files());
    let id = pack.id;
    let mut ws = Workspace::new();
    add_pack(&mut ws, pack);
    let r = search_entities(&ws, "rock", &None, &None);
    let keys: Vec<&str> = r.iter().map(|x| x.entity_key.as_str()).collect();
    assert_eq!(keys, vec!["ITEM:ROCK", "ITEM:zz_rock", "ITEM:pebble", "MONSTER:mon_rock"]);
    assert_eq!(r[0].pack_id, id);
    assert_eq!(r[0].pack_name, "p");
    let only_monsters = search_entities(&ws, "ROCK", &Some(vec!["MONSTER".to_string()]), &None);
    assert_eq!(only_monsters.len(), 1);
    assert!(search_entities(&ws, "rock", &None, &Some(vec![id + 1])).is_empty());
    assert!(search_entities(&ws, "nothing", &None, &None).is_empty());
}

#[test]
fn search_caps_results() {
    let mut text = String::from("[");
    for i in 0..150 {
        if i > 0 {
            text.push(',');
        }
        text.push_str(&format!(r#"{{"type": "ITEM", "id": "item_{:03}"}}"#, i));
    }
    text.push(']');
    let files = vec![PackFile { path: "/p/i.json".to_string(), relative: "i.json".to_string(), content: Ok(text) }];
    let (_, pack) = load_content_pack("/p", None, false, None, false, &FileText::Missing, &FileText::Missing, &files);
    let mut ws = Workspace::new();
    add_pack(&mut ws, pack);
    let r = search_entities(&ws, "item", &None, &None);
    assert_eq!(r.len(), 100);
    assert_eq!(r[0].entity_id, "item_000");
    assert_eq!(r[99].entity_id, "item_099");
}
