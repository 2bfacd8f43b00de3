use bn_content::json::Json;
use bn_content::validation::{ValidationError, ValidationResult};
use bn_content::validator::{extract_line_from_error, extract_meta, validate_entity_json, validate_json_text, validate_update};

fn codes(r: &ValidationResult) -> (Vec<String>, Vec<String>) {
    (
        r.errors.iter().map(|e| e.code.clone()).collect(),
        r.warnings.iter().map(|w| w.code.clone()).collect(),
    )
}

#[test]
fn syntax_error_reports_line() {
    let r = validate_json_text("{\n  \"type\": \"ITEM\",\n  \"id\": \n}");
    assert!(!r.valid);
    assert_eq!(r.errors.len(), 1);
    assert_eq!(r.errors[0].code, "INVALID_JSON");
    assert!(r.errors[0].message.starts_with("Invalid JSON syntax: "));
    assert_eq!(r.errors[0].line, Some(4));
}

#[test]
fn line_is_read_from_message() {
    assert_eq!(extract_line_from_error("expected value at line 12 column 3"), Some(12));
    assert_eq!(extract_line_from_error("EOF while parsing at line 7"), None);
    assert_eq!(extract_line_from_error("no position"), None);
    assert_eq!(extract_line_from_error("at line x7 column 1"), None);
    assert_eq!(extract_line_from_error("at line +5 col"), Some(5));
    assert_eq!(extract_line_from_error("at line 99999999999999999999999 col"), None);
}

#[test]
fn structural_errors() {
    let r = validate_entity_json(&Json::from_text("[1]").unwrap());
    assert_eq!(codes(&r).0, vec!["NOT_OBJECT".to_string()]);
    let r = validate_json_text(r#"{"name": "x"}"#);
    assert_eq!(codes(&r).0, vec!["MISSING_TYPE".to_string(), "MISSING_ID".to_string()]);
    assert_eq!(r.errors[0].path, Some("$".to_string()));
    let r = validate_json_text(r#"{"type": "recipe", "result": "x", "category": "c", "components": []}"#);
    assert!(r.valid);
    assert!(r.errors.is_empty() && r.warnings.is_empty());
    let r = validate_json_text(r#"{"type": "ITEM", "abstract": 1}"#);
    assert!(r.valid);
}

#[test]
fn type_specific_warnings() {
    let r = validate_json_text(r#"{"type": "recipe", "result": "x"}"#);
    assert!(r.valid);
    assert_eq!(codes(&r).1, vec!["MISSING_CATEGORY".to_string(), "NO_COMPONENTS".to_string()]);
    let r = validate_json_text(r#"{"type": "MONSTER", "id": "m"}"#);
    assert_eq!(codes(&r).1, vec!["MISSING_HP".to_string(), "MISSING_SPEED".to_string()]);
    let r = validate_json_text(r#"{"type": "MONSTER", "id": "m", "copy-from": "b"}"#);
    assert!(r.warnings.is_empty());
    let r = validate_json_text(r#"{"type": "vehicle", "id": "v"}"#);
    assert_eq!(codes(&r).1, vec!["MISSING_PARTS".to_string()]);
    let r = validate_json_text(r#"{"type": "mapgen", "id": "g", "object": {"x": 1}}"#);
    assert_eq!(codes(&r).1, vec!["MISSING_OM_TERRAIN".to_string(), "MISSING_ROWS".to_string()]);
    let r = validate_json_text(r#"{"type": "mapgen", "om_terrain": "t"}"#);
    assert_eq!(codes(&r).1, vec!["MISSING_OBJECT".to_string()]);
    assert!(!r.valid);
}

#[test]
fn result_building() {
    let mut r = ValidationResult::ok();
    assert!(r.valid);
    r.add_warning("W", "w");
    assert!(r.valid);
    r.add_error_with_path("E", "e", "$.a");
    assert!(!r.valid);
    assert_eq!(r.errors[0].path, Some("$.a".to_string()));
    let mut other = ValidationResult::with_error("X", "x");
    other.add_error("Y", "y");
    r.merge(other);
    assert_eq!(r.errors.len(), 3);
    assert_eq!(r.warnings.len(), 1);
    let e = ValidationError::new("C", "m").with_path("$").with_line(3);
    assert_eq!(e.line, Some(3));
    assert_eq!(e.path, Some("$".to_string()));
    let mut ok = ValidationResult::ok();
    ok.merge(ValidationResult::ok());
    assert!(ok.valid);
}

#[test]
fn type_change_is_warned() {
    let old = Json::from_text(r#"{"type": "ITEM", "id": "a"}"#).unwrap();
    let new = Json::from_text(r#"{"type": "TOOL", "id": "a"}"#).unwrap();
    let r = validate_update(&old, &new);
    assert!(r.valid);
    assert_eq!(r.warnings.len(), 1);
    assert_eq!(r.warnings[0].code, "TYPE_CHANGED");
    assert_eq!(r.warnings[0].message, "Entity type changed from Some(\"ITEM\") to Some(\"TOOL\")");
    let untyped = Json::from_text(r#"{"id": "a"}"#).unwrap();
    let r = validate_update(&untyped, &new);
    assert_eq!(r.warnings[0].message, "Entity type changed from None to Some(\"TOOL\")");
    assert!(validate_update(&new, &new).warnings.is_empty());
    assert_eq!(extract_meta(&new).unwrap().entity_type, "TOOL");
    assert!(extract_meta(&untyped).is_none());
}
