use vstd::prelude::*;

use crate::entity::{is_recipe_type, EntityMeta, meta_of};
use crate::json::{field, json_text_parse, parse_json, text_field, Json, JsonModel};
use crate::text::{concat, find_from, find_str, parse_usize, str_eq};
use crate::validation::{
    plain_error, plain_warning, ErrorModel, ValidationError, ValidationModel, ValidationResult,
    WarningModel,
};

verus! {

pub open spec fn has_field(j: JsonModel, k: Seq<char>) -> bool {
    field(j, k) is Some
}

/// `w` where `c` holds, else nothing.
pub open spec fn warn_if(c: bool, w: WarningModel) -> Seq<WarningModel> {
    if c {
        seq![w]
    } else {
        Seq::empty()
    }
}

pub open spec fn recipe_warnings(j: JsonModel) -> Seq<WarningModel> {
    warn_if(
        !has_field(j, "category"@) && !has_field(j, "copy-from"@),
        plain_warning(
            "MISSING_CATEGORY"@,
            "Recipe should have a 'category' field for menu organization"@,
        ),
    ) + warn_if(
        !has_field(j, "components"@) && !has_field(j, "using"@) && !has_field(j, "copy-from"@),
        plain_warning("NO_COMPONENTS"@, "Recipe has no 'components' or 'using' field"@),
    )
}

pub open spec fn monster_warnings(j: JsonModel) -> Seq<WarningModel> {
    if has_field(j, "copy-from"@) {
        Seq::empty()
    } else {
        warn_if(!has_field(j, "hp"@), plain_warning("MISSING_HP"@, "Monster should have an 'hp' field"@))
            + warn_if(
            !has_field(j, "speed"@),
            plain_warning("MISSING_SPEED"@, "Monster should have a 'speed' field"@),
        )
    }
}

pub open spec fn vehicle_warnings(j: JsonModel) -> Seq<WarningModel> {
    warn_if(
        !has_field(j, "parts"@) && !has_field(j, "copy-from"@),
        plain_warning("MISSING_PARTS"@, "Vehicle should have a 'parts' array"@),
    )
}

pub open spec fn mapgen_warnings(j: JsonModel) -> Seq<WarningModel> {
    warn_if(
        !has_field(j, "om_terrain"@),
        plain_warning("MISSING_OM_TERRAIN"@, "Mapgen should have an 'om_terrain' field"@),
    ) + match field(j, "object"@) {
        Some(o) => warn_if(
            !has_field(o, "rows"@) && !has_field(o, "fill_ter"@),
            plain_warning("MISSING_ROWS"@, "Mapgen object should have 'rows' or 'fill_ter'"@),
        ),
        None => warn_if(
            !has_field(j, "copy-from"@),
            plain_warning("MISSING_OBJECT"@, "Mapgen should have an 'object' field"@),
        ),
    }
}

/// The warnings particular to an entity type.
pub open spec fn type_warnings(j: JsonModel, ty: Seq<char>) -> Seq<WarningModel> {
    if is_recipe_type(ty) {
        recipe_warnings(j)
    } else if ty == "MONSTER"@ {
        monster_warnings(j)
    } else if ty == "vehicle"@ {
        vehicle_warnings(j)
    } else if ty == "mapgen"@ {
        mapgen_warnings(j)
    } else {
        Seq::empty()
    }
}

/// The entity's type where it is a string, else the empty text.
pub open spec fn type_or_empty(j: JsonModel) -> Seq<char> {
    match text_field(j, "type"@) {
        Some(t) => t,
        None => Seq::empty(),
    }
}

/// The structural errors of an object: a missing `type`; a missing `id`
/// unless it is abstract, or a recipe with a `result`.
pub open spec fn structure_errors(j: JsonModel) -> Seq<ErrorModel> {
    let missing_type = ErrorModel {
        code: "MISSING_TYPE"@,
        message: "Entity must have a 'type' field"@,
        path: Some("$"@),
        line: None,
    };
    let missing_id = ErrorModel {
        code: "MISSING_ID"@,
        message: "Entity must have an 'id' field (or 'result' for recipes)"@,
        path: Some("$"@),
        line: None,
    };
    (if !has_field(j, "type"@) {
        seq![missing_type]
    } else {
        Seq::empty()
    }) + (if !has_field(j, "abstract"@) && !(has_field(j, "id"@) || (is_recipe_type(type_or_empty(j)) && has_field(
        j,
        "result"@,
    ))) {
        seq![missing_id]
    } else {
        Seq::empty()
    })
}

/// The report on a parsed entity.
pub open spec fn entity_report(j: JsonModel) -> ValidationModel {
    if !(j is Object) {
        ValidationModel {
            valid: false,
            errors: seq![plain_error("NOT_OBJECT"@, "Entity must be a JSON object"@)],
            warnings: Seq::empty(),
        }
    } else {
        ValidationModel {
            valid: structure_errors(j).len() == 0,
            errors: structure_errors(j),
            warnings: type_warnings(j, type_or_empty(j)),
        }
    }
}

/// The line number in a parser message: the integer between the first
/// `at line ` and the next space.
pub open spec fn line_in_error(e: Seq<char>) -> Option<usize> {
    match find_from(e, "at line "@, 0) {
        Some(p) => match find_from(e, " "@, p + 8) {
            Some(end) => match parse_usize(e.subrange(p + 8, end)) {
                Some(v) => Some(v as usize),
                None => None,
            },
            None => None,
        },
        None => None,
    }
}

/// The report on an entity text: a syntax error, or the report on its value.
pub open spec fn text_report(text: Seq<char>) -> ValidationModel {
    match json_text_parse(text) {
        Ok(j) => entity_report(j),
        Err(e) => ValidationModel {
            valid: false,
            errors: seq![
                ErrorModel {
                    code: "INVALID_JSON"@,
                    message: "Invalid JSON syntax: "@ + e,
                    path: None,
                    line: line_in_error(e),
                },
            ],
            warnings: Seq::empty(),
        },
    }
}

pub open spec fn same_report(a: ValidationModel, b: ValidationModel) -> bool {
    a.valid == b.valid && a.errors == b.errors && a.warnings == b.warnings
}

/// Validates an entity text.
pub fn validate_json_text(text: &str) -> (r: ValidationResult)
    ensures
        same_report(r@, text_report(text@)),
{
    match parse_json(text) {
        Ok(value) => validate_entity_json(&value),
        Err(e) => {
            let message = concat("Invalid JSON syntax: ", e.as_str());
            let mut error = ValidationError::new("INVALID_JSON", message.as_str());
            if let Some(l) = extract_line_from_error(e.as_str()) {
                error = error.with_line(l);
            }
            let result = ValidationResult { valid: false, errors: vec![error], warnings: Vec::new() };
            assert(result@.errors =~= text_report(text@).errors);
            assert(result@.warnings =~= text_report(text@).warnings);
            result
        },
    }
}

/// Validates a parsed entity.
pub fn validate_entity_json(value: &Json) -> (r: ValidationResult)
    ensures
        same_report(r@, entity_report(value@)),
{
    let mut result = ValidationResult::ok();
    if !value.is_object() {
        result.add_error("NOT_OBJECT", "Entity must be a JSON object");
        assert(result@.errors =~= entity_report(value@).errors);
        assert(result@.warnings =~= entity_report(value@).warnings);
        return result;
    }
    if value.get("type").is_none() {
        result.add_error_with_path("MISSING_TYPE", "Entity must have a 'type' field", "$");
    }
    let entity_type = match value.get_str("type") {
        Some(t) => t,
        None => "",
    };
    proof {
        reveal_strlit("");
    }
    assert(entity_type@ == type_or_empty(value@));
    let is_abstract = value.get("abstract").is_some();
    let is_recipe = str_eq(entity_type, "recipe") || str_eq(entity_type, "uncraft");
    if !is_abstract {
        let has_id = value.get("id").is_some();
        let has_result = value.get("result").is_some();
        if !(has_id || (is_recipe && has_result)) {
            result.add_error_with_path(
                "MISSING_ID",
                "Entity must have an 'id' field (or 'result' for recipes)",
                "$",
            );
        }
    }
    result.merge(validate_type_specific(value, entity_type));
    assert(result@.errors =~= structure_errors(value@));
    assert(result@.warnings =~= type_warnings(value@, type_or_empty(value@)));
    result
}

/// The warnings particular to the entity's type.
fn validate_type_specific(value: &Json, entity_type: &str) -> (r: ValidationResult)
    ensures
        r@.valid,
        r@.errors.len() == 0,
        r@.warnings == type_warnings(value@, entity_type@),
{
    let mut result = ValidationResult::ok();
    if str_eq(entity_type, "recipe") || str_eq(entity_type, "uncraft") {
        validate_recipe(value, &mut result);
    } else if str_eq(entity_type, "MONSTER") {
        validate_monster(value, &mut result);
    } else if str_eq(entity_type, "vehicle") {
        validate_vehicle(value, &mut result);
    } else if str_eq(entity_type, "mapgen") {
        validate_mapgen(value, &mut result);
    }
    assert(result@.warnings =~= type_warnings(value@, entity_type@));
    result
}

fn validate_recipe(value: &Json, result: &mut ValidationResult)
    ensures
        final(result)@.valid == old(result)@.valid,
        final(result)@.errors == old(result)@.errors,
        final(result)@.warnings == old(result)@.warnings + recipe_warnings(value@),
{
    let copies = value.get("copy-from").is_some();
    if value.get("category").is_none() && !copies {
        result.add_warning(
            "MISSING_CATEGORY",
            "Recipe should have a 'category' field for menu organization",
        );
    }
    if value.get("components").is_none() && value.get("using").is_none() && !copies {
        result.add_warning("NO_COMPONENTS", "Recipe has no 'components' or 'using' field");
    }
    assert(result@.warnings =~= old(result)@.warnings + recipe_warnings(value@));
}

fn validate_monster(value: &Json, result: &mut ValidationResult)
    ensures
        final(result)@.valid == old(result)@.valid,
        final(result)@.errors == old(result)@.errors,
        final(result)@.warnings == old(result)@.warnings + monster_warnings(value@),
{
    if value.get("copy-from").is_none() {
        if value.get("hp").is_none() {
            result.add_warning("MISSING_HP", "Monster should have an 'hp' field");
        }
        if value.get("speed").is_none() {
            result.add_warning("MISSING_SPEED", "Monster should have a 'speed' field");
        }
    }
    assert(result@.warnings =~= old(result)@.warnings + monster_warnings(value@));
}

fn validate_vehicle(value: &Json, result: &mut ValidationResult)
    ensures
        final(result)@.valid == old(result)@.valid,
        final(result)@.errors == old(result)@.errors,
        final(result)@.warnings == old(result)@.warnings + vehicle_warnings(value@),
{
    if value.get("parts").is_none() && value.get("copy-from").is_none() {
        result.add_warning("MISSING_PARTS", "Vehicle should have a 'parts' array");
    }
    assert(result@.warnings =~= old(result)@.warnings + vehicle_warnings(value@));
}

fn validate_mapgen(value: &Json, result: &mut ValidationResult)
    ensures
        final(result)@.valid == old(result)@.valid,
        final(result)@.errors == old(result)@.errors,
        final(result)@.warnings == old(result)@.warnings + mapgen_warnings(value@),
{
    if value.get("om_terrain").is_none() {
        result.add_warning("MISSING_OM_TERRAIN", "Mapgen should have an 'om_terrain' field");
    }
    if let Some(obj) = value.get("object") {
        if obj.get("rows").is_none() && obj.get("fill_ter").is_none() {
            result.add_warning("MISSING_ROWS", "Mapgen object should have 'rows' or 'fill_ter'");
        }
    } else if value.get("copy-from").is_none() {
        result.add_warning("MISSING_OBJECT", "Mapgen should have an 'object' field");
    }
    assert(result@.warnings =~= old(result)@.warnings + mapgen_warnings(value@));
}

/// The line number that a parser message gives after `at line `.
pub fn extract_line_from_error(error: &str) -> (r: Option<usize>)
    ensures
        r == line_in_error(error@),
{
    proof {
        reveal_strlit("at line ");
    }
    let _n = error.unicode_len();
    match find_str(error, "at line ", 0) {
        Some(pos) => {
            let start = pos + 8;
            match find_str(error, " ", start) {
                Some(end) => {
                    crate::text::parse_usize_in(error, start, end)
                },
                None => None,
            }
        },
        None => None,
    }
}


/// Rust's debug text of an optional string, as `{:?}` writes it.
pub uninterp spec fn debug_text_of(o: Option<Seq<char>>) -> Seq<char>;

/// Relies on the `Debug` formatting of `Option<&str>`: `None`, or `Some`
/// with the string quoted and escaped.
#[verifier::external_body]
fn debug_text(o: Option<&str>) -> (r: String)
    ensures
        r@ == debug_text_of(
            match o {
                Some(s) => Some(s@),
                None => None,
            },
        ),
{
    format!("{:?}", o)
}

/// The report on a new value for an entity, with a `TYPE_CHANGED` warning
/// where its type differs from the old value's.
pub fn validate_update(old_json: &Json, new_json: &Json) -> (r: ValidationResult)
    ensures
        r@.valid == entity_report(new_json@).valid,
        r@.errors == entity_report(new_json@).errors,
        r@.warnings == entity_report(new_json@).warnings + if text_field(old_json@, "type"@) != text_field(
            new_json@,
            "type"@,
        ) {
            seq![
                crate::validation::plain_warning(
                    "TYPE_CHANGED"@,
                    "Entity type changed from "@ + debug_text_of(text_field(old_json@, "type"@)) + " to "@
                        + debug_text_of(text_field(new_json@, "type"@)),
                ),
            ]
        } else {
            Seq::empty()
        },
{
    let mut result = validate_entity_json(new_json);
    let old_type = old_json.get_str("type");
    let new_type = new_json.get_str("type");
    let same = match (old_type, new_type) {
        (Some(a), Some(b)) => str_eq(a, b),
        (None, None) => true,
        _ => false,
    };
    let ghost before = result@.warnings;
    if !same {
        let a = concat("Entity type changed from ", debug_text(old_type).as_str());
        let b = concat(a.as_str(), " to ");
        let message = concat(b.as_str(), debug_text(new_type).as_str());
        result.add_warning("TYPE_CHANGED", message.as_str());
    }
    assert(result@.warnings =~= before + if text_field(old_json@, "type"@) != text_field(new_json@, "type"@) {
        seq![
            crate::validation::plain_warning(
                "TYPE_CHANGED"@,
                "Entity type changed from "@ + debug_text_of(text_field(old_json@, "type"@)) + " to "@
                    + debug_text_of(text_field(new_json@, "type"@)),
            ),
        ]
    } else {
        Seq::empty()
    });
    result
}

/// The metadata of an entity's value; see [`EntityMeta::from_json`].
pub fn extract_meta(json: &Json) -> (r: Option<EntityMeta>)
    ensures
        match r {
            Some(m) => meta_of(json@) == Some(m@),
            None => meta_of(json@) is None,
        },
{
    EntityMeta::from_json(json)
}

} // verus!
