use vstd::prelude::*;

use crate::json::{as_text, entry_lookup, field, text_field, Json, JsonModel};
use crate::validation::ValidationResult;
use crate::text::{concat, owned, str_eq};

verus! {

/// The characters of an optional string.
pub open spec fn opt_view(o: Option<String>) -> Option<Seq<char>> {
    match o {
        Some(s) => Some(s@),
        None => None,
    }
}

/// A reference from one entity to another.
#[derive(Debug, Clone)]
pub struct EntityRef {
    /// The field where the reference occurs, such as `result`.
    pub field_path: String,
    /// The referenced entity's id.
    pub target_id: String,
    /// The type the target is expected to have, where known.
    pub expected_type: Option<String>,
}

pub struct RefModel {
    pub field_path: Seq<char>,
    pub target_id: Seq<char>,
    pub expected_type: Option<Seq<char>>,
}

impl View for EntityRef {
    type V = RefModel;

    open spec fn view(&self) -> RefModel {
        RefModel {
            field_path: self.field_path@,
            target_id: self.target_id@,
            expected_type: opt_view(self.expected_type),
        }
    }
}

/// What is read from an entity's JSON for indexing and display.
#[derive(Debug, Clone)]
pub struct EntityMeta {
    pub entity_type: String,
    pub id: String,
    pub display_name: Option<String>,
    pub copy_from: Option<String>,
    pub references: Vec<EntityRef>,
}

pub struct MetaModel {
    pub entity_type: Seq<char>,
    pub id: Seq<char>,
    pub display_name: Option<Seq<char>>,
    pub copy_from: Option<Seq<char>>,
    pub references: Seq<RefModel>,
}

impl View for EntityMeta {
    type V = MetaModel;

    open spec fn view(&self) -> MetaModel {
        MetaModel {
            entity_type: self.entity_type@,
            id: self.id@,
            display_name: opt_view(self.display_name),
            copy_from: opt_view(self.copy_from),
            references: self.references@.map_values(|r: EntityRef| r@),
        }
    }
}

/// The id of a map generator: `om_terrain` as a string, the first string of
/// an array, or the first string of the first inner array.
pub open spec fn om_terrain_id(f: Option<JsonModel>) -> Option<Seq<char>> {
    match f {
        Some(JsonModel::Str(s)) => Some(s),
        Some(JsonModel::Array(a)) => if a.len() == 0 {
            None
        } else {
            match a[0] {
                JsonModel::Str(s) => Some(s),
                JsonModel::Array(b) => if b.len() == 0 {
                    None
                } else {
                    as_text(Some(b[0]))
                },
                _ => None,
            }
        },
        _ => None,
    }
}

/// The id a map generator is known by, where it has one.
pub open spec fn mapgen_id(j: JsonModel) -> Option<Seq<char>> {
    match om_terrain_id(field(j, "om_terrain"@)) {
        Some(s) => Some(s),
        None => text_field(j, "nested_mapgen_id"@),
    }
}

pub open spec fn is_recipe_type(ty: Seq<char>) -> bool {
    ty == "recipe"@ || ty == "uncraft"@
}

/// A recipe's id: its `id`, else its `result` followed by `_` and `id_suffix`
/// where that is present.
pub open spec fn recipe_id(j: JsonModel) -> Option<Seq<char>> {
    match text_field(j, "id"@) {
        Some(id) => Some(id),
        None => match text_field(j, "result"@) {
            Some(result) => Some(
                result + match text_field(j, "id_suffix"@) {
                    Some(s) => "_"@ + s,
                    None => Seq::empty(),
                },
            ),
            None => None,
        },
    }
}

/// The id of an entity of type `ty`.
pub open spec fn id_of(j: JsonModel, ty: Seq<char>) -> Option<Seq<char>> {
    if text_field(j, "abstract"@) is Some {
        text_field(j, "abstract"@)
    } else if is_recipe_type(ty) && recipe_id(j) is Some {
        recipe_id(j)
    } else if ty == "mapgen"@ && mapgen_id(j) is Some {
        mapgen_id(j)
    } else {
        text_field(j, "id"@)
    }
}

/// `name` where it is a string, else its `str` field where `name` is an object.
pub open spec fn display_name_of(j: JsonModel) -> Option<Seq<char>> {
    match field(j, "name"@) {
        Some(JsonModel::Str(s)) => Some(s),
        Some(JsonModel::Object(e)) => as_text(entry_lookup(e, "str"@)),
        _ => None,
    }
}

/// The references recorded: `copy-from`, expected to have the entity's own
/// type, then `result`, of any type.
pub open spec fn references_of(j: JsonModel) -> Seq<RefModel> {
    (match text_field(j, "copy-from"@) {
        Some(c) => seq![
            RefModel {
                field_path: "copy-from"@,
                target_id: c,
                expected_type: text_field(j, "type"@),
            },
        ],
        None => Seq::empty(),
    }) + (match text_field(j, "result"@) {
        Some(r) => seq![RefModel { field_path: "result"@, target_id: r, expected_type: None }],
        None => Seq::empty(),
    })
}

/// The metadata of a record: present where it has a string `type` and an id.
pub open spec fn meta_of(j: JsonModel) -> Option<MetaModel> {
    match text_field(j, "type"@) {
        None => None,
        Some(ty) => match id_of(j, ty) {
            None => None,
            Some(id) => Some(
                MetaModel {
                    entity_type: ty,
                    id,
                    display_name: display_name_of(j),
                    copy_from: text_field(j, "copy-from"@),
                    references: references_of(j),
                },
            ),
        },
    }
}

/// `type:id`, the key an entity is known by.
pub open spec fn logical_key(m: MetaModel) -> Seq<char> {
    m.entity_type + ":"@ + m.id
}

/// One record of a pack: its metadata, its JSON, and where it lives on disk.
#[derive(Debug)]
pub struct Entity {
    pub meta: EntityMeta,
    /// The JSON as read or as last edited.
    pub json: Json,
    /// The file it came from, relative to the pack root.
    pub source_file: String,
    /// Its position in that file's top-level array.
    pub array_index: usize,
    /// Whether it differs from what is on disk.
    pub dirty: bool,
}

/// An entity as handed out for editing.
#[derive(Debug)]
pub struct EntityData {
    pub key: String,
    pub meta: EntityMeta,
    /// The JSON as pretty text for editing.
    pub json_text: String,
    pub source_file: String,
    pub read_only: bool,
    pub dirty: bool,
}

/// The outcome of submitting an entity text.
#[derive(Debug)]
pub struct UpdateResult {
    pub validation: ValidationResult,
    /// Whether the edit was applied.
    pub accepted: bool,
    /// The entity's new storage key, where it changed.
    pub new_key: Option<String>,
    /// The new metadata, where the edit was applied.
    pub meta: Option<EntityMeta>,
}

/// The outcome of creating an entity.
#[derive(Debug)]
pub struct CreateResult {
    pub validation: ValidationResult,
    pub accepted: bool,
    pub entity_key: Option<String>,
}

/// A copy of an optional string.
pub fn copy_opt(o: &Option<String>) -> (r: Option<String>)
    ensures
        r == *o,
{
    match o {
        Some(s) => Some(s.clone()),
        None => None,
    }
}

impl EntityRef {
    pub fn duplicate(&self) -> (r: EntityRef)
        ensures
            r@ == self@,
    {
        EntityRef {
            field_path: self.field_path.clone(),
            target_id: self.target_id.clone(),
            expected_type: copy_opt(&self.expected_type),
        }
    }
}

impl EntityMeta {
    /// A copy with the same model.
    pub fn duplicate(&self) -> (r: EntityMeta)
        ensures
            r@ == self@,
    {
        let mut refs: Vec<EntityRef> = Vec::new();
        let mut i: usize = 0;
        while i < self.references.len()
            invariant
                i <= self.references.len(),
                refs.len() == i,
                forall|k: int| 0 <= k < i ==> #[trigger] refs[k]@ == self.references[k]@,
            decreases self.references.len() - i,
        {
            refs.push(self.references[i].duplicate());
            i += 1;
        }
        let r = EntityMeta {
            entity_type: self.entity_type.clone(),
            id: self.id.clone(),
            display_name: copy_opt(&self.display_name),
            copy_from: copy_opt(&self.copy_from),
            references: refs,
        };
        assert(r@.references =~= self@.references);
        r
    }
}

impl Entity {
    /// A record for `json` read at `array_index` of `source_file`, where it has
    /// a type and an id.
    pub fn from_json(json: Json, source_file: String, array_index: usize) -> (r: Option<Entity>)
        ensures
            match meta_of(json@) {
                Some(m) => r matches Some(e) && e.meta@ == m && e.json@ == json@ && e.source_file
                    == source_file && e.array_index == array_index && !e.dirty,
                None => r is None,
            },
    {
        match EntityMeta::from_json(&json) {
            Some(meta) => Some(Entity { meta, json, source_file, array_index, dirty: false }),
            None => None,
        }
    }

    /// `type:id`.
    pub fn key(&self) -> (r: String)
        ensures
            r@ == logical_key(self.meta@),
    {
        let head = concat(self.meta.entity_type.as_str(), ":");
        concat(head.as_str(), self.meta.id.as_str())
    }

    /// The entity as handed out for editing, its JSON as pretty text.
    pub fn to_data(&self, read_only: bool) -> (r: EntityData)
        ensures
            r.key@ == logical_key(self.meta@),
            r.meta@ == self.meta@,
            r.json_text@ == crate::json::pretty_text_of(self.json@),
            r.source_file@ == self.source_file@,
            r.read_only == read_only,
            r.dirty == self.dirty,
    {
        EntityData {
            key: self.key(),
            meta: self.meta.duplicate(),
            json_text: crate::json::pretty_json_text(&self.json),
            source_file: self.source_file.clone(),
            read_only,
            dirty: self.dirty,
        }
    }
}

/// A new `String` for an optional slice.
fn opt_owned(o: Option<&str>) -> (r: Option<String>)
    ensures
        opt_view(r) == match o {
            Some(s) => Some(s@),
            None => None::<Seq<char>>,
        },
{
    match o {
        Some(s) => Some(owned(s)),
        None => None,
    }
}

impl EntityMeta {
    /// The metadata of a record, or `None` where it has no string `type` or
    /// no id.
    pub fn from_json(json: &Json) -> (r: Option<EntityMeta>)
        ensures
            match r {
                Some(m) => meta_of(json@) == Some(m@),
                None => meta_of(json@) is None,
            },
    {
        let entity_type = match json.get_str("type") {
            Some(t) => t,
            None => return None,
        };
        let id = match Self::extract_id(json, entity_type) {
            Some(id) => id,
            None => return None,
        };
        let display_name = Self::extract_display_name(json);
        let copy_from = opt_owned(json.get_str("copy-from"));
        let references = Self::extract_references(json);
        let r = EntityMeta { entity_type: owned(entity_type), id, display_name, copy_from, references };
        assert(r@.references =~= references_of(json@));
        Some(r)
    }

    /// The id of `json` read as an entity of type `entity_type`.
    pub fn extract_id(json: &Json, entity_type: &str) -> (r: Option<String>)
        ensures
            opt_view(r) == id_of(json@, entity_type@),
    {
        if let Some(a) = json.get_str("abstract") {
            return Some(owned(a));
        }
        if str_eq(entity_type, "recipe") || str_eq(entity_type, "uncraft") {
            if let Some(id) = json.get_str("id") {
                return Some(owned(id));
            }
            if let Some(result) = json.get_str("result") {
                let suffix = match json.get_str("id_suffix") {
                    Some(s) => concat("_", s),
                    None => String::new(),
                };
                let r = concat(result, suffix.as_str());
                return Some(r);
            }
        }
        if str_eq(entity_type, "mapgen") {
            if let Some(om) = json.get("om_terrain") {
                match om {
                    Json::Str(s) => return Some(s.clone()),
                    Json::Array(items) => {
                        proof {
                            crate::json::lemma_array_view(*om);
                        }
                        if items.len() > 0 {
                            match &items[0] {
                                Json::Str(s) => return Some(s.clone()),
                                Json::Array(inner) => {
                                    proof {
                                        crate::json::lemma_array_view(items[0]);
                                    }
                                    if inner.len() > 0 {
                                        if let Some(s) = inner[0].as_str() {
                                            return Some(owned(s));
                                        }
                                    }
                                },
                                _ => {},
                            }
                        }
                    },
                    _ => {},
                }
            }
            if let Some(n) = json.get_str("nested_mapgen_id") {
                return Some(owned(n));
            }
        }
        opt_owned(json.get_str("id"))
    }

    /// `name` where it is a string, else the `str` field of a `name` object.
    pub fn extract_display_name(json: &Json) -> (r: Option<String>)
        ensures
            opt_view(r) == display_name_of(json@),
    {
        match json.get("name") {
            Some(name) => match name {
                Json::Str(s) => Some(s.clone()),
                Json::Object(_) => opt_owned(name.get_str("str")),
                _ => None,
            },
            None => None,
        }
    }

    /// The references that `json` makes to other entities.
    pub fn extract_references(json: &Json) -> (r: Vec<EntityRef>)
        ensures
            r@.map_values(|e: EntityRef| e@) == references_of(json@),
    {
        let mut refs: Vec<EntityRef> = Vec::new();
        if let Some(c) = json.get_str("copy-from") {
            refs.push(
                EntityRef {
                    field_path: owned("copy-from"),
                    target_id: owned(c),
                    expected_type: opt_owned(json.get_str("type")),
                },
            );
        }
        if let Some(res) = json.get_str("result") {
            refs.push(EntityRef { field_path: owned("result"), target_id: owned(res), expected_type: None });
        }
        assert(refs@.map_values(|e: EntityRef| e@) =~= references_of(json@));
        refs
    }
}

} // verus!
