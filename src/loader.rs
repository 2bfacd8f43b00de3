use vstd::prelude::*;

use crate::entity::{logical_key, meta_of, opt_view, Entity};
use crate::json::{field, json_text_parse, parse_json, text_field, Json, JsonModel};
use crate::keys::{contains_key, keys_of, make_unique_key, storage_key};
use crate::text::{concat, owned, str_eq};
use crate::tree::{tree_groups, EntityTree};
use crate::workspace::{ContentPack, PackId, PackMetadata};

verus! {

/// What reading a file gave: no such file, a file that could not be read
/// (with the reason), or its text.
#[derive(Debug)]
pub enum FileText {
    Missing,
    Unreadable(String),
    Text(String),
}

/// A data file found in a pack.
#[derive(Debug)]
pub struct PackFile {
    /// The file's path as shown in messages.
    pub path: String,
    /// The file's path relative to the pack root, `/`-separated.
    pub relative: String,
    /// Its text, or why it could not be read.
    pub content: Result<String, String>,
}

/// Why one file of a pack could not be loaded.
#[derive(Debug)]
pub enum LoadError {
    IoError { path: String, message: String },
    ParseError { path: String, message: String },
}

/// Counts and per-file errors of a load.
#[derive(Debug, Clone)]
pub struct LoadStats {
    pub files_scanned: usize,
    pub entities_loaded: usize,
    pub errors: Vec<String>,
}

impl LoadError {
    /// The error as a sentence.
    pub fn message(&self) -> (r: String)
        ensures
            r@ == match self {
                LoadError::IoError { path, message } => "IO error reading "@ + path@ + ": "@ + message@,
                LoadError::ParseError { path, message } => "Parse error in "@ + path@ + ": "@ + message@,
            },
    {
        match self {
            LoadError::IoError { path, message } => {
                let a = concat("IO error reading ", path.as_str());
                let b = concat(a.as_str(), ": ");
                concat(b.as_str(), message.as_str())
            },
            LoadError::ParseError { path, message } => {
                let a = concat("Parse error in ", path.as_str());
                let b = concat(a.as_str(), ": ");
                concat(b.as_str(), message.as_str())
            },
        }
    }
}

/// The strings among the first `n` items, in order.
pub open spec fn string_items(items: Seq<JsonModel>, n: int) -> Seq<Seq<char>>
    decreases n,
{
    if n <= 0 {
        Seq::empty()
    } else {
        let prev = string_items(items, n - 1);
        match items[n - 1] {
            JsonModel::Str(s) => prev.push(s),
            _ => prev,
        }
    }
}

/// The strings of an array field, or nothing where it is no array.
pub open spec fn string_list(f: Option<JsonModel>) -> Seq<Seq<char>> {
    match f {
        Some(JsonModel::Array(a)) => string_items(a, a.len() as int),
        _ => Seq::empty(),
    }
}

/// The authors: one string, or the strings of an array.
pub open spec fn authors_of(info: JsonModel) -> Seq<Seq<char>> {
    match field(info, "authors"@) {
        Some(JsonModel::Str(s)) => seq![s],
        f => string_list(f),
    }
}

/// The object a manifest describes: the document, or the first element of an array.
pub open spec fn manifest_info(doc: JsonModel) -> Option<JsonModel> {
    match doc {
        JsonModel::Array(a) => if a.len() == 0 {
            None
        } else {
            Some(a[0])
        },
        _ => Some(doc),
    }
}

/// The manifest object in a text, where it parses.
pub open spec fn manifest_of(text: Seq<char>) -> Option<JsonModel> {
    match json_text_parse(text) {
        Ok(doc) => manifest_info(doc),
        Err(_) => None,
    }
}

pub open spec fn views(v: Seq<String>) -> Seq<Seq<char>> {
    v.map_values(|s: String| s@)
}

/// `m` holds what the manifest object `info` says.
pub open spec fn metadata_matches(m: PackMetadata, info: JsonModel) -> bool {
    &&& opt_view(m.mod_id) == text_field(info, "id"@)
    &&& opt_view(m.mod_type) == text_field(info, "type"@)
    &&& views(m.dependencies@) == string_list(field(info, "dependencies"@))
    &&& opt_view(m.description) == text_field(info, "description"@)
    &&& opt_view(m.version) == text_field(info, "version"@)
    &&& opt_view(m.lua_api_version) == text_field(info, "lua_api_version"@)
    &&& views(m.authors@) == authors_of(info)
    &&& opt_view(m.category) == text_field(info, "category"@)
}

/// The metadata read from a manifest file.
pub open spec fn metadata_result(src: FileText, r: Option<PackMetadata>) -> bool {
    match src {
        FileText::Text(t) => match manifest_of(t@) {
            Some(info) => r matches Some(m) && metadata_matches(m, info),
            None => r is None,
        },
        _ => r is None,
    }
}

/// The strings among `items`.
pub fn collect_strings(items: &Vec<Json>) -> (r: Vec<String>)
    ensures
        views(r@) == string_items(Json::Array(*items)@->Array_0, items@.len() as int),
{
    proof {
        crate::json::lemma_array_view(Json::Array(*items));
    }
    let ghost m = Json::Array(*items)@->Array_0;
    let mut out: Vec<String> = Vec::new();
    let mut i: usize = 0;
    while i < items.len()
        invariant
            i <= items@.len(),
            m.len() == items@.len(),
            forall|k: int| 0 <= k < items@.len() ==> #[trigger] m[k] == items@[k]@,
            views(out@) == string_items(m, i as int),
        decreases items.len() - i,
    {
        let ghost before = out@;
        if let Json::Str(s) = &items[i] {
            out.push(s.clone());
            assert(views(out@) =~= views(before).push(s@));
        }
        i += 1;
    }
    out
}

/// The strings of field `key` where it is an array.
fn string_list_field(info: &Json, key: &str) -> (r: Vec<String>)
    ensures
        views(r@) == string_list(field(info@, key@)),
{
    match info.get(key) {
        Some(Json::Array(items)) => collect_strings(items),
        _ => {
            let r: Vec<String> = Vec::new();
            assert(views(r@) =~= Seq::<Seq<char>>::empty());
            r
        },
    }
}

fn opt_string(o: Option<&str>) -> (r: Option<String>)
    ensures
        opt_view(r) == match o {
            Some(s) => Some(s@),
            None => None::<Seq<char>>,
        },
{
    match o {
        Some(s) => Some(owned(s)),
        None => None,
    }
}

/// The metadata that a manifest object holds.
fn metadata_from_info(info: &Json) -> (r: PackMetadata)
    ensures
        metadata_matches(r, info@),
{
    let authors = match info.get("authors") {
        Some(Json::Str(s)) => {
            let v = vec![s.clone()];
            assert(views(v@) =~= seq![s@]);
            v
        },
        _ => string_list_field(info, "authors"),
    };
    PackMetadata {
        mod_id: opt_string(info.get_str("id")),
        mod_type: opt_string(info.get_str("type")),
        dependencies: string_list_field(info, "dependencies"),
        description: opt_string(info.get_str("description")),
        version: opt_string(info.get_str("version")),
        lua_api_version: opt_string(info.get_str("lua_api_version")),
        authors,
        category: opt_string(info.get_str("category")),
    }
}

/// The metadata in a manifest text.
fn metadata_from_text(text: &str) -> (r: Option<PackMetadata>)
    ensures
        match manifest_of(text@) {
            Some(info) => r matches Some(m) && metadata_matches(m, info),
            None => r is None,
        },
{
    let doc = match parse_json(text) {
        Ok(d) => d,
        Err(_) => {
            return None;
        },
    };
    match &doc {
        Json::Array(items) => {
            proof {
                crate::json::lemma_array_view(doc);
            }
            if items.len() == 0 {
                None
            } else {
                Some(metadata_from_info(&items[0]))
            }
        },
        _ => Some(metadata_from_info(&doc)),
    }
}

/// The metadata in a pack's root manifest, where there is one.
pub fn load_pack_metadata(root_manifest: &FileText) -> (r: Option<PackMetadata>)
    ensures
        metadata_result(*root_manifest, r),
{
    match root_manifest {
        FileText::Text(t) => metadata_from_text(t.as_str()),
        _ => None,
    }
}

/// The metadata of the base game: its root manifest, or where there is none,
/// the manifest bundled under `mods/bn/`.
pub fn load_pack_metadata_for_base_game(root_manifest: &FileText, bundled_manifest: &FileText) -> (r:
    Option<PackMetadata>)
    ensures
        metadata_result(
            if *root_manifest is Missing {
                *bundled_manifest
            } else {
                *root_manifest
            },
            r,
        ),
{
    match root_manifest {
        FileText::Missing => load_pack_metadata(bundled_manifest),
        _ => load_pack_metadata(root_manifest),
    }
}

/// The name a pack is shown under when none is given: its manifest's `name`,
/// else its directory's name, else `Unknown Pack`.
pub open spec fn detected_name(root_manifest: FileText, dir_name: Option<Seq<char>>) -> Seq<char> {
    let fallback = match dir_name {
        Some(d) => d,
        None => "Unknown Pack"@,
    };
    match root_manifest {
        FileText::Text(t) => match manifest_of(t@) {
            Some(info) => match text_field(info, "name"@) {
                Some(n) => n,
                None => fallback,
            },
            None => fallback,
        },
        _ => fallback,
    }
}

/// The name a pack is shown under when none is given.
pub fn detect_pack_name(root_manifest: &FileText, dir_name: Option<&str>) -> (r: String)
    ensures
        r@ == detected_name(
            *root_manifest,
            match dir_name {
                Some(d) => Some(d@),
                None => None,
            },
        ),
{
    let fallback = match dir_name {
        Some(d) => owned(d),
        None => owned("Unknown Pack"),
    };
    if let FileText::Text(t) = root_manifest {
        if let Ok(doc) = parse_json(t.as_str()) {
            let info = match &doc {
                Json::Array(items) => {
                    proof {
                        crate::json::lemma_array_view(doc);
                    }
                    if items.len() == 0 {
                        None
                    } else {
                        Some(&items[0])
                    }
                },
                _ => Some(&doc),
            };
            if let Some(info) = info {
                if let Some(n) = info.get_str("name") {
                    return owned(n);
                }
            }
        }
    }
    fallback
}

/// The positions among the first `n` elements that become records: objects
/// with a type and an id.
pub open spec fn record_indices(items: Seq<JsonModel>, n: int) -> Seq<int>
    decreases n,
{
    if n <= 0 {
        Seq::empty()
    } else {
        let prev = record_indices(items, n - 1);
        if items[n - 1] is Object && meta_of(items[n - 1]) is Some {
            prev.push(n - 1)
        } else {
            prev
        }
    }
}

/// `v` holds a fresh record for each element of `items` at `idx`, read from `file`.
pub open spec fn records_match(v: Seq<Entity>, items: Seq<JsonModel>, idx: Seq<int>, file: Seq<char>) -> bool {
    &&& v.len() == idx.len()
    &&& forall|q: int|
        0 <= q < v.len() ==> {
            let k = idx[q];
            let e = #[trigger] v[q];
            &&& e.array_index == k
            &&& 0 <= k < items.len()
            &&& e.json@ == items[k]
            &&& meta_of(items[k]) == Some(e.meta@)
            &&& e.source_file@ == file
            &&& !e.dirty
        }
}

/// The records of one data file. Fails where the text is no JSON or its top
/// level is no array; elements that are no object, or lack a type or an id,
/// are skipped.
pub fn load_entities_from_file(file_path: &str, relative_path: &str, content: &str) -> (r: Result<
    Vec<Entity>,
    LoadError,
>)
    ensures
        match json_text_parse(content@) {
            Err(e) => r matches Err(LoadError::ParseError { path, message }) && path@ == file_path@
                && message@ == e,
            Ok(JsonModel::Array(items)) => r matches Ok(v) && records_match(
                v@,
                items,
                record_indices(items, items.len() as int),
                relative_path@,
            ),
            Ok(_) => r matches Err(LoadError::ParseError { path, message }) && path@ == file_path@
                && message@ == "Expected JSON array at root"@,
        },
{
    let doc = match parse_json(content) {
        Ok(d) => d,
        Err(e) => {
            return Err(LoadError::ParseError { path: owned(file_path), message: e });
        },
    };
    let items = match doc {
        Json::Array(items) => items,
        _ => {
            return Err(
                LoadError::ParseError {
                    path: owned(file_path),
                    message: owned("Expected JSON array at root"),
                },
            );
        },
    };
    proof {
        crate::json::lemma_array_view(Json::Array(items));
    }
    let ghost m = Json::Array(items)@->Array_0;
    let mut entities: Vec<Entity> = Vec::new();
    let mut i: usize = 0;
    while i < items.len()
        invariant
            i <= items@.len(),
            m.len() == items@.len(),
            forall|k: int| 0 <= k < items@.len() ==> #[trigger] m[k] == items@[k]@,
            records_match(entities@, m, record_indices(m, i as int), relative_path@),
        decreases items.len() - i,
    {
        let ghost before = entities@;
        if items[i].is_object() {
            let value = items[i].duplicate();
            if let Some(entity) = Entity::from_json(value, owned(relative_path), i) {
                entities.push(entity);
                assert(record_indices(m, i + 1) == record_indices(m, i as int).push(i as int));
            }
        }
        i += 1;
    }
    Ok(entities)
}

/// From position `from` on, each record is stored under the key that its
/// `type:id` gets among the keys of the records before it: the bare key
/// while free, else suffixed with its file's stem.
pub open spec fn keys_in_load_order(es: Seq<(String, Entity)>, from: int) -> bool {
    forall|k: int|
        from <= k < es.len() ==> (#[trigger] es[k]).0@ == storage_key(
            keys_of(es.take(k)),
            logical_key(es[k].1.meta@),
            es[k].1.source_file@,
        )
}

/// How many records a data file yields: its objects with a type and an id,
/// none where it cannot be read or holds no array.
pub open spec fn file_record_count(f: PackFile) -> nat {
    match f.content {
        Ok(t) => match json_text_parse(t@) {
            Ok(JsonModel::Array(items)) => record_indices(items, items.len() as int).len(),
            _ => 0,
        },
        Err(_) => 0,
    }
}

/// Whether a data file fails to load: it cannot be read, does not parse, or
/// holds no array.
pub open spec fn file_fails(f: PackFile) -> bool {
    match f.content {
        Ok(t) => !(json_text_parse(t@) matches Ok(JsonModel::Array(_))),
        Err(_) => true,
    }
}

/// The records of the first `n` files.
pub open spec fn records_total(files: Seq<PackFile>, n: int) -> nat
    decreases n,
{
    if n <= 0 {
        0
    } else {
        records_total(files, n - 1) + file_record_count(files[n - 1])
    }
}

/// The failing files among the first `n`.
pub open spec fn failures(files: Seq<PackFile>, n: int) -> nat
    decreases n,
{
    if n <= 0 {
        0
    } else {
        failures(files, n - 1) + if file_fails(files[n - 1]) {
            1nat
        } else {
            0nat
        }
    }
}

/// A record as plain values: its file, its array slot and its value.
pub type RecordModel = (Seq<char>, int, JsonModel);

pub open spec fn record_model(e: Entity) -> RecordModel {
    (e.source_file@, e.array_index as int, e.json@)
}

/// The records a data file yields, in array order, under its relative path:
/// none where it cannot be read or holds no array.
pub open spec fn file_records(f: PackFile) -> Seq<RecordModel> {
    match f.content {
        Ok(t) => match json_text_parse(t@) {
            Ok(JsonModel::Array(items)) => record_indices(items, items.len() as int).map_values(
                |k: int| (f.relative@, k, items[k]),
            ),
            _ => Seq::empty(),
        },
        Err(_) => Seq::empty(),
    }
}

/// The records of the first `n` files, file after file.
pub open spec fn all_file_records(files: Seq<PackFile>, n: int) -> Seq<RecordModel>
    decreases n,
{
    if n <= 0 {
        Seq::empty()
    } else {
        all_file_records(files, n - 1) + file_records(files[n - 1])
    }
}

/// From position `from` on, the records stand, in order, for `recs`, each
/// with the metadata its value has.
pub open spec fn records_from(es: Seq<(String, Entity)>, from: int, recs: Seq<RecordModel>) -> bool {
    &&& es.len() == from + recs.len()
    &&& forall|q: int|
        0 <= q < recs.len() ==> record_model(es[from + q].1) == #[trigger] recs[q] && meta_of(
            es[from + q].1.json@,
        ) == Some(es[from + q].1.meta@)
}

/// From position `from` on, no record is dirty.
pub open spec fn clean_from(es: Seq<(String, Entity)>, from: int) -> bool {
    forall|k: int| from <= k < es.len() ==> !(#[trigger] es[k]).1.dirty
}

proof fn lemma_push_keeps_order(es: Seq<(String, Entity)>, from: int, x: (String, Entity))
    requires
        0 <= from <= es.len(),
        keys_in_load_order(es, from),
        x.0@ == storage_key(keys_of(es), logical_key(x.1.meta@), x.1.source_file@),
    ensures
        keys_in_load_order(es.push(x), from),
{
    let n = es.push(x);
    assert forall|k: int| from <= k < n.len() implies (#[trigger] n[k]).0@ == storage_key(
        keys_of(n.take(k)),
        logical_key(n[k].1.meta@),
        n[k].1.source_file@,
    ) by {
        if k < es.len() {
            assert(n.take(k) =~= es.take(k));
            assert(n[k] == es[k]);
        } else {
            assert(n.take(k) =~= es);
        }
    }
}

impl ContentPack {
    /// Adds a record read from disk. It is stored under its `type:id` while
    /// that is free, else under `type:id@stem` of its file, with `_1`, `_2`,
    /// ... appended while that too is taken. Returns the storage key.
    pub fn add_loaded(&mut self, entity: Entity) -> (r: String)
        requires
            old(self).wf(),
            !entity.dirty,
        ensures
            final(self).wf(),
            crate::workspace::same_identity(*old(self), *final(self)),
            final(self).dirty_files == old(self).dirty_files,
            r@ == storage_key(keys_of(old(self).entities@), logical_key(entity.meta@), entity.source_file@),
            final(self).entities@ == old(self).entities@.push((r, entity)),
    {
        let key = entity.key();
        let sk = if contains_key(&self.entities, &key) {
            make_unique_key(key.as_str(), entity.source_file.as_str(), &self.entities)
        } else {
            key
        };
        let ghost es = self.entities@;
        let r = sk.clone();
        proof {
            crate::workspace::lemma_clean_push(es, (sk, entity));
        }
        self.entities.push((sk, entity));
        proof {
            let ks = es.map_values(|e: (String, Entity)| e.0@);
            assert forall|a: int, b: int|
                0 <= a < self.entities@.len() && 0 <= b < self.entities@.len() && a != b implies self.entities@[a].0@
                != self.entities@[b].0@ by {
                if a == es.len() {
                    assert(ks[b] == es[b].0@);
                } else if b == es.len() {
                    assert(ks[a] == es[a].0@);
                }
            }
        }
        r
    }

    /// Loads each file in turn into the pack: a file that cannot be read or
    /// parsed is recorded in `errors` and the others still load.
    pub fn load_files(&mut self, files: &Vec<PackFile>, errors: &mut Vec<String>)
        requires
            old(self).wf(),
        ensures
            final(self).wf(),
            crate::workspace::same_identity(*old(self), *final(self)),
            final(self).dirty_files == old(self).dirty_files,
            final(self).entities@.len() >= old(self).entities@.len(),
            final(self).entities@.take(old(self).entities@.len() as int) == old(self).entities@,
            keys_in_load_order(final(self).entities@, old(self).entities@.len() as int),
            clean_from(final(self).entities@, old(self).entities@.len() as int),
            final(self).entities@.len() == old(self).entities@.len() + records_total(files@, files@.len() as int),
            records_from(final(self).entities@, old(self).entities@.len() as int, all_file_records(files@, files@.len() as int)),
            final(errors)@.len() == old(errors)@.len() + failures(files@, files@.len() as int),
    {
        let mut f: usize = 0;
        while f < files.len()
            invariant
                f <= files@.len(),
                self.wf(),
                crate::workspace::same_identity(*old(self), *self),
                self.dirty_files == old(self).dirty_files,
                self.entities@.len() >= old(self).entities@.len(),
                self.entities@.take(old(self).entities@.len() as int) == old(self).entities@,
                keys_in_load_order(self.entities@, old(self).entities@.len() as int),
                clean_from(self.entities@, old(self).entities@.len() as int),
                self.entities@.len() == old(self).entities@.len() + records_total(files@, f as int),
                records_from(self.entities@, old(self).entities@.len() as int, all_file_records(files@, f as int)),
                errors@.len() == old(errors)@.len() + failures(files@, f as int),
            decreases files.len() - f,
        {
            let file = &files[f];
            let loaded = match &file.content {
                Ok(text) => load_entities_from_file(file.path.as_str(), file.relative.as_str(), text.as_str()),
                Err(msg) => Err(LoadError::IoError { path: file.path.clone(), message: msg.clone() }),
            };
            match loaded {
                Ok(entities) => {
                    let ghost start_len = self.entities@.len();
                    let ghost count = entities@.len();
                    let ghost v0 = entities@;
                    let ghost done = all_file_records(files@, f as int);
                    let ghost fr = file_records(files@[f as int]);
                    proof {
                        let t = file.content->Ok_0;
                        let items = json_text_parse(t@)->Ok_0->Array_0;
                        assert(json_text_parse(t@) == Ok::<JsonModel, Seq<char>>(JsonModel::Array(items)));
                        assert(fr.len() == count);
                        assert forall|q: int| 0 <= q < count implies record_model(#[trigger] v0[q]) == fr[q]
                            && meta_of(v0[q].json@) == Some(v0[q].meta@) by {
                            let idx = record_indices(items, items.len() as int);
                            assert(fr[q] == (file.relative@, idx[q], items[idx[q]]));
                        }
                        assert(fr.take(0) =~= Seq::<RecordModel>::empty());
                        assert(done + fr.take(0) =~= done);
                    }
                    let mut entities = entities;
                    while entities.len() > 0
                        invariant
                            self.wf(),
                            crate::workspace::same_identity(*old(self), *self),
                            self.dirty_files == old(self).dirty_files,
                            self.entities@.len() >= old(self).entities@.len(),
                            self.entities@.take(old(self).entities@.len() as int) == old(self).entities@,
                            keys_in_load_order(self.entities@, old(self).entities@.len() as int),
                            clean_from(self.entities@, old(self).entities@.len() as int),
                            forall|q: int| 0 <= q < entities@.len() ==> !(#[trigger] entities@[q]).dirty,
                            self.entities@.len() + entities@.len() == start_len + count,
                            entities@.len() <= count,
                            v0.len() == count,
                            entities@ == v0.subrange(count - entities@.len(), count as int),
                            fr.len() == count,
                            forall|q: int| 0 <= q < count ==> record_model(#[trigger] v0[q]) == fr[q]
                                && meta_of(v0[q].json@) == Some(v0[q].meta@),
                            records_from(self.entities@, old(self).entities@.len() as int, done + fr.take(count - entities@.len())),
                        decreases entities.len(),
                    {
                        let ghost before = self.entities@;
                        let ghost c = count - entities@.len();
                        let ghost eb = entities@;
                        assert(eb[0] == v0[c]);
                        let e = entities.remove(0);
                        assert(entities@ == eb.remove(0));
                        assert(e == v0[c]);
                        assert(entities@ =~= v0.subrange(c + 1, count as int));
                        let key = self.add_loaded(e);
                        proof {
                            let o = old(self).entities@.len() as int;
                            let recs = done + fr.take(c + 1);
                            assert(recs =~= (done + fr.take(c)).push(fr[c]));
                            assert forall|q: int| 0 <= q < recs.len() implies record_model(self.entities@[o + q].1)
                                == #[trigger] recs[q] && meta_of(self.entities@[o + q].1.json@) == Some(
                                self.entities@[o + q].1.meta@,
                            ) by {
                                if q < recs.len() - 1 {
                                    assert(self.entities@[o + q] == before[o + q]);
                                    assert(recs[q] == (done + fr.take(c))[q]);
                                }
                            }
                            lemma_push_keeps_order(before, old(self).entities@.len() as int, (key, e));
                            assert(self.entities@.take(old(self).entities@.len() as int) =~= before.take(
                                old(self).entities@.len() as int,
                            ));
                        }
                    }
                    assert(fr.take(count as int) =~= fr);
                },
                Err(e) => {
                    proof {
                        assert(file_records(files@[f as int]) =~= Seq::<RecordModel>::empty());
                        assert(all_file_records(files@, f + 1) =~= all_file_records(files@, f as int));
                    }
                    let head = concat(file.path.as_str(), ": ");
                    let line = concat(head.as_str(), e.message().as_str());
                    errors.push(line);
                },
            }
            f += 1;
        }
    }
}

/// What loading a pack reports.
#[derive(Debug)]
pub struct PackLoadResult {
    pub pack_id: PackId,
    pub name: String,
    pub entity_tree: EntityTree,
    pub load_stats: LoadStats,
}

/// Relies on `uuid::Uuid::new_v4`: a random identifier, as its 128-bit value.
#[verifier::external_body]
fn new_pack_id() -> (r: PackId) {
    uuid::Uuid::new_v4().as_u128()
}

/// A pack's metadata: from its root manifest, and for the base game from
/// the bundled one where the root has none.
pub fn pack_metadata(is_base_game: bool, root_manifest: &FileText, bundled_manifest: &FileText) -> (r: Option<PackMetadata>)
    ensures
        metadata_result(
            if is_base_game && *root_manifest is Missing {
                *bundled_manifest
            } else {
                *root_manifest
            },
            r,
        ),
{
    if is_base_game {
        load_pack_metadata_for_base_game(root_manifest, bundled_manifest)
    } else {
        load_pack_metadata(root_manifest)
    }
}

/// The pack `id` read from `files`: every record of every file that could be
/// read and parsed, with the load's counts and per-file errors.
pub fn assemble_pack(
    id: PackId,
    name: String,
    root: &str,
    read_only: bool,
    metadata: Option<PackMetadata>,
    files: &Vec<PackFile>,
) -> (r: (ContentPack, LoadStats))
    ensures
        r.0.wf(),
        r.0.id == id,
        r.0.name == name,
        r.0.path@ == root@,
        r.0.read_only == read_only,
        r.0.metadata == metadata,
        r.0.dirty_files@.len() == 0,
        keys_in_load_order(r.0.entities@, 0),
        clean_from(r.0.entities@, 0),
        records_from(r.0.entities@, 0, all_file_records(files@, files@.len() as int)),
        r.1.files_scanned == files@.len(),
        r.1.entities_loaded == r.0.entities@.len(),
        r.0.entities@.len() == records_total(files@, files@.len() as int),
        r.1.errors@.len() == failures(files@, files@.len() as int),
{
    let mut pack = ContentPack::new(id, name, owned(root), read_only);
    pack.metadata = metadata;
    let mut errors: Vec<String> = Vec::new();
    pack.load_files(files, &mut errors);
    let stats = LoadStats { files_scanned: files.len(), entities_loaded: pack.entities.len(), errors };
    (pack, stats)
}

/// The name a pack is shown under: the one given, else the one detected.
pub fn resolve_pack_name(name_override: Option<String>, root_manifest: &FileText, dir_name: Option<&str>) -> (r: String)
    ensures
        r@ == match name_override {
            Some(n) => n@,
            None => detected_name(
                *root_manifest,
                match dir_name {
                    Some(d) => Some(d@),
                    None => None,
                },
            ),
        },
{
    match name_override {
        Some(n) => n,
        None => detect_pack_name(root_manifest, dir_name),
    }
}

/// Loads a pack from what was read of its directory `root`, under a new
/// random id. Returns what a caller is told, and the pack itself.
pub fn load_content_pack(
    root: &str,
    dir_name: Option<&str>,
    read_only: bool,
    name_override: Option<String>,
    is_base_game: bool,
    root_manifest: &FileText,
    bundled_manifest: &FileText,
    files: &Vec<PackFile>,
) -> (r: (PackLoadResult, ContentPack))
    ensures
        r.1.wf(),
        r.0.pack_id == r.1.id,
        r.0.name == r.1.name,
        r.1.name@ == match name_override {
            Some(n) => n@,
            None => detected_name(
                *root_manifest,
                match dir_name {
                    Some(d) => Some(d@),
                    None => None,
                },
            ),
        },
        r.1.path@ == root@,
        r.1.read_only == read_only,
        metadata_result(
            if is_base_game && *root_manifest is Missing {
                *bundled_manifest
            } else {
                *root_manifest
            },
            r.1.metadata,
        ),
        r.1.dirty_files@.len() == 0,
        keys_in_load_order(r.1.entities@, 0),
        clean_from(r.1.entities@, 0),
        records_from(r.1.entities@, 0, all_file_records(files@, files@.len() as int)),
        r.0.load_stats.files_scanned == files@.len(),
        r.0.load_stats.entities_loaded == r.1.entities@.len(),
        r.1.entities@.len() == records_total(files@, files@.len() as int),
        r.0.load_stats.errors@.len() == failures(files@, files@.len() as int),
        tree_groups(r.0.entity_tree.by_type@, r.1.entities@, true),
        tree_groups(r.0.entity_tree.by_file@, r.1.entities@, false),
{
    let id = new_pack_id();
    let name = resolve_pack_name(name_override, root_manifest, dir_name);
    let metadata = pack_metadata(is_base_game, root_manifest, bundled_manifest);
    let (pack, stats) = assemble_pack(id, name.clone(), root, read_only, metadata, files);
    let tree = pack.to_entity_tree();
    (PackLoadResult { pack_id: id, name, entity_tree: tree, load_stats: stats }, pack)
}

/// The pack that `result` reported, built again from what was read, under
/// the reported id and the given name (else the reported one).
pub fn create_pack_from_result(
    result: &PackLoadResult,
    root: &str,
    read_only: bool,
    name_override: Option<String>,
    is_base_game: bool,
    root_manifest: &FileText,
    bundled_manifest: &FileText,
    files: &Vec<PackFile>,
) -> (r: ContentPack)
    ensures
        r.wf(),
        r.id == result.pack_id,
        r.name@ == match name_override {
            Some(n) => n@,
            None => result.name@,
        },
        r.path@ == root@,
        r.read_only == read_only,
        r.dirty_files@.len() == 0,
        metadata_result(
            if is_base_game && *root_manifest is Missing {
                *bundled_manifest
            } else {
                *root_manifest
            },
            r.metadata,
        ),
        keys_in_load_order(r.entities@, 0),
        clean_from(r.entities@, 0),
        r.entities@.len() == records_total(files@, files@.len() as int),
        records_from(r.entities@, 0, all_file_records(files@, files@.len() as int)),
{
    let name = match name_override {
        Some(n) => n,
        None => result.name.clone(),
    };
    let metadata = pack_metadata(is_base_game, root_manifest, bundled_manifest);
    let (pack, _stats) = assemble_pack(result.pack_id, name, root, read_only, metadata, files);
    pack
}

/// Whether a directory named `name` is left out of the walk.
pub fn is_excluded_dir(name: &str, exclude_dirs: &Vec<String>) -> (r: bool)
    ensures
        r == views(exclude_dirs@).contains(name@),
{
    let ghost vs = views(exclude_dirs@);
    let mut i: usize = 0;
    while i < exclude_dirs.len()
        invariant
            i <= exclude_dirs@.len(),
            vs == views(exclude_dirs@),
            forall|k: int| 0 <= k < i ==> vs[k] != name@,
        decreases exclude_dirs.len() - i,
    {
        if str_eq(exclude_dirs[i].as_str(), name) {
            assert(vs[i as int] == name@);
            return true;
        }
        i += 1;
    }
    false
}

/// A file holds records where its extension is `json` and it is not the
/// manifest `modinfo.json`.
pub open spec fn is_entity_file_name(name: Seq<char>) -> bool {
    let dot = crate::keys::last_index_of(name, '.');
    &&& name != "modinfo.json"@
    &&& dot is Some
    &&& dot->0 > 0
    &&& name.subrange(dot->0 + 1, name.len() as int) == "json"@
}

/// Whether a file named `file_name` holds records.
pub fn is_entity_file(file_name: &str) -> (r: bool)
    ensures
        r == is_entity_file_name(file_name@),
{
    if str_eq(file_name, "modinfo.json") {
        return false;
    }
    let dot = crate::keys::find_last(file_name, '.');
    match dot {
        Some(d) => {
            if d == 0 {
                return false;
            }
            let n = file_name.unicode_len();
            str_eq(file_name.substring_char(d + 1, n), "json")
        },
        None => false,
    }
}

} // verus!
