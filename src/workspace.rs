use vstd::prelude::*;

use crate::entity::{logical_key, meta_of, opt_view, Entity, EntityData, EntityMeta, MetaModel, UpdateResult};
use crate::json::{json_text_parse, parse_json, JsonModel};
use crate::keys::{contains_key, keys_of, make_unique_key, storage_key};
use crate::text::str_eq;
use crate::validator::{same_report, text_report, validate_json_text};

verus! {

/// An opaque identifier of a loaded pack.
pub type PackId = u128;

/// What a pack's manifest says of it.
#[derive(Debug, Clone)]
pub struct PackMetadata {
    pub mod_id: Option<String>,
    pub mod_type: Option<String>,
    pub dependencies: Vec<String>,
    pub description: Option<String>,
    pub version: Option<String>,
    pub lua_api_version: Option<String>,
    pub authors: Vec<String>,
    pub category: Option<String>,
}

/// Why a workspace operation failed.
#[derive(Debug)]
pub enum WorkspaceError {
    /// No pack has this id.
    PackNotFound(PackId),
    /// The pack has no entity under this key.
    EntityNotFound(String),
    /// The pack was loaded read-only.
    ReadOnly,
    /// The text is valid JSON but yields no type and id.
    NoMetadata,
    /// The pack has this many files with unsaved edits.
    UnsavedFiles(usize),
    /// A file could not be read or written.
    Io { path: String, message: String },
    /// A file did not hold what was expected.
    Parse { path: String, message: String },
}

/// One loaded pack: its records by storage key, and the files with unsaved edits.
#[derive(Debug)]
pub struct ContentPack {
    pub id: PackId,
    pub name: String,
    /// The pack's root directory.
    pub path: String,
    pub read_only: bool,
    /// Each record under its storage key; no key occurs twice.
    pub entities: Vec<(String, Entity)>,
    /// Files holding at least one record with unsaved edits, each once.
    pub dirty_files: Vec<String>,
    pub metadata: Option<PackMetadata>,
}

/// No storage key occurs twice.
pub open spec fn keys_unique(es: Seq<(String, Entity)>) -> bool {
    forall|i: int, j: int| 0 <= i < es.len() && 0 <= j < es.len() && i != j ==> es[i].0@ != es[j].0@
}

/// No file is listed twice.
pub open spec fn files_unique(fs: Seq<String>) -> bool {
    forall|i: int, j: int| 0 <= i < fs.len() && 0 <= j < fs.len() && i != j ==> fs[i]@ != fs[j]@
}

/// The files listed.
pub open spec fn file_set(fs: Seq<String>) -> Set<Seq<char>> {
    fs.map_values(|f: String| f@).to_set()
}

/// The files that hold a dirty record.
pub open spec fn dirty_file_set(es: Seq<(String, Entity)>) -> Set<Seq<char>> {
    Set::new(|f: Seq<char>| exists|i: int| 0 <= i < es.len() && es[i].1.dirty && es[i].1.source_file@ == f)
}

/// Making record `i` dirty adds its file to the files with dirty records.
pub proof fn lemma_dirty_update(es: Seq<(String, Entity)>, i: int, x: (String, Entity))
    requires
        0 <= i < es.len(),
        x.1.dirty,
        x.1.source_file@ == es[i].1.source_file@,
    ensures
        dirty_file_set(es.update(i, x)) == dirty_file_set(es).insert(es[i].1.source_file@),
{
    let n = es.update(i, x);
    let f = es[i].1.source_file@;
    assert forall|y: Seq<char>| dirty_file_set(n).contains(y) <==> dirty_file_set(es).insert(f).contains(y) by {
        if dirty_file_set(n).contains(y) {
            let k = choose|k: int| 0 <= k < n.len() && n[k].1.dirty && n[k].1.source_file@ == y;
            if k != i {
                assert(es[k] == n[k]);
                assert(dirty_file_set(es).contains(y));
            }
        }
        if y == f {
            assert(n[i].1.dirty && n[i].1.source_file@ == y);
        } else if dirty_file_set(es).contains(y) {
            let k = choose|k: int| 0 <= k < es.len() && es[k].1.dirty && es[k].1.source_file@ == y;
            assert(k != i);
            assert(n[k] == es[k]);
        }
    }
    assert(dirty_file_set(n) =~= dirty_file_set(es).insert(f));
}

/// Clearing the records of file `f` takes `f` out of the files with dirty records.
pub proof fn lemma_clear_file(old: Seq<(String, Entity)>, new: Seq<(String, Entity)>, f: Seq<char>)
    requires
        new.len() == old.len(),
        forall|k: int|
            0 <= k < old.len() ==> (#[trigger] new[k]).1.source_file == old[k].1.source_file && new[k].1.dirty == (
            old[k].1.dirty && old[k].1.source_file@ != f),
    ensures
        dirty_file_set(new) == dirty_file_set(old).remove(f),
{
    assert forall|y: Seq<char>| dirty_file_set(new).contains(y) <==> dirty_file_set(old).remove(f).contains(y) by {
        if dirty_file_set(new).contains(y) {
            let k = choose|k: int| 0 <= k < new.len() && new[k].1.dirty && new[k].1.source_file@ == y;
            assert(old[k].1.dirty && old[k].1.source_file@ == y);
        }
        if dirty_file_set(old).remove(f).contains(y) {
            let k = choose|k: int| 0 <= k < old.len() && old[k].1.dirty && old[k].1.source_file@ == y;
            assert(new[k].1.dirty && new[k].1.source_file@ == y);
        }
    }
    assert(dirty_file_set(new) =~= dirty_file_set(old).remove(f));
}

/// Adding a clean record leaves the files with dirty records as they were.
pub proof fn lemma_clean_push(es: Seq<(String, Entity)>, x: (String, Entity))
    requires
        !x.1.dirty,
    ensures
        dirty_file_set(es.push(x)) == dirty_file_set(es),
{
    let n = es.push(x);
    assert forall|y: Seq<char>| dirty_file_set(n).contains(y) <==> dirty_file_set(es).contains(y) by {
        if dirty_file_set(n).contains(y) {
            let k = choose|k: int| 0 <= k < n.len() && n[k].1.dirty && n[k].1.source_file@ == y;
            assert(k < es.len());
            assert(es[k] == n[k]);
        }
        if dirty_file_set(es).contains(y) {
            let k = choose|k: int| 0 <= k < es.len() && es[k].1.dirty && es[k].1.source_file@ == y;
            assert(n[k] == es[k]);
        }
    }
    assert(dirty_file_set(n) =~= dirty_file_set(es));
}

/// The position of the record stored under `key`.
pub open spec fn key_index(es: Seq<(String, Entity)>, key: Seq<char>) -> int {
    choose|i: int| 0 <= i < es.len() && es[i].0@ == key
}

/// The record `e` after an accepted edit to `j` with metadata `m`.
pub open spec fn edited(e: Entity, j: JsonModel, m: MetaModel, n: Entity) -> bool {
    &&& n.json@ == j
    &&& n.meta@ == m
    &&& n.source_file == e.source_file
    &&& n.array_index == e.array_index
    &&& n.dirty
}

/// Under unique keys, the record stored under a key is found at its position.
pub proof fn lemma_key_index(es: Seq<(String, Entity)>, key: Seq<char>, i: int)
    requires
        keys_unique(es),
        0 <= i < es.len(),
        es[i].0@ == key,
    ensures
        key_index(es, key) == i,
        keys_of(es).contains(key),
{
    let ks = es.map_values(|e: (String, Entity)| e.0@);
    assert(ks[i] == key);
    assert(ks.contains(key));
    let k = key_index(es, key);
    assert(0 <= k < es.len() && es[k].0@ == key);
}

/// `new` is `old` after an accepted edit of the record under `key` to the
/// value `j` with metadata `m`: the record keeps its file and array slot,
/// takes the new value and becomes dirty, and its file is listed as having
/// unsaved edits. Where its `type:id` is unchanged it keeps its storage key;
/// where that changed, it is stored under the key that its new `type:id`
/// gets among the other records' keys (suffixed on a clash, as at load time).
pub open spec fn update_applied(
    old: ContentPack,
    new: ContentPack,
    key: Seq<char>,
    j: JsonModel,
    m: MetaModel,
    new_key: Option<Seq<char>>,
) -> bool {
    let i = key_index(old.entities@, key);
    let e = old.entities@[i].1;
    let sk = if logical_key(m) == logical_key(e.meta@) {
        key
    } else {
        storage_key(keys_of(old.entities@.remove(i)), logical_key(m), e.source_file@)
    };
    &&& new.entities@.len() == old.entities@.len()
    &&& (forall|k: int| 0 <= k < old.entities@.len() && k != i ==> new.entities@[k] == old.entities@[k])
    &&& new.entities@[i].0@ == sk
    &&& edited(e, j, m, new.entities@[i].1)
    &&& file_set(new.dirty_files@) == file_set(old.dirty_files@).insert(e.source_file@)
    &&& new_key == if sk != key {
        Some(sk)
    } else {
        None
    }
}

/// What submitting `text` for the record under `key` does to a pack: see
/// [`ContentPack::update_entity`].
pub open spec fn update_outcome(
    old: ContentPack,
    new: ContentPack,
    key: Seq<char>,
    text: Seq<char>,
    r: Result<UpdateResult, WorkspaceError>,
) -> bool {
    &&& same_identity(old, new)
    &&& (r matches Ok(u) ==> same_report(u.validation@, text_report(text)))
    &&& (old.read_only ==> (r matches Err(WorkspaceError::ReadOnly)) && new == old)
    &&& (!old.read_only && !text_report(text).valid ==> (r matches Ok(u) && !u.accepted && u.new_key is None
        && u.meta is None) && new == old)
    &&& (!old.read_only && text_report(text).valid ==> match json_text_parse(text) {
        Ok(j) => match meta_of(j) {
            None => (r matches Err(WorkspaceError::NoMetadata)) && new == old,
            Some(m) => if !old.has_key(key) {
                (r matches Err(WorkspaceError::EntityNotFound(k)) && k@ == key) && new == old
            } else {
                match r {
                    Ok(u) => u.accepted && (u.meta matches Some(um) && um@ == m) && update_applied(
                        old,
                        new,
                        key,
                        j,
                        m,
                        opt_view(u.new_key),
                    ),
                    Err(_) => false,
                }
            },
        },
        Err(_) => false,
    })
}

/// The parts of a pack that no entity operation changes.
pub open spec fn same_identity(a: ContentPack, b: ContentPack) -> bool {
    a.id == b.id && a.name == b.name && a.path == b.path && a.read_only == b.read_only && a.metadata
        == b.metadata
}

proof fn lemma_insert_unique_key(es: Seq<(String, Entity)>, i: int, x: (String, Entity))
    requires
        keys_unique(es),
        0 <= i <= es.len(),
        !keys_of(es).contains(x.0@),
    ensures
        keys_unique(es.insert(i, x)),
{
    let ks = es.map_values(|e: (String, Entity)| e.0@);
    let n = es.insert(i, x);
    assert forall|a: int, b: int| 0 <= a < n.len() && 0 <= b < n.len() && a != b implies n[a].0@
        != n[b].0@ by {
        if a == i {
            let q = if b < i { b } else { b - 1 };
            assert(ks[q] == es[q].0@);
        } else if b == i {
            let q = if a < i { a } else { a - 1 };
            assert(ks[q] == es[q].0@);
        }
    }
}

proof fn lemma_removed_key_absent(es: Seq<(String, Entity)>, i: int)
    requires
        keys_unique(es),
        0 <= i < es.len(),
    ensures
        !keys_of(es.remove(i)).contains(es[i].0@),
{
    let r = es.remove(i);
    let ks = r.map_values(|e: (String, Entity)| e.0@);
    if ks.contains(es[i].0@) {
        let k = choose|k: int| 0 <= k < ks.len() && ks[k] == es[i].0@;
        let k2 = if k < i { k } else { k + 1 };
        assert(r[k] == es[k2]);
    }
}

proof fn lemma_remove_keeps_unique(es: Seq<(String, Entity)>, i: int)
    requires
        keys_unique(es),
        0 <= i < es.len(),
    ensures
        keys_unique(es.remove(i)),
{
    let r = es.remove(i);
    assert forall|a: int, b: int| 0 <= a < r.len() && 0 <= b < r.len() && a != b implies r[a].0@
        != r[b].0@ by {
        let a2 = if a < i { a } else { a + 1 };
        let b2 = if b < i { b } else { b + 1 };
        assert(r[a] == es[a2] && r[b] == es[b2]);
    }
}

impl ContentPack {
    /// Storage keys are unique, and the files listed as having unsaved
    /// edits, each once, are exactly the files of the dirty records.
    pub open spec fn wf(&self) -> bool {
        &&& keys_unique(self.entities@)
        &&& files_unique(self.dirty_files@)
        &&& file_set(self.dirty_files@) == dirty_file_set(self.entities@)
    }

    pub open spec fn has_key(&self, key: Seq<char>) -> bool {
        keys_of(self.entities@).contains(key)
    }

    /// An empty pack.
    pub fn new(id: PackId, name: String, path: String, read_only: bool) -> (r: ContentPack)
        ensures
            r.wf(),
            r.id == id,
            r.name == name,
            r.path == path,
            r.read_only == read_only,
            r.entities@.len() == 0,
            r.dirty_files@.len() == 0,
            r.metadata is None,
    {
        let r = ContentPack { id, name, path, read_only, entities: Vec::new(), dirty_files: Vec::new(), metadata: None };
        assert(file_set(r.dirty_files@) =~= dirty_file_set(r.entities@)) by {
            assert forall|y: Seq<char>| !file_set(r.dirty_files@).contains(y) by {
                assert(!r.dirty_files@.map_values(|f: String| f@).contains(y));
            }
        }
        r
    }

    /// The position of the record stored under `key`.
    pub fn find_entity(&self, key: &str) -> (r: Option<usize>)
        ensures
            match r {
                Some(i) => i < self.entities@.len() && self.entities@[i as int].0@ == key@,
                None => !self.has_key(key@),
            },
    {
        let ghost ks = self.entities@.map_values(|e: (String, Entity)| e.0@);
        let mut i: usize = 0;
        while i < self.entities.len()
            invariant
                i <= self.entities@.len(),
                ks == self.entities@.map_values(|e: (String, Entity)| e.0@),
                forall|k: int| 0 <= k < i ==> ks[k] != key@,
            decreases self.entities.len() - i,
        {
            if str_eq(self.entities[i].0.as_str(), key) {
                return Some(i);
            }
            i += 1;
        }
        assert(!ks.contains(key@));
        None
    }

    /// Whether `file` is listed among the files with unsaved edits.
    pub fn has_dirty_file(&self, file: &String) -> (r: bool)
        ensures
            r == file_set(self.dirty_files@).contains(file@),
    {
        let ghost fs = self.dirty_files@.map_values(|f: String| f@);
        let mut i: usize = 0;
        while i < self.dirty_files.len()
            invariant
                i <= self.dirty_files@.len(),
                fs == self.dirty_files@.map_values(|f: String| f@),
                forall|k: int| 0 <= k < i ==> fs[k] != file@,
            decreases self.dirty_files.len() - i,
        {
            if self.dirty_files[i] == *file {
                assert(fs[i as int] == file@);
                return true;
            }
            i += 1;
        }
        assert(!fs.contains(file@));
        false
    }

    /// The record under `key`, as handed out for editing.
    pub fn get_entity(&self, key: &str) -> (r: Result<EntityData, WorkspaceError>)
        requires
            self.wf(),
        ensures
            match r {
                Ok(d) => {
                    let e = self.entities@[key_index(self.entities@, key@)].1;
                    &&& self.has_key(key@)
                    &&& d.key@ == logical_key(e.meta@)
                    &&& d.meta@ == e.meta@
                    &&& d.json_text@ == crate::json::pretty_text_of(e.json@)
                    &&& d.dirty == e.dirty
                    &&& d.source_file@ == e.source_file@
                    &&& d.read_only == self.read_only
                },
                Err(WorkspaceError::EntityNotFound(k)) => !self.has_key(key@) && k@ == key@,
                Err(_) => false,
            },
    {
        match self.find_entity(key) {
            Some(i) => {
                proof {
                    lemma_key_index(self.entities@, key@, i as int);
                }
                Ok(self.entities[i].1.to_data(self.read_only))
            },
            None => Err(WorkspaceError::EntityNotFound(crate::text::owned(key))),
        }
    }
}

impl ContentPack {
    /// Submits a new text for the record under `key`. A read-only pack refuses
    /// it. A text that the validator rejects changes nothing and comes back
    /// not accepted, with the report. A valid text without type and id is an
    /// error. Otherwise the record takes the new value in place (same file and
    /// slot), becomes dirty, and is re-keyed when its `type:id` changed; a new
    /// key that another record holds is suffixed as at load time.
    pub fn update_entity(&mut self, key: &str, new_json_text: &str) -> (r: Result<
        UpdateResult,
        WorkspaceError,
    >)
        requires
            old(self).wf(),
        ensures
            final(self).wf(),
            update_outcome(*old(self), *final(self), key@, new_json_text@, r),
    {
        if self.read_only {
            return Err(WorkspaceError::ReadOnly);
        }
        let validation = validate_json_text(new_json_text);
        if !validation.valid {
            return Ok(UpdateResult { validation, accepted: false, new_key: None, meta: None });
        }
        let new_json = match parse_json(new_json_text) {
            Ok(j) => j,
            Err(_) => {
                return Err(WorkspaceError::NoMetadata);
            },
        };
        let new_meta = match EntityMeta::from_json(&new_json) {
            Some(m) => m,
            None => {
                return Err(WorkspaceError::NoMetadata);
            },
        };
        let i = match self.find_entity(key) {
            Some(i) => i,
            None => {
                return Err(WorkspaceError::EntityNotFound(crate::text::owned(key)));
            },
        };
        let ghost old_entities = self.entities@;
        proof {
            lemma_key_index(old_entities, key@, i as int);
            lemma_remove_keeps_unique(old_entities, i as int);
        }
        let (old_key, old_entity) = self.entities.remove(i);
        proof {
            lemma_removed_key_absent(old_entities, i as int);
        }
        let head = crate::text::concat(new_meta.entity_type.as_str(), ":");
        let logical = crate::text::concat(head.as_str(), new_meta.id.as_str());
        let previous = old_entity.key();
        let sk = if logical == previous {
            old_key.clone()
        } else if contains_key(&self.entities, &logical) {
            make_unique_key(logical.as_str(), old_entity.source_file.as_str(), &self.entities)
        } else {
            logical
        };
        let source = old_entity.source_file.clone();
        let entity = Entity {
            meta: new_meta.duplicate(),
            json: new_json,
            source_file: old_entity.source_file,
            array_index: old_entity.array_index,
            dirty: true,
        };
        let changed = !(sk == old_key);
        let new_key = if changed {
            Some(sk.clone())
        } else {
            None
        };
        proof {
            lemma_insert_unique_key(self.entities@, i as int, (sk, entity));
        }
        self.entities.insert(i, (sk, entity));
        assert(self.entities@ =~= old_entities.update(i as int, (sk, entity)));
        proof {
            lemma_dirty_update(old_entities, i as int, (sk, entity));
        }
        let ghost fs = self.dirty_files@;
        if !self.has_dirty_file(&source) {
            self.dirty_files.push(source);
            proof {
                let ks = fs.map_values(|f: String| f@);
                let ks2 = self.dirty_files@.map_values(|f: String| f@);
                assert(ks2 =~= ks.push(source@));
                assert forall|y: Seq<char>| ks2.contains(y) <==> (ks.contains(y) || y == source@) by {
                    if ks2.contains(y) {
                        let k = choose|k: int| 0 <= k < ks2.len() && ks2[k] == y;
                        if k < ks.len() {
                            assert(ks[k] == y);
                        }
                    }
                    if ks.contains(y) {
                        let k = choose|k: int| 0 <= k < ks.len() && ks[k] == y;
                        assert(ks2[k] == y);
                    }
                    if y == source@ {
                        assert(ks2[ks.len() as int] == y);
                    }
                }
                assert(ks2.to_set() =~= ks.to_set().insert(source@));
                assert forall|a: int, b: int|
                    0 <= a < self.dirty_files@.len() && 0 <= b < self.dirty_files@.len() && a != b implies self.dirty_files@[a]@
                    != self.dirty_files@[b]@ by {
                    if a == fs.len() {
                        assert(ks[b] == fs[b]@);
                    } else if b == fs.len() {
                        assert(ks[a] == fs[a]@);
                    }
                }
            }
        } else {
            assert(file_set(fs).insert(source@) =~= file_set(fs));
        }
        Ok(UpdateResult { validation, accepted: true, new_key, meta: Some(new_meta) })
    }
}

} // verus!
