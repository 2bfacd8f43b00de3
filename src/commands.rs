use vstd::prelude::*;

use crate::entity::{EntityData, UpdateResult};
use crate::save::{plan_covers, FileEdits};
use crate::workspace::{
    file_set, key_index, same_identity, update_outcome, ContentPack, PackId, PackMetadata,
    WorkspaceError,
};

verus! {

/// Every loaded pack, in load order: the first has the lowest priority.
#[derive(Debug)]
pub struct Workspace {
    pub packs: Vec<ContentPack>,
}

/// A pack as listed.
#[derive(Debug)]
pub struct PackInfo {
    pub id: PackId,
    pub name: String,
    pub path: String,
    pub read_only: bool,
    pub entity_count: usize,
    pub has_dirty_files: bool,
    pub metadata: Option<PackMetadata>,
}

/// A snapshot of the workspace.
#[derive(Debug)]
pub struct WorkspaceState {
    pub packs: Vec<PackInfo>,
    pub load_order: Vec<PackId>,
}

/// The ids of `packs`, in order.
pub open spec fn ids(packs: Seq<ContentPack>) -> Seq<PackId> {
    packs.map_values(|p: ContentPack| p.id)
}

/// The position of the pack with id `id`.
pub open spec fn pack_index(packs: Seq<ContentPack>, id: PackId) -> int {
    choose|i: int| 0 <= i < packs.len() && packs[i].id == id
}

impl Workspace {
    /// No id occurs twice and every pack is well formed.
    pub open spec fn wf(&self) -> bool {
        &&& (forall|i: int, j: int|
            0 <= i < self.packs@.len() && 0 <= j < self.packs@.len() && i != j ==> self.packs@[i].id
                != self.packs@[j].id)
        &&& forall|i: int| 0 <= i < self.packs@.len() ==> (#[trigger] self.packs@[i]).wf()
    }

    pub open spec fn has_pack(&self, id: PackId) -> bool {
        ids(self.packs@).contains(id)
    }

    /// An empty workspace.
    pub fn new() -> (r: Workspace)
        ensures
            r.wf(),
            r.packs@.len() == 0,
    {
        Workspace { packs: Vec::new() }
    }

    /// The position of the pack with id `id`.
    pub fn find_pack(&self, id: PackId) -> (r: Option<usize>)
        ensures
            match r {
                Some(i) => i < self.packs@.len() && self.packs@[i as int].id == id,
                None => !self.has_pack(id),
            },
    {
        let mut i: usize = 0;
        while i < self.packs.len()
            invariant
                i <= self.packs@.len(),
                forall|k: int| 0 <= k < i ==> self.packs@[k].id != id,
            decreases self.packs.len() - i,
        {
            if self.packs[i].id == id {
                return Some(i);
            }
            i += 1;
        }
        assert(!ids(self.packs@).contains(id));
        None
    }

    /// The ids in load order.
    pub fn load_order(&self) -> (r: Vec<PackId>)
        ensures
            r@ == ids(self.packs@),
    {
        let mut r: Vec<PackId> = Vec::new();
        let mut i: usize = 0;
        while i < self.packs.len()
            invariant
                i <= self.packs@.len(),
                r@ == ids(self.packs@.subrange(0, i as int)),
            decreases self.packs.len() - i,
        {
            r.push(self.packs[i].id);
            assert(ids(self.packs@.subrange(0, i + 1)) =~= ids(self.packs@.subrange(0, i as int)).push(
                self.packs@[i as int].id,
            ));
            i += 1;
        }
        assert(self.packs@.subrange(0, self.packs@.len() as int) =~= self.packs@);
        r
    }
}

proof fn lemma_pack_index(packs: Seq<ContentPack>, id: PackId, i: int)
    requires
        forall|a: int, b: int| 0 <= a < packs.len() && 0 <= b < packs.len() && a != b ==> packs[a].id != packs[b].id,
        0 <= i < packs.len(),
        packs[i].id == id,
    ensures
        pack_index(packs, id) == i,
        ids(packs).contains(id),
{
    assert(ids(packs)[i] == id);
    let k = pack_index(packs, id);
    assert(0 <= k < packs.len() && packs[k].id == id);
}

/// `a` and `b` say the same.
pub open spec fn same_metadata(a: PackMetadata, b: PackMetadata) -> bool {
    &&& a.mod_id == b.mod_id
    &&& a.mod_type == b.mod_type
    &&& a.dependencies@ == b.dependencies@
    &&& a.description == b.description
    &&& a.version == b.version
    &&& a.lua_api_version == b.lua_api_version
    &&& a.authors@ == b.authors@
    &&& a.category == b.category
}

impl PackMetadata {
    fn copy_strings(v: &Vec<String>) -> (r: Vec<String>)
        ensures
            r@ == v@,
    {
        let mut r: Vec<String> = Vec::new();
        let mut i: usize = 0;
        while i < v.len()
            invariant
                i <= v@.len(),
                r@ == v@.subrange(0, i as int),
            decreases v.len() - i,
        {
            r.push(v[i].clone());
            assert(r@ =~= v@.subrange(0, i + 1));
            i += 1;
        }
        assert(v@.subrange(0, v@.len() as int) =~= v@);
        r
    }

    /// A copy.
    pub fn duplicate(&self) -> (r: PackMetadata)
        ensures
            same_metadata(r, *self),
    {
        let r = PackMetadata {
            mod_id: crate::entity::copy_opt(&self.mod_id),
            mod_type: crate::entity::copy_opt(&self.mod_type),
            dependencies: Self::copy_strings(&self.dependencies),
            description: crate::entity::copy_opt(&self.description),
            version: crate::entity::copy_opt(&self.version),
            lua_api_version: crate::entity::copy_opt(&self.lua_api_version),
            authors: Self::copy_strings(&self.authors),
            category: crate::entity::copy_opt(&self.category),
        };
        assert(r.dependencies@ =~= self.dependencies@);
        assert(r.authors@ =~= self.authors@);
        r
    }
}

impl ContentPack {
    /// The pack as listed.
    pub fn to_info(&self) -> (r: PackInfo)
        ensures
            r.id == self.id,
            r.name == self.name,
            r.path == self.path,
            r.read_only == self.read_only,
            r.entity_count == self.entities@.len(),
            r.has_dirty_files == (self.dirty_files@.len() > 0),
            match (r.metadata, self.metadata) {
                (Some(a), Some(b)) => same_metadata(a, b),
                (None, None) => true,
                _ => false,
            },
    {
        PackInfo {
            id: self.id,
            name: self.name.clone(),
            path: self.path.clone(),
            read_only: self.read_only,
            entity_count: self.entities.len(),
            has_dirty_files: self.dirty_files.len() > 0,
            metadata: match &self.metadata {
                Some(m) => Some(m.duplicate()),
                None => None,
            },
        }
    }
}

/// The record under `entity_key` in the pack `pack_id`, for editing.
pub fn get_entity(ws: &Workspace, pack_id: PackId, entity_key: &str) -> (r: Result<EntityData, WorkspaceError>)
    requires
        ws.wf(),
    ensures
        !ws.has_pack(pack_id) ==> (r matches Err(WorkspaceError::PackNotFound(id)) && id == pack_id),
        ws.has_pack(pack_id) ==> {
            let p = ws.packs@[pack_index(ws.packs@, pack_id)];
            &&& (r is Ok <==> p.has_key(entity_key@))
            &&& (r matches Ok(d) ==> {
                let e = p.entities@[key_index(p.entities@, entity_key@)].1;
                &&& d.key@ == crate::entity::logical_key(e.meta@)
                &&& d.meta@ == e.meta@
                &&& d.json_text@ == crate::json::pretty_text_of(e.json@)
                &&& d.source_file@ == e.source_file@
                &&& d.dirty == e.dirty
                &&& d.read_only == p.read_only
            })
        },
{
    match ws.find_pack(pack_id) {
        None => Err(WorkspaceError::PackNotFound(pack_id)),
        Some(i) => {
            proof {
                lemma_pack_index(ws.packs@, pack_id, i as int);
            }
            ws.packs[i].get_entity(entity_key)
        },
    }
}

/// Submits a new text for the record under `entity_key` in pack `pack_id`;
/// see [`ContentPack::update_entity`]. Other packs are untouched.
pub fn update_entity(ws: &mut Workspace, pack_id: PackId, entity_key: &str, new_json_text: &str) -> (r: Result<
    UpdateResult,
    WorkspaceError,
>)
    requires
        old(ws).wf(),
    ensures
        final(ws).wf(),
        final(ws).packs@.len() == old(ws).packs@.len(),
        !old(ws).has_pack(pack_id) ==> (r matches Err(WorkspaceError::PackNotFound(id)) && id == pack_id) && *final(ws)
            == *old(ws),
        old(ws).has_pack(pack_id) ==> {
            let i = pack_index(old(ws).packs@, pack_id);
            &&& update_outcome(old(ws).packs@[i], final(ws).packs@[i], entity_key@, new_json_text@, r)
            &&& forall|k: int| 0 <= k < old(ws).packs@.len() && k != i ==> final(ws).packs@[k] == old(ws).packs@[k]
        },
{
    match ws.find_pack(pack_id) {
        None => Err(WorkspaceError::PackNotFound(pack_id)),
        Some(i) => {
            proof {
                lemma_pack_index(ws.packs@, pack_id, i as int);
            }
            let ghost before = ws.packs@;
            let mut pack = ws.packs.remove(i);
            let r = pack.update_entity(entity_key, new_json_text);
            ws.packs.insert(i, pack);
            assert(ws.packs@ =~= before.update(i as int, pack));
            assert forall|a: int, b: int|
                0 <= a < ws.packs@.len() && 0 <= b < ws.packs@.len() && a != b implies ws.packs@[a].id
                != ws.packs@[b].id by {
                assert(ws.packs@[a].id == before[a].id);
                assert(ws.packs@[b].id == before[b].id);
            }
            assert forall|k: int| 0 <= k < ws.packs@.len() implies (#[trigger] ws.packs@[k]).wf() by {
                if k != i {
                    assert(ws.packs@[k] == before[k]);
                }
            }
            r
        },
    }
}

/// The edits that saving pack `pack_id` writes, per file; see
/// [`ContentPack::save_plan`].
pub fn save_plan(ws: &Workspace, pack_id: PackId) -> (r: Result<Vec<FileEdits>, WorkspaceError>)
    requires
        ws.wf(),
    ensures
        !ws.has_pack(pack_id) ==> (r matches Err(WorkspaceError::PackNotFound(id)) && id == pack_id),
        ws.has_pack(pack_id) ==> {
            let p = ws.packs@[pack_index(ws.packs@, pack_id)];
            &&& (p.read_only ==> r matches Err(WorkspaceError::ReadOnly))
            &&& (!p.read_only && p.dirty_files@.len() == 0 ==> (r matches Ok(g) && g@.len() == 0))
            &&& (!p.read_only && p.dirty_files@.len() > 0 ==> (r matches Ok(g) && plan_covers(
                g@,
                p.entities@,
                p.entities@.len() as int,
            )))
        },
{
    match ws.find_pack(pack_id) {
        None => Err(WorkspaceError::PackNotFound(pack_id)),
        Some(i) => {
            proof {
                lemma_pack_index(ws.packs@, pack_id, i as int);
            }
            ws.packs[i].save_plan()
        },
    }
}

/// Records that `file` of pack `pack_id` was written; see
/// [`ContentPack::mark_file_saved`].
pub fn mark_file_saved(ws: &mut Workspace, pack_id: PackId, file: &String) -> (r: Result<(), WorkspaceError>)
    requires
        old(ws).wf(),
    ensures
        final(ws).wf(),
        final(ws).packs@.len() == old(ws).packs@.len(),
        !old(ws).has_pack(pack_id) ==> r is Err && *final(ws) == *old(ws),
        old(ws).has_pack(pack_id) ==> {
            let i = pack_index(old(ws).packs@, pack_id);
            let a = old(ws).packs@[i];
            let b = final(ws).packs@[i];
            &&& r is Ok
            &&& same_identity(a, b)
            &&& file_set(b.dirty_files@) == file_set(a.dirty_files@).remove(file@)
            &&& b.entities@.len() == a.entities@.len()
            &&& forall|k: int|
                0 <= k < a.entities@.len() ==> (#[trigger] b.entities@[k]).1.dirty == (a.entities@[k].1.dirty
                    && a.entities@[k].1.source_file@ != file@)
        },
{
    match ws.find_pack(pack_id) {
        None => Err(WorkspaceError::PackNotFound(pack_id)),
        Some(i) => {
            proof {
                lemma_pack_index(ws.packs@, pack_id, i as int);
            }
            let ghost before = ws.packs@;
            let mut pack = ws.packs.remove(i);
            pack.mark_file_saved(file);
            ws.packs.insert(i, pack);
            assert(ws.packs@ =~= before.update(i as int, pack));
            assert forall|a: int, b: int|
                0 <= a < ws.packs@.len() && 0 <= b < ws.packs@.len() && a != b implies ws.packs@[a].id
                != ws.packs@[b].id by {
                assert(ws.packs@[a].id == before[a].id);
                assert(ws.packs@[b].id == before[b].id);
            }
            assert forall|k: int| 0 <= k < ws.packs@.len() implies (#[trigger] ws.packs@[k]).wf() by {
                if k != i {
                    assert(ws.packs@[k] == before[k]);
                }
            }
            Ok(())
        },
    }
}

/// `i` lists pack `p`.
pub open spec fn info_of(i: PackInfo, p: ContentPack) -> bool {
    &&& i.id == p.id
    &&& i.name == p.name
    &&& i.path == p.path
    &&& i.read_only == p.read_only
    &&& i.entity_count == p.entities@.len()
    &&& i.has_dirty_files == (p.dirty_files@.len() > 0)
    &&& match (i.metadata, p.metadata) {
        (Some(a), Some(b)) => same_metadata(a, b),
        (None, None) => true,
        _ => false,
    }
}

/// A snapshot: each pack as listed, and the load order.
pub fn get_workspace_state(ws: &Workspace) -> (r: WorkspaceState)
    ensures
        r.load_order@ == ids(ws.packs@),
        r.packs@.len() == ws.packs@.len(),
        forall|i: int| 0 <= i < ws.packs@.len() ==> info_of(#[trigger] r.packs@[i], ws.packs@[i]),
{
    ws.to_state()
}

impl Workspace {
    /// A snapshot: each pack as listed, in load order, and the load order.
    pub fn to_state(&self) -> (r: WorkspaceState)
        ensures
            r.load_order@ == ids(self.packs@),
            r.packs@.len() == self.packs@.len(),
            forall|i: int| 0 <= i < self.packs@.len() ==> info_of(#[trigger] r.packs@[i], self.packs@[i]),
    {
        let mut packs: Vec<PackInfo> = Vec::new();
        let mut i: usize = 0;
        while i < self.packs.len()
            invariant
                i <= self.packs@.len(),
                packs@.len() == i,
                forall|k: int| 0 <= k < i ==> info_of(#[trigger] packs@[k], self.packs@[k]),
            decreases self.packs.len() - i,
        {
            packs.push(self.packs[i].to_info());
            i += 1;
        }
        WorkspaceState { packs, load_order: self.load_order() }
    }
}

/// Adds a loaded pack at the end of the load order; a pack with the same id
/// is replaced in place.
pub fn add_pack(ws: &mut Workspace, pack: ContentPack)
    requires
        old(ws).wf(),
        pack.wf(),
    ensures
        final(ws).wf(),
        final(ws).has_pack(pack.id),
        old(ws).has_pack(pack.id) ==> final(ws).packs@ == old(ws).packs@.update(pack_index(old(ws).packs@, pack.id), pack),
        !old(ws).has_pack(pack.id) ==> final(ws).packs@ == old(ws).packs@.push(pack),
{
    let ghost before = ws.packs@;
    match ws.find_pack(pack.id) {
        Some(i) => {
            proof {
                lemma_pack_index(ws.packs@, pack.id, i as int);
            }
            let ghost pid = pack.id;
            ws.packs.remove(i);
            ws.packs.insert(i, pack);
            assert(ws.packs@ =~= before.update(i as int, pack));
            assert(ids(ws.packs@)[i as int] == pack.id);
            assert forall|a: int, b: int|
                0 <= a < ws.packs@.len() && 0 <= b < ws.packs@.len() && a != b implies ws.packs@[a].id
                != ws.packs@[b].id by {
                assert(ws.packs@[a].id == before[a].id);
                assert(ws.packs@[b].id == before[b].id);
            }
            assert forall|k: int| 0 <= k < ws.packs@.len() implies (#[trigger] ws.packs@[k]).wf() by {
                if k != i {
                    assert(ws.packs@[k] == before[k]);
                }
            }
        },
        None => {
            ws.packs.push(pack);
            assert(ids(ws.packs@)[before.len() as int] == pack.id);
            assert forall|a: int, b: int|
                0 <= a < ws.packs@.len() && 0 <= b < ws.packs@.len() && a != b implies ws.packs@[a].id
                != ws.packs@[b].id by {
                if a == before.len() {
                    assert(ids(before)[b] == before[b].id);
                } else if b == before.len() {
                    assert(ids(before)[a] == before[a].id);
                }
            }
            assert forall|k: int| 0 <= k < ws.packs@.len() implies (#[trigger] ws.packs@[k]).wf() by {
                if k < before.len() {
                    assert(ws.packs@[k] == before[k]);
                }
            }
        },
    }
}

/// Closes pack `pack_id`. Refused while it has files with unsaved edits,
/// unless `force` is set.
pub fn close_pack(ws: &mut Workspace, pack_id: PackId, force: bool) -> (r: Result<(), WorkspaceError>)
    requires
        old(ws).wf(),
    ensures
        final(ws).wf(),
        !old(ws).has_pack(pack_id) ==> (r matches Err(WorkspaceError::PackNotFound(id)) && id == pack_id) && *final(ws)
            == *old(ws),
        old(ws).has_pack(pack_id) ==> {
            let i = pack_index(old(ws).packs@, pack_id);
            let n = old(ws).packs@[i].dirty_files@.len();
            if !force && n > 0 {
                (r matches Err(WorkspaceError::UnsavedFiles(c)) && c == n) && *final(ws) == *old(ws)
            } else {
                r is Ok && final(ws).packs@ == old(ws).packs@.remove(i)
            }
        },
{
    match ws.find_pack(pack_id) {
        None => Err(WorkspaceError::PackNotFound(pack_id)),
        Some(i) => {
            proof {
                lemma_pack_index(ws.packs@, pack_id, i as int);
            }
            let n = ws.packs[i].dirty_files.len();
            if !force && n > 0 {
                return Err(WorkspaceError::UnsavedFiles(n));
            }
            let ghost before = ws.packs@;
            ws.packs.remove(i);
            assert forall|a: int, b: int|
                0 <= a < ws.packs@.len() && 0 <= b < ws.packs@.len() && a != b implies ws.packs@[a].id
                != ws.packs@[b].id by {
                let a2 = if a < i { a } else { a + 1 };
                let b2 = if b < i { b } else { b + 1 };
                assert(ws.packs@[a] == before[a2] && ws.packs@[b] == before[b2]);
            }
            assert forall|k: int| 0 <= k < ws.packs@.len() implies (#[trigger] ws.packs@[k]).wf() by {
                let k2 = if k < i { k } else { k + 1 };
                assert(ws.packs@[k] == before[k2]);
            }
            Ok(())
        },
    }
}

/// Replaces pack `pack_id` with `fresh`, read anew from the same directory
/// with the same read-only flag and without edits, which takes over its id
/// and its place in the load order; other packs are untouched.
pub fn reload_pack(ws: &mut Workspace, pack_id: PackId, fresh: ContentPack) -> (r: Result<(), WorkspaceError>)
    requires
        old(ws).wf(),
        fresh.wf(),
        fresh.dirty_files@.len() == 0,
        forall|k: int| 0 <= k < fresh.entities@.len() ==> !(#[trigger] fresh.entities@[k]).1.dirty,
        old(ws).has_pack(pack_id) ==> {
            let q = old(ws).packs@[pack_index(old(ws).packs@, pack_id)];
            fresh.path == q.path && fresh.read_only == q.read_only
        },
    ensures
        final(ws).wf(),
        !old(ws).has_pack(pack_id) ==> (r matches Err(WorkspaceError::PackNotFound(id)) && id == pack_id) && *final(ws)
            == *old(ws),
        old(ws).has_pack(pack_id) ==> r is Ok && final(ws).packs@ == old(ws).packs@.update(
            pack_index(old(ws).packs@, pack_id),
            ContentPack { id: pack_id, ..fresh },
        ),
{
    match ws.find_pack(pack_id) {
        None => Err(WorkspaceError::PackNotFound(pack_id)),
        Some(i) => {
            proof {
                lemma_pack_index(ws.packs@, pack_id, i as int);
            }
            let mut pack = fresh;
            pack.id = pack_id;
            add_pack(ws, pack);
            Ok(())
        },
    }
}

/// The value of palette `palette_id` as a loaded record (stored under
/// `palette:{palette_id}`), from the first pack in load order that has it.
pub fn find_loaded_palette<'a>(ws: &'a Workspace, palette_id: &str) -> (r: Option<&'a crate::json::Json>)
    requires
        ws.wf(),
    ensures
        match r {
            Some(j) => exists|i: int|
                0 <= i < ws.packs@.len() && ws.packs@[i].has_key("palette:"@ + palette_id@) && *j
                    == ws.packs@[i].entities@[key_index(ws.packs@[i].entities@, "palette:"@ + palette_id@)].1.json
                    && forall|q: int| 0 <= q < i ==> !ws.packs@[q].has_key("palette:"@ + palette_id@),
            None => forall|i: int| 0 <= i < ws.packs@.len() ==> !ws.packs@[i].has_key("palette:"@ + palette_id@),
        },
{
    let key = crate::text::concat("palette:", palette_id);
    let mut i: usize = 0;
    while i < ws.packs.len()
        invariant
            i <= ws.packs@.len(),
            key@ == "palette:"@ + palette_id@,
            ws.wf(),
            forall|q: int| 0 <= q < i ==> !ws.packs@[q].has_key(key@),
        decreases ws.packs.len() - i,
    {
        let pack = &ws.packs[i];
        assert(pack.wf());
        if let Some(k) = pack.find_entity(key.as_str()) {
            proof {
                crate::workspace::lemma_key_index(pack.entities@, key@, k as int);
            }
            return Some(&pack.entities[k].1.json);
        }
        i += 1;
    }
    None
}

} // verus!
