use vstd::prelude::*;

use crate::entity::Entity;
use crate::json::{json_text_parse, parse_json, Json, JsonModel};
use crate::printer::{pretty, serialize_with_priority_fields};
use crate::workspace::{
    dirty_file_set, file_set, files_unique, keys_unique, lemma_clear_file, same_identity, ContentPack,
    WorkspaceError,
};

verus! {

/// The new values for the dirty records of one file: array slot and value.
#[derive(Debug)]
pub struct FileEdits {
    /// The file, relative to the pack root.
    pub file: String,
    pub edits: Vec<(usize, Json)>,
}

/// What a save wrote.
#[derive(Debug, Clone)]
pub struct SaveResult {
    pub files_written: Vec<String>,
    /// How many records were written into their slots.
    pub entities_saved: usize,
}

/// The model of a file's edits.
pub open spec fn edits_model(edits: Seq<(usize, Json)>) -> Seq<(int, JsonModel)> {
    edits.map_values(|e: (usize, Json)| (e.0 as int, e.1@))
}

/// The slot and value of each dirty record among the first `n` whose file is `f`, in order.
pub open spec fn dirty_edits(es: Seq<(String, Entity)>, f: Seq<char>, n: int) -> Seq<(int, JsonModel)>
    decreases n,
{
    if n <= 0 {
        Seq::empty()
    } else {
        let prev = dirty_edits(es, f, n - 1);
        let e = es[n - 1].1;
        if e.dirty && e.source_file@ == f {
            prev.push((e.array_index as int, e.json@))
        } else {
            prev
        }
    }
}

/// `groups` holds, for each file with a dirty record among the first `n`, one
/// group with those records' slots and values, each file once.
pub open spec fn plan_covers(groups: Seq<FileEdits>, es: Seq<(String, Entity)>, n: int) -> bool {
    &&& (forall|g: int|
        0 <= g < groups.len() ==> edits_model(groups[g].edits@) == dirty_edits(es, #[trigger] groups[g].file@, n)
            && groups[g].edits@.len() > 0)
    &&& (forall|k: int|
        0 <= k < n && (#[trigger] es[k]).1.dirty ==> exists|g: int|
            0 <= g < groups.len() && groups[g].file@ == es[k].1.source_file@)
    &&& forall|a: int, b: int| 0 <= a < groups.len() && 0 <= b < groups.len() && a != b ==> groups[a].file@ != groups[b].file@
}

/// The array after writing each edit into its slot, in order; an edit whose
/// slot lies beyond the end is dropped.
pub open spec fn patched(items: Seq<JsonModel>, edits: Seq<(int, JsonModel)>) -> Seq<JsonModel>
    decreases edits.len(),
{
    if edits.len() == 0 {
        items
    } else {
        let p = patched(items, edits.drop_last());
        let (i, v) = edits.last();
        if 0 <= i < p.len() {
            p.update(i, v)
        } else {
            p
        }
    }
}

/// How many edits have a slot within an array of `n` elements.
pub open spec fn in_bounds(n: int, edits: Seq<(int, JsonModel)>) -> nat
    decreases edits.len(),
{
    if edits.len() == 0 {
        0
    } else {
        in_bounds(n, edits.drop_last()) + if 0 <= edits.last().0 < n {
            1nat
        } else {
            0nat
        }
    }
}

pub proof fn lemma_patched_len(items: Seq<JsonModel>, edits: Seq<(int, JsonModel)>)
    ensures
        patched(items, edits).len() == items.len(),
        in_bounds(items.len() as int, edits) <= edits.len(),
    decreases edits.len(),
{
    if edits.len() > 0 {
        lemma_patched_len(items, edits.drop_last());
    }
}

/// The text a file gets from a save: its current text `content` with the
/// edits written in, or why that cannot be done.
pub open spec fn patched_text(content: Seq<char>, edits: Seq<(int, JsonModel)>) -> Option<(Seq<char>, nat)> {
    match json_text_parse(content) {
        Ok(JsonModel::Array(items)) => Some(
            (pretty(JsonModel::Array(patched(items, edits)), 0), in_bounds(items.len() as int, edits)),
        ),
        _ => None,
    }
}

/// Writes `edits` into the array that `content` holds and renders it in the
/// canonical format. Returns the new text and how many edits found their
/// slot; an edit beyond the end of the array is skipped. Fails with the
/// reason where `content` is no JSON array.
pub fn patch_file_text(content: &str, edits: &Vec<(usize, Json)>) -> (r: Result<(String, usize), String>)
    ensures
        match patched_text(content@, edits_model(edits@)) {
            Some((text, n)) => r matches Ok((t, c)) && t@ == text && c == n,
            None => r is Err,
        },
{
    let doc = match parse_json(content) {
        Ok(j) => j,
        Err(e) => {
            return Err(e);
        },
    };
    let mut items = match doc {
        Json::Array(items) => items,
        _ => {
            return Err(crate::text::owned("expected a JSON array at the top level"));
        },
    };
    proof {
        crate::json::lemma_array_view(Json::Array(items));
    }
    let ghost start = Json::Array(items)@->Array_0;
    let ghost em = edits_model(edits@);
    let mut count: usize = 0;
    let mut k: usize = 0;
    assert(em.subrange(0, 0) =~= Seq::<(int, JsonModel)>::empty());
    while k < edits.len()
        invariant
            k <= edits.len(),
            em == edits_model(edits@),
            items@.len() == start.len(),
            forall|q: int| 0 <= q < items@.len() ==> #[trigger] items@[q]@ == patched(start, em.subrange(0, k as int))[q],
            patched(start, em.subrange(0, k as int)).len() == start.len(),
            count == in_bounds(start.len() as int, em.subrange(0, k as int)),
            count <= k,
        decreases edits.len() - k,
    {
        let ghost pre = em.subrange(0, k as int);
        let ghost next = em.subrange(0, k + 1);
        assert(next.drop_last() =~= pre);
        assert(next.last() == em[k as int]);
        let idx = edits[k].0;
        if idx < items.len() {
            let v = edits[k].1.duplicate();
            items.set(idx, v);
            count = count + 1;
        }
        proof {
            lemma_patched_len(start, next);
        }
        k += 1;
    }
    assert(em.subrange(0, edits@.len() as int) =~= em);
    let arr = Json::Array(items);
    proof {
        crate::json::lemma_array_view(arr);
        assert(arr@->Array_0 =~= patched(start, em));
    }
    let text = serialize_with_priority_fields(&arr);
    Ok((text, count))
}

proof fn lemma_dirty_edits_witness(es: Seq<(String, Entity)>, f: Seq<char>, n: int)
    requires
        0 <= n <= es.len(),
        dirty_edits(es, f, n).len() > 0,
    ensures
        exists|k: int| 0 <= k < n && es[k].1.dirty && es[k].1.source_file@ == f,
    decreases n,
{
    let e = es[n - 1].1;
    if !(e.dirty && e.source_file@ == f) {
        lemma_dirty_edits_witness(es, f, n - 1);
    }
}

/// The position of the group for `file`.
fn find_group(groups: &Vec<FileEdits>, file: &String) -> (r: Option<usize>)
    ensures
        match r {
            Some(g) => g < groups@.len() && groups@[g as int].file@ == file@,
            None => forall|g: int| 0 <= g < groups@.len() ==> groups@[g].file@ != file@,
        },
{
    let mut g: usize = 0;
    while g < groups.len()
        invariant
            g <= groups@.len(),
            forall|q: int| 0 <= q < g ==> groups@[q].file@ != file@,
        decreases groups.len() - g,
    {
        if groups[g].file == *file {
            return Some(g);
        }
        g += 1;
    }
    None
}

impl ContentPack {
    /// The edits a save writes, one group per file with dirty records. A
    /// read-only pack cannot be saved; a pack without files with unsaved
    /// edits has nothing to write.
    pub fn save_plan(&self) -> (r: Result<Vec<FileEdits>, WorkspaceError>)
        ensures
            self.read_only ==> r matches Err(WorkspaceError::ReadOnly),
            !self.read_only && self.dirty_files@.len() == 0 ==> (r matches Ok(g) && g@.len() == 0),
            !self.read_only && self.dirty_files@.len() > 0 ==> (r matches Ok(g) && plan_covers(
                g@,
                self.entities@,
                self.entities@.len() as int,
            )),
    {
        if self.read_only {
            return Err(WorkspaceError::ReadOnly);
        }
        let mut groups: Vec<FileEdits> = Vec::new();
        if self.dirty_files.len() == 0 {
            return Ok(groups);
        }
        let ghost es = self.entities@;
        let mut n: usize = 0;
        while n < self.entities.len()
            invariant
                es == self.entities@,
                n <= es.len(),
                plan_covers(groups@, es, n as int),
            decreases es.len() - n,
        {
            let e = &self.entities[n].1;
            let ghost old_groups = groups@;
            if e.dirty {
                let edit = (e.array_index, e.json.duplicate());
                match find_group(&groups, &e.source_file) {
                    Some(g) => {
                        let mut grp = groups.remove(g);
                        grp.edits.push(edit);
                        groups.insert(g, grp);
                        assert(groups@ =~= old_groups.update(g as int, grp));
                        assert(grp.file == old_groups[g as int].file);
                        assert forall|q: int| 0 <= q < groups@.len() implies edits_model(groups@[q].edits@)
                            == dirty_edits(es, #[trigger] groups@[q].file@, n + 1) && groups@[q].edits@.len()
                            > 0 by {
                            if q == g {
                                assert(edits_model(grp.edits@) =~= edits_model(old_groups[q].edits@).push(
                                    (e.array_index as int, e.json@),
                                ));
                            }
                        }
                        assert forall|k: int|
                            0 <= k < n + 1 && (#[trigger] es[k]).1.dirty implies exists|q: int|
                            0 <= q < groups@.len() && groups@[q].file@ == es[k].1.source_file@ by {
                            if k < n {
                                let q = choose|q: int|
                                    0 <= q < old_groups.len() && old_groups[q].file@ == es[k].1.source_file@;
                                assert(groups@[q].file@ == old_groups[q].file@);
                            } else {
                                assert(groups@[g as int].file@ == es[k].1.source_file@);
                            }
                        }
                    },
                    None => {
                        proof {
                            if dirty_edits(es, e.source_file@, n as int).len() > 0 {
                                lemma_dirty_edits_witness(es, e.source_file@, n as int);
                            }
                        }
                        let grp = FileEdits { file: e.source_file.clone(), edits: vec![edit] };
                        groups.push(grp);
                        assert forall|q: int| 0 <= q < groups@.len() implies edits_model(groups@[q].edits@)
                            == dirty_edits(es, #[trigger] groups@[q].file@, n + 1) && groups@[q].edits@.len()
                            > 0 by {
                            if q == old_groups.len() {
                                assert(edits_model(grp.edits@) =~= dirty_edits(es, e.source_file@, n as int).push(
                                    (e.array_index as int, e.json@),
                                ));
                            }
                        }
                        assert forall|k: int|
                            0 <= k < n + 1 && (#[trigger] es[k]).1.dirty implies exists|q: int|
                            0 <= q < groups@.len() && groups@[q].file@ == es[k].1.source_file@ by {
                            if k < n {
                                let q = choose|q: int|
                                    0 <= q < old_groups.len() && old_groups[q].file@ == es[k].1.source_file@;
                                assert(groups@[q] == old_groups[q]);
                            } else {
                                assert(groups@[old_groups.len() as int].file@ == es[k].1.source_file@);
                            }
                        }
                    },
                }
            } else {
                assert forall|q: int| 0 <= q < groups@.len() implies dirty_edits(es, #[trigger] groups@[q].file@, n + 1)
                    == dirty_edits(es, groups@[q].file@, n as int) by {}
                assert forall|k: int|
                    0 <= k < n + 1 && (#[trigger] es[k]).1.dirty implies exists|q: int|
                    0 <= q < groups@.len() && groups@[q].file@ == es[k].1.source_file@ by {
                    assert(k < n);
                }
            }
            n += 1;
        }
        Ok(groups)
    }

    /// Records that `file` was written: its records are no longer dirty and
    /// it leaves the list of files with unsaved edits.
    pub fn mark_file_saved(&mut self, file: &String)
        requires
            old(self).wf(),
        ensures
            final(self).wf(),
            same_identity(*old(self), *final(self)),
            final(self).entities@.len() == old(self).entities@.len(),
            forall|k: int|
                0 <= k < old(self).entities@.len() ==> {
                    let a = old(self).entities@[k];
                    let b = #[trigger] final(self).entities@[k];
                    &&& b.0 == a.0
                    &&& b.1.json == a.1.json
                    &&& b.1.meta == a.1.meta
                    &&& b.1.source_file == a.1.source_file
                    &&& b.1.array_index == a.1.array_index
                    &&& b.1.dirty == (a.1.dirty && a.1.source_file@ != file@)
                },
            file_set(final(self).dirty_files@) == file_set(old(self).dirty_files@).remove(file@),
    {
        let ghost es = self.entities@;
        let mut k: usize = 0;
        while k < self.entities.len()
            invariant
                k <= self.entities@.len(),
                self.entities@.len() == es.len(),
                keys_unique(es),
                es == old(self).entities@,
                same_identity(*old(self), *self),
                self.dirty_files == old(self).dirty_files,
                files_unique(self.dirty_files@),
                forall|q: int|
                    0 <= q < es.len() ==> {
                        let a = es[q];
                        let b = #[trigger] self.entities@[q];
                        &&& b.0 == a.0
                        &&& b.1.json == a.1.json
                        &&& b.1.meta == a.1.meta
                        &&& b.1.source_file == a.1.source_file
                        &&& b.1.array_index == a.1.array_index
                        &&& b.1.dirty == if q < k {
                            a.1.dirty && a.1.source_file@ != file@
                        } else {
                            a.1.dirty
                        }
                    },
            decreases es.len() - k,
        {
            if self.entities[k].1.source_file == *file && self.entities[k].1.dirty {
                let (key, mut e) = self.entities.remove(k);
                e.dirty = false;
                self.entities.insert(k, (key, e));
            }
            k += 1;
        }
        assert(keys_unique(self.entities@)) by {
            assert forall|a: int, b: int|
                0 <= a < self.entities@.len() && 0 <= b < self.entities@.len() && a != b implies self.entities@[a].0@
                != self.entities@[b].0@ by {
                assert(self.entities@[a].0 == es[a].0);
                assert(self.entities@[b].0 == es[b].0);
            }
        }
        proof {
            lemma_clear_file(es, self.entities@, file@);
        }
        let ghost fs = self.dirty_files@;
        let mut kept: Vec<String> = Vec::new();
        let mut i: usize = 0;
        while i < self.dirty_files.len()
            invariant
                fs == self.dirty_files@,
                files_unique(fs),
                i <= fs.len(),
                files_unique(kept@),
                forall|y: Seq<char>| file_set(kept@).contains(y) <==> (exists|q: int| 0 <= q < i && fs[q]@ == y && y != file@),
            decreases fs.len() - i,
        {
            let ghost before = kept@;
            if !(self.dirty_files[i] == *file) {
                kept.push(self.dirty_files[i].clone());
            }
            proof {
                let ks = before.map_values(|f: String| f@);
                let ks2 = kept@.map_values(|f: String| f@);
                assert forall|y: Seq<char>| file_set(kept@).contains(y) <==> (exists|q: int| 0 <= q < i + 1 && fs[q]@ == y && y != file@) by {
                    if kept@.len() > before.len() {
                        assert(ks2 =~= ks.push(fs[i as int]@));
                        if ks2.contains(y) {
                            let k2 = choose|k2: int| 0 <= k2 < ks2.len() && ks2[k2] == y;
                            if k2 < ks.len() {
                                assert(ks.contains(y));
                                assert(file_set(before).contains(y));
                                let q = choose|q: int| 0 <= q < i && fs[q]@ == y && y != file@;
                                assert(0 <= q < i + 1 && fs[q]@ == y && y != file@);
                            } else {
                                assert(0 <= i < i + 1 && fs[i as int]@ == y && y != file@);
                            }
                        }
                        if exists|q: int| 0 <= q < i + 1 && fs[q]@ == y && y != file@ {
                            let q = choose|q: int| 0 <= q < i + 1 && fs[q]@ == y && y != file@;
                            if q < i {
                                assert(file_set(before).contains(y));
                                assert(ks.contains(y));
                                let k2 = choose|k2: int| 0 <= k2 < ks.len() && ks[k2] == y;
                                assert(ks2[k2] == y);
                            } else {
                                assert(ks2[ks.len() as int] == y);
                            }
                        }
                    } else {
                        assert(ks2 =~= ks);
                        if ks2.contains(y) {
                            assert(file_set(before).contains(y));
                            let q = choose|q: int| 0 <= q < i && fs[q]@ == y && y != file@;
                            assert(0 <= q < i + 1 && fs[q]@ == y && y != file@);
                        }
                        if exists|q: int| 0 <= q < i + 1 && fs[q]@ == y && y != file@ {
                            let q = choose|q: int| 0 <= q < i + 1 && fs[q]@ == y && y != file@;
                            assert(q < i);
                            assert(file_set(before).contains(y));
                        }
                    }
                }
                if kept@.len() > before.len() {
                    assert forall|a: int, b: int|
                        0 <= a < kept@.len() && 0 <= b < kept@.len() && a != b implies kept@[a]@ != kept@[b]@ by {
                        if a == before.len() || b == before.len() {
                            let o = if a == before.len() { b } else { a };
                            assert(ks[o] == kept@[o]@);
                            assert(file_set(before).contains(kept@[o]@));
                            let q = choose|q: int| 0 <= q < i && fs[q]@ == kept@[o]@ && kept@[o]@ != file@;
                        }
                    }
                }
            }
            i += 1;
        }
        self.dirty_files = kept;
        assert(file_set(self.dirty_files@) =~= file_set(fs).remove(file@)) by {
            let ks = fs.map_values(|f: String| f@);
            assert forall|y: Seq<char>| file_set(fs).contains(y) <==> (exists|q: int| 0 <= q < fs.len() && fs[q]@ == y) by {
                if ks.contains(y) {
                    let q = choose|q: int| 0 <= q < ks.len() && ks[q] == y;
                }
                if exists|q: int| 0 <= q < fs.len() && fs[q]@ == y {
                    let q = choose|q: int| 0 <= q < fs.len() && fs[q]@ == y;
                    assert(ks[q] == y);
                }
            }
        }
    }
}

} // verus!
