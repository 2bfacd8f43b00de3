use vstd::prelude::*;

use crate::entity::Entity;
use crate::json::JsonModel;
use crate::keys::{file_stem, is_first_free, keys_of, lemma_first_free_unique, storage_key, unique_candidate};
use crate::save::{dirty_edits, in_bounds, patched, plan_covers};
use crate::save::FileEdits;
use crate::validator::text_report;
use crate::entity::{logical_key, meta_of};
use crate::loader::keys_in_load_order;
use crate::json::json_text_parse;
use crate::workspace::{dirty_file_set, file_set, key_index, update_applied, update_outcome, ContentPack};

verus! {

/// Loading two records with the same `type:id` keeps both: the first is
/// stored under the bare key, the second under that key followed by `@` and
/// the stem of its file, and the two keys differ.
pub proof fn lemma_colliding_records_both_stored(key: Seq<char>, second_file: Seq<char>)
    ensures
        storage_key(Set::empty(), key, second_file) == key,
        storage_key(set![key], key, second_file) == key + "@"@ + file_stem(second_file),
        key + "@"@ + file_stem(second_file) != key,
{
    let stem = file_stem(second_file);
    let c = unique_candidate(key, stem, 0);
    reveal_strlit("@");
    assert(c.len() > key.len());
    assert(!set![key].contains(c));
    assert(is_first_free(set![key], key, stem, 0));
    lemma_first_free_unique(set![key], key, stem, 0);
}

/// A pack loaded from two records with the same `type:id`, read in turn,
/// holds both: the first under the bare key, the second under that key
/// followed by `@` and the stem of its own file.
pub proof fn lemma_loaded_collision_layout(es: Seq<(String, Entity)>)
    requires
        es.len() == 2,
        keys_in_load_order(es, 0),
        logical_key(es[0].1.meta@) == logical_key(es[1].1.meta@),
    ensures
        es[0].0@ == logical_key(es[0].1.meta@),
        es[1].0@ == logical_key(es[0].1.meta@) + "@"@ + file_stem(es[1].1.source_file@),
        es[0].0@ != es[1].0@,
{
    let k = logical_key(es[0].1.meta@);
    lemma_colliding_records_both_stored(k, es[1].1.source_file@);
    assert(es.take(0).map_values(|e: (String, Entity)| e.0@).to_set() =~= Set::<Seq<char>>::empty());
    assert(es[0].0@ == storage_key(keys_of(es.take(0)), k, es[0].1.source_file@));
    lemma_colliding_records_both_stored(k, es[0].1.source_file@);
    let ks = es.take(1).map_values(|e: (String, Entity)| e.0@);
    assert(ks =~= seq![k]);
    assert(ks.to_set() =~= set![k]) by {
        assert forall|y: Seq<char>| ks.to_set().contains(y) <==> y == k by {
            if y == k {
                assert(ks[0] == k);
            }
        }
    }
    assert(es[1].0@ == storage_key(keys_of(es.take(1)), k, es[1].1.source_file@));
}

proof fn lemma_no_dirty_no_edits(es: Seq<(String, Entity)>, f: Seq<char>, n: int)
    requires
        forall|k: int| 0 <= k < es.len() ==> !(#[trigger] es[k]).1.dirty,
        n <= es.len(),
    ensures
        dirty_edits(es, f, n).len() == 0,
    decreases n,
{
    if n > 0 {
        lemma_no_dirty_no_edits(es, f, n - 1);
    }
}

/// Saving a pack without dirty records writes nothing: its save plan has
/// no file in it.
pub proof fn lemma_clean_pack_saves_nothing(es: Seq<(String, Entity)>, plan: Seq<FileEdits>)
    requires
        forall|k: int| 0 <= k < es.len() ==> !(#[trigger] es[k]).1.dirty,
        plan_covers(plan, es, es.len() as int),
    ensures
        plan.len() == 0,
{
    if plan.len() > 0 {
        lemma_no_dirty_no_edits(es, plan[0].file@, es.len() as int);
        assert(plan[0].edits@.len() > 0);
    }
}

/// A well-formed pack without dirty records lists no file with unsaved
/// edits, so its save writes nothing.
pub proof fn lemma_clean_pack_has_no_dirty_files(p: ContentPack)
    requires
        p.wf(),
        forall|k: int| 0 <= k < p.entities@.len() ==> !(#[trigger] p.entities@[k]).1.dirty,
    ensures
        p.dirty_files@.len() == 0,
{
    if p.dirty_files@.len() > 0 {
        let f = p.dirty_files@[0]@;
        assert(p.dirty_files@.map_values(|x: String| x@)[0] == f);
        assert(file_set(p.dirty_files@).contains(f));
        assert(dirty_file_set(p.entities@).contains(f));
    }
}

/// After writing edits into an array, the slot of an in-range edit holds
/// that edit's value when no later edit targets the same slot.
pub proof fn lemma_saved_slot_holds_value(items: Seq<JsonModel>, edits: Seq<(int, JsonModel)>, k: int)
    requires
        0 <= k < edits.len(),
        0 <= edits[k].0 < items.len(),
        forall|q: int| k < q < edits.len() ==> (#[trigger] edits[q]).0 != edits[k].0,
    ensures
        patched(items, edits)[edits[k].0] == edits[k].1,
    decreases edits.len(),
{
    crate::save::lemma_patched_len(items, edits.drop_last());
    if k < edits.len() - 1 {
        let d = edits.drop_last();
        assert forall|q: int| k < q < d.len() implies (#[trigger] d[q]).0 != d[k].0 by {
            assert(d[q] == edits[q]);
        }
        lemma_saved_slot_holds_value(items, d, k);
    }
}

/// An edit whose slot lies at or beyond the end of the array on disk is
/// skipped: the array and the count of saved records stay as they were.
pub proof fn lemma_edit_beyond_end_skipped(items: Seq<JsonModel>, edits: Seq<(int, JsonModel)>, e: (int, JsonModel))
    requires
        e.0 >= items.len(),
    ensures
        patched(items, edits.push(e)) == patched(items, edits),
        in_bounds(items.len() as int, edits.push(e)) == in_bounds(items.len() as int, edits),
{
    crate::save::lemma_patched_len(items, edits);
    assert(edits.push(e).drop_last() =~= edits);
}

/// A read-only pack refuses every edit and stays as it was.
pub proof fn lemma_read_only_refuses_update(
    old: ContentPack,
    new: ContentPack,
    key: Seq<char>,
    text: Seq<char>,
    r: Result<crate::entity::UpdateResult, crate::workspace::WorkspaceError>,
)
    requires
        update_outcome(old, new, key, text, r),
        old.read_only,
    ensures
        r is Err,
        new == old,
{
}

/// A text that the validator rejects is not accepted and changes nothing.
pub proof fn lemma_invalid_text_changes_nothing(
    old: ContentPack,
    new: ContentPack,
    key: Seq<char>,
    text: Seq<char>,
    r: Result<crate::entity::UpdateResult, crate::workspace::WorkspaceError>,
)
    requires
        update_outcome(old, new, key, text, r),
        !text_report(text).valid,
    ensures
        new == old,
        r matches Ok(u) ==> !u.accepted,
{
}

proof fn lemma_has_key_index(es: Seq<(String, Entity)>, k: Seq<char>)
    requires
        keys_of(es).contains(k),
    ensures
        0 <= key_index(es, k) < es.len(),
        es[key_index(es, k)].0@ == k,
{
    let ks = es.map_values(|e: (String, Entity)| e.0@);
    assert(ks.contains(k));
    let i = choose|i: int| 0 <= i < ks.len() && ks[i] == k;
    assert(es[i].0@ == k);
}

/// An accepted edit that changes a record's key moves it: the old key no
/// longer addresses anything, and the new key addresses the record.
pub proof fn lemma_rekey_moves_record(
    old: ContentPack,
    new: ContentPack,
    key: Seq<char>,
    text: Seq<char>,
    r: Result<crate::entity::UpdateResult, crate::workspace::WorkspaceError>,
)
    requires
        old.wf(),
        update_outcome(old, new, key, text, r),
        r matches Ok(u) && u.new_key is Some,
    ensures
        !new.has_key(key),
        new.has_key(r->Ok_0.new_key->0@),
{
    let u = r->Ok_0;
    let nk = u.new_key->0@;
    assert(!old.read_only);
    assert(text_report(text).valid);
    let j = json_text_parse(text)->Ok_0;
    let m = meta_of(j)->0;
    assert(old.has_key(key));
    assert(update_applied(old, new, key, j, m, crate::entity::opt_view(u.new_key)));
    lemma_has_key_index(old.entities@, key);
    let i = key_index(old.entities@, key);
    let nks = new.entities@.map_values(|e: (String, Entity)| e.0@);
    assert(nks[i] == nk);
    assert(nks.contains(nk));
    if new.has_key(key) {
        lemma_has_key_index(new.entities@, key);
        let t = key_index(new.entities@, key);
        if t != i {
            assert(new.entities@[t] == old.entities@[t]);
        }
    }
}

} // verus!
