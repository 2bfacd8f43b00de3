use vstd::multiset::Multiset;
use vstd::prelude::*;

use crate::entity::Entity;
use crate::entity::copy_opt;
use crate::workspace::ContentPack;

verus! {

broadcast use vstd::seq_lib::to_multiset_insert, vstd::seq_lib::to_multiset_len, vstd::multiset::group_multiset_axioms;

/// `a` comes no later than `b` in dictionary order of characters.
pub open spec fn lex_le(a: Seq<char>, b: Seq<char>) -> bool
    decreases a.len(),
{
    if a.len() == 0 {
        true
    } else if b.len() == 0 {
        false
    } else if a[0] < b[0] {
        true
    } else if a[0] > b[0] {
        false
    } else {
        lex_le(a.drop_first(), b.drop_first())
    }
}

pub proof fn lemma_lex_total(a: Seq<char>, b: Seq<char>)
    ensures
        lex_le(a, b) || lex_le(b, a),
    decreases a.len(),
{
    if a.len() > 0 && b.len() > 0 && a[0] == b[0] {
        lemma_lex_total(a.drop_first(), b.drop_first());
    }
}

pub proof fn lemma_lex_trans(a: Seq<char>, b: Seq<char>, c: Seq<char>)
    requires
        lex_le(a, b),
        lex_le(b, c),
    ensures
        lex_le(a, c),
    decreases a.len(),
{
    if a.len() > 0 && b.len() > 0 && c.len() > 0 && a[0] == b[0] && b[0] == c[0] {
        lemma_lex_trans(a.drop_first(), b.drop_first(), c.drop_first());
    }
}

/// Whether `a` comes no later than `b` in dictionary order.
pub fn str_le(a: &str, b: &str) -> (r: bool)
    ensures
        r == lex_le(a@, b@),
{
    let n = a.unicode_len();
    let m = b.unicode_len();
    let mut i: usize = 0;
    assert(a@.skip(0) =~= a@);
    assert(b@.skip(0) =~= b@);
    while i < n && i < m
        invariant
            n == a@.len(),
            m == b@.len(),
            i <= n,
            i <= m,
            lex_le(a@, b@) == lex_le(a@.skip(i as int), b@.skip(i as int)),
        decreases n - i,
    {
        let x = a.get_char(i);
        let y = b.get_char(i);
        let ghost sa = a@.skip(i as int);
        let ghost sb = b@.skip(i as int);
        assert(sa[0] == x && sb[0] == y);
        if x < y {
            return true;
        }
        if x > y {
            return false;
        }
        assert(sa.drop_first() =~= a@.skip(i + 1));
        assert(sb.drop_first() =~= b@.skip(i + 1));
        i += 1;
    }
    assert(a@.skip(i as int).len() == 0 || b@.skip(i as int).len() == 0);
    i == n
}

/// One record as listed in the navigation tree.
#[derive(Debug, Clone)]
pub struct EntitySummary {
    pub key: String,
    pub entity_type: String,
    pub id: String,
    pub display_name: Option<String>,
    pub source_file: String,
    pub array_index: usize,
    pub dirty: bool,
}

/// The records grouped by type and by file.
#[derive(Debug)]
pub struct EntityTree {
    /// For each type, its records ordered by display name, else id.
    pub by_type: Vec<(String, Vec<EntitySummary>)>,
    /// For each file, its records in array order.
    pub by_file: Vec<(String, Vec<EntitySummary>)>,
}

/// The name a record is listed under: its display name, else its id.
pub open spec fn sort_name(s: EntitySummary) -> Seq<char> {
    match s.display_name {
        Some(n) => n@,
        None => s.id@,
    }
}

pub open spec fn sorted_by_name(v: Seq<EntitySummary>) -> bool {
    forall|i: int, j: int| 0 <= i < j < v.len() ==> lex_le(sort_name(v[i]), sort_name(v[j]))
}

pub open spec fn sorted_by_index(v: Seq<EntitySummary>) -> bool {
    forall|i: int, j: int| 0 <= i < j < v.len() ==> v[i].array_index <= v[j].array_index
}

/// The summary of the record stored under `key`.
pub open spec fn summary(key: String, e: Entity) -> EntitySummary {
    EntitySummary {
        key,
        entity_type: e.meta.entity_type,
        id: e.meta.id,
        display_name: e.meta.display_name,
        source_file: e.source_file,
        array_index: e.array_index,
        dirty: e.dirty,
    }
}

/// What a record is grouped by: its type, or its file.
pub open spec fn label(by_type: bool, e: Entity) -> Seq<char> {
    if by_type {
        e.meta.entity_type@
    } else {
        e.source_file@
    }
}

/// The summaries of the first `n` records whose label is `l`, in order.
pub open spec fn members(es: Seq<(String, Entity)>, by_type: bool, l: Seq<char>, n: int) -> Seq<EntitySummary>
    decreases n,
{
    if n <= 0 {
        Seq::empty()
    } else {
        let prev = members(es, by_type, l, n - 1);
        if label(by_type, es[n - 1].1) == l {
            prev.push(summary(es[n - 1].0, es[n - 1].1))
        } else {
            prev
        }
    }
}

/// The groups' labels.
pub open spec fn labels(groups: Seq<(String, Vec<EntitySummary>)>) -> Seq<Seq<char>> {
    groups.map_values(|g: (String, Vec<EntitySummary>)| g.0@)
}

/// `groups` has one group for each label among the first `n` records, each
/// label once, holding the summaries of those records.
pub open spec fn groups_cover(
    groups: Seq<(String, Vec<EntitySummary>)>,
    es: Seq<(String, Entity)>,
    by_type: bool,
    n: int,
) -> bool {
    &&& (forall|g: int|
        0 <= g < groups.len() ==> (#[trigger] groups[g]).1@.to_multiset() == members(es, by_type, groups[g].0@, n).to_multiset()
            && groups[g].1@.len() > 0)
    &&& (forall|k: int| 0 <= k < n ==> labels(groups).contains(label(by_type, #[trigger] es[k].1)))
    &&& forall|a: int, b: int| 0 <= a < groups.len() && 0 <= b < groups.len() && a != b ==> groups[a].0@ != groups[b].0@
}

proof fn lemma_members_witness(es: Seq<(String, Entity)>, by_type: bool, l: Seq<char>, n: int)
    requires
        0 <= n <= es.len(),
        members(es, by_type, l, n).len() > 0,
    ensures
        exists|k: int| 0 <= k < n && label(by_type, es[k].1) == l,
    decreases n,
{
    if label(by_type, es[n - 1].1) != l {
        lemma_members_witness(es, by_type, l, n - 1);
    }
}

/// The records grouped by type or by file, groups in order of first appearance.
fn group_records(es: &Vec<(String, Entity)>, by_type: bool) -> (r: Vec<(String, Vec<EntitySummary>)>)
    ensures
        groups_cover(r@, es@, by_type, es@.len() as int),
{
    let mut groups: Vec<(String, Vec<EntitySummary>)> = Vec::new();
    let mut n: usize = 0;
    while n < es.len()
        invariant
            n <= es@.len(),
            groups_cover(groups@, es@, by_type, n as int),
        decreases es.len() - n,
    {
        let (key, e) = &es[n];
        let l = if by_type {
            &e.meta.entity_type
        } else {
            &e.source_file
        };
        let s = summarize(key, e);
        let ghost old_groups = groups@;
        let ghost ms = s;
        let mut g: usize = 0;
        while g < groups.len() && !(groups[g].0 == *l)
            invariant
                g <= groups@.len(),
                forall|q: int| 0 <= q < g ==> groups@[q].0@ != l@,
            decreases groups.len() - g,
        {
            g += 1;
        }
        if g < groups.len() {
            let (name, mut v) = groups.remove(g);
            v.push(s);
            groups.insert(g, (name, v));
            assert(groups@ =~= old_groups.update(g as int, (name, v)));
            assert forall|q: int| 0 <= q < groups@.len() implies (#[trigger] groups@[q]).1@.to_multiset()
                == members(es@, by_type, groups@[q].0@, n + 1).to_multiset() && groups@[q].1@.len() > 0 by {
                if q == g {
                    assert(v@ =~= old_groups[q].1@.push(ms));
                    vstd::seq_lib::to_multiset_build(old_groups[q].1@, ms);
                    vstd::seq_lib::to_multiset_build(members(es@, by_type, l@, n as int), ms);
                }
            }
            assert forall|k: int| 0 <= k < n + 1 implies labels(groups@).contains(label(by_type, #[trigger] es@[k].1)) by {
                if k < n {
                    let q = choose|q: int| 0 <= q < labels(old_groups).len() && labels(old_groups)[q] == label(by_type, es@[k].1);
                    assert(groups@[q].0 == old_groups[q].0);
                    assert(labels(groups@)[q] == label(by_type, es@[k].1));
                } else {
                    assert(labels(groups@)[g as int] == label(by_type, es@[k].1));
                }
            }
        } else {
            proof {
                if members(es@, by_type, l@, n as int).len() > 0 {
                    lemma_members_witness(es@, by_type, l@, n as int);
                }
                lemma_empty_multiset(Seq::<EntitySummary>::empty());
            }
            let v = vec![s];
            groups.push((l.clone(), v));
            assert forall|q: int| 0 <= q < groups@.len() implies (#[trigger] groups@[q]).1@.to_multiset()
                == members(es@, by_type, groups@[q].0@, n + 1).to_multiset() && groups@[q].1@.len() > 0 by {
                if q == old_groups.len() {
                    assert(members(es@, by_type, l@, n as int) =~= Seq::<EntitySummary>::empty());
                    assert(v@ =~= Seq::<EntitySummary>::empty().push(ms));
                    assert(members(es@, by_type, l@, n + 1) =~= Seq::<EntitySummary>::empty().push(ms));
                }
            }
            assert forall|k: int| 0 <= k < n + 1 implies labels(groups@).contains(label(by_type, #[trigger] es@[k].1)) by {
                if k < n {
                    let q = choose|q: int| 0 <= q < labels(old_groups).len() && labels(old_groups)[q] == label(by_type, es@[k].1);
                    assert(groups@[q] == old_groups[q]);
                    assert(labels(groups@)[q] == label(by_type, es@[k].1));
                } else {
                    assert(labels(groups@)[old_groups.len() as int] == label(by_type, es@[k].1));
                }
            }
        }
        n += 1;
    }
    groups
}

/// A summary of one record.
pub fn summarize(key: &String, e: &Entity) -> (r: EntitySummary)
    ensures
        r == summary(*key, *e),
{
    EntitySummary {
        key: key.clone(),
        entity_type: e.meta.entity_type.clone(),
        id: e.meta.id.clone(),
        display_name: copy_opt(&e.meta.display_name),
        source_file: e.source_file.clone(),
        array_index: e.array_index,
        dirty: e.dirty,
    }
}

fn name_of(s: &EntitySummary) -> (r: &str)
    ensures
        r@ == sort_name(*s),
{
    match &s.display_name {
        Some(n) => n.as_str(),
        None => s.id.as_str(),
    }
}

proof fn lemma_insert_sorted(out: Seq<EntitySummary>, p: int, x: EntitySummary)
    requires
        sorted_by_name(out),
        0 <= p <= out.len(),
        forall|k: int| 0 <= k < p ==> lex_le(sort_name(out[k]), sort_name(x)),
        p < out.len() ==> lex_le(sort_name(x), sort_name(out[p])),
    ensures
        sorted_by_name(out.insert(p, x)),
{
    let n = out.insert(p, x);
    assert forall|i: int, j: int| 0 <= i < j < n.len() implies lex_le(sort_name(n[i]), sort_name(n[j])) by {
        if i == p {
            if j > p + 1 {
                lemma_lex_trans(sort_name(x), sort_name(out[p]), sort_name(out[j - 1]));
            }
        } else if j == p {
        } else {
            let i2 = if i < p { i } else { i - 1 };
            let j2 = if j < p { j } else { j - 1 };
            assert(n[i] == out[i2] && n[j] == out[j2]);
        }
    }
}

proof fn lemma_empty_multiset(s: Seq<EntitySummary>)
    requires
        s.len() == 0,
    ensures
        s.to_multiset() =~= Multiset::<EntitySummary>::empty(),
{
    assert forall|a: EntitySummary| s.to_multiset().count(a) == 0 by {
        vstd::seq_lib::to_multiset_contains(s, a);
    }
}

/// The same summaries ordered by name; equal names keep their order.
pub fn sort_by_name(v: Vec<EntitySummary>) -> (r: Vec<EntitySummary>)
    ensures
        r@.to_multiset() == v@.to_multiset(),
        sorted_by_name(r@),
{
    let ghost orig = v@;
    let mut rest = v;
    let mut out: Vec<EntitySummary> = Vec::new();
    proof {
        lemma_empty_multiset(out@);
    }
    assert(out@.to_multiset().add(rest@.to_multiset()) =~= orig.to_multiset());
    while rest.len() > 0
        invariant
            out@.to_multiset().add(rest@.to_multiset()) == orig.to_multiset(),
            sorted_by_name(out@),
        decreases rest.len(),
    {
        let ghost before_rest = rest@;
        let x = rest.remove(0);
        proof {
            vstd::seq_lib::to_multiset_remove(before_rest, 0);
        }
        let mut p: usize = 0;
        while p < out.len() && str_le(name_of(&out[p]), name_of(&x))
            invariant
                p <= out@.len(),
                forall|k: int| 0 <= k < p ==> lex_le(sort_name(out@[k]), sort_name(x)),
            decreases out.len() - p,
        {
            p += 1;
        }
        proof {
            if p < out@.len() {
                lemma_lex_total(sort_name(out@[p as int]), sort_name(x));
            }
            lemma_insert_sorted(out@, p as int, x);
        }
        let ghost before = out@;
        out.insert(p, x);
        proof {
            assert(before_rest.to_multiset().count(x) > 0) by {
                vstd::seq_lib::to_multiset_contains(before_rest, x);
                assert(before_rest[0] == x);
            }
            assert(out@.to_multiset().add(rest@.to_multiset()) =~= before.to_multiset().add(before_rest.to_multiset()));
        }
    }
    proof {
        lemma_empty_multiset(rest@);
        assert(out@.to_multiset().add(rest@.to_multiset()) =~= out@.to_multiset());
    }
    out
}

proof fn lemma_insert_sorted_index(out: Seq<EntitySummary>, p: int, x: EntitySummary)
    requires
        sorted_by_index(out),
        0 <= p <= out.len(),
        forall|k: int| 0 <= k < p ==> out[k].array_index <= x.array_index,
        p < out.len() ==> x.array_index <= out[p].array_index,
    ensures
        sorted_by_index(out.insert(p, x)),
{
    let n = out.insert(p, x);
    assert forall|i: int, j: int| 0 <= i < j < n.len() implies n[i].array_index <= n[j].array_index by {
        if i == p {
            if j > p + 1 {
                assert(out[p].array_index <= out[j - 1].array_index);
            }
        } else if j == p {
        } else {
            let i2 = if i < p { i } else { i - 1 };
            let j2 = if j < p { j } else { j - 1 };
            assert(n[i] == out[i2] && n[j] == out[j2]);
        }
    }
}

/// The same summaries ordered by array position; equal positions keep their order.
pub fn sort_by_index(v: Vec<EntitySummary>) -> (r: Vec<EntitySummary>)
    ensures
        r@.to_multiset() == v@.to_multiset(),
        sorted_by_index(r@),
{
    let ghost orig = v@;
    let mut rest = v;
    let mut out: Vec<EntitySummary> = Vec::new();
    proof {
        lemma_empty_multiset(out@);
    }
    assert(out@.to_multiset().add(rest@.to_multiset()) =~= orig.to_multiset());
    while rest.len() > 0
        invariant
            out@.to_multiset().add(rest@.to_multiset()) == orig.to_multiset(),
            sorted_by_index(out@),
        decreases rest.len(),
    {
        let ghost before_rest = rest@;
        let x = rest.remove(0);
        proof {
            vstd::seq_lib::to_multiset_remove(before_rest, 0);
        }
        let mut p: usize = 0;
        while p < out.len() && out[p].array_index <= x.array_index
            invariant
                p <= out@.len(),
                forall|k: int| 0 <= k < p ==> out@[k].array_index <= x.array_index,
            decreases out.len() - p,
        {
            p += 1;
        }
        proof {
            lemma_insert_sorted_index(out@, p as int, x);
        }
        let ghost before = out@;
        out.insert(p, x);
        proof {
            assert(before_rest.to_multiset().count(x) > 0) by {
                vstd::seq_lib::to_multiset_contains(before_rest, x);
                assert(before_rest[0] == x);
            }
            assert(out@.to_multiset().add(rest@.to_multiset()) =~= before.to_multiset().add(before_rest.to_multiset()));
        }
    }
    proof {
        lemma_empty_multiset(rest@);
        assert(out@.to_multiset().add(rest@.to_multiset()) =~= out@.to_multiset());
    }
    out
}

/// Each group sorted, by name or by array position.
fn sort_groups(groups: Vec<(String, Vec<EntitySummary>)>, by_name: bool) -> (r: Vec<(String, Vec<EntitySummary>)>)
    ensures
        r@.len() == groups@.len(),
        forall|g: int|
            0 <= g < r@.len() ==> {
                &&& (#[trigger] r@[g]).0 == groups@[g].0
                &&& r@[g].1@.to_multiset() == groups@[g].1@.to_multiset()
                &&& r@[g].1@.len() == groups@[g].1@.len()
                &&& if by_name {
                    sorted_by_name(r@[g].1@)
                } else {
                    sorted_by_index(r@[g].1@)
                }
            },
{
    let ghost orig = groups@;
    let mut rest = groups;
    let mut out: Vec<(String, Vec<EntitySummary>)> = Vec::new();
    while rest.len() > 0
        invariant
            out@.len() + rest@.len() == orig.len(),
            rest@ == orig.subrange(out@.len() as int, orig.len() as int),
            forall|g: int|
                0 <= g < out@.len() ==> {
                    &&& (#[trigger] out@[g]).0 == orig[g].0
                    &&& out@[g].1@.to_multiset() == orig[g].1@.to_multiset()
                    &&& out@[g].1@.len() == orig[g].1@.len()
                    &&& if by_name {
                        sorted_by_name(out@[g].1@)
                    } else {
                        sorted_by_index(out@[g].1@)
                    }
                },
        decreases rest.len(),
    {
        let ghost before = rest@;
        let (name, v) = rest.remove(0);
        let ghost mv = v@;
        let sorted = if by_name {
            sort_by_name(v)
        } else {
            sort_by_index(v)
        };
        proof {
            vstd::seq_lib::to_multiset_len(sorted@);
            vstd::seq_lib::to_multiset_len(mv);
        }
        out.push((name, sorted));
        assert(rest@ =~= orig.subrange(out@.len() as int, orig.len() as int));
    }
    out
}

/// Each group holds the records with its label, sorted.
pub open spec fn groups_exact(
    groups: Seq<(String, Vec<EntitySummary>)>,
    es: Seq<(String, Entity)>,
    by_type: bool,
) -> bool {
    forall|g: int|
        0 <= g < groups.len() ==> {
            &&& (#[trigger] groups[g]).1@.to_multiset() == members(es, by_type, groups[g].0@, es.len() as int).to_multiset()
            &&& groups[g].1@.len() > 0
            &&& if by_type {
                sorted_by_name(groups[g].1@)
            } else {
                sorted_by_index(groups[g].1@)
            }
        }
}

/// Every record's label has a group.
pub open spec fn groups_complete(
    groups: Seq<(String, Vec<EntitySummary>)>,
    es: Seq<(String, Entity)>,
    by_type: bool,
) -> bool {
    forall|k: int| 0 <= k < es.len() ==> labels(groups).contains(label(by_type, #[trigger] es[k].1))
}

/// No label has two groups.
pub open spec fn labels_unique(groups: Seq<(String, Vec<EntitySummary>)>) -> bool {
    forall|a: int, b: int| 0 <= a < groups.len() && 0 <= b < groups.len() && a != b ==> groups[a].0@ != groups[b].0@
}

/// The tree's groups hold exactly the records with their label, each label once.
pub open spec fn tree_groups(
    groups: Seq<(String, Vec<EntitySummary>)>,
    es: Seq<(String, Entity)>,
    by_type: bool,
) -> bool {
    groups_exact(groups, es, by_type) && groups_complete(groups, es, by_type) && labels_unique(groups)
}

proof fn lemma_sorted_groups(
    r: Seq<(String, Vec<EntitySummary>)>,
    g0: Seq<(String, Vec<EntitySummary>)>,
    es: Seq<(String, Entity)>,
    by_type: bool,
)
    requires
        groups_cover(g0, es, by_type, es.len() as int),
        r.len() == g0.len(),
        forall|g: int|
            0 <= g < r.len() ==> {
                &&& (#[trigger] r[g]).0 == g0[g].0
                &&& r[g].1@.to_multiset() == g0[g].1@.to_multiset()
                &&& r[g].1@.len() == g0[g].1@.len()
                &&& if by_type {
                    sorted_by_name(r[g].1@)
                } else {
                    sorted_by_index(r[g].1@)
                }
            },
    ensures
        tree_groups(r, es, by_type),
{
    assert forall|g: int| 0 <= g < r.len() implies (#[trigger] r[g]).1@.to_multiset() == members(
        es,
        by_type,
        r[g].0@,
        es.len() as int,
    ).to_multiset() && r[g].1@.len() > 0 && if by_type {
        sorted_by_name(r[g].1@)
    } else {
        sorted_by_index(r[g].1@)
    } by {
        assert(r[g].0 == g0[g].0);
        assert(g0[g].1@.to_multiset() == members(es, by_type, g0[g].0@, es.len() as int).to_multiset());
    }
    assert forall|k: int| 0 <= k < es.len() implies labels(r).contains(label(by_type, #[trigger] es[k].1)) by {
        let g = choose|g: int| 0 <= g < labels(g0).len() && labels(g0)[g] == label(by_type, es[k].1);
        assert(r[g].0 == g0[g].0);
        assert(labels(r)[g] == label(by_type, es[k].1));
    }
    assert forall|a: int, b: int| 0 <= a < r.len() && 0 <= b < r.len() && a != b implies r[a].0@ != r[b].0@ by {
        assert(r[a].0 == g0[a].0);
        assert(r[b].0 == g0[b].0);
    }
    assert(groups_exact(r, es, by_type));
    assert(groups_complete(r, es, by_type));
    assert(labels_unique(r));
}

fn sorted_groups(es: &Vec<(String, Entity)>, by_type: bool) -> (r: Vec<(String, Vec<EntitySummary>)>)
    ensures
        tree_groups(r@, es@, by_type),
{
    let groups = group_records(es, by_type);
    let ghost g0 = groups@;
    let r = sort_groups(groups, by_type);
    proof {
        lemma_sorted_groups(r@, g0, es@, by_type);
    }
    r
}

impl ContentPack {
    /// The navigation tree: records grouped by type, each group ordered by
    /// display name (else id), and by file, each group in array order.
    pub fn to_entity_tree(&self) -> (r: EntityTree)
        ensures
            tree_groups(r.by_type@, self.entities@, true),
            tree_groups(r.by_file@, self.entities@, false),
    {
        EntityTree { by_type: sorted_groups(&self.entities, true), by_file: sorted_groups(&self.entities, false) }
    }
}

} // verus!
