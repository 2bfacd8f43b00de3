use vstd::multiset::Multiset;
use vstd::prelude::*;

use crate::commands::Workspace;
use crate::entity::{copy_opt, Entity};
use crate::loader::views;
use crate::text::{find_from, find_str, str_eq};
use crate::tree::{lemma_lex_total, lemma_lex_trans, lex_le, str_le};
use crate::workspace::{ContentPack, PackId};

verus! {

broadcast use vstd::seq_lib::to_multiset_insert, vstd::seq_lib::to_multiset_len, vstd::multiset::group_multiset_axioms;

/// The lowercase form of a text, as `str::to_lowercase` gives it.
pub uninterp spec fn lower_of(s: Seq<char>) -> Seq<char>;

/// Relies on `str::to_lowercase`: the lowercase form, which depends on the
/// characters alone.
#[verifier::external_body]
fn lowercase(s: &str) -> (r: String)
    ensures
        r@ == lower_of(s@),
{
    s.to_lowercase()
}

/// One hit of a search.
#[derive(Debug, Clone)]
pub struct SearchResult {
    pub pack_id: PackId,
    pub pack_name: String,
    pub entity_key: String,
    pub entity_id: String,
    pub entity_type: String,
    pub display_name: Option<String>,
}

/// At most this many hits are returned.
pub const MAX_RESULTS: usize = 100;

/// `q` occurs in `id`, or in `name` where there is one (all lowercase).
pub open spec fn hit(q: Seq<char>, id: Seq<char>, name: Option<Seq<char>>) -> bool {
    find_from(id, q, 0) is Some || (name matches Some(n) && find_from(n, q, 0) is Some)
}

/// `q` is `id`, or `name` where there is one (all lowercase).
pub open spec fn exact(q: Seq<char>, id: Seq<char>, name: Option<Seq<char>>) -> bool {
    id == q || (name matches Some(n) && n == q)
}

/// Whether the lowercase query `query_lower` matches a record whose
/// lowercase id and display name are given.
pub fn matches_query(query_lower: &str, id_lower: &str, name_lower: Option<&str>) -> (r: bool)
    ensures
        r == hit(
            query_lower@,
            id_lower@,
            match name_lower {
                Some(n) => Some(n@),
                None => None,
            },
        ),
{
    if find_str(id_lower, query_lower, 0).is_some() {
        return true;
    }
    match name_lower {
        Some(n) => find_str(n, query_lower, 0).is_some(),
        None => false,
    }
}

/// Whether the lowercase query equals the lowercase id or display name.
pub fn is_exact_match(query_lower: &str, id_lower: &str, name_lower: Option<&str>) -> (r: bool)
    ensures
        r == exact(
            query_lower@,
            id_lower@,
            match name_lower {
                Some(n) => Some(n@),
                None => None,
            },
        ),
{
    if str_eq(id_lower, query_lower) {
        return true;
    }
    match name_lower {
        Some(n) => str_eq(n, query_lower),
        None => false,
    }
}

pub open spec fn lower_name(e: Entity) -> Option<Seq<char>> {
    match e.meta.display_name {
        Some(n) => Some(lower_of(n@)),
        None => None,
    }
}

/// The hit that record `e` under `key` of pack `p` gives.
pub open spec fn result_of(p: ContentPack, key: String, e: Entity) -> SearchResult {
    SearchResult {
        pack_id: p.id,
        pack_name: p.name,
        entity_key: key,
        entity_id: e.meta.id,
        entity_type: e.meta.entity_type,
        display_name: e.meta.display_name,
    }
}

pub open spec fn type_allowed(types: Option<Vec<String>>, e: Entity) -> bool {
    match types {
        Some(ts) => views(ts@).contains(e.meta.entity_type@),
        None => true,
    }
}

pub open spec fn pack_allowed(ids: Option<Vec<PackId>>, p: ContentPack) -> bool {
    match ids {
        Some(v) => v@.contains(p.id),
        None => true,
    }
}

/// The hits among the first `n` records of `p`, each with whether it is exact.
pub open spec fn pack_hits(p: ContentPack, q: Seq<char>, types: Option<Vec<String>>, n: int) -> Seq<(bool, SearchResult)>
    decreases n,
{
    if n <= 0 {
        Seq::empty()
    } else {
        let prev = pack_hits(p, q, types, n - 1);
        let (key, e) = p.entities@[n - 1];
        if type_allowed(types, e) && hit(q, lower_of(e.meta.id@), lower_name(e)) {
            prev.push((exact(q, lower_of(e.meta.id@), lower_name(e)), result_of(p, key, e)))
        } else {
            prev
        }
    }
}

/// The hits in the first `n` packs.
pub open spec fn all_hits(
    packs: Seq<ContentPack>,
    q: Seq<char>,
    types: Option<Vec<String>>,
    ids: Option<Vec<PackId>>,
    n: int,
) -> Seq<(bool, SearchResult)>
    decreases n,
{
    if n <= 0 {
        Seq::empty()
    } else {
        let prev = all_hits(packs, q, types, ids, n - 1);
        let p = packs[n - 1];
        if pack_allowed(ids, p) {
            prev + pack_hits(p, q, types, p.entities@.len() as int)
        } else {
            prev
        }
    }
}

/// The name a hit is ordered by: its display name, else its id.
pub open spec fn hit_name(r: SearchResult) -> Seq<char> {
    match r.display_name {
        Some(n) => n@,
        None => r.entity_id@,
    }
}

/// Exact hits first, then by name.
pub open spec fn rank_le(a: (bool, SearchResult), b: (bool, SearchResult)) -> bool {
    (a.0 && !b.0) || (a.0 == b.0 && lex_le(hit_name(a.1), hit_name(b.1)))
}

pub open spec fn ranked(s: Seq<(bool, SearchResult)>) -> bool {
    forall|i: int, j: int| 0 <= i < j < s.len() ==> rank_le(s[i], s[j])
}

/// `r` is the first `MAX_RESULTS` hits of `hits` in rank order.
pub open spec fn top_hits(r: Seq<SearchResult>, hits: Seq<(bool, SearchResult)>) -> bool {
    exists|s: Seq<(bool, SearchResult)>|
        #![trigger s.to_multiset()]
        s.to_multiset() == hits.to_multiset() && ranked(s) && r == s.take(
            if s.len() < MAX_RESULTS {
                s.len() as int
            } else {
                MAX_RESULTS as int
            },
        ).map_values(|x: (bool, SearchResult)| x.1)
}

proof fn lemma_rank_total(a: (bool, SearchResult), b: (bool, SearchResult))
    ensures
        rank_le(a, b) || rank_le(b, a),
{
    lemma_lex_total(hit_name(a.1), hit_name(b.1));
}

proof fn lemma_rank_trans(a: (bool, SearchResult), b: (bool, SearchResult), c: (bool, SearchResult))
    requires
        rank_le(a, b),
        rank_le(b, c),
    ensures
        rank_le(a, c),
{
    if a.0 == b.0 && b.0 == c.0 {
        lemma_lex_trans(hit_name(a.1), hit_name(b.1), hit_name(c.1));
    }
}

fn copy_result(r: &SearchResult) -> (c: SearchResult)
    ensures
        c == *r,
{
    SearchResult {
        pack_id: r.pack_id,
        pack_name: r.pack_name.clone(),
        entity_key: r.entity_key.clone(),
        entity_id: r.entity_id.clone(),
        entity_type: r.entity_type.clone(),
        display_name: copy_opt(&r.display_name),
    }
}

fn name_str(r: &SearchResult) -> (s: &str)
    ensures
        s@ == hit_name(*r),
{
    match &r.display_name {
        Some(n) => n.as_str(),
        None => r.entity_id.as_str(),
    }
}

fn rank_le_exec(a: &(bool, SearchResult), b: &(bool, SearchResult)) -> (r: bool)
    ensures
        r == rank_le(*a, *b),
{
    if a.0 && !b.0 {
        return true;
    }
    a.0 == b.0 && str_le(name_str(&a.1), name_str(&b.1))
}

proof fn lemma_insert_ranked(out: Seq<(bool, SearchResult)>, p: int, x: (bool, SearchResult))
    requires
        ranked(out),
        0 <= p <= out.len(),
        forall|k: int| 0 <= k < p ==> rank_le(out[k], x),
        p < out.len() ==> rank_le(x, out[p]),
    ensures
        ranked(out.insert(p, x)),
{
    let n = out.insert(p, x);
    assert forall|i: int, j: int| 0 <= i < j < n.len() implies rank_le(n[i], n[j]) by {
        if i == p {
            if j > p + 1 {
                lemma_rank_trans(x, out[p], out[j - 1]);
            }
        } else if j == p {
        } else {
            let i2 = if i < p { i } else { i - 1 };
            let j2 = if j < p { j } else { j - 1 };
            assert(n[i] == out[i2] && n[j] == out[j2]);
        }
    }
}

proof fn lemma_empty_multiset(s: Seq<(bool, SearchResult)>)
    requires
        s.len() == 0,
    ensures
        s.to_multiset() =~= Multiset::<(bool, SearchResult)>::empty(),
{
    assert forall|a: (bool, SearchResult)| s.to_multiset().count(a) == 0 by {
        vstd::seq_lib::to_multiset_contains(s, a);
    }
}

/// The hits in rank order; equal ranks keep their order.
fn rank_hits(v: Vec<(bool, SearchResult)>) -> (r: Vec<(bool, SearchResult)>)
    ensures
        r@.to_multiset() == v@.to_multiset(),
        ranked(r@),
{
    let ghost orig = v@;
    let mut rest = v;
    let mut out: Vec<(bool, SearchResult)> = Vec::new();
    proof {
        lemma_empty_multiset(out@);
    }
    assert(out@.to_multiset().add(rest@.to_multiset()) =~= orig.to_multiset());
    while rest.len() > 0
        invariant
            out@.to_multiset().add(rest@.to_multiset()) == orig.to_multiset(),
            ranked(out@),
        decreases rest.len(),
    {
        let ghost before_rest = rest@;
        let x = rest.remove(0);
        proof {
            vstd::seq_lib::to_multiset_remove(before_rest, 0);
        }
        let mut p: usize = 0;
        while p < out.len() && rank_le_exec(&out[p], &x)
            invariant
                p <= out@.len(),
                forall|k: int| 0 <= k < p ==> rank_le(out@[k], x),
            decreases out.len() - p,
        {
            p += 1;
        }
        proof {
            if p < out@.len() {
                lemma_rank_total(out@[p as int], x);
            }
            lemma_insert_ranked(out@, p as int, x);
        }
        let ghost before = out@;
        out.insert(p, x);
        proof {
            assert(before_rest.to_multiset().count(x) > 0) by {
                vstd::seq_lib::to_multiset_contains(before_rest, x);
                assert(before_rest[0] == x);
            }
            assert(out@.to_multiset().add(rest@.to_multiset()) =~= before.to_multiset().add(before_rest.to_multiset()));
        }
    }
    proof {
        lemma_empty_multiset(rest@);
        assert(out@.to_multiset().add(rest@.to_multiset()) =~= out@.to_multiset());
    }
    out
}

fn type_listed(types: &Option<Vec<String>>, t: &String) -> (r: bool)
    ensures
        r == match types {
            Some(ts) => views(ts@).contains(t@),
            None => true,
        },
{
    match types {
        None => true,
        Some(ts) => {
            let ghost vs = views(ts@);
            let mut i: usize = 0;
            while i < ts.len()
                invariant
                    *types == Some(*ts),
                    i <= ts@.len(),
                    vs == views(ts@),
                    forall|k: int| 0 <= k < i ==> vs[k] != t@,
                decreases ts.len() - i,
            {
                if ts[i] == *t {
                    assert(vs[i as int] == t@);
                    assert(vs.contains(t@));
                    return true;
                }
                i += 1;
            }
            false
        },
    }
}

fn pack_listed(ids: &Option<Vec<PackId>>, id: PackId) -> (r: bool)
    ensures
        r == match ids {
            Some(v) => v@.contains(id),
            None => true,
        },
{
    match ids {
        None => true,
        Some(v) => {
            let mut i: usize = 0;
            while i < v.len()
                invariant
                    *ids == Some(*v),
                    i <= v@.len(),
                    forall|k: int| 0 <= k < i ==> v@[k] != id,
                decreases v.len() - i,
            {
                if v[i] == id {
                    assert(v@[i as int] == id);
                    assert(v@.contains(id));
                    return true;
                }
                i += 1;
            }
            false
        },
    }
}

fn lower_opt(o: &Option<String>) -> (r: Option<String>)
    ensures
        match r {
            Some(s) => *o matches Some(n) && s@ == lower_of(n@),
            None => o is None,
        },
{
    match o {
        Some(n) => Some(lowercase(n.as_str())),
        None => None,
    }
}

fn opt_str(o: &Option<String>) -> (r: Option<&str>)
    ensures
        match r {
            Some(s) => *o matches Some(n) && s@ == n@,
            None => o is None,
        },
{
    match o {
        Some(n) => Some(n.as_str()),
        None => None,
    }
}

/// The hits among the records of `p`.
fn collect_pack_hits(p: &ContentPack, q: &str, types: &Option<Vec<String>>, out: &mut Vec<(bool, SearchResult)>)
    ensures
        final(out)@ == old(out)@ + pack_hits(*p, q@, *types, p.entities@.len() as int),
{
    let ghost start = out@;
    let mut k: usize = 0;
    while k < p.entities.len()
        invariant
            k <= p.entities@.len(),
            out@ == start + pack_hits(*p, q@, *types, k as int),
        decreases p.entities.len() - k,
    {
        let (key, e) = &p.entities[k];
        if type_listed(types, &e.meta.entity_type) {
            let id_lower = lowercase(e.meta.id.as_str());
            let name_lower = lower_opt(&e.meta.display_name);
            assert(match name_lower {
                Some(s) => Some(s@),
                None => None::<Seq<char>>,
            } == lower_name(*e));
            let nl = opt_str(&name_lower);
            if matches_query(q, id_lower.as_str(), nl) {
                let ex = is_exact_match(q, id_lower.as_str(), nl);
                let r = SearchResult {
                    pack_id: p.id,
                    pack_name: p.name.clone(),
                    entity_key: key.clone(),
                    entity_id: e.meta.id.clone(),
                    entity_type: e.meta.entity_type.clone(),
                    display_name: copy_opt(&e.meta.display_name),
                };
                out.push((ex, r));
                assert(out@ =~= start + pack_hits(*p, q@, *types, k + 1));
            }
        }
        k += 1;
    }
}

/// Searches the records of all packs, or of the packs in `pack_ids`, and of
/// the types in `entity_types` where given: a record is a hit where the
/// query, case aside, occurs in its id or display name. Exact hits come
/// first, then by name; at most [`MAX_RESULTS`] are returned.
pub fn search_entities(
    ws: &Workspace,
    query: &str,
    entity_types: &Option<Vec<String>>,
    pack_ids: &Option<Vec<PackId>>,
) -> (r: Vec<SearchResult>)
    ensures
        top_hits(r@, all_hits(ws.packs@, lower_of(query@), *entity_types, *pack_ids, ws.packs@.len() as int)),
{
    let q = lowercase(query);
    let mut hits: Vec<(bool, SearchResult)> = Vec::new();
    let mut i: usize = 0;
    while i < ws.packs.len()
        invariant
            i <= ws.packs@.len(),
            q@ == lower_of(query@),
            hits@ == all_hits(ws.packs@, q@, *entity_types, *pack_ids, i as int),
        decreases ws.packs.len() - i,
    {
        if pack_listed(pack_ids, ws.packs[i].id) {
            collect_pack_hits(&ws.packs[i], q.as_str(), entity_types, &mut hits);
        }
        i += 1;
    }
    let ghost all = hits@;
    let sorted = rank_hits(hits);
    let n = if sorted.len() < MAX_RESULTS {
        sorted.len()
    } else {
        MAX_RESULTS
    };
    let mut out: Vec<SearchResult> = Vec::new();
    let mut k: usize = 0;
    while k < n
        invariant
            k <= n <= sorted@.len(),
            out@ == sorted@.take(k as int).map_values(|x: (bool, SearchResult)| x.1),
        decreases n - k,
    {
        out.push(copy_result(&sorted[k].1));
        assert(out@ =~= sorted@.take(k + 1).map_values(|x: (bool, SearchResult)| x.1));
        k += 1;
    }
    proof {
        assert(sorted@.to_multiset() == all.to_multiset());
    }
    out
}

} // verus!
