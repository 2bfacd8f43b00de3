use vstd::prelude::*;

use crate::json::{as_text, entry_lookup, field, json_text_parse, lemma_array_view, parse_json, text_field, Json, JsonModel};
use crate::text::{owned, str_eq};
use crate::tree::{lemma_lex_total, lemma_lex_trans, lex_le, str_le};

verus! {

/// A terrain type of the game data.
#[derive(Debug, Clone)]
pub struct TerrainInfo {
    pub id: String,
    pub name: String,
    pub symbol: String,
    pub color: String,
}

/// A furniture type of the game data.
#[derive(Debug, Clone)]
pub struct FurnitureInfo {
    pub id: String,
    pub name: String,
    pub symbol: String,
    pub color: String,
}

/// A type's id, name, symbol and color.
pub type TypeInfo = (String, String, String, String);

pub open spec fn info_view(i: TypeInfo) -> (Seq<char>, Seq<char>, Seq<char>, Seq<char>) {
    (i.0@, i.1@, i.2@, i.3@)
}

/// A name field: a string, or the `str` of an object.
pub open spec fn name_of(f: Option<JsonModel>) -> Option<Seq<char>> {
    match f {
        Some(JsonModel::Str(s)) => Some(s),
        Some(JsonModel::Object(e)) => as_text(entry_lookup(e, "str"@)),
        _ => None,
    }
}

/// A name field's text.
pub fn extract_name(name_value: Option<&Json>) -> (r: Option<String>)
    ensures
        crate::entity::opt_view(r) == name_of(
            match name_value {
                Some(v) => Some(v@),
                None => None,
            },
        ),
{
    match name_value {
        Some(Json::Str(s)) => Some(s.clone()),
        Some(Json::Object(_)) => match name_value.unwrap().get_str("str") {
            Some(s) => Some(owned(s)),
            None => None,
        },
        _ => None,
    }
}

/// The description of an object of type `kind`, with defaults for a missing
/// name (the id), symbol and color (white).
pub open spec fn type_info(j: JsonModel, kind: Seq<char>, default_symbol: Seq<char>) -> Option<
    (Seq<char>, Seq<char>, Seq<char>, Seq<char>),
> {
    if j is Object && text_field(j, "type"@) == Some(kind) && text_field(j, "id"@) is Some {
        let id = text_field(j, "id"@)->0;
        Some(
            (
                id,
                match name_of(field(j, "name"@)) {
                    Some(n) => n,
                    None => id,
                },
                match text_field(j, "symbol"@) {
                    Some(s) => s,
                    None => default_symbol,
                },
                match text_field(j, "color"@) {
                    Some(c) => c,
                    None => "white"@,
                },
            ),
        )
    } else {
        None
    }
}

/// The objects of type `kind` in `j`, arrays searched in order.
pub open spec fn infos_in(j: JsonModel, kind: Seq<char>, sym: Seq<char>) -> Seq<(Seq<char>, Seq<char>, Seq<char>, Seq<char>)>
    decreases j, 0int,
{
    match j {
        JsonModel::Array(items) => infos_in_items(items, kind, sym, 0),
        _ => match type_info(j, kind, sym) {
            Some(t) => seq![t],
            None => Seq::empty(),
        },
    }
}

pub open spec fn infos_in_items(items: Seq<JsonModel>, kind: Seq<char>, sym: Seq<char>, i: int) -> Seq<
    (Seq<char>, Seq<char>, Seq<char>, Seq<char>),
>
    decreases items, items.len() - i,
{
    if i < 0 || i >= items.len() {
        Seq::empty()
    } else {
        infos_in(items[i], kind, sym) + infos_in_items(items, kind, sym, i + 1)
    }
}

fn text_or(j: &Json, key: &str, default: &str) -> (r: String)
    ensures
        r@ == match text_field(j@, key@) {
            Some(s) => s,
            None => default@,
        },
{
    match j.get_str(key) {
        Some(s) => owned(s),
        None => owned(default),
    }
}

/// Appends the objects of type `kind` found in `json`.
fn extract_kind(json: &Json, kind: &str, default_symbol: &str, out: &mut Vec<TypeInfo>)
    ensures
        final(out)@.map_values(|i: TypeInfo| info_view(i)) == old(out)@.map_values(|i: TypeInfo| info_view(i))
            + infos_in(json@, kind@, default_symbol@),
    decreases json,
{
    proof {
        reveal_strlit("white");
    }
    match json {
        Json::Array(items) => {
            proof {
                lemma_array_view(*json);
            }
            let ghost m = json@->Array_0;
            let ghost start = old(out)@.map_values(|i: TypeInfo| info_view(i));
            let mut k: usize = 0;
            assert(infos_in(json@, kind@, default_symbol@) == infos_in_items(m, kind@, default_symbol@, 0));
            assert(start =~= out@.map_values(|i: TypeInfo| info_view(i)));
            while k < items.len()
                invariant
                    *json is Array,
                    json->Array_0 == *items,
                    k <= items@.len(),
                    m.len() == items@.len(),
                    forall|q: int| 0 <= q < items@.len() ==> #[trigger] m[q] == items@[q]@,
                    out@.map_values(|i: TypeInfo| info_view(i)) + infos_in_items(m, kind@, default_symbol@, k as int)
                        == start + infos_in_items(m, kind@, default_symbol@, 0),
                decreases items.len() - k,
            {
                proof {
                    assert(decreases_to!(*json => json->Array_0));
                    assert(decreases_to!(json->Array_0 => json->Array_0[k as int]));
                }
                let ghost before = out@.map_values(|i: TypeInfo| info_view(i));
                extract_kind(&items[k], kind, default_symbol, out);
                assert(out@.map_values(|i: TypeInfo| info_view(i)) + infos_in_items(m, kind@, default_symbol@, k + 1)
                    =~= before + infos_in_items(m, kind@, default_symbol@, k as int));
                k += 1;
            }
            assert(out@.map_values(|i: TypeInfo| info_view(i)) =~= start + infos_in(json@, kind@, default_symbol@));
        },
        _ => {
            let is_kind = match json.get_str("type") {
                Some(t) => str_eq(t, kind),
                None => false,
            };
            let ghost before = out@.map_values(|i: TypeInfo| info_view(i));
            if json.is_object() && is_kind {
                if let Some(id) = json.get_str("id") {
                    let name = match extract_name(json.get("name")) {
                        Some(n) => n,
                        None => owned(id),
                    };
                    let symbol = text_or(json, "symbol", default_symbol);
                    let color = text_or(json, "color", "white");
                    out.push((owned(id), name, symbol, color));
                }
            }
            assert(out@.map_values(|i: TypeInfo| info_view(i)) =~= before + infos_in(json@, kind@, default_symbol@));
        },
    }
}

/// Ids strictly ascending.
pub open spec fn ids_sorted(v: Seq<TypeInfo>) -> bool {
    forall|i: int, j: int|
        #![trigger v[i], v[j]]
        0 <= i < j < v.len() ==> lex_le(v[i].0@, v[j].0@) && v[i].0@ != v[j].0@
}

proof fn lemma_lex_antisym(a: Seq<char>, b: Seq<char>)
    requires
        lex_le(a, b),
        lex_le(b, a),
    ensures
        a == b,
    decreases a.len(),
{
    if a.len() > 0 && b.len() > 0 {
        lemma_lex_antisym(a.drop_first(), b.drop_first());
        assert(a =~= seq![a[0]] + a.drop_first());
        assert(b =~= seq![b[0]] + b.drop_first());
    }
}

/// The ids of `v`, in order.
pub open spec fn ids_of(v: Seq<TypeInfo>) -> Seq<Seq<char>> {
    v.map_values(|x: TypeInfo| x.0@)
}

/// The types ordered by id, keeping the first of several with one id.
pub fn sort_dedup_by_id(v: Vec<TypeInfo>) -> (r: Vec<TypeInfo>)
    ensures
        ids_sorted(r@),
        forall|k: int| 0 <= k < v@.len() ==> ids_of(r@).contains(#[trigger] v@[k].0@),
        forall|j: int| 0 <= j < r@.len() ==> ids_of(v@).contains(#[trigger] r@[j].0@),
        forall|j: int| 0 <= j < r@.len() ==> v@.contains(#[trigger] r@[j]),
{
    let mut out: Vec<TypeInfo> = Vec::new();
    let mut i: usize = 0;
    while i < v.len()
        invariant
            i <= v@.len(),
            ids_sorted(out@),
            forall|k: int| 0 <= k < i ==> ids_of(out@).contains(#[trigger] v@[k].0@),
            forall|j: int| 0 <= j < out@.len() ==> ids_of(v@).contains(#[trigger] out@[j].0@),
            forall|j: int| 0 <= j < out@.len() ==> v@.contains(#[trigger] out@[j]),
        decreases v.len() - i,
    {
        let x = &v[i];
        let mut p: usize = 0;
        while p < out.len() && str_le(out[p].0.as_str(), x.0.as_str()) && !(out[p].0 == x.0)
            invariant
                p <= out@.len(),
                forall|k: int| 0 <= k < p ==> lex_le(out@[k].0@, x.0@) && out@[k].0@ != x.0@,
            decreases out.len() - p,
        {
            p += 1;
        }
        let ghost before = out@;
        if p < out.len() && out[p].0 == x.0 {
            assert(ids_of(out@)[p as int] == v@[i as int].0@);
        } else {
            proof {
                if p < before.len() {
                    lemma_lex_total(before[p as int].0@, x.0@);
                }
            }
            let y = (x.0.clone(), x.1.clone(), x.2.clone(), x.3.clone());
            out.insert(p, y);
            proof {
                assert(out@[p as int].0@ == x.0@);
                assert forall|a: int, b: int| 0 <= a < b < out@.len() implies lex_le(out@[a].0@, out@[b].0@)
                    && out@[a].0@ != out@[b].0@ by {
                    if a == p {
                        assert(out@[b] == before[b - 1]);
                        if b > p + 1 {
                            assert(lex_le(before[p as int].0@, before[b - 1].0@));
                            lemma_lex_trans(x.0@, before[p as int].0@, before[b - 1].0@);
                            if x.0@ == before[b - 1].0@ {
                                lemma_lex_antisym(x.0@, before[p as int].0@);
                            }
                        }
                    } else if b == p {
                        assert(out@[a] == before[a]);
                    } else {
                        let a2 = if a < p { a } else { a - 1 };
                        let b2 = if b < p { b } else { b - 1 };
                        assert(out@[a] == before[a2] && out@[b] == before[b2]);
                        assert(lex_le(before[a2].0@, before[b2].0@) && before[a2].0@ != before[b2].0@);
                    }
                }
                assert forall|k: int| 0 <= k < i + 1 implies ids_of(out@).contains(#[trigger] v@[k].0@) by {
                    if k < i {
                        let j = choose|j: int| 0 <= j < ids_of(before).len() && ids_of(before)[j] == v@[k].0@;
                        let j2 = if j < p { j } else { j + 1 };
                        assert(out@[j2] == before[j]);
                        assert(ids_of(out@)[j2] == v@[k].0@);
                    } else {
                        assert(ids_of(out@)[p as int] == v@[k].0@);
                    }
                }
                assert forall|j: int| 0 <= j < out@.len() implies ids_of(v@).contains(#[trigger] out@[j].0@) by {
                    if j == p {
                        assert(ids_of(v@)[i as int] == out@[j].0@);
                    } else {
                        let j2 = if j < p { j } else { j - 1 };
                        assert(out@[j] == before[j2]);
                    }
                }
                assert forall|j: int| 0 <= j < out@.len() implies v@.contains(#[trigger] out@[j]) by {
                    if j == p {
                        assert(v@[i as int] == out@[j]);
                    } else {
                        let j2 = if j < p { j } else { j - 1 };
                        assert(out@[j] == before[j2]);
                    }
                }
            }
        }
        i += 1;
    }
    out
}

/// The objects of type `kind` in the first `n` texts that parse, in order.
pub open spec fn infos_in_texts(texts: Seq<String>, kind: Seq<char>, sym: Seq<char>, n: int) -> Seq<
    (Seq<char>, Seq<char>, Seq<char>, Seq<char>),
>
    decreases n,
{
    if n <= 0 {
        Seq::empty()
    } else {
        infos_in_texts(texts, kind, sym, n - 1) + match json_text_parse(texts[n - 1]@) {
            Ok(j) => infos_in(j, kind, sym),
            Err(_) => Seq::empty(),
        }
    }
}

/// `r` lists, by id, one of the types found for each id found.
pub open spec fn listed_by_id(r: Seq<TypeInfo>, found: Seq<(Seq<char>, Seq<char>, Seq<char>, Seq<char>)>) -> bool {
    &&& ids_sorted(r)
    &&& forall|j: int| 0 <= j < r.len() ==> found.contains(info_view(#[trigger] r[j]))
    &&& forall|k: int| 0 <= k < found.len() ==> ids_of(r).contains(#[trigger] found[k].0)
}

/// The objects of type `kind` in all the texts that parse, ordered by id,
/// the first of several with one id kept.
fn collect_types(texts: &Vec<String>, kind: &str, default_symbol: &str) -> (r: Vec<TypeInfo>)
    ensures
        listed_by_id(r@, infos_in_texts(texts@, kind@, default_symbol@, texts@.len() as int)),
{
    let mut all: Vec<TypeInfo> = Vec::new();
    let mut i: usize = 0;
    assert(all@.map_values(|x: TypeInfo| info_view(x)) =~= infos_in_texts(texts@, kind@, default_symbol@, 0));
    while i < texts.len()
        invariant
            i <= texts@.len(),
            all@.map_values(|x: TypeInfo| info_view(x)) == infos_in_texts(texts@, kind@, default_symbol@, i as int),
        decreases texts.len() - i,
    {
        if let Ok(json) = parse_json(texts[i].as_str()) {
            extract_kind(&json, kind, default_symbol, &mut all);
        } else {
            assert(infos_in_texts(texts@, kind@, default_symbol@, i + 1) =~= infos_in_texts(
                texts@,
                kind@,
                default_symbol@,
                i as int,
            ));
        }
        i += 1;
    }
    let ghost found = infos_in_texts(texts@, kind@, default_symbol@, texts@.len() as int);
    let ghost av = all@;
    let r = sort_dedup_by_id(all);
    proof {
        assert forall|j: int| 0 <= j < r@.len() implies found.contains(info_view(#[trigger] r@[j])) by {
            let q = choose|q: int| 0 <= q < av.len() && av[q] == r@[j];
            assert(found[q] == info_view(av[q]));
        }
        assert forall|k: int| 0 <= k < found.len() implies ids_of(r@).contains(#[trigger] found[k].0) by {
            assert(found[k] == info_view(av[k]));
            assert(av[k].0@ == found[k].0);
        }
    }
    r
}

/// The ids of terrain types.
pub open spec fn terrain_ids(v: Seq<TerrainInfo>) -> Seq<Seq<char>> {
    v.map_values(|t: TerrainInfo| t.id@)
}

/// The ids of furniture types.
pub open spec fn furniture_ids(v: Seq<FurnitureInfo>) -> Seq<Seq<char>> {
    v.map_values(|t: FurnitureInfo| t.id@)
}

/// The terrain types in the game's data files, by id.
pub fn collect_terrain_types(texts: &Vec<String>) -> (r: Vec<TerrainInfo>)
    ensures
        forall|i: int, j: int| 0 <= i < j < r@.len() ==> lex_le(r@[i].id@, r@[j].id@) && r@[i].id@ != r@[j].id@,
        forall|j: int|
            0 <= j < r@.len() ==> infos_in_texts(texts@, "terrain"@, "."@, texts@.len() as int).contains(
                (r@[j].id@, r@[j].name@, r@[j].symbol@, r@[j].color@),
            ),
        forall|k: int|
            0 <= k < infos_in_texts(texts@, "terrain"@, "."@, texts@.len() as int).len() ==> terrain_ids(r@).contains(#[trigger] infos_in_texts(texts@, "terrain"@, "."@, texts@.len() as int)[k].0),
{
    let infos = collect_types(texts, "terrain", ".");
    let mut out: Vec<TerrainInfo> = Vec::new();
    let mut i: usize = 0;
    while i < infos.len()
        invariant
            i <= infos@.len(),
            ids_sorted(infos@),
            out@.len() == i,
            forall|k: int| 0 <= k < i ==> info_view(infos@[k]) == (#[trigger] out@[k].id@, out@[k].name@, out@[k].symbol@, out@[k].color@),
        decreases infos.len() - i,
    {
        let t = &infos[i];
        out.push(TerrainInfo { id: t.0.clone(), name: t.1.clone(), symbol: t.2.clone(), color: t.3.clone() });
        i += 1;
    }
    assert forall|a: int, b: int| 0 <= a < b < out@.len() implies lex_le(out@[a].id@, out@[b].id@) && out@[a].id@ != out@[b].id@ by {
        assert(out@[a].id@ == infos@[a].0@ && out@[b].id@ == infos@[b].0@);
    }
    proof {
        let found = infos_in_texts(texts@, "terrain"@, "."@, texts@.len() as int);
        assert forall|k: int| 0 <= k < found.len() implies terrain_ids(out@).contains(#[trigger] found[k].0) by {
            assert(ids_of(infos@).contains(found[k].0));
            let j = choose|j: int| 0 <= j < ids_of(infos@).len() && ids_of(infos@)[j] == found[k].0;
            assert(out@[j].id@ == infos@[j].0@);
            assert(terrain_ids(out@)[j] == found[k].0);
        }
    }
    out
}

/// The furniture types in the game's data files, by id.
pub fn collect_furniture_types(texts: &Vec<String>) -> (r: Vec<FurnitureInfo>)
    ensures
        forall|i: int, j: int| 0 <= i < j < r@.len() ==> lex_le(r@[i].id@, r@[j].id@) && r@[i].id@ != r@[j].id@,
        forall|j: int|
            0 <= j < r@.len() ==> infos_in_texts(texts@, "furniture"@, "#"@, texts@.len() as int).contains(
                (r@[j].id@, r@[j].name@, r@[j].symbol@, r@[j].color@),
            ),
        forall|k: int|
            0 <= k < infos_in_texts(texts@, "furniture"@, "#"@, texts@.len() as int).len() ==> furniture_ids(r@).contains(#[trigger] infos_in_texts(texts@, "furniture"@, "#"@, texts@.len() as int)[k].0),
{
    let infos = collect_types(texts, "furniture", "#");
    let mut out: Vec<FurnitureInfo> = Vec::new();
    let mut i: usize = 0;
    while i < infos.len()
        invariant
            i <= infos@.len(),
            ids_sorted(infos@),
            out@.len() == i,
            forall|k: int| 0 <= k < i ==> info_view(infos@[k]) == (#[trigger] out@[k].id@, out@[k].name@, out@[k].symbol@, out@[k].color@),
        decreases infos.len() - i,
    {
        let t = &infos[i];
        out.push(FurnitureInfo { id: t.0.clone(), name: t.1.clone(), symbol: t.2.clone(), color: t.3.clone() });
        i += 1;
    }
    assert forall|a: int, b: int| 0 <= a < b < out@.len() implies lex_le(out@[a].id@, out@[b].id@) && out@[a].id@ != out@[b].id@ by {
        assert(out@[a].id@ == infos@[a].0@ && out@[b].id@ == infos@[b].0@);
    }
    proof {
        let found = infos_in_texts(texts@, "furniture"@, "#"@, texts@.len() as int);
        assert forall|k: int| 0 <= k < found.len() implies furniture_ids(out@).contains(#[trigger] found[k].0) by {
            assert(ids_of(infos@).contains(found[k].0));
            let j = choose|j: int| 0 <= j < ids_of(infos@).len() && ids_of(infos@)[j] == found[k].0;
            assert(out@[j].id@ == infos@[j].0@);
            assert(furniture_ids(out@)[j] == found[k].0);
        }
    }
    out
}

/// Appends the terrain types found in `json`.
pub fn extract_terrain_from_json(json: &Json, terrains: &mut Vec<TerrainInfo>)
    ensures
        final(terrains)@.map_values(|t: TerrainInfo| (t.id@, t.name@, t.symbol@, t.color@)) == old(terrains)@.map_values(
            |t: TerrainInfo| (t.id@, t.name@, t.symbol@, t.color@),
        ) + infos_in(json@, "terrain"@, "."@),
{
    let mut infos: Vec<TypeInfo> = Vec::new();
    extract_kind(json, "terrain", ".", &mut infos);
    let ghost found = infos@.map_values(|i: TypeInfo| info_view(i));
    assert(found =~= Seq::<TypeInfo>::empty().map_values(|i: TypeInfo| info_view(i)) + infos_in(json@, "terrain"@, "."@));
    let ghost start = terrains@.map_values(|t: TerrainInfo| (t.id@, t.name@, t.symbol@, t.color@));
    let mut i: usize = 0;
    while i < infos.len()
        invariant
            i <= infos@.len(),
            found == infos@.map_values(|i: TypeInfo| info_view(i)),
            terrains@.map_values(|t: TerrainInfo| (t.id@, t.name@, t.symbol@, t.color@)) == start + found.take(i as int),
        decreases infos.len() - i,
    {
        let t = &infos[i];
        let ghost before = terrains@;
        let x = TerrainInfo { id: t.0.clone(), name: t.1.clone(), symbol: t.2.clone(), color: t.3.clone() };
        assert(found[i as int] == (x.id@, x.name@, x.symbol@, x.color@));
        terrains.push(x);
        assert(terrains@.map_values(|t: TerrainInfo| (t.id@, t.name@, t.symbol@, t.color@)) =~= before.map_values(
            |t: TerrainInfo| (t.id@, t.name@, t.symbol@, t.color@),
        ).push((x.id@, x.name@, x.symbol@, x.color@)));
        assert(start + found.take(i + 1) =~= (start + found.take(i as int)).push(found[i as int]));
        i += 1;
    }
    assert(found.take(infos@.len() as int) =~= found);
}

/// Appends the furniture types found in `json`.
pub fn extract_furniture_from_json(json: &Json, furniture: &mut Vec<FurnitureInfo>)
    ensures
        final(furniture)@.map_values(|t: FurnitureInfo| (t.id@, t.name@, t.symbol@, t.color@)) == old(furniture)@.map_values(
            |t: FurnitureInfo| (t.id@, t.name@, t.symbol@, t.color@),
        ) + infos_in(json@, "furniture"@, "#"@),
{
    let mut infos: Vec<TypeInfo> = Vec::new();
    extract_kind(json, "furniture", "#", &mut infos);
    let ghost found = infos@.map_values(|i: TypeInfo| info_view(i));
    assert(found =~= Seq::<TypeInfo>::empty().map_values(|i: TypeInfo| info_view(i)) + infos_in(json@, "furniture"@, "#"@));
    let ghost start = furniture@.map_values(|t: FurnitureInfo| (t.id@, t.name@, t.symbol@, t.color@));
    let mut i: usize = 0;
    while i < infos.len()
        invariant
            i <= infos@.len(),
            found == infos@.map_values(|i: TypeInfo| info_view(i)),
            furniture@.map_values(|t: FurnitureInfo| (t.id@, t.name@, t.symbol@, t.color@)) == start + found.take(i as int),
        decreases infos.len() - i,
    {
        let t = &infos[i];
        let ghost before = furniture@;
        let x = FurnitureInfo { id: t.0.clone(), name: t.1.clone(), symbol: t.2.clone(), color: t.3.clone() };
        assert(found[i as int] == (x.id@, x.name@, x.symbol@, x.color@));
        furniture.push(x);
        assert(furniture@.map_values(|t: FurnitureInfo| (t.id@, t.name@, t.symbol@, t.color@)) =~= before.map_values(
            |t: FurnitureInfo| (t.id@, t.name@, t.symbol@, t.color@),
        ).push((x.id@, x.name@, x.symbol@, x.color@)));
        assert(start + found.take(i + 1) =~= (start + found.take(i as int)).push(found[i as int]));
        i += 1;
    }
    assert(found.take(infos@.len() as int) =~= found);
}

} // verus!
