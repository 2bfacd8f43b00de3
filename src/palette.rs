use vstd::prelude::*;

use crate::entity::om_terrain_id;
use crate::json::{as_items, field, lemma_array_view, lemma_object_view, text_field, Json, JsonModel, Member};
use crate::entity::opt_view;
use crate::printer::members_model;
use crate::loader::{string_items, views};
use crate::text::{owned, str_eq};
use crate::tree::{lemma_lex_total, lex_le, str_le};

verus! {

/// What a palette symbol stands for.
#[derive(Debug, Clone)]
pub struct SymbolMapping {
    pub symbol: String,
    pub terrain: Option<String>,
    pub furniture: Option<String>,
}

/// A map palette: its symbols, ordered by symbol, and the palettes it includes.
#[derive(Debug, Clone)]
pub struct PaletteData {
    pub id: String,
    pub mappings: Vec<SymbolMapping>,
    pub includes: Vec<String>,
}

/// The id a terrain or furniture entry names: a string, the first string of
/// an array, or the first string of a weighted pair.
pub open spec fn first_id(v: JsonModel) -> Option<Seq<char>> {
    om_terrain_id(Some(v))
}

/// The first id a terrain or furniture entry names.
pub fn extract_first_id(value: &Json) -> (r: Option<String>)
    ensures
        crate::entity::opt_view(r) == first_id(value@),
{
    match value {
        Json::Str(s) => Some(s.clone()),
        Json::Array(items) => {
            proof {
                lemma_array_view(*value);
            }
            if items.len() == 0 {
                return None;
            }
            match &items[0] {
                Json::Str(s) => Some(s.clone()),
                Json::Array(inner) => {
                    proof {
                        lemma_array_view(items[0]);
                    }
                    if inner.len() == 0 {
                        return None;
                    }
                    match inner[0].as_str() {
                        Some(s) => Some(owned(s)),
                        None => None,
                    }
                },
                _ => None,
            }
        },
        _ => None,
    }
}

pub open spec fn is_palette(j: JsonModel, id: Seq<char>) -> bool {
    j is Object && text_field(j, "type"@) == Some("palette"@) && text_field(j, "id"@) == Some(id)
}

/// The first palette with id `id` in `j`, searching arrays in order.
pub open spec fn palette_in(j: JsonModel, id: Seq<char>) -> Option<JsonModel>
    decreases j, 0int,
{
    match j {
        JsonModel::Array(items) => palette_in_items(items, id, 0),
        JsonModel::Object(_) => if is_palette(j, id) {
            Some(j)
        } else {
            None
        },
        _ => None,
    }
}

pub open spec fn palette_in_items(items: Seq<JsonModel>, id: Seq<char>, i: int) -> Option<JsonModel>
    decreases items, items.len() - i,
{
    if i < 0 || i >= items.len() {
        None
    } else {
        match palette_in(items[i], id) {
            Some(p) => Some(p),
            None => palette_in_items(items, id, i + 1),
        }
    }
}

/// The first palette with id `palette_id` in a parsed data file.
pub fn find_palette_in_json(json: &Json, palette_id: &str) -> (r: Option<Json>)
    ensures
        match palette_in(json@, palette_id@) {
            Some(p) => r matches Some(x) && x@ == p,
            None => r is None,
        },
    decreases json,
{
    proof {
        reveal_strlit("palette");
    }
    match json {
        Json::Array(items) => {
            proof {
                lemma_array_view(*json);
            }
            let ghost m = json@->Array_0;
            let mut i: usize = 0;
            while i < items.len()
                invariant
                    *json is Array,
                    json->Array_0 == *items,
                    i <= items@.len(),
                    m.len() == items@.len(),
                    forall|k: int| 0 <= k < items@.len() ==> #[trigger] m[k] == items@[k]@,
                    palette_in(json@, palette_id@) == palette_in_items(m, palette_id@, i as int),
                decreases items.len() - i,
            {
                proof {
                    assert(decreases_to!(*json => json->Array_0));
                    assert(decreases_to!(json->Array_0 => json->Array_0[i as int]));
                }
                if let Some(found) = find_palette_in_json(&items[i], palette_id) {
                    return Some(found);
                }
                i += 1;
            }
            None
        },
        Json::Object(_) => {
            let is_pal = match json.get_str("type") {
                Some(t) => str_eq(t, "palette"),
                None => false,
            };
            let same_id = match json.get_str("id") {
                Some(i) => str_eq(i, palette_id),
                None => false,
            };
            if is_pal && same_id {
                Some(json.duplicate())
            } else {
                None
            }
        },
        _ => None,
    }
}

/// Symbols strictly ascending.
pub open spec fn symbols_sorted(v: Seq<SymbolMapping>) -> bool {
    forall|i: int, j: int|
        #![trigger v[i], v[j]]
        0 <= i < j < v.len() ==> lex_le(v[i].symbol@, v[j].symbol@) && v[i].symbol@ != v[j].symbol@
}

/// What `v` says of symbol `s`: its terrain and furniture, where it is listed.
pub open spec fn sym_entry(v: Seq<SymbolMapping>, s: Seq<char>) -> Option<(Option<Seq<char>>, Option<Seq<char>>)> {
    if exists|k: int| 0 <= k < v.len() && v[k].symbol@ == s {
        let k = choose|k: int| 0 <= k < v.len() && v[k].symbol@ == s;
        Some((opt_view(v[k].terrain), opt_view(v[k].furniture)))
    } else {
        None
    }
}

/// `prev` with its terrain (`is_terrain`) or furniture set to `id`.
pub open spec fn with_field(
    prev: Option<(Option<Seq<char>>, Option<Seq<char>>)>,
    id: Option<Seq<char>>,
    is_terrain: bool,
) -> (Option<Seq<char>>, Option<Seq<char>>) {
    match prev {
        Some((t, f)) => if is_terrain {
            (id, f)
        } else {
            (t, id)
        },
        None => if is_terrain {
            (id, None)
        } else {
            (None, id)
        },
    }
}

/// The value of the last entry with key `k`.
pub open spec fn last_lookup(e: Seq<(Seq<char>, JsonModel)>, k: Seq<char>) -> Option<JsonModel>
    decreases e.len(),
{
    if e.len() == 0 {
        None
    } else if e.last().0 == k {
        Some(e.last().1)
    } else {
        last_lookup(e.drop_last(), k)
    }
}

/// What symbol `s` says after applying the entries `e` of a `terrain`
/// (`is_terrain`) or `furniture` object to `prev`: the last entry for `s` wins.
pub open spec fn applied(
    prev: Option<(Option<Seq<char>>, Option<Seq<char>>)>,
    e: Seq<(Seq<char>, JsonModel)>,
    s: Seq<char>,
    is_terrain: bool,
) -> Option<(Option<Seq<char>>, Option<Seq<char>>)> {
    match last_lookup(e, s) {
        Some(v) => Some(with_field(prev, first_id(v), is_terrain)),
        None => prev,
    }
}

/// The entries of an object field, none where it is no object.
pub open spec fn object_entries(f: Option<JsonModel>) -> Seq<(Seq<char>, JsonModel)> {
    match f {
        Some(JsonModel::Object(e)) => e,
        _ => Seq::empty(),
    }
}

proof fn lemma_sym_entry_at(v: Seq<SymbolMapping>, k: int)
    requires
        symbols_sorted(v),
        0 <= k < v.len(),
    ensures
        sym_entry(v, v[k].symbol@) == Some((opt_view(v[k].terrain), opt_view(v[k].furniture))),
{
    let s = v[k].symbol@;
    let c = choose|c: int| 0 <= c < v.len() && v[c].symbol@ == s;
    if c < k {
        assert(v[c].symbol@ != v[k].symbol@);
    } else if c > k {
        assert(v[k].symbol@ != v[c].symbol@);
    }
}

proof fn lemma_sym_entry_update(before: Seq<SymbolMapping>, p: int, m: SymbolMapping)
    requires
        symbols_sorted(before),
        symbols_sorted(before.update(p, m)),
        0 <= p < before.len(),
        m.symbol@ == before[p].symbol@,
    ensures
        forall|s: Seq<char>| s != m.symbol@ ==> #[trigger] sym_entry(before.update(p, m), s) == sym_entry(before, s),
{
    let n = before.update(p, m);
    assert forall|s: Seq<char>| s != m.symbol@ implies #[trigger] sym_entry(n, s) == sym_entry(before, s) by {
        if exists|k: int| 0 <= k < n.len() && n[k].symbol@ == s {
            let k = choose|k: int| 0 <= k < n.len() && n[k].symbol@ == s;
            assert(k != p);
            assert(n[k] == before[k]);
            lemma_sym_entry_at(n, k);
            lemma_sym_entry_at(before, k);
        } else {
            assert forall|k: int| 0 <= k < before.len() implies before[k].symbol@ != s by {
                if k != p {
                    assert(n[k] == before[k]);
                }
            }
        }
    }
}

proof fn lemma_sym_entry_insert(before: Seq<SymbolMapping>, p: int, m: SymbolMapping)
    requires
        symbols_sorted(before),
        symbols_sorted(before.insert(p, m)),
        0 <= p <= before.len(),
    ensures
        forall|s: Seq<char>| s != m.symbol@ ==> #[trigger] sym_entry(before.insert(p, m), s) == sym_entry(before, s),
        sym_entry(before, m.symbol@) is None,
{
    let n = before.insert(p, m);
    assert(n[p] == m);
    assert forall|k: int| 0 <= k < before.len() implies before[k].symbol@ != m.symbol@ by {
        let k2 = if k < p { k } else { k + 1 };
        assert(n[k2] == before[k]);
        assert(k2 != p);
    }
    assert forall|s: Seq<char>| s != m.symbol@ implies #[trigger] sym_entry(n, s) == sym_entry(before, s) by {
        if exists|k: int| 0 <= k < n.len() && n[k].symbol@ == s {
            let k = choose|k: int| 0 <= k < n.len() && n[k].symbol@ == s;
            assert(k != p);
            let k2 = if k < p { k } else { k - 1 };
            assert(n[k] == before[k2]);
            lemma_sym_entry_at(n, k);
            lemma_sym_entry_at(before, k2);
        } else {
            assert forall|k: int| 0 <= k < before.len() implies before[k].symbol@ != s by {
                let k2 = if k < p { k } else { k + 1 };
                assert(n[k2] == before[k]);
            }
        }
    }
}

/// Sets the terrain (`is_terrain`) or furniture of `symbol`, adding it in
/// symbol order where it is new.
fn set_symbol(all: &mut Vec<SymbolMapping>, symbol: &String, id: Option<String>, is_terrain: bool)
    requires
        symbols_sorted(old(all)@),
    ensures
        symbols_sorted(final(all)@),
        forall|s: Seq<char>|
            #[trigger] sym_entry(final(all)@, s) == if s == symbol@ {
                Some(with_field(sym_entry(old(all)@, s), opt_view(id), is_terrain))
            } else {
                sym_entry(old(all)@, s)
            },
{
    let mut p: usize = 0;
    while p < all.len() && str_le(all[p].symbol.as_str(), symbol.as_str()) && !(all[p].symbol == *symbol)
        invariant
            p <= all@.len(),
            all@ == old(all)@,
            symbols_sorted(all@),
            forall|k: int| 0 <= k < p ==> lex_le(all@[k].symbol@, symbol@) && all@[k].symbol@ != symbol@,
        decreases all.len() - p,
    {
        p += 1;
    }
    if p < all.len() && all[p].symbol == *symbol {
        let ghost before = all@;
        let mut m = all.remove(p);
        if is_terrain {
            m.terrain = id;
        } else {
            m.furniture = id;
        }
        all.insert(p, m);
        assert(all@ =~= before.update(p as int, m));
        assert(all@[p as int].symbol@ == symbol@);
        proof {
            assert(symbols_sorted(all@)) by {
                assert forall|i: int, j: int|
                    #![trigger all@[i], all@[j]]
                    0 <= i < j < all@.len() implies lex_le(all@[i].symbol@, all@[j].symbol@) && all@[i].symbol@
                        != all@[j].symbol@ by {
                    assert(all@[i].symbol == before[i].symbol);
                    assert(all@[j].symbol == before[j].symbol);
                }
            }
            lemma_sym_entry_at(all@, p as int);
            lemma_sym_entry_at(before, p as int);
            lemma_sym_entry_update(before, p as int, m);
        }
        return;
    }
    proof {
        if p < all@.len() {
            lemma_lex_total(all@[p as int].symbol@, symbol@);
        }
    }
    let m = if is_terrain {
        SymbolMapping { symbol: symbol.clone(), terrain: id, furniture: None }
    } else {
        SymbolMapping { symbol: symbol.clone(), terrain: None, furniture: id }
    };
    let ghost before = all@;
    proof {
        if p < before.len() {
            assert(before[p as int].symbol@ != symbol@);
            assert(lex_le(symbol@, before[p as int].symbol@));
        }
    }
    all.insert(p, m);
    proof {
        assert(all@[p as int].symbol@ == symbol@);
        assert forall|i: int, j: int| 0 <= i < j < all@.len() implies lex_le(all@[i].symbol@, all@[j].symbol@)
            && all@[i].symbol@ != all@[j].symbol@ by {
            if i == p {
                assert(all@[j] == before[j - 1]);
                assert(all@[i] == m);
                if j > p + 1 {
                    crate::tree::lemma_lex_trans(symbol@, before[p as int].symbol@, before[j - 1].symbol@);
                    lemma_lex_antisym(symbol@, before[p as int].symbol@, before[j - 1].symbol@);
                }
                assert(lex_le(symbol@, all@[j].symbol@));
                assert(symbol@ != all@[j].symbol@);
            } else if j == p {
                assert(all@[i] == before[i]);
                assert(all@[j] == m);
                assert(lex_le(before[i].symbol@, symbol@) && before[i].symbol@ != symbol@);
            } else {
                let i2 = if i < p { i } else { i - 1 };
                let j2 = if j < p { j } else { j - 1 };
                assert(all@[i] == before[i2] && all@[j] == before[j2]);
                assert(i2 < j2);
                assert(lex_le(before[i2].symbol@, before[j2].symbol@) && before[i2].symbol@ != before[j2].symbol@);
            }
        }
        lemma_sym_entry_at(all@, p as int);
        lemma_sym_entry_insert(before, p as int, m);
    }
}

proof fn lemma_lex_antisym(a: Seq<char>, b: Seq<char>, c: Seq<char>)
    requires
        lex_le(a, b),
        lex_le(b, c),
        a != b,
    ensures
        a != c,
    decreases a.len(),
{
    if a == c {
        lemma_lex_antisym_pair(a, b);
    }
}

proof fn lemma_lex_antisym_pair(a: Seq<char>, b: Seq<char>)
    requires
        lex_le(a, b),
        lex_le(b, a),
    ensures
        a == b,
    decreases a.len(),
{
    if a.len() > 0 && b.len() > 0 {
        lemma_lex_antisym_pair(a.drop_first(), b.drop_first());
        assert(a =~= seq![a[0]] + a.drop_first());
        assert(b =~= seq![b[0]] + b.drop_first());
    }
}

/// Applies every entry of a `terrain` or `furniture` object.
fn apply_entries(all: &mut Vec<SymbolMapping>, entries: &Vec<Member>, is_terrain: bool)
    requires
        symbols_sorted(old(all)@),
    ensures
        symbols_sorted(final(all)@),
        forall|s: Seq<char>|
            #[trigger] sym_entry(final(all)@, s) == applied(sym_entry(old(all)@, s), members_model(entries@), s, is_terrain),
{
    let ghost e = members_model(entries@);
    let mut i: usize = 0;
    assert forall|s: Seq<char>| #[trigger] sym_entry(all@, s) == applied(sym_entry(old(all)@, s), e.take(0), s, is_terrain) by {
        assert(e.take(0).len() == 0);
    }
    while i < entries.len()
        invariant
            i <= entries@.len(),
            e == members_model(entries@),
            symbols_sorted(all@),
            forall|s: Seq<char>|
                #[trigger] sym_entry(all@, s) == applied(sym_entry(old(all)@, s), e.take(i as int), s, is_terrain),
        decreases entries.len() - i,
    {
        let id = extract_first_id(&entries[i].value);
        let ghost before = all@;
        set_symbol(all, &entries[i].key, id, is_terrain);
        proof {
            let t1 = e.take(i + 1);
            assert(t1.drop_last() =~= e.take(i as int));
            assert(t1.last() == (entries@[i as int].key@, entries@[i as int].value@));
            assert forall|s: Seq<char>|
                #[trigger] sym_entry(all@, s) == applied(sym_entry(old(all)@, s), t1, s, is_terrain) by {
                assert(sym_entry(before, s) == applied(sym_entry(old(all)@, s), e.take(i as int), s, is_terrain));
            }
        }
        i += 1;
    }
    assert(e.take(entries@.len() as int) =~= e);
}

/// The strings of `palettes`, where it is an array.
pub open spec fn includes_of(j: JsonModel) -> Seq<Seq<char>> {
    match as_items(field(j, "palettes"@)) {
        Some(a) => string_items(a, a.len() as int),
        None => Seq::empty(),
    }
}

/// The symbols of a palette object, with the terrain and furniture each
/// stands for, ordered by symbol, and the palettes it includes.
pub fn parse_palette_json(json: &Json, palette_id: &str) -> (r: Result<PaletteData, String>)
    ensures
        (json@ is Object) <==> r is Ok,
        r matches Ok(p) ==> p.id@ == palette_id@ && symbols_sorted(p.mappings@) && views(p.includes@) == includes_of(json@)
            && forall|s: Seq<char>|
            #[trigger] sym_entry(p.mappings@, s) == applied(
                applied(None, object_entries(field(json@, "terrain"@)), s, true),
                object_entries(field(json@, "furniture"@)),
                s,
                false,
            ),
{
    if !json.is_object() {
        return Err(owned("Palette is not an object"));
    }
    let mut all: Vec<SymbolMapping> = Vec::new();
    assert forall|s: Seq<char>| #[trigger] sym_entry(all@, s) == None::<(Option<Seq<char>>, Option<Seq<char>>)> by {}
    match json.get("terrain") {
        Some(Json::Object(entries)) => {
            proof {
                lemma_object_view(Json::Object(*entries));
                assert(members_model(entries@) =~= object_entries(field(json@, "terrain"@)));
            }
            apply_entries(&mut all, entries, true);
        },
        _ => {
            assert forall|s: Seq<char>| #[trigger] sym_entry(all@, s) == applied(None, object_entries(field(json@, "terrain"@)), s, true) by {
                assert(object_entries(field(json@, "terrain"@)).len() == 0);
            }
        },
    }
    let ghost after_terrain = all@;
    match json.get("furniture") {
        Some(Json::Object(entries)) => {
            proof {
                lemma_object_view(Json::Object(*entries));
                assert(members_model(entries@) =~= object_entries(field(json@, "furniture"@)));
            }
            apply_entries(&mut all, entries, false);
        },
        _ => {
            assert forall|s: Seq<char>| #[trigger] sym_entry(all@, s) == applied(sym_entry(after_terrain, s), object_entries(field(json@, "furniture"@)), s, false) by {
                assert(object_entries(field(json@, "furniture"@)).len() == 0);
            }
        },
    }
    let includes = match json.get("palettes") {
        Some(Json::Array(items)) => crate::loader::collect_strings(items),
        _ => {
            let v: Vec<String> = Vec::new();
            assert(views(v@) =~= Seq::<Seq<char>>::empty());
            v
        },
    };
    Ok(PaletteData { id: owned(palette_id), mappings: all, includes })
}

} // verus!
