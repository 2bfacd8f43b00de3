use vstd::prelude::*;

use crate::json::{json_quoted, quote_json_string, Json, JsonModel, Member, lemma_array_view, lemma_object_view};

verus! {

/// Keys written first in every object, in this order, where present.
pub open spec fn is_priority_key(k: Seq<char>) -> bool {
    k == "type"@ || k == "id"@ || k == "name"@
}

/// Two spaces for each level.
pub open spec fn indent(level: nat) -> Seq<char>
    decreases level,
{
    if level == 0 {
        Seq::empty()
    } else {
        indent((level - 1) as nat) + "  "@
    }
}

/// The level of the lines inside an array or object at `level`; it stays put
/// at the largest machine size.
pub open spec fn deeper(level: nat) -> nat {
    if level < usize::MAX {
        level + 1
    } else {
        level
    }
}

/// The index of the first entry whose key is `key`.
pub open spec fn first_index(entries: Seq<(Seq<char>, JsonModel)>, key: Seq<char>) -> Option<int>
    decreases entries.len(),
{
    if entries.len() == 0 {
        None
    } else if entries.last().0 == key {
        match first_index(entries.drop_last(), key) {
            Some(k) => Some(k),
            None => Some(entries.len() - 1),
        }
    } else {
        first_index(entries.drop_last(), key)
    }
}

pub open spec fn index_seq(k: Option<int>) -> Seq<int> {
    match k {
        Some(i) => seq![i],
        None => Seq::empty(),
    }
}

/// The indices below `n` of entries whose key is no priority key, in order.
pub open spec fn rest_indices(entries: Seq<(Seq<char>, JsonModel)>, n: nat) -> Seq<int>
    decreases n,
{
    if n == 0 {
        Seq::empty()
    } else {
        let prev = rest_indices(entries, (n - 1) as nat);
        if is_priority_key(entries[n - 1].0) {
            prev
        } else {
            prev.push(n - 1)
        }
    }
}

/// The order in which an object's entries are written: `type`, `id` and `name`
/// first where present, then every other entry in the order it had.
pub open spec fn key_order(entries: Seq<(Seq<char>, JsonModel)>) -> Seq<int> {
    index_seq(first_index(entries, "type"@)) + index_seq(first_index(entries, "id"@)) + index_seq(
        first_index(entries, "name"@),
    ) + rest_indices(entries, entries.len())
}

/// The canonical text of a value whose first line stands at `level`.
pub open spec fn pretty(j: JsonModel, level: nat) -> Seq<char>
    decreases j, 0int,
{
    match j {
        JsonModel::Null => "null"@,
        JsonModel::Bool(b) => if b {
            "true"@
        } else {
            "false"@
        },
        JsonModel::Number(n) => n,
        JsonModel::Str(s) => json_quoted(s),
        JsonModel::Array(items) => if items.len() == 0 {
            "[]"@
        } else {
            "[\n"@ + items_text(items, deeper(level), 0) + indent(level) + "]"@
        },
        JsonModel::Object(entries) => if entries.len() == 0 {
            "{}"@
        } else {
            "{\n"@ + members_text(entries, key_order(entries), deeper(level), 0) + indent(level) + "}"@
        },
    }
}

/// The separator after element `i` of `n`.
pub open spec fn line_end(i: int, n: int) -> Seq<char> {
    if i + 1 < n {
        ",\n"@
    } else {
        "\n"@
    }
}

/// The lines of the array elements from `i` on.
pub open spec fn items_text(items: Seq<JsonModel>, level: nat, i: int) -> Seq<char>
    decreases items, items.len() - i,
{
    if i < 0 || i >= items.len() {
        Seq::empty()
    } else {
        indent(level) + pretty(items[i], level) + line_end(i, items.len() as int) + items_text(
            items,
            level,
            i + 1,
        )
    }
}

/// The lines of the object entries listed in `order` from position `p` on.
pub open spec fn members_text(
    entries: Seq<(Seq<char>, JsonModel)>,
    order: Seq<int>,
    level: nat,
    p: int,
) -> Seq<char>
    decreases entries, order.len() - p,
{
    if p < 0 || p >= order.len() {
        Seq::empty()
    } else {
        let k = order[p];
        let line = if 0 <= k < entries.len() {
            indent(level) + json_quoted(entries[k].0) + ": "@ + pretty(entries[k].1, level)
        } else {
            Seq::empty()
        };
        line + line_end(p, order.len() as int) + members_text(entries, order, level, p + 1)
    }
}

/// Appends the indentation of `level`.
pub fn write_indent(out: &mut String, level: usize)
    ensures
        final(out)@ == old(out)@ + indent(level as nat),
{
    let ghost start = out@;
    let mut i: usize = 0;
    while i < level
        invariant
            i <= level,
            out@ == start + indent(i as nat),
        decreases level - i,
    {
        out.append("  ");
        assert(indent((i + 1) as nat) == indent(i as nat) + "  "@);
        assert(out@ =~= start + indent((i + 1) as nat));
        i += 1;
    }
}

/// Whether `k` is one of the keys written first.
pub fn is_priority_field(k: &str) -> (r: bool)
    ensures
        r == is_priority_key(k@),
{
    crate::text::str_eq(k, "type") || crate::text::str_eq(k, "id") || crate::text::str_eq(k, "name")
}

/// The model of an object's entries.
pub open spec fn members_model(entries: Seq<Member>) -> Seq<(Seq<char>, JsonModel)> {
    Seq::new(entries.len(), |i: int| (entries[i].key@, entries[i].value@))
}

/// The index of the first entry whose key is `key`.
fn find_first(entries: &Vec<Member>, key: &str) -> (r: Option<usize>)
    ensures
        match first_index(members_model(entries@), key@) {
            Some(k) => 0 <= k < entries.len() && r == Some(k as usize),
            None => r is None,
        },
        r matches Some(k) ==> k < entries.len(),
{
    let ghost m = members_model(entries@);
    let mut found: Option<usize> = None;
    let mut i: usize = 0;
    assert(m.subrange(0, 0) =~= Seq::<(Seq<char>, JsonModel)>::empty());
    while i < entries.len()
        invariant
            i <= entries.len(),
            m == members_model(entries@),
            match first_index(m.subrange(0, i as int), key@) {
                Some(k) => found == Some(k as usize) && 0 <= k < i,
                None => found is None,
            },
        decreases entries.len() - i,
    {
        let ghost pre = m.subrange(0, i as int);
        let ghost next = m.subrange(0, i + 1);
        assert(next.drop_last() =~= pre);
        assert(next.last() == m[i as int]);
        if found.is_none() && crate::text::str_eq(entries[i].key.as_str(), key) {
            found = Some(i);
        }
        i += 1;
    }
    assert(m.subrange(0, m.len() as int) =~= m);
    found
}

/// `v` lists the same indices as `s`.
pub open spec fn same_indices(v: Seq<usize>, s: Seq<int>) -> bool {
    v.len() == s.len() && forall|i: int| 0 <= i < v.len() ==> v[i] as int == #[trigger] s[i]
}

/// The order in which an object's entries are written.
pub fn priority_key_order(entries: &Vec<Member>) -> (r: Vec<usize>)
    ensures
        same_indices(r@, key_order(members_model(entries@))),
        forall|i: int| 0 <= i < r@.len() ==> r@[i] < entries.len(),
{
    let ghost m = members_model(entries@);
    let mut order: Vec<usize> = Vec::new();
    let t = find_first(entries, "type");
    if let Some(k) = t {
        order.push(k);
    }
    assert(same_indices(order@, index_seq(first_index(m, "type"@))));
    let d = find_first(entries, "id");
    if let Some(k) = d {
        order.push(k);
    }
    assert(same_indices(order@, index_seq(first_index(m, "type"@)) + index_seq(first_index(m, "id"@))));
    let n = find_first(entries, "name");
    if let Some(k) = n {
        order.push(k);
    }
    let ghost head = index_seq(first_index(m, "type"@)) + index_seq(first_index(m, "id"@)) + index_seq(
        first_index(m, "name"@),
    );
    assert(same_indices(order@, head));
    assert(head + rest_indices(m, 0) =~= head);
    assert(rest_indices(m, 0) =~= Seq::<int>::empty());
    let mut i: usize = 0;
    while i < entries.len()
        invariant
            i <= entries.len(),
            m == members_model(entries@),
            same_indices(order@, head + rest_indices(m, i as nat)),
            forall|q: int| 0 <= q < order@.len() ==> order@[q] < entries.len(),
        decreases entries.len() - i,
    {
        assert(m[i as int].0 == entries@[i as int].key@);
        let ghost prev = head + rest_indices(m, i as nat);
        if !is_priority_field(entries[i].key.as_str()) {
            order.push(i);
            assert(head + rest_indices(m, (i + 1) as nat) =~= prev.push(i as int));
        } else {
            assert(head + rest_indices(m, (i + 1) as nat) =~= prev);
        }
        assert(same_indices(order@, head + rest_indices(m, (i + 1) as nat)));
        i += 1;
    }
    order
}

/// Appends the canonical text of `j` at `level`.
pub fn write_value(out: &mut String, j: &Json, level: usize)
    ensures
        final(out)@ == old(out)@ + pretty(j@, level as nat),
    decreases j, 2int,
{
    match j {
        Json::Null => out.append("null"),
        Json::Bool(b) => {
            if *b {
                out.append("true");
            } else {
                out.append("false");
            }
        },
        Json::Number(n) => out.append(n.as_str()),
        Json::Str(s) => {
            let q = quote_json_string(s.as_str());
            out.append(q.as_str());
        },
        Json::Array(items) => {
            proof {
                assert(decreases_to!(*j => j->Array_0));
            }
            write_array(out, items, level);
        },
        Json::Object(entries) => {
            proof {
                assert(decreases_to!(*j => j->Object_0));
            }
            write_object(out, entries, level);
        },
    }
}

/// Appends the canonical text of an array at `level`.
pub fn write_array(out: &mut String, items: &Vec<Json>, level: usize)
    ensures
        final(out)@ == old(out)@ + pretty(Json::Array(*items)@, level as nat),
    decreases items, 1int,
{
    proof {
        lemma_array_view(Json::Array(*items));
    }
    let ghost m = Json::Array(*items)@->Array_0;
    let ghost start = out@;
    if items.len() == 0 {
        out.append("[]");
        return;
    }
    out.append("[\n");
    let inner = if level < usize::MAX {
        level + 1
    } else {
        level
    };
    let mut i: usize = 0;
    while i < items.len()
        invariant
            inner == deeper(level as nat),
            i <= items.len(),
            m.len() == items.len(),
            forall|k: int| 0 <= k < items.len() ==> #[trigger] m[k] == items[k]@,
            out@ + items_text(m, inner as nat, i as int) == start + "[\n"@ + items_text(
                m,
                inner as nat,
                0,
            ),
        decreases items.len() - i,
    {
        let ghost before = out@;
        proof {
            assert(decreases_to!(*items => items[i as int]));
        }
        write_indent(out, inner);
        write_value(out, &items[i], inner);
        if i + 1 < items.len() {
            out.append(",\n");
        } else {
            out.append("\n");
        }
        assert(items_text(m, inner as nat, i as int) == indent(inner as nat) + pretty(m[i as int], inner as nat)
            + line_end(i as int, m.len() as int) + items_text(m, inner as nat, i + 1));
        assert(out@ == before + indent(inner as nat) + pretty(m[i as int], inner as nat) + line_end(
            i as int,
            m.len() as int,
        ));
        assert(out@ + items_text(m, inner as nat, i + 1) =~= before + items_text(m, inner as nat, i as int));
        i += 1;
    }
    let ghost body = out@;
    write_indent(out, level);
    out.append("]");
    assert(out@ =~= start + ("[\n"@ + items_text(m, inner as nat, 0) + indent(level as nat) + "]"@));
}

/// Appends the canonical text of an object at `level`.
pub fn write_object(out: &mut String, entries: &Vec<Member>, level: usize)
    ensures
        final(out)@ == old(out)@ + pretty(Json::Object(*entries)@, level as nat),
    decreases entries, 1int,
{
    proof {
        lemma_object_view(Json::Object(*entries));
    }
    let ghost m = Json::Object(*entries)@->Object_0;
    assert(m =~= members_model(entries@));
    let ghost start = out@;
    if entries.len() == 0 {
        out.append("{}");
        return;
    }
    let order = priority_key_order(entries);
    let ghost ord = key_order(m);
    out.append("{\n");
    let inner = if level < usize::MAX {
        level + 1
    } else {
        level
    };
    let mut p: usize = 0;
    while p < order.len()
        invariant
            inner == deeper(level as nat),
            p <= order.len(),
            m.len() == entries.len(),
            forall|k: int| 0 <= k < entries.len() ==> #[trigger] m[k] == (entries[k].key@, entries[k].value@),
            same_indices(order@, ord),
            forall|q: int| 0 <= q < order@.len() ==> order@[q] < entries.len(),
            out@ + members_text(m, ord, inner as nat, p as int) == start + "{\n"@ + members_text(
                m,
                ord,
                inner as nat,
                0,
            ),
        decreases order.len() - p,
    {
        let ghost before = out@;
        let k = order[p];
        assert(ord[p as int] == k as int);
        proof {
            assert(decreases_to!(*entries => entries[k as int]));
            assert(decreases_to!(entries[k as int] => entries[k as int].value));
        }
        write_indent(out, inner);
        let q = quote_json_string(entries[k].key.as_str());
        out.append(q.as_str());
        out.append(": ");
        write_value(out, &entries[k].value, inner);
        if p + 1 < order.len() {
            out.append(",\n");
        } else {
            out.append("\n");
        }
        assert(out@ + members_text(m, ord, inner as nat, p + 1) =~= before + members_text(
            m,
            ord,
            inner as nat,
            p as int,
        ));
        p += 1;
    }
    write_indent(out, level);
    out.append("}");
    assert(out@ =~= start + ("{\n"@ + members_text(m, ord, inner as nat, 0) + indent(level as nat) + "}"@));
}

/// The canonical text of a value: two-space indentation, arrays and objects
/// over several lines unless empty, and in each object the keys `type`, `id`
/// and `name` first, then the others in the order they had.
pub fn serialize_with_priority_fields(value: &Json) -> (r: String)
    ensures
        r@ == pretty(value@, 0),
{
    let mut out = String::new();
    write_value(&mut out, value, 0);
    assert(out@ =~= pretty(value@, 0));
    out
}

} // verus!
