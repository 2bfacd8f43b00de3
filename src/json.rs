use vstd::prelude::*;

verus! {

/// A JSON value whose objects keep their keys in insertion order.
#[derive(Debug)]
pub enum Json {
    Null,
    Bool(bool),
    /// A number, kept as its JSON text.
    Number(String),
    Str(String),
    Array(Vec<Json>),
    Object(Vec<Member>),
}

/// One key and its value inside an object.
#[derive(Debug)]
pub struct Member {
    pub key: String,
    pub value: Json,
}

/// The mathematical value of a [`Json`].
pub enum JsonModel {
    Null,
    Bool(bool),
    Number(Seq<char>),
    Str(Seq<char>),
    Array(Seq<JsonModel>),
    Object(Seq<(Seq<char>, JsonModel)>),
}

/// The model of a JSON value.
pub open spec fn json_model(j: Json) -> JsonModel
    decreases j,
{
    match j {
        Json::Null => JsonModel::Null,
        Json::Bool(b) => JsonModel::Bool(b),
        Json::Number(n) => JsonModel::Number(n@),
        Json::Str(s) => JsonModel::Str(s@),
        Json::Array(items) => JsonModel::Array(
            Seq::new(
                items.len() as nat,
                |i: int|
                    if 0 <= i < items.len() {
                        json_model(items[i])
                    } else {
                        JsonModel::Null
                    },
            ),
        ),
        Json::Object(entries) => JsonModel::Object(
            Seq::new(
                entries.len() as nat,
                |i: int|
                    if 0 <= i < entries.len() {
                        (entries[i].key@, json_model(entries[i].value))
                    } else {
                        (Seq::<char>::empty(), JsonModel::Null)
                    },
            ),
        ),
    }
}

impl View for Json {
    type V = JsonModel;

    open spec fn view(&self) -> JsonModel {
        json_model(*self)
    }
}


/// The value of `key` in an object's entries: the first entry with that key.
pub open spec fn entry_lookup(entries: Seq<(Seq<char>, JsonModel)>, key: Seq<char>) -> Option<
    JsonModel,
>
    decreases entries.len(),
{
    if entries.len() == 0 {
        None
    } else if entries[0].0 == key {
        Some(entries[0].1)
    } else {
        entry_lookup(entries.drop_first(), key)
    }
}

/// The value of field `key` of `j`; `None` where `j` is no object or lacks the key.
pub open spec fn field(j: JsonModel, key: Seq<char>) -> Option<JsonModel> {
    match j {
        JsonModel::Object(entries) => entry_lookup(entries, key),
        _ => None,
    }
}

/// The text of `j` where it is a string.
pub open spec fn as_text(j: Option<JsonModel>) -> Option<Seq<char>> {
    match j {
        Some(JsonModel::Str(s)) => Some(s),
        _ => None,
    }
}

/// The text of field `key` of `j`, where that field holds a string.
pub open spec fn text_field(j: JsonModel, key: Seq<char>) -> Option<Seq<char>> {
    as_text(field(j, key))
}

/// The elements of `j` where it is an array.
pub open spec fn as_items(j: Option<JsonModel>) -> Option<Seq<JsonModel>> {
    match j {
        Some(JsonModel::Array(items)) => Some(items),
        _ => None,
    }
}

pub open spec fn is_object(j: JsonModel) -> bool {
    j is Object
}

/// What serde_json's parser makes of a text: the value, or the error's message.
pub uninterp spec fn json_text_parse(text: Seq<char>) -> Result<JsonModel, Seq<char>>;

/// The JSON string literal that serde_json writes for a text, quotes included.
pub uninterp spec fn json_quoted(s: Seq<char>) -> Seq<char>;

#[verifier::external_type_specification]
#[verifier::external_body]
pub struct ExValue(serde_json::Value);

/// Converts serde_json's tree into a [`Json`], one node for one node, keeping
/// the order of object keys.
#[verifier::external_body]
fn json_from_value(v: &serde_json::Value) -> Json {
    match v {
        serde_json::Value::Null => Json::Null,
        serde_json::Value::Bool(b) => Json::Bool(*b),
        serde_json::Value::Number(n) => Json::Number(n.to_string()),
        serde_json::Value::String(s) => Json::Str(s.clone()),
        serde_json::Value::Array(a) => Json::Array(a.iter().map(json_from_value).collect()),
        serde_json::Value::Object(o) => Json::Object(
            o.iter().map(|(k, x)| Member { key: k.clone(), value: json_from_value(x) }).collect(),
        ),
    }
}

/// Relies on `serde_json::from_str::<serde_json::Value>`: the parsed document,
/// or the text of the parser's error.
#[verifier::external_body]
pub(crate) fn parse_json(text: &str) -> (r: Result<Json, String>)
    ensures
        match r {
            Ok(j) => json_text_parse(text@) == Ok::<JsonModel, Seq<char>>(j@),
            Err(e) => json_text_parse(text@) == Err::<JsonModel, Seq<char>>(e@),
        },
{
    match serde_json::from_str::<serde_json::Value>(text) {
        Ok(v) => Ok(json_from_value(&v)),
        Err(e) => Err(e.to_string()),
    }
}

/// The text that serde_json's pretty printer writes for a value.
pub uninterp spec fn pretty_text_of(j: JsonModel) -> Seq<char>;

/// Converts a [`Json`] into serde_json's tree, one node for one node, keeping
/// the order of object keys.
#[verifier::external_body]
fn value_from_json(j: &Json) -> serde_json::Value {
    match j {
        Json::Null => serde_json::Value::Null,
        Json::Bool(b) => serde_json::Value::Bool(*b),
        Json::Number(n) => n.parse::<serde_json::Number>().map(serde_json::Value::Number).unwrap_or(
            serde_json::Value::Null,
        ),
        Json::Str(s) => serde_json::Value::String(s.clone()),
        Json::Array(a) => serde_json::Value::Array(a.iter().map(value_from_json).collect()),
        Json::Object(o) => serde_json::Value::Object(
            o.iter().map(|m| (m.key.clone(), value_from_json(&m.value))).collect(),
        ),
    }
}

/// Relies on `serde_json::to_string_pretty` on a value: two-space
/// indentation, object keys in the order the object holds them.
#[verifier::external_body]
pub(crate) fn pretty_json_text(j: &Json) -> (r: String)
    ensures
        r@ == pretty_text_of(j@),
{
    serde_json::to_string_pretty(&value_from_json(j)).unwrap_or_default()
}

/// Relies on `serde_json::to_string` applied to a string: its JSON literal,
/// with quotes and escapes.
#[verifier::external_body]
pub(crate) fn quote_json_string(s: &str) -> (r: String)
    ensures
        r@ == json_quoted(s@),
{
    serde_json::to_string(s).unwrap_or_default()
}

/// The model of an array node, element by element.
pub proof fn lemma_array_view(j: Json)
    requires
        j is Array,
    ensures
        j@ is Array,
        j@->Array_0.len() == j->Array_0.len(),
        forall|k: int| 0 <= k < j->Array_0.len() ==> #[trigger] j@->Array_0[k] == j->Array_0[k]@,
{
}

/// The model of an object node, entry by entry.
pub proof fn lemma_object_view(j: Json)
    requires
        j is Object,
    ensures
        j@ is Object,
        j@->Object_0.len() == j->Object_0.len(),
        forall|k: int|
            0 <= k < j->Object_0.len() ==> #[trigger] j@->Object_0[k] == (
                j->Object_0[k].key@,
                j->Object_0[k].value@,
            ),
{
    let entries = j->Object_0;
    assert(j@->Object_0.len() == entries@.len());
}

impl Json {
    /// The value a JSON text holds, or the parser's message.
    pub fn from_text(text: &str) -> (r: Result<Json, String>)
        ensures
            match r {
                Ok(j) => json_text_parse(text@) == Ok::<JsonModel, Seq<char>>(j@),
                Err(e) => json_text_parse(text@) == Err::<JsonModel, Seq<char>>(e@),
            },
    {
        parse_json(text)
    }

    /// The value of field `key`, where `self` is an object that has it.
    pub fn get(&self, key: &str) -> (r: Option<&Json>)
        ensures
            match r {
                Some(v) => field(self@, key@) == Some(v@),
                None => field(self@, key@) is None,
            },
    {
        match self {
            Json::Object(entries) => {
                proof {
                    lemma_object_view(*self);
                }
                let ghost m = self@->Object_0;
                assert(m.subrange(0, m.len() as int) =~= m);
                let mut i: usize = 0;
                while i < entries.len()
                    invariant
                        m == self@->Object_0,
                        self@ is Object,
                        m.len() == entries.len(),
                        forall|k: int| 0 <= k < entries.len() ==> #[trigger] m[k] == (entries[k].key@, entries[k].value@),
                        i <= entries.len(),
                        entry_lookup(m, key@) == entry_lookup(m.subrange(i as int, m.len() as int), key@),
                    decreases entries.len() - i,
                {
                    let ghost rest = m.subrange(i as int, m.len() as int);
                    assert(rest[0] == m[i as int]);
                    if crate::text::str_eq(entries[i].key.as_str(), key) {
                        return Some(&entries[i].value);
                    }
                    assert(rest.drop_first() =~= m.subrange(i + 1, m.len() as int));
                    i += 1;
                }
                None
            },
            _ => None,
        }
    }

    /// The text of `self` where it is a string.
    pub fn as_str(&self) -> (r: Option<&str>)
        ensures
            match r {
                Some(s) => self@ == JsonModel::Str(s@),
                None => !(self@ is Str),
            },
    {
        match self {
            Json::Str(s) => Some(s.as_str()),
            _ => None,
        }
    }

    /// The text of field `key`, where it holds a string.
    pub fn get_str(&self, key: &str) -> (r: Option<&str>)
        ensures
            match r {
                Some(s) => text_field(self@, key@) == Some(s@),
                None => text_field(self@, key@) is None,
            },
    {
        match self.get(key) {
            Some(v) => v.as_str(),
            None => None,
        }
    }

    pub fn is_object(&self) -> (r: bool)
        ensures
            r == (self@ is Object),
    {
        match self {
            Json::Object(_) => true,
            _ => false,
        }
    }

    /// A deep copy.
    pub fn duplicate(&self) -> (r: Json)
        ensures
            r@ == self@,
        decreases self,
    {
        match self {
            Json::Null => Json::Null,
            Json::Bool(b) => Json::Bool(*b),
            Json::Number(n) => Json::Number(n.clone()),
            Json::Str(s) => Json::Str(s.clone()),
            Json::Array(items) => {
                let mut out: Vec<Json> = Vec::new();
                let mut i: usize = 0;
                while i < items.len()
                    invariant
                        *self is Array,
                        self->Array_0 == *items,
                        i <= items.len(),
                        out.len() == i,
                        forall|k: int| 0 <= k < i ==> #[trigger] out[k]@ == items[k]@,
                    decreases items.len() - i,
                {
                    proof {
                        assert(decreases_to!(*self => self->Array_0));
                        assert(decreases_to!(self->Array_0 => self->Array_0[i as int]));
                        assert(decreases_to!(*self => self->Array_0[i as int]));
                    }
                    out.push(items[i].duplicate());
                    i += 1;
                }
                let r = Json::Array(out);
                proof {
                    lemma_array_view(*self);
                    lemma_array_view(r);
                }
                assert(r@->Array_0 =~= self@->Array_0);
                r
            },
            Json::Object(entries) => {
                let mut out: Vec<Member> = Vec::new();
                let mut i: usize = 0;
                while i < entries.len()
                    invariant
                        *self is Object,
                        self->Object_0 == *entries,
                        i <= entries.len(),
                        out.len() == i,
                        forall|k: int|
                            0 <= k < i ==> (#[trigger] out[k]).key@ == entries[k].key@ && out[k].value@
                                == entries[k].value@,
                    decreases entries.len() - i,
                {
                    proof {
                        assert(decreases_to!(*self => self->Object_0));
                        assert(decreases_to!(self->Object_0 => self->Object_0[i as int]));
                        assert(decreases_to!(self->Object_0[i as int] => self->Object_0[i as int].value));
                        assert(decreases_to!(*self => self->Object_0[i as int].value));
                    }
                    let key = entries[i].key.clone();
                    let value = entries[i].value.duplicate();
                    out.push(Member { key, value });
                    assert(out[i as int].key@ == entries[i as int].key@);
                    i += 1;
                }
                let r = Json::Object(out);
                proof {
                    lemma_object_view(*self);
                    lemma_object_view(r);
                }
                assert(r@->Object_0 =~= self@->Object_0);
                r
            },
        }
    }
}

} // verus!
