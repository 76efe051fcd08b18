//! JSON values, read with `serde_json`.
use crate::text::same;
use vstd::prelude::*;

verus! {

/// A JSON value. An array and an object carry their compact text beside their contents.
pub enum Json {
    Null,
    Bool(bool),
    /// A number, as it is printed.
    Number(String),
    Text(String),
    Array(Vec<Json>, String),
    /// The members, in the order in which they were written.
    Object(Vec<(String, Json)>, String),
}

/// What a JSON value holds.
pub enum JsonView {
    Null,
    Bool(bool),
    Number(Seq<char>),
    Text(Seq<char>),
    Array(Seq<JsonView>, Seq<char>),
    Object(Seq<(Seq<char>, JsonView)>, Seq<char>),
}

/// What a list of JSON values holds.
pub open spec fn item_models(items: Seq<Json>) -> Seq<JsonView>
    decreases items,
{
    Seq::new(
        items.len(),
        |i: int|
            if 0 <= i < items.len() {
                items[i].model()
            } else {
                JsonView::Null
            },
    )
}

/// What a list of named JSON values holds.
pub open spec fn member_models(members: Seq<(String, Json)>) -> Seq<(Seq<char>, JsonView)>
    decreases members,
{
    Seq::new(
        members.len(),
        |i: int|
            if 0 <= i < members.len() {
                (members[i].0@, members[i].1.model())
            } else {
                (seq![], JsonView::Null)
            },
    )
}

/// The value of the first member of that name.
pub open spec fn lookup(members: Seq<(Seq<char>, JsonView)>, key: Seq<char>) -> Option<JsonView>
    decreases members.len(),
{
    if members.len() == 0 {
        None
    } else if members[0].0 == key {
        Some(members[0].1)
    } else {
        lookup(members.drop_first(), key)
    }
}

impl JsonView {
    /// The member of an object of that name; other values have none.
    pub open spec fn member(self, key: Seq<char>) -> Option<JsonView> {
        match self {
            JsonView::Object(members, _) => lookup(members, key),
            _ => None,
        }
    }

    /// The contents of a string; other values have none.
    pub open spec fn text(self) -> Option<Seq<char>> {
        match self {
            JsonView::Text(s) => Some(s),
            _ => None,
        }
    }
}

impl Json {
    /// What the value holds.
    pub open spec fn model(self) -> JsonView
        decreases self,
    {
        match self {
            Json::Null => JsonView::Null,
            Json::Bool(b) => JsonView::Bool(b),
            Json::Number(n) => JsonView::Number(n@),
            Json::Text(s) => JsonView::Text(s@),
            Json::Array(items, text) => JsonView::Array(item_models(items@), text@),
            Json::Object(members, text) => JsonView::Object(member_models(members@), text@),
        }
    }

    /// The member of an object of that name.
    pub fn member(&self, key: &str) -> (r: Option<&Json>)
        ensures
            match r {
                Some(v) => self.model().member(key@) == Some(v.model()),
                None => self.model().member(key@) is None,
            },
    {
        match self {
            Json::Object(members, _) => find_member(members, key),
            _ => None,
        }
    }

    /// The contents of a string.
    pub fn text(&self) -> (r: Option<&String>)
        ensures
            match r {
                Some(s) => self.model().text() == Some(s@),
                None => self.model().text() is None,
            },
    {
        match self {
            Json::Text(s) => Some(s),
            _ => None,
        }
    }

    /// The value that `serde_json` holds in `v`.
    pub fn from_value(v: &serde_json::Value) -> (r: Json)
        ensures
            r.model() == json_held(*v),
    {
        json_from_value(v)
    }
}

/// The value of the first member called `key`.
pub fn find_member<'a>(members: &'a Vec<(String, Json)>, key: &str) -> (r: Option<&'a Json>)
    ensures
        match r {
            Some(v) => lookup(member_models(members@), key@) == Some(v.model()),
            None => lookup(member_models(members@), key@) is None,
        },
{
    let ghost all = member_models(members@);
    let mut i: usize = 0;
    assert(all.skip(0) =~= all);
    while i < members.len()
        invariant
            i <= members@.len(),
            all == member_models(members@),
            lookup(all, key@) == lookup(all.skip(i as int), key@),
        decreases members@.len() - i,
    {
        assert(all[i as int] == (members@[i as int].0@, members@[i as int].1.model()));
        if same(members[i].0.as_str(), key) {
            return Some(&members[i].1);
        }
        assert(all.skip(i as int).drop_first() =~= all.skip(i + 1));
        i += 1;
    }
    None
}

// --- values of serde_json ---

#[verifier::external_type_specification]
#[verifier::external_body]
pub struct ExValue(serde_json::Value);

/// What a `serde_json::Value` holds: its variant and contents, an object's members in the order
/// of the map's iteration; a number as it is printed, and for an array or an object also the text
/// that it is printed as.
pub uninterp spec fn json_held(v: serde_json::Value) -> JsonView;

/// What `serde_json::from_slice` reads into a `serde_json::Value` from bytes: a value exactly for
/// the bytes of one JSON text that the crate accepts (well-formed, nested no deeper than its limit,
/// without a number out of range), and for any other bytes the text of its error.
pub uninterp spec fn json_parse(bytes: Seq<u8>) -> Result<JsonView, Seq<char>>;

/// Calls `serde_json::from_slice`. It gives the value, or the error, that `json_parse` names for
/// the bytes; the error is printed with `to_string`.
#[verifier::external_body]
fn value_from_slice(bytes: &[u8]) -> (r: Result<serde_json::Value, String>)
    ensures
        match r {
            Ok(v) => json_parse(bytes@) == Ok::<JsonView, Seq<char>>(json_held(v)),
            Err(e) => json_parse(bytes@) == Err::<JsonView, Seq<char>>(e@),
        },
{
    serde_json::from_slice(bytes).map_err(|e| e.to_string())
}

/// The outermost layer of a `serde_json::Value`.
enum Layer<'a> {
    Null,
    Bool(bool),
    Number(String),
    Text(String),
    Array(Vec<&'a serde_json::Value>, String),
    Object(Vec<(String, &'a serde_json::Value)>, String),
}

impl<'a> Layer<'a> {
    /// What a value with this outermost layer holds.
    spec fn model(self) -> JsonView {
        match self {
            Layer::Null => JsonView::Null,
            Layer::Bool(b) => JsonView::Bool(b),
            Layer::Number(n) => JsonView::Number(n@),
            Layer::Text(s) => JsonView::Text(s@),
            Layer::Array(items, text) => JsonView::Array(
                items@.map_values(|v: &serde_json::Value| json_held(*v)),
                text@,
            ),
            Layer::Object(members, text) => JsonView::Object(
                members@.map_values(|m: (String, &serde_json::Value)| (m.0@, json_held(*m.1))),
                text@,
            ),
        }
    }
}

/// Tells the variants of `serde_json::Value` apart. The items of an array and the members of an
/// object are handed out in the order of the crate's own iteration; numbers, arrays and objects
/// are printed with `Value::to_string`.
#[verifier::external_body]
fn layer(v: &serde_json::Value) -> (r: Layer<'_>)
    ensures
        r.model() == json_held(*v),
{
    match v {
        serde_json::Value::Null => Layer::Null,
        serde_json::Value::Bool(b) => Layer::Bool(*b),
        serde_json::Value::Number(_) => Layer::Number(v.to_string()),
        serde_json::Value::String(s) => Layer::Text(s.clone()),
        serde_json::Value::Array(items) => Layer::Array(items.iter().collect(), v.to_string()),
        serde_json::Value::Object(o) => {
            Layer::Object(o.iter().map(|(k, m)| (k.clone(), m)).collect(), v.to_string())
        },
    }
}

/// The value that `serde_json` holds in `v`, layer by layer.
fn json_from_value(v: &serde_json::Value) -> (r: Json)
    ensures
        r.model() == json_held(*v),
    decreases json_held(*v),
{
    let ghost held = json_held(*v);
    match layer(v) {
        Layer::Null => Json::Null,
        Layer::Bool(b) => Json::Bool(b),
        Layer::Number(n) => Json::Number(n),
        Layer::Text(s) => Json::Text(s),
        Layer::Array(values, text) => {
            let mut items: Vec<Json> = Vec::new();
            let mut i: usize = 0;
            while i < values.len()
                invariant
                    i <= values@.len(),
                    held == json_held(*v),
                    held matches JsonView::Array(all, _) && all == values@.map_values(
                        |v: &serde_json::Value| json_held(*v),
                    ),
                    items@.len() == i,
                    forall|k: int|
                        0 <= k < i ==> (#[trigger] items@[k]).model() == json_held(*values@[k]),
                decreases values@.len() - i,
            {
                assert(held->Array_0[i as int] == json_held(*values@[i as int]));
                items.push(json_from_value(values[i]));
                i += 1;
            }
            assert(item_models(items@) =~= held->Array_0);
            Json::Array(items, text)
        },
        Layer::Object(values, text) => {
            let mut members: Vec<(String, Json)> = Vec::new();
            let mut i: usize = 0;
            while i < values.len()
                invariant
                    i <= values@.len(),
                    held == json_held(*v),
                    held matches JsonView::Object(all, _) && all == values@.map_values(
                        |m: (String, &serde_json::Value)| (m.0@, json_held(*m.1)),
                    ),
                    members@.len() == i,
                    forall|k: int|
                        0 <= k < i ==> (#[trigger] members@[k]).0@ == values@[k].0@
                            && members@[k].1.model() == json_held(*values@[k].1),
                decreases values@.len() - i,
            {
                assert(held->Object_0[i as int].1 == json_held(*values@[i as int].1));
                members.push((values[i].0.clone(), json_from_value(values[i].1)));
                i += 1;
            }
            assert(member_models(members@) =~= held->Object_0);
            Json::Object(members, text)
        },
    }
}

/// Reads a JSON text; the error is what `serde_json` says of it.
pub fn parse_json(bytes: &[u8]) -> (r: Result<Json, String>)
    ensures
        match r {
            Ok(json) => json_parse(bytes@) == Ok::<JsonView, Seq<char>>(json.model()),
            Err(e) => json_parse(bytes@) == Err::<JsonView, Seq<char>>(e@),
        },
{
    match value_from_slice(bytes) {
        Ok(v) => Ok(Json::from_value(&v)),
        Err(e) => Err(e),
    }
}

// --- maps of serde_json ---

#[verifier::external_type_specification]
#[verifier::external_body]
#[verifier::reject_recursive_types(K)]
#[verifier::reject_recursive_types(V)]
pub struct ExMap<K, V>(serde_json::Map<K, V>);

/// The entries of a `serde_json::Map` in the order of its iteration, each value by its `as_u64`,
/// with zero for a value that is no such number.
pub uninterp spec fn map_held(m: serde_json::Map<String, serde_json::Value>) -> Seq<
    (Seq<char>, u64),
>;

/// `entries` with `value` under `key`: in the place of the entry of that key, else at the end.
pub open spec fn put<T>(entries: Seq<(Seq<char>, T)>, key: Seq<char>, value: T) -> Seq<
    (Seq<char>, T),
>
    decreases entries.len(),
{
    if entries.len() == 0 {
        seq![(key, value)]
    } else if entries[0].0 == key {
        entries.update(0, (key, value))
    } else {
        seq![entries[0]] + put(entries.drop_first(), key, value)
    }
}

/// Calls `serde_json::Map::new`, which makes a map without entries.
#[verifier::external_body]
pub(crate) fn map_new() -> (m: serde_json::Map<String, serde_json::Value>)
    ensures
        map_held(m) == Seq::<(Seq<char>, u64)>::empty(),
{
    serde_json::Map::new()
}

/// Calls `serde_json::Map::insert`. The crate keeps entries in order of insertion (its feature
/// `preserve_order`): a key that is there keeps its place and gets the new value, any other goes
/// to the end.
#[verifier::external_body]
pub(crate) fn map_insert(
    m: &mut serde_json::Map<String, serde_json::Value>,
    key: String,
    value: u64,
)
    ensures
        map_held(*final(m)) == put(map_held(*old(m)), key@, value),
{
    m.insert(key, serde_json::Value::from(value));
}

/// Calls `serde_json::Map::iter` and gives out the entries in its order.
#[verifier::external_body]
pub(crate) fn map_entries(m: &serde_json::Map<String, serde_json::Value>) -> (r: Vec<(String, u64)>)
    ensures
        r@.map_values(|e: (String, u64)| (e.0@, e.1)) == map_held(*m),
{
    m.iter().map(|(k, v)| (k.clone(), v.as_u64().unwrap_or_default())).collect()
}

// --- laws ---

/// The member that is found under a name is the first one of this name.
pub proof fn law_lookup(members: Seq<(Seq<char>, JsonView)>, key: Seq<char>) -> (i: int)
    ensures
        0 <= i <= members.len(),
        forall|j: int| 0 <= j < i ==> (#[trigger] members[j]).0 != key,
        i < members.len() ==> members[i].0 == key && lookup(members, key) == Some(members[i].1),
        i == members.len() ==> lookup(members, key) is None,
    decreases members.len(),
{
    if members.len() == 0 || members[0].0 == key {
        0
    } else {
        let rest = members.drop_first();
        let i = law_lookup(rest, key);
        assert forall|j: int| 0 <= j < i + 1 implies (#[trigger] members[j]).0 != key by {
            if j > 0 {
                assert(members[j] == rest[j - 1]);
            }
        }
        if i < rest.len() {
            assert(members[i + 1] == rest[i]);
        }
        i + 1
    }
}

/// Only an object has members, and only a string has a text.
pub proof fn law_members_and_texts(v: JsonView, key: Seq<char>)
    ensures
        match v {
            JsonView::Object(members, _) => v.member(key) == lookup(members, key),
            _ => v.member(key) is None,
        },
        match v {
            JsonView::Text(s) => v.text() == Some(s),
            _ => v.text() is None,
        },
{
}

} // verus!
