//! A plain-value model of JSON documents, with the two `serde_json` calls the
//! library makes (reading and writing JSON text) behind trusted wrappers.
use vstd::prelude::*;

verus! {

/// A JSON number as the transcript logic reads it: its unsigned and signed
/// integer readings (`serde_json::Number::as_u64` / `as_i64`) and its text.
pub struct JsonNumber {
    pub as_u64: Option<u64>,
    pub as_i64: Option<i64>,
    pub text: String,
}

/// A JSON value. Object members keep the order `serde_json` yields them in.
pub enum Json {
    Null,
    Bool(bool),
    Number(JsonNumber),
    Str(String),
    Array(Vec<Json>),
    Object(Vec<(String, Json)>),
}

/// The value stored under `key` among `fields`, the first such member.
pub open spec fn field_of(fields: Seq<(String, Json)>, key: Seq<char>) -> Option<Json>
    decreases fields.len(),
{
    if fields.len() == 0 {
        None
    } else if fields[0].0@ == key {
        Some(fields[0].1)
    } else {
        field_of(fields.drop_first(), key)
    }
}

impl Json {
    /// `Value::get` with a string key: the member of an object, else nothing.
    pub open spec fn field(self, key: Seq<char>) -> Option<Json> {
        match self {
            Json::Object(fields) => field_of(fields@, key),
            _ => None,
        }
    }

    pub open spec fn str_value(self) -> Option<Seq<char>> {
        match self {
            Json::Str(s) => Some(s@),
            _ => None,
        }
    }

    pub open spec fn u64_value(self) -> Option<u64> {
        match self {
            Json::Number(n) => n.as_u64,
            _ => None,
        }
    }

    pub open spec fn i64_value(self) -> Option<i64> {
        match self {
            Json::Number(n) => n.as_i64,
            _ => None,
        }
    }

    pub open spec fn bool_value(self) -> Option<bool> {
        match self {
            Json::Bool(b) => Some(b),
            _ => None,
        }
    }

    pub open spec fn is_object(self) -> bool {
        self is Object
    }

    pub open spec fn is_array(self) -> bool {
        self is Array
    }

    /// `Value::get(key)` followed by `as_str`.
    pub open spec fn str_field(self, key: Seq<char>) -> Option<Seq<char>> {
        match self.field(key) {
            Some(v) => v.str_value(),
            None => None,
        }
    }

    pub open spec fn u64_field(self, key: Seq<char>) -> Option<u64> {
        match self.field(key) {
            Some(v) => v.u64_value(),
            None => None,
        }
    }

    pub open spec fn bool_field(self, key: Seq<char>) -> Option<bool> {
        match self.field(key) {
            Some(v) => v.bool_value(),
            None => None,
        }
    }

    /// `Value::get`.
    pub fn get(&self, key: &str) -> (r: Option<&Json>)
        ensures
            match r {
                Some(v) => self.field(key@) == Some(*v),
                None => self.field(key@) is None,
            },
    {
        match self {
            Json::Object(fields) => {
                let mut i: usize = 0;
                proof {
                    assert(fields@.skip(0) =~= fields@);
                }
                while i < fields.len()
                    invariant
                        i <= fields@.len(),
                        self.field(key@) == field_of(fields@, key@),
                        field_of(fields@, key@) == field_of(fields@.skip(i as int), key@),
                    decreases fields.len() - i,
                {
                    proof {
                        assert(fields@.skip(i as int).drop_first() =~= fields@.skip(i + 1));
                        assert(fields@.skip(i as int)[0] == fields@[i as int]);
                    }
                    if crate::text::str_eq(fields[i].0.as_str(), key) {
                        proof {
                            let rest = fields@.skip(i as int);
                            assert(rest.len() > 0);
                            assert(rest[0].0@ == key@);
                            assert(field_of(rest, key@) == Some(rest[0].1));
                            assert(self.field(key@) == Some(fields@[i as int].1));
                        }
                        let found: &Json = &fields[i].1;
                        assert(*found == fields@[i as int].1);
                        return Some(found);
                    }
                    i += 1;
                }
                None
            },
            _ => None,
        }
    }

    /// `Value::as_str`.
    pub fn as_str(&self) -> (r: Option<&str>)
        ensures
            match r {
                Some(s) => self.str_value() == Some(s@),
                None => self.str_value() is None,
            },
    {
        match self {
            Json::Str(s) => Some(s.as_str()),
            _ => None,
        }
    }

    /// `Value::as_u64`.
    pub fn as_u64(&self) -> (r: Option<u64>)
        ensures
            r == self.u64_value(),
    {
        match self {
            Json::Number(n) => n.as_u64,
            _ => None,
        }
    }

    /// `Value::as_i64`.
    pub fn as_i64(&self) -> (r: Option<i64>)
        ensures
            r == self.i64_value(),
    {
        match self {
            Json::Number(n) => n.as_i64,
            _ => None,
        }
    }

    /// `Value::as_bool`.
    pub fn as_bool(&self) -> (r: Option<bool>)
        ensures
            r == self.bool_value(),
    {
        match self {
            Json::Bool(b) => Some(*b),
            _ => None,
        }
    }

    pub fn is_object_value(&self) -> (r: bool)
        ensures
            r == self.is_object(),
    {
        match self {
            Json::Object(_) => true,
            _ => false,
        }
    }

    pub fn is_array_value(&self) -> (r: bool)
        ensures
            r == self.is_array(),
    {
        match self {
            Json::Array(_) => true,
            _ => false,
        }
    }

    /// `value.get(key).and_then(as_str)`.
    pub fn get_str(&self, key: &str) -> (r: Option<&str>)
        ensures
            match r {
                Some(s) => self.str_field(key@) == Some(s@),
                None => self.str_field(key@) is None,
            },
    {
        match self.get(key) {
            Some(v) => v.as_str(),
            None => None,
        }
    }

    /// `value.get(key).and_then(as_u64)`.
    pub fn get_u64(&self, key: &str) -> (r: Option<u64>)
        ensures
            r == self.u64_field(key@),
    {
        match self.get(key) {
            Some(v) => v.as_u64(),
            None => None,
        }
    }

    /// `value.get(key).and_then(as_bool)`.
    pub fn get_bool(&self, key: &str) -> (r: Option<bool>)
        ensures
            r == self.bool_field(key@),
    {
        match self.get(key) {
            Some(v) => v.as_bool(),
            None => None,
        }
    }
}

/// Every string held in `v`, member names aside, is shorter than `bound`.
pub open spec fn strings_within(v: Json, bound: int) -> bool
    decreases v,
{
    match v {
        Json::Str(s) => s@.len() < bound,
        Json::Array(items) => forall|i: int|
            0 <= i < items@.len() ==> strings_within(#[trigger] items@[i], bound),
        Json::Object(fields) => forall|i: int|
            0 <= i < fields@.len() ==> strings_within(#[trigger] fields@[i].1, bound),
        _ => true,
    }
}

pub proof fn lemma_item_within(items: Vec<Json>, bound: int, i: int)
    requires
        strings_within(Json::Array(items), bound),
        0 <= i < items@.len(),
    ensures
        strings_within(items@[i], bound),
{
    let v = Json::Array(items);
    assert(decreases_to!(v => v->Array_0));
    assert(decreases_to!(items => items@));
    assert(decreases_to!(items@ => items@[i]));
    assert(decreases_to!(v => items@[i]));
}

pub proof fn lemma_member_value_within(fields: Vec<(String, Json)>, bound: int, i: int)
    requires
        strings_within(Json::Object(fields), bound),
        0 <= i < fields@.len(),
    ensures
        strings_within(fields@[i].1, bound),
{
    let v = Json::Object(fields);
    assert(decreases_to!(v => v->Object_0));
    assert(decreases_to!(fields => fields@));
    assert(decreases_to!(fields@ => fields@[i]));
    assert(decreases_to!(fields@[i] => fields@[i].1));
    assert(decreases_to!(v => fields@[i].1));
}

/// One more than the length of the longest string `v` holds, member names
/// aside (1 when it holds none).
pub open spec fn string_bound(v: Json) -> int
    decreases v, 0nat,
{
    match v {
        Json::Str(s) => s@.len() as int + 1,
        Json::Array(items) => items_bound(items@, items@.len() as int),
        Json::Object(fields) => members_bound(fields@, fields@.len() as int),
        _ => 1,
    }
}

/// The largest `string_bound` of `s[..n]`, at least 1.
pub open spec fn items_bound(s: Seq<Json>, n: int) -> int
    decreases s, n,
{
    if n <= 0 || n > s.len() {
        1
    } else {
        let prev = items_bound(s, n - 1);
        let here = string_bound(s[n - 1]);
        if prev < here { here } else { prev }
    }
}

/// The largest `string_bound` of the values of `s[..n]`, at least 1.
pub open spec fn members_bound(s: Seq<(String, Json)>, n: int) -> int
    decreases s, n,
{
    if n <= 0 || n > s.len() {
        1
    } else {
        let prev = members_bound(s, n - 1);
        let here = string_bound(s[n - 1].1);
        if prev < here { here } else { prev }
    }
}

proof fn lemma_items_bound(s: Seq<Json>, n: int, i: int)
    requires
        0 <= i < n <= s.len(),
    ensures
        string_bound(s[i]) <= items_bound(s, n),
    decreases n,
{
    if i < n - 1 {
        lemma_items_bound(s, n - 1, i);
    }
}

proof fn lemma_members_bound(s: Seq<(String, Json)>, n: int, i: int)
    requires
        0 <= i < n <= s.len(),
    ensures
        string_bound(s[i].1) <= members_bound(s, n),
    decreases n,
{
    if i < n - 1 {
        lemma_members_bound(s, n - 1, i);
    }
}

/// Every string `v` holds is shorter than any bound from `string_bound(v)` on.
pub proof fn lemma_string_bound(v: Json, b: int)
    requires
        string_bound(v) <= b,
    ensures
        strings_within(v, b),
    decreases v,
{
    match v {
        Json::Array(items) => {
            assert forall|i: int| 0 <= i < items@.len() implies strings_within(#[trigger] items@[i], b) by {
                lemma_items_bound(items@, items@.len() as int, i);
                assert(decreases_to!(v => items@[i])) by {
                    assert(decreases_to!(v => v->Array_0));
                    assert(decreases_to!(items => items@));
                    assert(decreases_to!(items@ => items@[i]));
                }
                lemma_string_bound(items@[i], b);
            }
        },
        Json::Object(fields) => {
            assert forall|i: int| 0 <= i < fields@.len() implies strings_within(#[trigger] fields@[i].1, b) by {
                lemma_members_bound(fields@, fields@.len() as int, i);
                assert(decreases_to!(v => fields@[i].1)) by {
                    assert(decreases_to!(v => v->Object_0));
                    assert(decreases_to!(fields => fields@));
                    assert(decreases_to!(fields@ => fields@[i]));
                    assert(decreases_to!(fields@[i] => fields@[i].1));
                }
                lemma_string_bound(fields@[i].1, b);
            }
        },
        _ => {},
    }
}

#[verifier::external_type_specification]
#[verifier::external_body]
pub struct ExSerdeJsonValue(serde_json::Value);

/// What `serde_json::from_str::<serde_json::Value>` reads from a text, as a
/// plain value (`None` when the text is not a JSON document).
pub uninterp spec fn json_parse_result(text: Seq<char>) -> Option<Json>;

/// A JSON value as plain values: what a value holds, whichever `Vec`s and
/// `String`s hold it.
pub enum JsonView {
    Null,
    Bool(bool),
    Number(Option<u64>, Option<i64>, Seq<char>),
    Str(Seq<char>),
    Array(Seq<JsonView>),
    Object(Seq<(Seq<char>, JsonView)>),
}

pub open spec fn json_view(v: Json) -> JsonView
    decreases v, 0nat,
{
    match v {
        Json::Null => JsonView::Null,
        Json::Bool(b) => JsonView::Bool(b),
        Json::Number(n) => JsonView::Number(n.as_u64, n.as_i64, n.text@),
        Json::Str(s) => JsonView::Str(s@),
        Json::Array(items) => JsonView::Array(items_view(items@, items@.len() as int)),
        Json::Object(fields) => JsonView::Object(members_view(fields@, fields@.len() as int)),
    }
}

/// The views of `s[..n]`.
pub open spec fn items_view(s: Seq<Json>, n: int) -> Seq<JsonView>
    decreases s, n,
{
    if n <= 0 || n > s.len() {
        Seq::empty()
    } else {
        items_view(s, n - 1).push(json_view(s[n - 1]))
    }
}

/// The views of the members `s[..n]`.
pub open spec fn members_view(s: Seq<(String, Json)>, n: int) -> Seq<(Seq<char>, JsonView)>
    decreases s, n,
{
    if n <= 0 || n > s.len() {
        Seq::empty()
    } else {
        members_view(s, n - 1).push((s[n - 1].0@, json_view(s[n - 1].1)))
    }
}

/// `items_view` reads only the first `n` items.
pub proof fn lemma_items_view_prefix(a: Seq<Json>, b: Seq<Json>, n: int)
    requires
        0 <= n <= a.len(),
        n <= b.len(),
        forall|i: int| 0 <= i < n ==> json_view(#[trigger] a[i]) == json_view(b[i]),
    ensures
        items_view(a, n) == items_view(b, n),
    decreases n,
{
    if n > 0 {
        lemma_items_view_prefix(a, b, n - 1);
    }
}

/// `members_view` reads only the first `n` members.
pub proof fn lemma_members_view_prefix(a: Seq<(String, Json)>, b: Seq<(String, Json)>, n: int)
    requires
        0 <= n <= a.len(),
        n <= b.len(),
        forall|i: int| 0 <= i < n ==> (#[trigger] a[i]).0@ == b[i].0@ && json_view(a[i].1) == json_view(b[i].1),
    ensures
        members_view(a, n) == members_view(b, n),
    decreases n,
{
    if n > 0 {
        lemma_members_view_prefix(a, b, n - 1);
    }
}

impl Json {
    /// A copy holding the same value.
    pub fn copy(&self) -> (r: Json)
        ensures
            json_view(r) == json_view(*self),
        decreases self,
    {
        match self {
            Json::Null => Json::Null,
            Json::Bool(b) => Json::Bool(*b),
            Json::Number(n) => Json::Number(
                JsonNumber { as_u64: n.as_u64, as_i64: n.as_i64, text: n.text.clone() },
            ),
            Json::Str(s) => Json::Str(s.clone()),
            Json::Array(items) => {
                let mut out: Vec<Json> = Vec::new();
                let mut i: usize = 0;
                while i < items.len()
                    invariant
                        i <= items@.len(),
                        out@.len() == i,
                        *self == Json::Array(*items),
                        forall|k: int| 0 <= k < i ==> json_view(#[trigger] out@[k]) == json_view(items@[k]),
                    decreases items.len() - i,
                {
                    proof {
                        let v = *self;
                        assert(decreases_to!(v => v->Array_0));
                        assert(decreases_to!(v->Array_0 => v->Array_0@));
                        assert(decreases_to!(v->Array_0@ => v->Array_0@[i as int]));
                        assert(decreases_to!(v => items@[i as int]));
                    }
                    let c = items[i].copy();
                    out.push(c);
                    i += 1;
                }
                proof {
                    lemma_items_view_prefix(out@, items@, items@.len() as int);
                }
                Json::Array(out)
            },
            Json::Object(fields) => {
                let mut out: Vec<(String, Json)> = Vec::new();
                let mut i: usize = 0;
                while i < fields.len()
                    invariant
                        i <= fields@.len(),
                        out@.len() == i,
                        *self == Json::Object(*fields),
                        forall|k: int| 0 <= k < i ==> (#[trigger] out@[k]).0@ == fields@[k].0@ && json_view(
                            out@[k].1,
                        ) == json_view(fields@[k].1),
                    decreases fields.len() - i,
                {
                    proof {
                        let v = *self;
                        assert(decreases_to!(v => v->Object_0));
                        assert(decreases_to!(v->Object_0 => v->Object_0@));
                        assert(decreases_to!(v->Object_0@ => v->Object_0@[i as int]));
                        assert(decreases_to!(v->Object_0@[i as int] => v->Object_0@[i as int].1));
                        assert(decreases_to!(v => fields@[i as int].1));
                    }
                    let c = fields[i].1.copy();
                    out.push((fields[i].0.clone(), c));
                    i += 1;
                }
                proof {
                    lemma_members_view_prefix(out@, fields@, fields@.len() as int);
                }
                Json::Object(out)
            },
        }
    }
}

/// What `serde_json::Value::to_string` writes for a value.
pub uninterp spec fn json_text(value: JsonView) -> Seq<char>;

/// Reads JSON text with `serde_json::from_str`. The result is a function of
/// the text alone; what that function is, serde_json decides and nothing here
/// states, beyond one fact of the JSON grammar: a string value is written
/// between quotes inside the text and escapes never lengthen it, so every
/// string the value holds is shorter than the text.
#[verifier::external_body]
pub(crate) fn parse_json(text: &str) -> (r: Option<Json>)
    ensures
        r == json_parse_result(text@),
        r matches Some(v) ==> strings_within(v, text@.len() as int),
{
    serde_json::from_str::<serde_json::Value>(text).ok().map(from_serde)
}

/// Writes a value as compact JSON text with `serde_json::Value::to_string`.
#[verifier::external_body]
pub(crate) fn render_json(value: &Json) -> (r: String)
    ensures
        r@ == json_text(json_view(*value)),
{
    to_serde(value).to_string()
}

/// One-for-one conversion from `serde_json::Value`, variant by variant.
#[verifier::external_body]
fn from_serde(value: serde_json::Value) -> Json {
    match value {
        serde_json::Value::Null => Json::Null,
        serde_json::Value::Bool(b) => Json::Bool(b),
        serde_json::Value::Number(n) => Json::Number(
            JsonNumber { as_u64: n.as_u64(), as_i64: n.as_i64(), text: n.to_string() },
        ),
        serde_json::Value::String(s) => Json::Str(s),
        serde_json::Value::Array(items) => Json::Array(items.into_iter().map(from_serde).collect()),
        serde_json::Value::Object(map) => Json::Object(
            map.into_iter().map(|(k, v)| (k, from_serde(v))).collect(),
        ),
    }
}

/// One-for-one conversion to `serde_json::Value`, variant by variant.
#[verifier::external_body]
fn to_serde(value: &Json) -> serde_json::Value {
    match value {
        Json::Null => serde_json::Value::Null,
        Json::Bool(b) => serde_json::Value::Bool(*b),
        Json::Number(n) => n.text.parse::<serde_json::Number>().map(serde_json::Value::Number).unwrap_or(serde_json::Value::Null),
        Json::Str(s) => serde_json::Value::String(s.clone()),
        Json::Array(items) => serde_json::Value::Array(items.iter().map(to_serde).collect()),
        Json::Object(fields) => serde_json::Value::Object(
            fields.iter().map(|(k, v)| (k.clone(), to_serde(v))).collect(),
        ),
    }
}

/// A JSON document read from text: the value `serde_json` reads, or `None`
/// when the text is not JSON.
pub fn read_json(text: &str) -> (r: Option<Json>)
    ensures
        r == json_parse_result(text@),
{
    parse_json(text)
}

} // verus!
