//! JSON values: what they hold, and how the router reads and writes them.

use crate::text::{decimal, trim, trimmed};
use vstd::prelude::*;

verus! {

/// What a JSON value holds.
pub enum JsonView {
    Null,
    Bool(bool),
    /// A number, by the text it is written with.
    Number(Seq<char>),
    Text(Seq<char>),
    Array(Seq<JsonView>),
    Object(Map<Seq<char>, JsonView>),
}

/// `serde_json::Value`, carried opaquely; [`json_view`] says what it holds.
#[verifier::external_type_specification]
#[verifier::external_body]
pub struct ExValue(serde_json::Value);

/// `serde_json::Map`, carried opaquely; [`map_view`] says what it holds.
#[verifier::external_type_specification]
#[verifier::external_body]
#[verifier::reject_recursive_types(K)]
#[verifier::reject_recursive_types(V)]
pub struct ExMap<K, V>(serde_json::Map<K, V>);

/// The contents of a `serde_json::Value`.
pub uninterp spec fn json_view(v: serde_json::Value) -> JsonView;

/// The members of a `serde_json::Map`.
pub uninterp spec fn map_view(m: serde_json::Map<String, serde_json::Value>) -> Map<
    Seq<char>,
    JsonView,
>;

/// What `serde_json` makes of a text: the value it spells, or the message of the
/// error.
pub uninterp spec fn json_parse(text: Seq<char>) -> Result<JsonView, Seq<char>>;

/// The compact text of a JSON value.
pub uninterp spec fn json_text(v: JsonView) -> Seq<char>;

impl JsonView {
    /// The member `key` of an object.
    pub open spec fn field(self, key: Seq<char>) -> Option<JsonView> {
        match self {
            JsonView::Object(m) => if m.dom().contains(key) {
                Some(m[key])
            } else {
                None
            },
            _ => None,
        }
    }

    /// The text of a string.
    pub open spec fn text(self) -> Option<Seq<char>> {
        match self {
            JsonView::Text(s) => Some(s),
            _ => None,
        }
    }

    /// A boolean.
    pub open spec fn boolean(self) -> Option<bool> {
        match self {
            JsonView::Bool(b) => Some(b),
            _ => None,
        }
    }

    /// The items of an array.
    pub open spec fn items(self) -> Option<Seq<JsonView>> {
        match self {
            JsonView::Array(a) => Some(a),
            _ => None,
        }
    }

    /// The text of the string member `key`.
    pub open spec fn text_field(self, key: Seq<char>) -> Option<Seq<char>> {
        match self.field(key) {
            Some(m) => m.text(),
            None => None,
        }
    }
}

/// The contents of a list of values.
pub open spec fn json_views(v: Seq<serde_json::Value>) -> Seq<JsonView> {
    v.map_values(|x: serde_json::Value| json_view(x))
}

/// The members of an empty object.
pub open spec fn no_members() -> Map<Seq<char>, JsonView> {
    Map::empty()
}

/// The view of a parse.
pub open spec fn parsed_view(r: Result<serde_json::Value, String>) -> Result<JsonView, Seq<char>> {
    match r {
        Ok(v) => Ok(json_view(v)),
        Err(m) => Err(m@),
    }
}

/// The view of an optional text.
pub open spec fn str_option(s: Option<&str>) -> Option<Seq<char>> {
    match s {
        Some(t) => Some(t@),
        None => None,
    }
}

/// `serde_json::Value::get` with a string index: the member of that name where
/// the value is an object that has one, nothing otherwise.
#[verifier::external_body]
pub(crate) fn value_get<'a>(v: &'a serde_json::Value, key: &str) -> (r: Option<
    &'a serde_json::Value,
>)
    ensures
        match r {
            Some(m) => json_view(*v).field(key@) == Some(json_view(*m)),
            None => json_view(*v).field(key@) is None,
        },
{
    v.get(key)
}

/// `serde_json::Value::as_str`: the text where the value is a string, nothing
/// otherwise.
#[verifier::external_body]
pub(crate) fn value_as_str<'a>(v: &'a serde_json::Value) -> (r: Option<&'a str>)
    ensures
        str_option(r) == json_view(*v).text(),
{
    v.as_str()
}

/// `serde_json::Value::is_null`: whether the value is null.
#[verifier::external_body]
pub(crate) fn value_is_null(v: &serde_json::Value) -> (r: bool)
    ensures
        r == json_view(*v) is Null,
{
    v.is_null()
}

/// `serde_json::Value::as_bool`: the boolean where the value is one, nothing
/// otherwise.
#[verifier::external_body]
pub(crate) fn value_as_bool(v: &serde_json::Value) -> (r: Option<bool>)
    ensures
        r == json_view(*v).boolean(),
{
    v.as_bool()
}

/// `serde_json::Value::as_array`: the items where the value is an array, nothing
/// otherwise.
#[verifier::external_body]
pub(crate) fn value_as_array<'a>(v: &'a serde_json::Value) -> (r: Option<
    &'a Vec<serde_json::Value>,
>)
    ensures
        match r {
            Some(a) => json_view(*v).items() == Some(json_views(a@)),
            None => json_view(*v).items() is None,
        },
{
    v.as_array()
}

/// `serde_json::Value::as_object`, and `Clone` on the map it gives: the members
/// where the value is an object, nothing otherwise.
#[verifier::external_body]
pub(crate) fn value_object_members(v: &serde_json::Value) -> (r: Option<
    serde_json::Map<String, serde_json::Value>,
>)
    ensures
        match r {
            Some(m) => json_view(*v) == JsonView::Object(map_view(m)),
            None => !(json_view(*v) is Object),
        },
{
    v.as_object().cloned()
}

/// `serde_json::Map::new`: a map without members.
#[verifier::external_body]
pub(crate) fn map_new() -> (r: serde_json::Map<String, serde_json::Value>)
    ensures
        map_view(r) == no_members(),
{
    serde_json::Map::new()
}

/// `serde_json::Map::insert`: the member `key` has the value `value`, every other
/// member stays.
#[verifier::external_body]
pub(crate) fn map_insert(
    m: &mut serde_json::Map<String, serde_json::Value>,
    key: String,
    value: serde_json::Value,
)
    ensures
        map_view(*final(m)) == map_view(*old(m)).insert(key@, json_view(value)),
{
    m.insert(key, value);
}

/// `serde_json::Value::Object`: the object with these members.
#[verifier::external_body]
pub(crate) fn value_object(m: serde_json::Map<String, serde_json::Value>) -> (r: serde_json::Value)
    ensures
        json_view(r) == JsonView::Object(map_view(m)),
{
    serde_json::Value::Object(m)
}

/// `serde_json::Value::String`: the string with this text.
#[verifier::external_body]
pub(crate) fn value_string(s: String) -> (r: serde_json::Value)
    ensures
        json_view(r) == JsonView::Text(s@),
{
    serde_json::Value::String(s)
}

/// `serde_json::Value::Bool`: the boolean.
#[verifier::external_body]
pub(crate) fn value_bool(b: bool) -> (r: serde_json::Value)
    ensures
        json_view(r) == JsonView::Bool(b),
{
    serde_json::Value::Bool(b)
}

/// `serde_json::Value::Null`.
#[verifier::external_body]
pub(crate) fn value_null() -> (r: serde_json::Value)
    ensures
        json_view(r) == JsonView::Null,
{
    serde_json::Value::Null
}

/// `From<u64>` for `serde_json::Value`: the number, which is written in decimal.
#[verifier::external_body]
pub(crate) fn value_number(n: u64) -> (r: serde_json::Value)
    ensures
        json_view(r) == JsonView::Number(decimal(n as nat)),
{
    serde_json::Value::from(n)
}

/// `serde_json::Value::Array`: the array of these items.
#[verifier::external_body]
pub(crate) fn value_array(items: Vec<serde_json::Value>) -> (r: serde_json::Value)
    ensures
        json_view(r) == JsonView::Array(json_views(items@)),
{
    serde_json::Value::Array(items)
}

/// `serde_json::from_str` into a `Value`: the value the text spells, or the
/// error's message.
#[verifier::external_body]
pub(crate) fn value_from_str(text: &str) -> (r: Result<serde_json::Value, String>)
    ensures
        parsed_view(r) == json_parse(text@),
{
    serde_json::from_str(text).map_err(|e: serde_json::Error| e.to_string())
}

/// `Display` of a `serde_json::Value`, through `to_string`: its compact text. The
/// members of an object are written in the order of their keys, which is how the
/// crate's map keeps them without its feature `preserve_order`; so the text
/// depends on the contents alone.
#[verifier::external_body]
pub(crate) fn value_to_string(v: &serde_json::Value) -> (r: String)
    ensures
        r@ == json_text(json_view(*v)),
{
    v.to_string()
}

/// The text of the string member `key`.
pub fn str_field<'a>(v: &'a serde_json::Value, key: &str) -> (r: Option<&'a str>)
    ensures
        str_option(r) == json_view(*v).text_field(key@),
{
    match value_get(v, key) {
        Some(m) => value_as_str(m),
        None => None,
    }
}

/// The boolean member `key`, `false` where there is none.
pub fn flag_field(v: &serde_json::Value, key: &str) -> (r: bool)
    ensures
        r == (json_view(*v).field(key@) matches Some(m) && m.boolean() == Some(true)),
{
    match value_get(v, key) {
        Some(m) => match value_as_bool(m) {
            Some(b) => b,
            None => false,
        },
        None => false,
    }
}

/// An object under construction.
pub struct ObjectBuilder {
    map: serde_json::Map<String, serde_json::Value>,
}

impl View for ObjectBuilder {
    type V = Map<Seq<char>, JsonView>;

    closed spec fn view(&self) -> Map<Seq<char>, JsonView> {
        map_view(self.map)
    }
}

impl ObjectBuilder {
    /// No members yet.
    pub fn new() -> (r: ObjectBuilder)
        ensures
            r@ == no_members(),
    {
        ObjectBuilder { map: map_new() }
    }

    /// The members of `v`, none where it is no object.
    pub fn from_value(v: &serde_json::Value) -> (r: ObjectBuilder)
        ensures
            r@ == match json_view(*v) {
                JsonView::Object(m) => m,
                _ => no_members(),
            },
    {
        match value_object_members(v) {
            Some(map) => ObjectBuilder { map },
            None => ObjectBuilder { map: map_new() },
        }
    }

    /// The member `key` with the value `value`.
    pub fn put(self, key: &str, value: serde_json::Value) -> (r: ObjectBuilder)
        ensures
            r@ == self@.insert(key@, json_view(value)),
    {
        let mut map = self.map;
        map_insert(&mut map, key.to_owned(), value);
        ObjectBuilder { map }
    }

    /// The string member `key`.
    pub fn text(self, key: &str, value: &str) -> (r: ObjectBuilder)
        ensures
            r@ == self@.insert(key@, JsonView::Text(value@)),
    {
        self.put(key, value_string(value.to_owned()))
    }

    /// The boolean member `key`.
    pub fn flag(self, key: &str, value: bool) -> (r: ObjectBuilder)
        ensures
            r@ == self@.insert(key@, JsonView::Bool(value)),
    {
        self.put(key, value_bool(value))
    }

    /// The number member `key`.
    pub fn count(self, key: &str, value: u64) -> (r: ObjectBuilder)
        ensures
            r@ == self@.insert(key@, JsonView::Number(decimal(value as nat))),
    {
        self.put(key, value_number(value))
    }

    /// The object.
    pub fn finish(self) -> (r: serde_json::Value)
        ensures
            json_view(r) == JsonView::Object(self@),
    {
        value_object(self.map)
    }
}

/// An array of strings.
pub fn text_array(items: &[String]) -> (r: serde_json::Value)
    ensures
        json_view(r) == JsonView::Array(
            crate::text::views(items@).map_values(|s: Seq<char>| JsonView::Text(s)),
        ),
{
    let mut v: Vec<serde_json::Value> = Vec::new();
    let mut i: usize = 0;
    while i < items.len()
        invariant
            i <= items.len(),
            v.len() == i,
            forall|j: int| 0 <= j < i ==> json_view(#[trigger] v[j]) == JsonView::Text(items[j]@),
        decreases items.len() - i,
    {
        v.push(value_string(items[i].clone()));
        i += 1;
    }
    assert(json_views(v@) =~= crate::text::views(items@).map_values(
        |s: Seq<char>| JsonView::Text(s),
    ));
    value_array(v)
}

/// A request line that is no JSON.
#[derive(Debug)]
pub struct InvalidRequest {
    /// What the client is told.
    pub message: String,
}

/// Reads a request line: surrounding white space is ignored.
pub fn read_request(line: &str) -> (r: Result<serde_json::Value, InvalidRequest>)
    ensures
        match (r, json_parse(trimmed(line@))) {
            (Ok(v), Ok(j)) => json_view(v) == j,
            (Err(e), Err(m)) => e.message@ == "Invalid hook request: "@ + m,
            _ => false,
        },
{
    match value_from_str(trim(line)) {
        Ok(v) => Ok(v),
        Err(m) => Err(
            InvalidRequest { message: crate::text::concat2("Invalid hook request: ", m.as_str()) },
        ),
    }
}

/// A response line: the value's text and a line break.
pub fn response_line(v: &serde_json::Value) -> (r: String)
    ensures
        r@ == json_text(json_view(*v)) + "\n"@,
{
    let mut s = value_to_string(v);
    s.append("\n");
    s
}

} // verus!
