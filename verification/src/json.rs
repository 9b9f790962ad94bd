//! JSON values as `serde_json` holds them, and what a reader sees in one.
use serde_json::Value;
use vstd::prelude::*;

verus! {

/// What a JSON value says.
#[verifier::ext_equal]
pub enum Json {
    Null,
    Bool(bool),
    /// A number without a fraction, as far as 64 bits hold it.
    Int(int),
    /// Any other number: the bits of its IEEE 754 double.
    Real(u64),
    Text(Seq<char>),
    List(Seq<Json>),
    Object(Map<Seq<char>, Json>),
}

/// A JSON value of `serde_json`.
#[verifier::external_type_specification]
#[verifier::external_body]
pub struct ExValue(serde_json::Value);

/// The members of a JSON object of `serde_json`.
#[verifier::external_type_specification]
#[verifier::external_body]
#[verifier::reject_recursive_types(K)]
#[verifier::reject_recursive_types(V)]
pub struct ExMap<K, V>(serde_json::Map<K, V>);

/// What a value of `serde_json` says.
pub uninterp spec fn json_of(v: serde_json::Value) -> Json;

/// What the members of an object of `serde_json` say.
pub uninterp spec fn entries_of(m: serde_json::Map<String, serde_json::Value>) -> Map<Seq<char>, Json>;

/// What `serde_json::from_str` makes of a text: the value that it says, or the
/// message of its error.
pub uninterp spec fn parsed(text: Seq<char>) -> Result<Json, Seq<char>>;

/// How a value prints without white space.
pub uninterp spec fn compact_text(j: Json) -> Seq<char>;

/// No members.
pub open spec fn no_entries() -> Map<Seq<char>, Json> {
    Map::empty()
}

/// What each value of a list says.
pub open spec fn jsons(s: Seq<Value>) -> Seq<Json> {
    s.map_values(|v: Value| json_of(v))
}

/// What a value that may be missing says.
pub open spec fn seen(v: Option<&Value>) -> Option<Json> {
    match v {
        Some(x) => Some(json_of(*x)),
        None => None,
    }
}

/// The member of an object under a key.
pub open spec fn field_of(j: Json, key: Seq<char>) -> Option<Json> {
    match j {
        Json::Object(m) => if m.contains_key(key) {
            Some(m[key])
        } else {
            None
        },
        _ => None,
    }
}

/// The text that a value is.
pub open spec fn text_in(j: Option<Json>) -> Option<Seq<char>> {
    match j {
        Some(Json::Text(s)) => Some(s),
        _ => None,
    }
}

/// The truth value that a value is.
pub open spec fn bool_in(j: Option<Json>) -> Option<bool> {
    match j {
        Some(Json::Bool(b)) => Some(b),
        _ => None,
    }
}

/// The number that a value is, where it is a whole one in the range of `i64`.
pub open spec fn i64_in(j: Option<Json>) -> Option<i64> {
    match j {
        Some(Json::Int(n)) => if i64::MIN <= n <= i64::MAX {
            Some(n as i64)
        } else {
            None
        },
        _ => None,
    }
}

/// The number that a value is, where it is a whole one in the range of `u64`.
pub open spec fn u64_in(j: Option<Json>) -> Option<u64> {
    match j {
        Some(Json::Int(n)) => if 0 <= n <= u64::MAX {
            Some(n as u64)
        } else {
            None
        },
        _ => None,
    }
}

/// The list that a value is.
pub open spec fn list_in(j: Option<Json>) -> Option<Seq<Json>> {
    match j {
        Some(Json::List(s)) => Some(s),
        _ => None,
    }
}

/// `serde_json::from_str`, for any value: what it makes of a text depends on the
/// text alone. Which texts it takes, and what each of them says, is not stated.
#[verifier::external_body]
pub(crate) fn parse_value(text: &str) -> (r: Result<Value, String>)
    ensures
        match r {
            Ok(v) => parsed(text@) == Ok::<Json, Seq<char>>(json_of(v)),
            Err(m) => parsed(text@) == Err::<Json, Seq<char>>(m@),
        },
{
    serde_json::from_str(text).map_err(|e| e.to_string())
}

/// `Value::to_string`, through its `Display`: the text depends on what the value
/// says alone, and a line feed inside a string is escaped, so that the text is
/// one line.
#[verifier::external_body]
pub(crate) fn print_value(v: &Value) -> (r: String)
    ensures
        r@ == compact_text(json_of(*v)),
        !r@.contains('\n'),
{
    v.to_string()
}

/// `Value::get` with a key: the member of an object under that key, and nothing
/// of any other value.
#[verifier::external_body]
pub(crate) fn field<'a>(v: &'a Value, key: &str) -> (r: Option<&'a Value>)
    ensures
        seen(r) == field_of(json_of(*v), key@),
{
    v.get(key)
}

/// `Value::as_str`: the text of a string, and nothing of any other value.
pub assume_specification[ Value::as_str ](v: &Value) -> (r: Option<&str>)
    ensures
        match json_of(*v) {
            Json::Text(s) => r matches Some(t) && t@ == s,
            _ => r is None,
        },
;

/// `Value::as_bool`: a truth value, and nothing of any other value.
pub assume_specification[ Value::as_bool ](v: &Value) -> (r: Option<bool>)
    ensures
        r == bool_in(Some(json_of(*v))),
;

/// `Value::as_i64`: a whole number in the range of `i64`, and nothing of any
/// other value.
pub assume_specification[ Value::as_i64 ](v: &Value) -> (r: Option<i64>)
    ensures
        r == i64_in(Some(json_of(*v))),
;

/// `Value::as_u64`: a whole number in the range of `u64`, and nothing of any
/// other value.
pub assume_specification[ Value::as_u64 ](v: &Value) -> (r: Option<u64>)
    ensures
        r == u64_in(Some(json_of(*v))),
;

/// `Value::as_array`: the values of a list, and nothing of any other value.
pub assume_specification[ Value::as_array ](v: &Value) -> (r: Option<&Vec<Value>>)
    ensures
        match json_of(*v) {
            Json::List(s) => r matches Some(t) && jsons(t@) == s,
            _ => r is None,
        },
;

/// `Value::is_null`: whether the value is null.
pub assume_specification[ Value::is_null ](v: &Value) -> (r: bool)
    ensures
        r == (json_of(*v) is Null),
;

/// `Value::as_object_mut`: the members of an object, to be changed in place, and
/// nothing of any other value.
pub assume_specification[ Value::as_object_mut ](v: &mut Value) -> (r: Option<&mut serde_json::Map<String, Value>>)
    ensures
        match json_of(*old(v)) {
            Json::Object(m) => r matches Some(t) && entries_of(*t) == m && json_of(*final(v)) == Json::Object(
                entries_of(*final(t)),
            ),
            _ => r is None && *final(v) == *old(v),
        },
;

/// `Value::clone`: a value that says the same.
pub assume_specification[ <Value as Clone>::clone ](v: &Value) -> (r: Value)
    ensures
        json_of(r) == json_of(*v),
;

/// `Map::new`: no members.
pub assume_specification[ serde_json::Map::<String, Value>::new ]() -> (m: serde_json::Map<String, Value>)
    ensures
        entries_of(m) == no_entries(),
;

/// `Map::insert`: the value is the member under the key.
pub assume_specification[ serde_json::Map::<String, Value>::insert ](
    m: &mut serde_json::Map<String, Value>,
    k: String,
    v: Value,
) -> (r: Option<Value>)
    ensures
        entries_of(*final(m)) == entries_of(*old(m)).insert(k@, json_of(v)),
;

/// `Value::Null`.
#[verifier::external_body]
pub(crate) fn null() -> (r: Value)
    ensures
        json_of(r) == Json::Null,
{
    Value::Null
}

/// `Value::from` of a truth value.
#[verifier::external_body]
pub(crate) fn boolean(b: bool) -> (r: Value)
    ensures
        json_of(r) == Json::Bool(b),
{
    Value::from(b)
}

/// `Value::from` of a signed number.
#[verifier::external_body]
pub(crate) fn signed(n: i64) -> (r: Value)
    ensures
        json_of(r) == Json::Int(n as int),
{
    Value::from(n)
}

/// `Value::from` of an unsigned number.
#[verifier::external_body]
pub(crate) fn unsigned(n: u64) -> (r: Value)
    ensures
        json_of(r) == Json::Int(n as int),
{
    Value::from(n)
}

/// `Value::from` of a text.
#[verifier::external_body]
pub(crate) fn string(s: &str) -> (r: Value)
    ensures
        json_of(r) == Json::Text(s@),
{
    Value::from(s)
}

/// `Value::Array` of a list of values.
#[verifier::external_body]
pub(crate) fn list(v: Vec<Value>) -> (r: Value)
    ensures
        json_of(r) == Json::List(jsons(v@)),
{
    Value::Array(v)
}

/// `Value::Object` of members.
#[verifier::external_body]
pub(crate) fn object(m: serde_json::Map<String, Value>) -> (r: Value)
    ensures
        json_of(r) == Json::Object(entries_of(m)),
{
    Value::Object(m)
}

/// An object in the making.
pub struct Fields {
    members: serde_json::Map<String, Value>,
}

impl View for Fields {
    type V = Map<Seq<char>, Json>;

    closed spec fn view(&self) -> Map<Seq<char>, Json> {
        entries_of(self.members)
    }
}

impl Fields {
    /// No members.
    pub fn new() -> (r: Self)
        ensures
            r@ == no_entries(),
    {
        Fields { members: serde_json::Map::new() }
    }

    /// Make `v` the member under `key`.
    pub fn put(self, key: &str, v: Value) -> (r: Self)
        ensures
            r@ == self@.insert(key@, json_of(v)),
    {
        let mut members = self.members;
        members.insert(key.to_string(), v);
        Fields { members }
    }

    /// Make a text the member under `key`.
    pub fn text(self, key: &str, s: &str) -> (r: Self)
        ensures
            r@ == self@.insert(key@, Json::Text(s@)),
    {
        self.put(key, string(s))
    }

    /// Make a number the member under `key`.
    pub fn number(self, key: &str, n: i64) -> (r: Self)
        ensures
            r@ == self@.insert(key@, Json::Int(n as int)),
    {
        self.put(key, signed(n))
    }

    /// Make a truth value the member under `key`.
    pub fn flag(self, key: &str, b: bool) -> (r: Self)
        ensures
            r@ == self@.insert(key@, Json::Bool(b)),
    {
        self.put(key, boolean(b))
    }

    /// The object with these members.
    pub fn object(self) -> (r: Value)
        ensures
            json_of(r) == Json::Object(self@),
    {
        object(self.members)
    }
}

/// The text in the member of an object under a key.
pub(crate) fn text_field<'a>(v: &'a Value, key: &str) -> (r: Option<&'a str>)
    ensures
        match text_in(field_of(json_of(*v), key@)) {
            Some(s) => r matches Some(t) && t@ == s,
            None => r is None,
        },
{
    match field(v, key) {
        Some(x) => x.as_str(),
        None => None,
    }
}

/// The text in the member of an object under a key, or else another text.
pub(crate) fn text_or(v: &Value, key: &str, other: &str) -> (r: String)
    ensures
        r@ == (match text_in(field_of(json_of(*v), key@)) {
            Some(s) => s,
            None => other@,
        }),
{
    match text_field(v, key) {
        Some(s) => s.to_string(),
        None => other.to_string(),
    }
}

/// The number in the member of an object under a key.
pub(crate) fn i64_field(v: &Value, key: &str) -> (r: Option<i64>)
    ensures
        r == i64_in(field_of(json_of(*v), key@)),
{
    match field(v, key) {
        Some(x) => x.as_i64(),
        None => None,
    }
}

/// The number in the member of an object under a key.
pub(crate) fn u64_field(v: &Value, key: &str) -> (r: Option<u64>)
    ensures
        r == u64_in(field_of(json_of(*v), key@)),
{
    match field(v, key) {
        Some(x) => x.as_u64(),
        None => None,
    }
}

/// The truth value in the member of an object under a key.
pub(crate) fn bool_field(v: &Value, key: &str) -> (r: Option<bool>)
    ensures
        r == bool_in(field_of(json_of(*v), key@)),
{
    match field(v, key) {
        Some(x) => x.as_bool(),
        None => None,
    }
}

/// What an option says, or else another value.
pub open spec fn or<T>(o: Option<T>, other: T) -> T {
    match o {
        Some(x) => x,
        None => other,
    }
}

/// A value is read as what it is and as nothing else: a text as a text, a truth
/// value as one, a list as one, and a whole number as a number where it fits.
pub proof fn law_values_are_read_as_they_are(s: Seq<char>, b: bool, n: int, list: Seq<Json>, m: Map<Seq<char>, Json>)
    ensures
        text_in(Some(Json::Text(s))) == Some(s),
        bool_in(Some(Json::Bool(b))) == Some(b),
        list_in(Some(Json::List(list))) == Some(list),
        i64::MIN <= n <= i64::MAX ==> (i64_in(Some(Json::Int(n))) matches Some(k) && k == n),
        0 <= n <= u64::MAX ==> (u64_in(Some(Json::Int(n))) matches Some(k) && k == n),
        !(i64::MIN <= n <= i64::MAX) ==> i64_in(Some(Json::Int(n))) is None,
        !(0 <= n <= u64::MAX) ==> u64_in(Some(Json::Int(n))) is None,
        text_in(None) is None && bool_in(None) is None && list_in(None) is None && i64_in(None) is None && u64_in(None)
            is None,
        text_in(Some(Json::Int(n))) is None && text_in(Some(Json::Bool(b))) is None && text_in(Some(Json::List(list)))
            is None && text_in(Some(Json::Null)) is None,
        bool_in(Some(Json::Int(n))) is None && bool_in(Some(Json::Text(s))) is None && bool_in(Some(Json::Null)) is None,
        i64_in(Some(Json::Text(s))) is None && u64_in(Some(Json::Text(s))) is None && i64_in(Some(Json::Bool(b))) is None,
        list_in(Some(Json::Text(s))) is None && list_in(Some(Json::Object(m))) is None,
{
}

/// A member is found under its own key; one that was put there last is the one
/// that is found; and what is no object has none.
pub proof fn law_members_are_found(m: Map<Seq<char>, Json>, key: Seq<char>, other: Seq<char>, v: Json, j: Json)
    ensures
        field_of(Json::Object(m.insert(key, v)), key) == Some(v),
        other != key ==> field_of(Json::Object(m.insert(key, v)), other) == field_of(Json::Object(m), other),
        field_of(Json::Object(no_entries()), key) is None,
        !(j is Object) ==> field_of(j, key) is None,
{
}

} // verus!
