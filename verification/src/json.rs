//! JSON documents as the library reads them.
use vstd::prelude::*;
use crate::text::str_eq;
use serde_json::Value;

verus! {

/// A JSON number as `serde_json` holds it: a non-negative integer, a negative integer, or a
/// floating-point number, of which the decimal text is kept.
#[derive(Debug)]
pub enum JsonNumber {
    PosInt(u64),
    NegInt(i64),
    Float(String),
}

/// A JSON value, or a value of a TOML document read in the same terms. An object lists its
/// members in the order of the map it was read into; its keys are looked up from the first
/// member on. A TOML date-time, which JSON does not have, is kept apart as its text: it is no
/// string and no table.
#[derive(Debug)]
pub enum Json {
    Null,
    Bool(bool),
    Number(JsonNumber),
    String(String),
    Array(Vec<Json>),
    Object(Vec<(String, Json)>),
    Datetime(String),
}

/// The value of the first member of `members` named `key`.
pub open spec fn member(members: Seq<(String, Json)>, key: Seq<char>) -> Option<Json>
    decreases members.len(),
{
    if members.len() == 0 {
        None
    } else if members[0].0@ == key {
        Some(members[0].1)
    } else {
        member(members.drop_first(), key)
    }
}

/// The value of the member `key` of the object `members`, as a reference.
pub fn object_get<'a>(members: &'a Vec<(String, Json)>, key: &str) -> (r: Option<&'a Json>)
    ensures
        match r {
            Some(v) => member(members@, key@) == Some(*v),
            None => member(members@, key@) is None,
        },
{
    match member_index(members, key) {
        Some(i) => Some(&members[i].1),
        None => None,
    }
}

/// The position of the first member of `members` named `key`.
pub fn member_index(members: &Vec<(String, Json)>, key: &str) -> (r: Option<usize>)
    ensures
        match r {
            Some(i) => i < members@.len() && members@[i as int].0@ == key@ && member(members@, key@) == Some(members@[i as int].1),
            None => member(members@, key@) is None,
        },
{
    let mut i: usize = 0;
    assert(members@.subrange(0, members@.len() as int) =~= members@);
    while i < members.len()
        invariant
            i <= members@.len(),
            member(members@, key@) == member(members@.subrange(i as int, members@.len() as int), key@),
        decreases members@.len() - i,
    {
        let ghost rest = members@.subrange(i as int, members@.len() as int);
        if str_eq(members[i].0.as_str(), key) {
            return Some(i);
        }
        assert(rest.drop_first() =~= members@.subrange(i + 1, members@.len() as int));
        i = i + 1;
    }
    None
}

/// Whether no two of `members` have the same name.
pub open spec fn distinct_names(members: Seq<(String, Json)>) -> bool {
    forall|i: int, j: int| 0 <= i < j < members.len() ==> #[trigger] members[i].0@ != #[trigger] members[j].0@
}

impl Json {
    /// Whether no object within this value, this value included, has two members of one name,
    /// as in the maps that `serde_json` and `toml` read objects and tables into.
    pub open spec fn names_distinct(self) -> bool
        decreases self,
    {
        match self {
            Json::Array(a) => forall|i: int| 0 <= i < a@.len() ==> (#[trigger] a@[i]).names_distinct(),
            Json::Object(m) => distinct_names(m@) && forall|i: int| 0 <= i < m@.len() ==> (#[trigger] m@[i]).1.names_distinct(),
            _ => true,
        }
    }

    /// The value of the member `key` when this is an object that has one.
    pub open spec fn get_spec(self, key: Seq<char>) -> Option<Json> {
        match self {
            Json::Object(m) => member(m@, key),
            _ => None,
        }
    }

    /// The text of this value when it is a string.
    pub open spec fn str_spec(self) -> Option<Seq<char>> {
        match self {
            Json::String(s) => Some(s@),
            _ => None,
        }
    }

    /// The elements of this value when it is an array.
    pub open spec fn array_spec(self) -> Option<Seq<Json>> {
        match self {
            Json::Array(a) => Some(a@),
            _ => None,
        }
    }

    /// The members of this value when it is an object.
    pub open spec fn object_spec(self) -> Option<Seq<(String, Json)>> {
        match self {
            Json::Object(m) => Some(m@),
            _ => None,
        }
    }

    /// This value as an `i64`, when it is an integer that fits, as `serde_json::Value::as_i64`
    /// gives it.
    pub open spec fn i64_spec(self) -> Option<i64> {
        match self {
            Json::Number(JsonNumber::PosInt(n)) => if n <= i64::MAX {
                Some(n as i64)
            } else {
                None
            },
            Json::Number(JsonNumber::NegInt(n)) => Some(n),
            _ => None,
        }
    }

    /// The value of the member `key`, as `serde_json::Value::get` gives it.
    pub fn get(&self, key: &str) -> (r: Option<&Json>)
        ensures
            match r {
                Some(v) => self.get_spec(key@) == Some(*v),
                None => self.get_spec(key@) is None,
            },
    {
        match self {
            Json::Object(m) => object_get(m, key),
            _ => None,
        }
    }

    /// The text of this value if it is a string.
    pub fn as_str(&self) -> (r: Option<&String>)
        ensures
            match r {
                Some(s) => self.str_spec() == Some(s@),
                None => self.str_spec() is None,
            },
    {
        match self {
            Json::String(s) => Some(s),
            _ => None,
        }
    }

    /// The elements of this value if it is an array.
    pub fn as_array(&self) -> (r: Option<&Vec<Json>>)
        ensures
            match r {
                Some(a) => self.array_spec() == Some(a@),
                None => self.array_spec() is None,
            },
    {
        match self {
            Json::Array(a) => Some(a),
            _ => None,
        }
    }

    /// The members of this value if it is an object.
    pub fn as_object(&self) -> (r: Option<&Vec<(String, Json)>>)
        ensures
            match r {
                Some(m) => self.object_spec() == Some(m@),
                None => self.object_spec() is None,
            },
    {
        match self {
            Json::Object(m) => Some(m),
            _ => None,
        }
    }

    /// This value as an `i64` if it is an integer that fits in one.
    pub fn as_i64(&self) -> (r: Option<i64>)
        ensures
            r == self.i64_spec(),
    {
        match self {
            Json::Number(JsonNumber::PosInt(n)) => if *n <= 0x7fff_ffff_ffff_ffffu64 {
                Some(*n as i64)
            } else {
                None
            },
            Json::Number(JsonNumber::NegInt(n)) => Some(*n),
            _ => None,
        }
    }
}

/// The value type of `serde_json`, carried between the parser and the conversions below.
#[verifier::external_type_specification]
#[verifier::external_body]
pub struct ExJsonValue(serde_json::Value);

/// The value type of `toml`, carried between the parser and the conversion below.
#[verifier::external_type_specification]
#[verifier::external_body]
pub struct ExTomlValue(toml::Value);

/// Converts a `serde_json::Value` into the library's JSON, member for member; a number stays the
/// kind of number (non-negative, negative or floating-point) that `serde_json` holds it as.
#[verifier::external_body]
fn json_of_value(v: serde_json::Value) -> Json {
    match v {
        serde_json::Value::Null => Json::Null,
        serde_json::Value::Bool(b) => Json::Bool(b),
        serde_json::Value::Number(n) => Json::Number(match (n.as_u64(), n.as_i64()) {
            (Some(u), _) => JsonNumber::PosInt(u),
            (None, Some(i)) => JsonNumber::NegInt(i),
            (None, None) => JsonNumber::Float(n.to_string()),
        }),
        serde_json::Value::String(s) => Json::String(s),
        serde_json::Value::Array(a) => Json::Array(a.into_iter().map(json_of_value).collect()),
        serde_json::Value::Object(m) => Json::Object(m.into_iter().map(|(k, x)| (k, json_of_value(x))).collect()),
    }
}

/// Converts the library's JSON into a `serde_json::Value`, member for member; a floating-point
/// number is read back from its text, and a TOML date-time is written as its text.
#[verifier::external_body]
fn value_of_json(v: &Json) -> serde_json::Value {
    match v {
        Json::Null => Value::Null,
        Json::Bool(b) => Value::Bool(*b),
        Json::Number(JsonNumber::PosInt(u)) => Value::from(*u),
        Json::Number(JsonNumber::NegInt(i)) => Value::from(*i),
        Json::Number(JsonNumber::Float(t)) => serde_json::from_str(t).unwrap_or_default(),
        Json::String(s) | Json::Datetime(s) => Value::String(s.clone()),
        Json::Array(a) => Value::Array(a.iter().map(value_of_json).collect()),
        Json::Object(m) => Value::Object(m.iter().map(|(k, x)| (k.clone(), value_of_json(x))).collect()),
    }
}

/// Converts a `toml::Value` into the library's JSON: a table as an object, an integer as a
/// number, a date-time as a date-time of its text.
#[verifier::external_body]
fn json_of_toml(v: toml::Value) -> Json {
    match v {
        toml::Value::String(s) => Json::String(s),
        toml::Value::Integer(i) => json_of_value(serde_json::Value::from(i)),
        toml::Value::Float(x) => Json::Number(JsonNumber::Float(x.to_string())),
        toml::Value::Boolean(b) => Json::Bool(b),
        toml::Value::Datetime(d) => Json::Datetime(d.to_string()),
        toml::Value::Array(a) => Json::Array(a.into_iter().map(json_of_toml).collect()),
        toml::Value::Table(t) => Json::Object(t.into_iter().map(|(k, x)| (k, json_of_toml(x))).collect()),
    }
}

/// Names what `serde_json::from_str::<serde_json::Value>(text)` gives: the value that `text`
/// spells, or the text of the error that says why it spells none.
pub uninterp spec fn json_parse(text: Seq<char>) -> Result<Json, Seq<char>>;

/// Calls `serde_json::from_str` to read `text` as one JSON value, with nothing after it but
/// white space. The objects of the value have members of distinct names, as `serde_json`'s
/// maps do.
#[verifier::external_body]
pub(crate) fn parse_json(text: &str) -> (r: Result<Json, String>)
    ensures
        match json_parse(text@) {
            Ok(j) => r matches Ok(x) && x == j,
            Err(m) => r matches Err(x) && x@ == m,
        },
        r matches Ok(x) ==> x.names_distinct(),
{
    serde_json::from_str::<serde_json::Value>(text).map(json_of_value).map_err(|e| e.to_string())
}

/// Names what `serde_json_path_to_error::from_str::<serde_json::Value>(text)` gives: the value
/// that `text` begins with, or the text of the error, which names where in the document it
/// arose.
pub uninterp spec fn json_path_parse(text: Seq<char>) -> Result<Json, Seq<char>>;

/// Calls `serde_json_path_to_error::from_str` to read the JSON value at the start of `text`.
/// The objects of the value have members of distinct names, as `serde_json`'s maps do.
#[verifier::external_body]
pub(crate) fn parse_json_with_path(text: &str) -> (r: Result<Json, String>)
    ensures
        match json_path_parse(text@) {
            Ok(j) => r matches Ok(x) && x == j,
            Err(m) => r matches Err(x) && x@ == m,
        },
        r matches Ok(x) ==> x.names_distinct(),
{
    serde_json_path_to_error::from_str::<serde_json::Value>(text).map(json_of_value).map_err(|e| e.to_string())
}

/// Names what `toml::de::from_str::<toml::Table>(text)` gives: the table that `text` spells, as
/// an object, or the text of the error.
pub uninterp spec fn toml_parse(text: Seq<char>) -> Result<Json, Seq<char>>;

/// Calls `toml::de::from_str` to read `text` as a TOML table. The result is an object, and
/// no table within it has two entries of one name, as in `toml`'s maps.
#[verifier::external_body]
pub(crate) fn parse_toml(text: &str) -> (r: Result<Json, String>)
    ensures
        match toml_parse(text@) {
            Ok(j) => r matches Ok(x) && x == j,
            Err(m) => r matches Err(x) && x@ == m,
        },
        r matches Ok(x) ==> x.names_distinct() && x is Object,
{
    toml::de::from_str::<toml::Table>(text).map(|t| json_of_toml(toml::Value::Table(t))).map_err(|e| e.to_string())
}

/// Names the text that `serde_json` writes for the value `v` by `Display`: compact JSON.
pub uninterp spec fn json_display(v: Json) -> Seq<char>;

/// Writes `v` as `serde_json::Value`'s `Display` does.
#[verifier::external_body]
pub(crate) fn json_text(v: &Json) -> (r: String)
    ensures
        r@ == json_display(*v),
{
    value_of_json(v).to_string()
}

/// Names the text that `serde_json` writes for the value `v` by `Debug` (as in `String("x")`).
pub uninterp spec fn json_debug(v: Json) -> Seq<char>;

/// Writes `v` as `serde_json::Value`'s `Debug` does.
#[verifier::external_body]
pub(crate) fn json_debug_text(v: &Json) -> (r: String)
    ensures
        r@ == json_debug(*v),
{
    format!("{:?}", value_of_json(v))
}

/// Names the text that `serde_json` writes for the value `v` by the alternate form of `Debug`,
/// one member or element to a line.
pub uninterp spec fn json_pretty_debug(v: Json) -> Seq<char>;

/// Writes `v` as `serde_json::Value`'s alternate `Debug` does.
#[verifier::external_body]
pub(crate) fn json_pretty_debug_text(v: &Json) -> (r: String)
    ensures
        r@ == json_pretty_debug(*v),
{
    format!("{:#?}", value_of_json(v))
}

/// Names the text that `serde_json` writes for an object's map of `members` by `Debug` (as in
/// `{"a": Bool(true)}`).
pub uninterp spec fn json_members_debug(members: Seq<(String, Json)>) -> Seq<char>;

/// Writes the members of an object as `serde_json::Map`'s `Debug` does.
#[verifier::external_body]
pub(crate) fn json_members_debug_text(members: &Vec<(String, Json)>) -> (r: String)
    ensures
        r@ == json_members_debug(members@),
{
    let map: serde_json::Map<String, serde_json::Value> = members.iter().map(|(k, x)| (k.clone(), value_of_json(x))).collect();
    format!("{:?}", map)
}

} // verus!
