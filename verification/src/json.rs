//! JSON values.

use vstd::prelude::*;

use crate::text::{opt_view, put2, same};

verus! {

/// A JSON value. A number that is no natural number of 64 bits is kept as
/// its text.
#[derive(Debug, PartialEq, Eq)]
pub enum Json {
    Null,
    Bool(bool),
    Unsigned(u64),
    OtherNumber(String),
    Text(String),
    Array(Vec<Json>),
    /// The members, in order.
    Object(Vec<(String, Json)>),
}

/// What a JSON value is, apart from how it is stored.
pub ghost enum JsonView {
    Null,
    Bool(bool),
    Unsigned(u64),
    OtherNumber(Seq<char>),
    Text(Seq<char>),
    Array(Seq<JsonView>),
    Object(Map<Seq<char>, JsonView>),
}

pub open spec fn json_view(j: Json) -> JsonView
    decreases j,
{
    match j {
        Json::Null => JsonView::Null,
        Json::Bool(b) => JsonView::Bool(b),
        Json::Unsigned(n) => JsonView::Unsigned(n),
        Json::OtherNumber(s) => JsonView::OtherNumber(s@),
        Json::Text(s) => JsonView::Text(s@),
        Json::Array(v) => JsonView::Array(items_view(v@, v@.len())),
        Json::Object(v) => JsonView::Object(members_view(v@, v@.len())),
    }
}

/// The first `n` items of an array.
pub open spec fn items_view(v: Seq<Json>, n: nat) -> Seq<JsonView>
    decreases v, n,
{
    if n == 0 || n > v.len() {
        Seq::empty()
    } else {
        items_view(v, (n - 1) as nat).push(json_view(v[n - 1]))
    }
}

/// The first `n` members of an object: of two with one name the later one
/// counts.
pub open spec fn members_view(v: Seq<(String, Json)>, n: nat) -> Map<Seq<char>, JsonView>
    decreases v, n,
{
    if n == 0 || n > v.len() {
        Map::empty()
    } else {
        members_view(v, (n - 1) as nat).insert(v[n - 1].0@, json_view(v[n - 1].1))
    }
}

impl View for Json {
    type V = JsonView;

    open spec fn view(&self) -> JsonView {
        json_view(*self)
    }
}

/// The member of a value with the given name; `None` where the value is
/// no object or has no such member.
pub open spec fn member(j: JsonView, key: Seq<char>) -> Option<JsonView> {
    match j {
        JsonView::Object(m) => if m.contains_key(key) {
            Some(m[key])
        } else {
            None
        },
        _ => None,
    }
}

/// The text of a value that is one.
pub open spec fn text_of(j: JsonView) -> Option<Seq<char>> {
    match j {
        JsonView::Text(s) => Some(s),
        _ => None,
    }
}

/// The text of the member with the given name.
pub open spec fn member_text(j: JsonView, key: Seq<char>) -> Option<Seq<char>> {
    match member(j, key) {
        Some(m) => text_of(m),
        None => None,
    }
}

/// The items of a value: none where it is no array.
pub open spec fn items_of(j: JsonView) -> Seq<JsonView> {
    match j {
        JsonView::Array(v) => v,
        _ => Seq::empty(),
    }
}

/// The items of the member with the given name.
pub open spec fn member_items(j: JsonView, key: Seq<char>) -> Seq<JsonView> {
    match member(j, key) {
        Some(m) => items_of(m),
        None => Seq::empty(),
    }
}

/// The natural number that the member with the given name is.
pub open spec fn member_number(j: JsonView, key: Seq<char>) -> Option<u64> {
    match member(j, key) {
        Some(JsonView::Unsigned(n)) => Some(n),
        _ => None,
    }
}

/// Each item of an array is the one stored.
pub proof fn lemma_items_view(v: Seq<Json>, n: nat)
    requires
        n <= v.len(),
    ensures
        items_view(v, n).len() == n,
        forall|i: int| 0 <= i < n ==> #[trigger] items_view(v, n)[i] == v[i]@,
    decreases n,
{
    if n > 0 {
        lemma_items_view(v, (n - 1) as nat);
        assert forall|i: int| 0 <= i < n implies #[trigger] items_view(v, n)[i] == v[i]@ by {
            if i < n - 1 {
                assert(items_view(v, (n - 1) as nat)[i] == v[i]@);
            }
        }
    }
}

pub open spec fn opt_json(o: Option<&Json>) -> Option<JsonView> {
    match o {
        Some(j) => Some(j@),
        None => None,
    }
}

impl Json {
    /// The member with the given name.
    pub fn get(&self, key: &str) -> (r: Option<&Json>)
        ensures
            opt_json(r) == member(self@, key@),
    {
        match self {
            Json::Object(v) => {
                let ghost all = members_view(v@, v@.len());
                let mut n: usize = v.len();
                while n > 0
                    invariant
                        all == members_view(v@, v@.len()),
                        n <= v@.len(),
                        all.contains_key(key@) == members_view(v@, n as nat).contains_key(key@),
                        all.contains_key(key@) ==> all[key@] == members_view(v@, n as nat)[key@],
                        self@ == JsonView::Object(all),
                    decreases n,
                {
                    if same(v[n - 1].0.as_str(), key) {
                        return Some(&v[n - 1].1);
                    }
                    n -= 1;
                }
                None
            },
            _ => None,
        }
    }

    /// The text that the value is.
    pub fn as_str(&self) -> (r: Option<&str>)
        ensures
            opt_view(r) == text_of(self@),
    {
        match self {
            Json::Text(s) => Some(s.as_str()),
            _ => None,
        }
    }

    /// The truth value that the value is.
    pub fn as_bool(&self) -> (r: Option<bool>)
        ensures
            r == match self@ {
                JsonView::Bool(b) => Some(b),
                _ => None,
            },
    {
        match self {
            Json::Bool(b) => Some(*b),
            _ => None,
        }
    }

    /// The natural number that the value is.
    pub fn as_u64(&self) -> (r: Option<u64>)
        ensures
            r == match self@ {
                JsonView::Unsigned(n) => Some(n),
                _ => None,
            },
    {
        match self {
            Json::Unsigned(n) => Some(*n),
            _ => None,
        }
    }

    /// The array that the value is.
    pub fn as_array(&self) -> (r: Option<&Vec<Json>>)
        ensures
            match r {
                Some(v) => self@ == JsonView::Array(items_view(v@, v@.len())),
                None => !(self@ is Array),
            },
    {
        match self {
            Json::Array(v) => Some(v),
            _ => None,
        }
    }

    /// The text of the member with the given name.
    pub fn get_str(&self, key: &str) -> (r: Option<&str>)
        ensures
            opt_view(r) == member_text(self@, key@),
    {
        match self.get(key) {
            Some(j) => j.as_str(),
            None => None,
        }
    }

    /// The natural number that the member with the given name is.
    pub fn get_u64(&self, key: &str) -> (r: Option<u64>)
        ensures
            r == member_number(self@, key@),
    {
        match self.get(key) {
            Some(j) => j.as_u64(),
            None => None,
        }
    }

    /// The array that the member with the given name is.
    pub fn get_array(&self, key: &str) -> (r: Option<&Vec<Json>>)
        ensures
            match r {
                Some(v) => member(self@, key@) == Some(
                    JsonView::Array(items_view(v@, v@.len())),
                ) && member_items(self@, key@) == items_view(v@, v@.len()),
                None => member_items(self@, key@).len() == 0 && !(member(self@, key@) matches Some(
                    JsonView::Array(_),
                )),
            },
    {
        match self.get(key) {
            Some(j) => j.as_array(),
            None => None,
        }
    }
}

/// Why a document cannot be read.
#[derive(Debug, Clone, Copy, PartialEq, Eq, Structural)]
pub enum JsonError {
    /// The text is no JSON document.
    Malformed,
}

#[verifier::external_type_specification]
#[verifier::external_body]
pub struct ExSerdeError(serde_json::Error);

#[verifier::external_type_specification]
#[verifier::external_body]
pub struct ExSerdeValue(serde_json::Value);

/// The document that `serde_json::from_str` reads from a text; `None`
/// where it fails.
pub uninterp spec fn json_document(text: Seq<char>) -> Option<JsonView>;

/// What a value of `serde_json` holds.
pub uninterp spec fn json_held(v: serde_json::Value) -> JsonView;

/// `serde_json::from_str`: what the document holds is named, since the
/// text fixes it.
#[verifier::external_body]
fn read_document(text: &str) -> (r: Result<serde_json::Value, serde_json::Error>)
    ensures
        match r {
            Ok(v) => json_document(text@) == Some(json_held(v)),
            Err(_) => json_document(text@) is None,
        },
{
    serde_json::from_str(text)
}

/// The value of `serde_json` as one of this library, variant by variant: a
/// number that `serde_json::Number::as_u64` does not give by the text that
/// it is written with.
#[verifier::external_body]
fn json_from(v: serde_json::Value) -> (r: Json)
    ensures
        r@ == json_held(v),
{
    match v {
        serde_json::Value::Null => Json::Null,
        serde_json::Value::Bool(b) => Json::Bool(b),
        serde_json::Value::Number(n) => n.as_u64().map_or_else(
            || Json::OtherNumber(n.to_string()),
            Json::Unsigned,
        ),
        serde_json::Value::String(s) => Json::Text(s),
        serde_json::Value::Array(a) => Json::Array(a.into_iter().map(json_from).collect()),
        serde_json::Value::Object(m) => Json::Object(
            m.into_iter().map(|(k, x)| (k, json_from(x))).collect(),
        ),
    }
}

/// What each of the values holds.
pub open spec fn all_held(v: Seq<serde_json::Value>) -> Seq<JsonView> {
    Seq::new(v.len(), |i: int| json_held(v[i]))
}

/// Has no name more than one member?
pub open spec fn names_distinct(v: Seq<(String, serde_json::Value)>) -> bool {
    forall|i: int, j: int|
        0 <= i < j < v.len() ==> (#[trigger] v[i]).0@ != (#[trigger] v[j]).0@
}

/// What the first `n` members hold.
pub open spec fn members_held(v: Seq<(String, serde_json::Value)>, n: nat) -> Map<
    Seq<char>,
    JsonView,
>
    decreases n,
{
    if n == 0 || n > v.len() {
        Map::empty()
    } else {
        members_held(v, (n - 1) as nat).insert(v[n - 1].0@, json_held(v[n - 1].1))
    }
}

/// `serde_json::Value::Null`: the value that is nothing.
#[verifier::external_body]
pub(crate) fn null_value() -> (r: serde_json::Value)
    ensures
        json_held(r) == JsonView::Null,
{
    serde_json::Value::Null
}

/// `serde_json::Value::from` for a natural number: the value is that
/// number.
#[verifier::external_body]
pub(crate) fn number_value(n: u64) -> (r: serde_json::Value)
    ensures
        json_held(r) == JsonView::Unsigned(n),
{
    serde_json::Value::from(n)
}

/// `serde_json::Value::String`: the value is that text.
#[verifier::external_body]
pub(crate) fn text_value(s: String) -> (r: serde_json::Value)
    ensures
        json_held(r) == JsonView::Text(s@),
{
    serde_json::Value::String(s)
}

/// `serde_json::Value::Array`: the value has those items, in order.
#[verifier::external_body]
pub(crate) fn array_value(items: Vec<serde_json::Value>) -> (r: serde_json::Value)
    ensures
        json_held(r) == JsonView::Array(all_held(items@)),
{
    serde_json::Value::Array(items)
}

/// `serde_json::Value::Object`, collected from pairs with distinct names:
/// the value has those members.
#[verifier::external_body]
pub(crate) fn object_value(members: Vec<(String, serde_json::Value)>) -> (r: serde_json::Value)
    requires
        names_distinct(members@),
    ensures
        json_held(r) == JsonView::Object(members_held(members@, members@.len())),
{
    serde_json::Value::Object(members.into_iter().collect())
}

/// The text that `serde_json::to_string_pretty` writes for a value.
pub uninterp spec fn pretty_text(j: JsonView) -> Seq<char>;

/// `serde_json::to_string_pretty`: the text is named, since what a value
/// holds fixes it. A value has text as names only and is written into
/// memory, so that writing does not fail.
#[verifier::external_body]
fn write_pretty(v: &serde_json::Value) -> (r: Result<String, serde_json::Error>)
    ensures
        r is Ok,
        r->Ok_0@ == pretty_text(json_held(*v)),
{
    serde_json::to_string_pretty(v)
}

/// Writes a JSON document, on several lines and with a line feed at the
/// end.
pub(crate) fn to_pretty(v: &serde_json::Value) -> (r: String)
    ensures
        r@ == pretty_text(json_held(*v)) + "\n"@,
{
    let mut r = String::new();
    if let Ok(s) = write_pretty(v) {
        put2(&mut r, s.as_str(), "\n");
    }
    r
}

/// Reads a JSON document.
pub fn parse_json(text: &str) -> (r: Result<Json, JsonError>)
    ensures
        match r {
            Ok(j) => json_document(text@) == Some(j@),
            Err(e) => json_document(text@) is None && e == JsonError::Malformed,
        },
{
    match read_document(text) {
        Ok(v) => Ok(json_from(v)),
        Err(_) => Err(JsonError::Malformed),
    }
}

} // verus!
