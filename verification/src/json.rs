//! JSON values.
use crate::text::chars;
use crate::text::chars::own;
use crate::text::number;
use crate::text::number::{format_i64, format_u64, format_usize};
use vstd::prelude::*;

verus! {

/// A JSON value. The fields of an object keep their order.
#[derive(Debug)]
pub enum Json {
    Null,
    Bool(bool),
    /// A number as it is written.
    Number(String),
    Text(String),
    List(Vec<Json>),
    Object(Vec<(String, Json)>),
}

/// What a [`Json`] stands for.
#[verifier::ext_equal]
pub enum JsonView {
    Null,
    Bool(bool),
    Number(Seq<char>),
    Text(Seq<char>),
    List(Seq<JsonView>),
    Object(Seq<(Seq<char>, JsonView)>),
}

impl Json {
    /// What the value stands for.
    pub open spec fn shape(self) -> JsonView
        decreases self,
    {
        match self {
            Json::Null => JsonView::Null,
            Json::Bool(b) => JsonView::Bool(b),
            Json::Number(n) => JsonView::Number(n@),
            Json::Text(t) => JsonView::Text(t@),
            Json::List(v) => JsonView::List(
                Seq::new(
                    v@.len(),
                    |i: int|
                        if 0 <= i < v@.len() {
                            v@[i].shape()
                        } else {
                            JsonView::Null
                        },
                ),
            ),
            Json::Object(v) => JsonView::Object(
                Seq::new(
                    v@.len(),
                    |i: int|
                        if 0 <= i < v@.len() {
                            (v@[i].0@, v@[i].1.shape())
                        } else {
                            (Seq::<char>::empty(), JsonView::Null)
                        },
                ),
            ),
        }
    }
}

impl View for Json {
    type V = JsonView;

    open spec fn view(&self) -> JsonView {
        self.shape()
    }
}

/// What a list of fields stands for.
pub open spec fn fields_view(v: Seq<(String, Json)>) -> Seq<(Seq<char>, JsonView)> {
    Seq::new(v.len(), |i: int| (v[i].0@, v[i].1@))
}

/// What a list of values stands for.
pub open spec fn items_view(v: Seq<Json>) -> Seq<JsonView> {
    Seq::new(v.len(), |i: int| v[i]@)
}

/// The texts as a list.
pub open spec fn text_items(s: Seq<Seq<char>>) -> JsonView {
    JsonView::List(Seq::new(s.len(), |i: int| JsonView::Text(s[i])))
}

/// A natural number.
pub open spec fn natural(n: nat) -> JsonView {
    JsonView::Number(number::decimal(n))
}

/// An integer, or null.
pub open spec fn opt_integer(n: Option<i32>) -> JsonView {
    match n {
        Some(x) => JsonView::Number(number::decimal_int(x as int)),
        None => JsonView::Null,
    }
}

/// An integer.
pub open spec fn whole(n: int) -> JsonView {
    JsonView::Number(number::decimal_int(n))
}

/// An integer, or null.
pub open spec fn opt_whole(n: Option<i64>) -> JsonView {
    match n {
        Some(x) => whole(x as int),
        None => JsonView::Null,
    }
}

/// A natural number, or null.
pub open spec fn opt_natural(n: Option<u64>) -> JsonView {
    match n {
        Some(x) => natural(x as nat),
        None => JsonView::Null,
    }
}

/// A text, or null.
pub open spec fn opt_text(t: Option<Seq<char>>) -> JsonView {
    match t {
        Some(x) => JsonView::Text(x),
        None => JsonView::Null,
    }
}

/// A text value.
pub fn text(s: &str) -> (r: Json)
    ensures
        r@ == JsonView::Text(s@),
{
    Json::Text(own(s))
}

/// A text value, or null.
pub fn text_or_null(s: &Option<String>) -> (r: Json)
    ensures
        r@ == opt_text(chars::opt_text(*s)),
{
    match s {
        Some(x) => Json::Text(own(x.as_str())),
        None => Json::Null,
    }
}

/// A natural number.
pub fn count(n: usize) -> (r: Json)
    ensures
        r@ == natural(n as nat),
{
    Json::Number(format_usize(n))
}

/// An integer, or null.
pub fn integer_or_null(n: Option<i32>) -> (r: Json)
    ensures
        r@ == opt_integer(n),
{
    match n {
        Some(x) => Json::Number(format_i64(x as i64)),
        None => Json::Null,
    }
}

/// An integer.
pub fn integer(n: i64) -> (r: Json)
    ensures
        r@ == whole(n as int),
{
    Json::Number(format_i64(n))
}

/// An integer, or null.
pub fn whole_or_null(n: Option<i64>) -> (r: Json)
    ensures
        r@ == opt_whole(n),
{
    match n {
        Some(x) => integer(x),
        None => Json::Null,
    }
}

/// A natural number, or null.
pub fn natural_or_null(n: Option<u64>) -> (r: Json)
    ensures
        r@ == opt_natural(n),
{
    match n {
        Some(x) => Json::Number(format_u64(x)),
        None => Json::Null,
    }
}

/// A field of an object.
pub fn field(key: &str, value: Json) -> (r: (String, Json))
    ensures
        r.0@ == key@,
        r.1 == value,
{
    (own(key), value)
}

/// An object with the given fields.
pub fn object(fields: Vec<(String, Json)>) -> (r: Json)
    ensures
        r@ == JsonView::Object(fields_view(fields@)),
{
    let r = Json::Object(fields);
    proof {
        assert(r@->Object_0 =~= fields_view(fields@));
    }
    r
}

/// A list of the given values.
pub fn list(items: Vec<Json>) -> (r: Json)
    ensures
        r@ == JsonView::List(items_view(items@)),
{
    let r = Json::List(items);
    proof {
        assert(r@->List_0 =~= items_view(items@));
    }
    r
}

/// A list of texts.
pub fn text_list(v: &[String]) -> (r: Json)
    ensures
        r@ == text_items(chars::texts(v@)),
{
    let mut out: Vec<Json> = Vec::new();
    let mut i: usize = 0;
    while i < v.len()
        invariant
            i <= v@.len(),
            out@.len() == i,
            forall|j: int| 0 <= j < i ==> (#[trigger] out@[j])@ == JsonView::Text(v@[j]@),
        decreases v@.len() - i,
    {
        out.push(text(v[i].as_str()));
        i = i + 1;
    }
    let r = list(out);
    proof {
        assert(r@->List_0 =~= text_items(chars::texts(v@))->List_0);
    }
    r
}

/// A JSON value of `serde_json`.
#[verifier::external_type_specification]
#[verifier::external_body]
pub struct ExJsonValue(serde_json::Value);

/// What a JSON value of `serde_json` holds; its numbers as `serde_json` writes them.
pub uninterp spec fn value_json(value: serde_json::Value) -> JsonView;

/// What a JSON text holds, or why the text is no JSON.
pub uninterp spec fn json_reading(raw: Seq<char>) -> Result<JsonView, Seq<char>>;

/// `serde_json::from_str` into a `serde_json::Value`: the value or the text of the error, which
/// depend on the given text alone.
#[verifier::external_body]
fn read_json(raw: &str) -> (r: Result<serde_json::Value, String>)
    ensures
        match r {
            Ok(v) => json_reading(raw@) == Ok::<_, Seq<char>>(value_json(v)),
            Err(e) => json_reading(raw@) == Err::<JsonView, _>(e@),
        },
{
    serde_json::from_str::<serde_json::Value>(raw).map_err(|e| e.to_string())
}

/// The value of the first field with the given key, from the field at `i` on.
pub open spec fn field_from(fields: Seq<(Seq<char>, JsonView)>, key: Seq<char>, i: int) -> Option<
    JsonView,
>
    decreases fields.len() - i,
{
    if i < 0 || i >= fields.len() {
        None
    } else if fields[i].0 == key {
        Some(fields[i].1)
    } else {
        field_from(fields, key, i + 1)
    }
}

/// The value under a key; only objects have keys.
pub open spec fn value_at(j: JsonView, key: Seq<char>) -> Option<JsonView> {
    match j {
        JsonView::Object(fields) => field_from(fields, key, 0),
        _ => None,
    }
}

/// `serde_json::Value::get` with a key: the value of that field, if the value is an object that
/// has it.
#[verifier::external_body]
fn json_at<'a>(value: &'a serde_json::Value, key: &str) -> (r: Option<&'a serde_json::Value>)
    ensures
        match r {
            Some(x) => value_at(value_json(*value), key@) == Some(value_json(*x)),
            None => value_at(value_json(*value), key@) is None,
        },
{
    value.get(key)
}

/// The text that a value is, if it is one.
pub open spec fn text_of(j: JsonView) -> Option<Seq<char>> {
    match j {
        JsonView::Text(t) => Some(t),
        _ => None,
    }
}

/// The natural number of 64 bits that a value is, if it is one.
pub open spec fn natural_of(j: JsonView) -> Option<u64> {
    match j {
        JsonView::Number(t) => match number::parsed_number(t, u64::MAX as nat) {
            Some(n) => Some(n as u64),
            None => None,
        },
        _ => None,
    }
}

/// The integer of 64 bits that a value is, if it is one.
pub open spec fn integer_of(j: JsonView) -> Option<i64> {
    match j {
        JsonView::Number(t) => match number::parsed_integer(t) {
            Some(n) => Some(n as i64),
            None => None,
        },
        _ => None,
    }
}

/// `serde_json::Value::as_str`: the text, if the value is one.
#[verifier::external_body]
fn json_text(value: &serde_json::Value) -> (r: Option<&str>)
    ensures
        match r {
            Some(t) => text_of(value_json(*value)) == Some(t@),
            None => text_of(value_json(*value)) is None,
        },
{
    value.as_str()
}

/// `serde_json::Value::as_u64`: the number, if the value is an integer that fits.
#[verifier::external_body]
fn json_natural(value: &serde_json::Value) -> (r: Option<u64>)
    ensures
        r == natural_of(value_json(*value)),
{
    value.as_u64()
}

/// `serde_json::Value::as_i64`: the number, if the value is an integer that fits.
#[verifier::external_body]
fn json_integer(value: &serde_json::Value) -> (r: Option<i64>)
    ensures
        r == integer_of(value_json(*value)),
{
    value.as_i64()
}

/// Why a text is no JSON; none if it is.
pub open spec fn json_refusal(raw: Seq<char>) -> Option<Seq<char>> {
    match json_reading(raw) {
        Ok(_) => None,
        Err(why) => Some(why),
    }
}

/// The value under a key of the object that a text holds; none if the text is no JSON, holds no
/// object, or has no such key.
pub open spec fn json_field(raw: Seq<char>, key: Seq<char>) -> Option<JsonView> {
    match json_reading(raw) {
        Ok(j) => value_at(j, key),
        Err(_) => None,
    }
}

/// The text under a key of the object that a text holds.
pub open spec fn json_text_field(raw: Seq<char>, key: Seq<char>) -> Option<Seq<char>> {
    match json_field(raw, key) {
        Some(j) => text_of(j),
        None => None,
    }
}

/// The natural number under a key of the object that a text holds.
pub open spec fn json_natural_field(raw: Seq<char>, key: Seq<char>) -> Option<u64> {
    match json_field(raw, key) {
        Some(j) => natural_of(j),
        None => None,
    }
}

/// The integer under a key of the object that a text holds.
pub open spec fn json_integer_field(raw: Seq<char>, key: Seq<char>) -> Option<i64> {
    match json_field(raw, key) {
        Some(j) => integer_of(j),
        None => None,
    }
}

/// Why a text is no JSON; none if it is.
pub fn refuse_json(raw: &str) -> (r: Option<String>)
    ensures
        chars::opt_text(r) == json_refusal(raw@),
{
    match read_json(raw) {
        Ok(_) => None,
        Err(e) => Some(e),
    }
}

/// The text under a key of the object that a text holds.
pub fn text_field(raw: &str, key: &str) -> (r: Option<String>)
    ensures
        chars::opt_text(r) == json_text_field(raw@, key@),
{
    match read_json(raw) {
        Ok(value) => match json_at(&value, key) {
            Some(found) => match json_text(found) {
                Some(t) => Some(own(t)),
                None => None,
            },
            None => None,
        },
        Err(_) => None,
    }
}

/// The natural number under a key of the object that a text holds.
pub fn natural_field(raw: &str, key: &str) -> (r: Option<u64>)
    ensures
        r == json_natural_field(raw@, key@),
{
    match read_json(raw) {
        Ok(value) => match json_at(&value, key) {
            Some(found) => json_natural(found),
            None => None,
        },
        Err(_) => None,
    }
}

/// The integer under a key of the object that a text holds.
pub fn integer_field(raw: &str, key: &str) -> (r: Option<i64>)
    ensures
        r == json_integer_field(raw@, key@),
{
    match read_json(raw) {
        Ok(value) => match json_at(&value, key) {
            Some(found) => json_integer(found),
            None => None,
        },
        Err(_) => None,
    }
}

} // verus!
