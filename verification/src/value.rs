//! JSON values: the shape in which states, questions and answers come and go.

use vstd::prelude::*;

verus! {

/// A JSON number of `serde_json`, carried through as it is.
#[verifier::external_type_specification]
#[verifier::external_body]
pub struct ExNumber(serde_json::Number);

/// A JSON value. An object lists its entries in the order of their keys.
#[derive(Debug, PartialEq)]
pub enum JsonValue {
    Null,
    Bool(bool),
    Number(serde_json::Number),
    String(String),
    Array(Vec<JsonValue>),
    Object(Vec<(String, JsonValue)>),
}

/// What a JSON value says.
#[verifier::ext_equal]
pub enum Json {
    Null,
    Bool(bool),
    Number(serde_json::Number),
    String(Seq<char>),
    Array(Seq<Json>),
    Object(Seq<(Seq<char>, Json)>),
}

impl View for JsonValue {
    type V = Json;

    open spec fn view(&self) -> Json
        decreases self,
    {
        match self {
            JsonValue::Null => Json::Null,
            JsonValue::Bool(b) => Json::Bool(*b),
            JsonValue::Number(n) => Json::Number(*n),
            JsonValue::String(s) => Json::String(s@),
            JsonValue::Array(items) => Json::Array(items_view(items@)),
            JsonValue::Object(entries) => Json::Object(entries_view(entries@)),
        }
    }
}

/// What the items of a list say.
pub open spec fn items_view(items: Seq<JsonValue>) -> Seq<Json>
    decreases items,
{
    Seq::new(
        items.len(),
        |i: int|
            if 0 <= i < items.len() {
                items[i].view()
            } else {
                Json::Null
            },
    )
}

/// What the entries of an object say.
pub open spec fn entries_view(entries: Seq<(String, JsonValue)>) -> Seq<(Seq<char>, Json)>
    decreases entries,
{
    Seq::new(
        entries.len(),
        |i: int|
            if 0 <= i < entries.len() {
                (entries[i].0@, entries[i].1.view())
            } else {
                (entries[i].0@, Json::Null)
            },
    )
}

/// `serde_json::Number` is copied whole by its `clone`.
pub assume_specification[ <serde_json::Number as Clone>::clone ](
    n: &serde_json::Number,
) -> (r: serde_json::Number)
    ensures
        r == *n,
;

impl Clone for JsonValue {
    fn clone(&self) -> (r: JsonValue)
        ensures
            r@ == self@,
        decreases self,
    {
        match self {
            JsonValue::Null => JsonValue::Null,
            JsonValue::Bool(b) => JsonValue::Bool(*b),
            JsonValue::Number(n) => JsonValue::Number(n.clone()),
            JsonValue::String(s) => JsonValue::String(s.clone()),
            JsonValue::Array(items) => JsonValue::Array(clone_items(items)),
            JsonValue::Object(entries) => JsonValue::Object(clone_entries(entries)),
        }
    }
}

/// Copies the items of a list.
fn clone_items(items: &Vec<JsonValue>) -> (r: Vec<JsonValue>)
    ensures
        items_view(r@) == items_view(items@),
    decreases items,
{
    let mut r: Vec<JsonValue> = Vec::new();
    let mut i: usize = 0;
    while i < items.len()
        invariant
            i <= items@.len(),
            r@.len() == i,
            forall|j: int| 0 <= j < i ==> (#[trigger] r@[j])@ == items@[j]@,
        decreases items.len() - i,
    {
        let item = items[i].clone();
        r.push(item);
        i += 1;
    }
    assert(items_view(r@) =~= items_view(items@));
    r
}

/// Copies the entries of an object.
fn clone_entries(entries: &Vec<(String, JsonValue)>) -> (r: Vec<(String, JsonValue)>)
    ensures
        entries_view(r@) == entries_view(entries@),
    decreases entries,
{
    let mut r: Vec<(String, JsonValue)> = Vec::new();
    let mut i: usize = 0;
    while i < entries.len()
        invariant
            i <= entries@.len(),
            r@.len() == i,
            forall|j: int|
                0 <= j < i ==> (#[trigger] r@[j]).0@ == entries@[j].0@ && r@[j].1@
                    == entries@[j].1@,
        decreases entries.len() - i,
    {
        let entry = (entries[i].0.clone(), entries[i].1.clone());
        r.push(entry);
        i += 1;
    }
    assert(entries_view(r@) =~= entries_view(entries@));
    r
}

/// A value says what it holds, and nothing is left out.
pub proof fn values_say_what_they_hold(value: JsonValue)
    ensures
        value is Null ==> value@ == Json::Null,
        value matches JsonValue::Bool(b) ==> value@ == Json::Bool(b),
        value matches JsonValue::Number(n) ==> value@ == Json::Number(n),
        value matches JsonValue::String(s) ==> value@ == Json::String(s@),
        value matches JsonValue::Array(items) ==> {
            &&& value@ is Array
            &&& value@->Array_0.len() == items@.len()
            &&& forall|i: int|
                0 <= i < items@.len() ==> (#[trigger] value@->Array_0[i]) == items@[i]@
        },
        value matches JsonValue::Object(entries) ==> {
            &&& value@ is Object
            &&& value@->Object_0.len() == entries@.len()
            &&& forall|i: int|
                0 <= i < entries@.len() ==> (#[trigger] value@->Object_0[i]).0 == entries@[i].0@
                    && value@->Object_0[i].1 == entries@[i].1@
        },
{
    if let JsonValue::Object(entries) = value {
        assert(value@ == Json::Object(entries_view(entries@)));
    }
}

} // verus!
