//! What `serde_json` does for the library: it holds the entries of an object in
//! the order of their keys, and reads and writes values as JSON text.

use vstd::prelude::*;

use crate::object::{before, before_is_total, object_entries, object_is_ordered, object_of, ordered, put};
use crate::value::{entries_view, items_view, Json, JsonValue};

verus! {

/// A value of `serde_json`.
#[verifier::external_type_specification]
#[verifier::external_body]
pub struct ExSerdeValue(serde_json::Value);

/// A map of `serde_json`.
#[verifier::external_type_specification]
#[verifier::external_body]
#[verifier::reject_recursive_types(K)]
#[verifier::reject_recursive_types(V)]
pub struct ExSerdeMap<K, V>(serde_json::Map<K, V>);

/// The entries of a map of `serde_json`, in the order in which it is walked,
/// each value taken as an unsigned integer (0 where it is none).
pub uninterp spec fn map_entries(
    map: serde_json::Map<std::string::String, serde_json::Value>,
) -> Seq<(Seq<char>, u64)>;

/// `serde_json::Map::new` makes a map without entries.
#[verifier::external_body]
fn new_map() -> (r: serde_json::Map<std::string::String, serde_json::Value>)
    ensures
        map_entries(r) == Seq::<(Seq<char>, u64)>::empty(),
{
    serde_json::Map::new()
}

/// `serde_json::Map::insert` puts a value under a key, in place of the one that
/// was there. The map is a `BTreeMap`, so its entries stand in the order of
/// their keys.
#[verifier::external_body]
fn insert_position(
    map: &mut serde_json::Map<std::string::String, serde_json::Value>,
    key: &str,
    position: u64,
)
    ensures
        map_entries(*final(map)) == put(map_entries(*old(map)), key@, position),
{
    map.insert(key.to_owned(), serde_json::Value::from(position));
}

/// `serde_json::Map::iter` hands out the entries in the order of the map, here
/// with `serde_json::Value::as_u64` of each value.
#[verifier::external_body]
fn positions_by_key(
    map: &serde_json::Map<std::string::String, serde_json::Value>,
) -> (r: Vec<(std::string::String, u64)>)
    ensures
        r@.len() == map_entries(*map).len(),
        forall|i: int|
            0 <= i < r@.len() ==> (#[trigger] r@[i]).0@ == map_entries(*map)[i].0 && r@[i].1
                == map_entries(*map)[i].1,
{
    map.iter().map(|e| (e.0.clone(), e.1.as_u64().unwrap_or_default())).collect()
}

/// The entries with each position replaced by the value at that position.
spec fn resolved(entries: Seq<(Seq<char>, u64)>, pairs: Seq<(Seq<char>, Json)>) -> Seq<
    (Seq<char>, Json),
> {
    entries.map_values(|e: (Seq<char>, u64)| (e.0, pairs[e.1 as int].1))
}

/// Positions and the values at them are put in alike.
proof fn put_resolves(
    entries: Seq<(Seq<char>, u64)>,
    pairs: Seq<(Seq<char>, Json)>,
    key: Seq<char>,
    position: u64,
)
    ensures
        resolved(put(entries, key, position), pairs) == put(
            resolved(entries, pairs),
            key,
            pairs[position as int].1,
        ),
    decreases entries.len(),
{
    let value = pairs[position as int].1;
    if entries.len() > 0 {
        let rest = entries.skip(1);
        put_resolves(rest, pairs, key, position);
        assert(resolved(rest, pairs) =~= resolved(entries, pairs).skip(1));
    }
    assert(resolved(put(entries, key, position), pairs) =~= put(
        resolved(entries, pairs),
        key,
        value,
    ));
}

/// An entry that is put in has its own position, and the others keep theirs.
proof fn put_bounds(entries: Seq<(Seq<char>, u64)>, key: Seq<char>, position: u64, bound: int)
    requires
        forall|i: int| 0 <= i < entries.len() ==> (#[trigger] entries[i]).1 < bound,
        position < bound,
    ensures
        forall|i: int|
            0 <= i < put(entries, key, position).len() ==> (#[trigger] put(
                entries,
                key,
                position,
            )[i]).1 < bound,
    decreases entries.len(),
{
    if entries.len() > 0 {
        let rest = entries.skip(1);
        let r = put(entries, key, position);
        put_bounds(rest, key, position, bound);
        assert forall|i: int| 0 <= i < r.len() implies (#[trigger] r[i]).1 < bound by {
            if i > 0 {
                if entries[0].0 == key {
                    assert(r[i] == entries[i]);
                } else if before(key, entries[0].0) {
                    assert(r[i] == entries[i - 1]);
                } else {
                    assert(r[i] == put(rest, key, position)[i - 1]);
                }
            }
        }
    }
}

/// Makes an object of the given pairs. Of pairs with one key the last one
/// counts.
pub fn collect_object(pairs: &Vec<(String, JsonValue)>) -> (r: Vec<(String, JsonValue)>)
    ensures
        entries_view(r@) == object_of(entries_view(pairs@)),
        ordered(entries_view(r@)),
{
    let ghost all = entries_view(pairs@);
    let mut map = new_map();
    let mut i: usize = 0;
    assert(resolved(map_entries(map), all) =~= object_of(all.take(0)));
    while i < pairs.len()
        invariant
            i <= pairs@.len(),
            all == entries_view(pairs@),
            resolved(map_entries(map), all) == object_of(all.take(i as int)),
            forall|j: int|
                0 <= j < map_entries(map).len() ==> (#[trigger] map_entries(map)[j]).1
                    < pairs@.len(),
        decreases pairs.len() - i,
    {
        proof {
            put_resolves(map_entries(map), all, all[i as int].0, i as u64);
            put_bounds(map_entries(map), all[i as int].0, i as u64, pairs@.len() as int);
            assert(all.take(i + 1).drop_last() =~= all.take(i as int));
            assert(all.take(i + 1).last() == all[i as int]);
        }
        insert_position(&mut map, &pairs[i].0, i as u64);
        i += 1;
    }
    assert(all.take(i as int) =~= all);
    let found = positions_by_key(&map);
    let len: usize = pairs.len();
    let mut r: Vec<(String, JsonValue)> = Vec::new();
    let mut n: usize = 0;
    while n < found.len()
        invariant
            n <= found@.len(),
            pairs@.len() == len,
            all == entries_view(pairs@),
            found@.len() == map_entries(map).len(),
            resolved(map_entries(map), all) == object_of(all),
            forall|j: int|
                0 <= j < found@.len() ==> (#[trigger] found@[j]).0@ == map_entries(map)[j].0
                    && found@[j].1 == map_entries(map)[j].1,
            forall|j: int|
                0 <= j < map_entries(map).len() ==> (#[trigger] map_entries(map)[j]).1
                    < pairs@.len(),
            r@.len() == n,
            forall|j: int|
                0 <= j < n ==> (#[trigger] r@[j]).0@ == object_of(all)[j].0 && r@[j].1@
                    == object_of(all)[j].1,
        decreases found.len() - n,
    {
        assert(map_entries(map)[n as int].1 < pairs@.len());
        let at: usize = found[n].1 as usize;
        assert(resolved(map_entries(map), all)[n as int] == object_of(all)[n as int]);
        let entry = (found[n].0.clone(), pairs[at].1.clone());
        r.push(entry);
        n += 1;
    }
    assert(entries_view(r@) =~= object_of(all));
    proof {
        object_is_ordered(all);
    }
    r
}

/// Makes a JSON object of the given pairs.
pub fn object(pairs: &Vec<(String, JsonValue)>) -> (r: JsonValue)
    ensures
        r@ == Json::Object(object_of(entries_view(pairs@))),
{
    JsonValue::Object(collect_object(pairs))
}

/// Adds a pair to those of an object to be.
pub fn push_pair(pairs: &mut Vec<(String, JsonValue)>, key: &str, value: JsonValue)
    ensures
        entries_view(final(pairs)@) == entries_view(old(pairs)@).push((key@, value@)),
{
    let ghost given = pairs@;
    pairs.push((key.to_owned(), value));
    assert(entries_view(pairs@) =~= entries_view(given).push((key@, value@)));
}

/// What a value of `serde_json` holds.
pub uninterp spec fn json_of(value: serde_json::Value) -> Json;

/// The compact JSON text of a value, as `serde_json` writes it.
pub uninterp spec fn json_text(json: Json) -> Seq<char>;

/// What the values of a list hold.
spec fn jsons_of(values: Seq<serde_json::Value>) -> Seq<Json> {
    values.map_values(|v: serde_json::Value| json_of(v))
}

/// What the entries of an object hold.
spec fn json_entries_of(entries: Seq<(std::string::String, serde_json::Value)>) -> Seq<
    (Seq<char>, Json),
> {
    entries.map_values(|e: (std::string::String, serde_json::Value)| (e.0@, json_of(e.1)))
}

/// `serde_json::Value::default` is the null value.
#[verifier::external_body]
fn serde_null() -> (r: serde_json::Value)
    ensures
        json_of(r) == Json::Null,
{
    serde_json::Value::default()
}

/// `serde_json::Value::from` makes a truth value of a `bool`.
#[verifier::external_body]
fn serde_bool(b: bool) -> (r: serde_json::Value)
    ensures
        json_of(r) == Json::Bool(b),
{
    serde_json::Value::from(b)
}

/// `serde_json::Value::from` makes a value of a number.
#[verifier::external_body]
fn serde_number(n: &serde_json::Number) -> (r: serde_json::Value)
    ensures
        json_of(r) == Json::Number(*n),
{
    serde_json::Value::from(n.clone())
}

/// `serde_json::Value::from` makes a string value of a string.
#[verifier::external_body]
fn serde_string(s: &str) -> (r: serde_json::Value)
    ensures
        json_of(r) == Json::String(s@),
{
    serde_json::Value::from(s)
}

/// `serde_json::Value::from` makes an array of the values in a vector.
#[verifier::external_body]
fn serde_array(items: Vec<serde_json::Value>) -> (r: serde_json::Value)
    ensures
        json_of(r) == Json::Array(jsons_of(items@)),
{
    serde_json::Value::from(items)
}

/// `serde_json::Value::from_iter` makes an object of pairs. Its map holds them
/// in the order of their keys, so pairs in that order stay as they are.
#[verifier::external_body]
fn serde_object(entries: Vec<(std::string::String, serde_json::Value)>) -> (r: serde_json::Value)
    requires
        ordered(json_entries_of(entries@)),
    ensures
        json_of(r) == Json::Object(json_entries_of(entries@)),
{
    serde_json::Value::from_iter(entries)
}

/// `serde_json::Value::to_string` writes a value as compact JSON text. How it
/// writes numbers, escapes strings and sets out lists and objects is left to
/// the name.
#[verifier::external_body]
fn serde_text(value: &serde_json::Value) -> (r: std::string::String)
    ensures
        r@ == json_text(json_of(*value)),
        json_of(*value) is Null ==> r@ == "null"@,
        json_of(*value) == Json::Bool(true) ==> r@ == "true"@,
        json_of(*value) == Json::Bool(false) ==> r@ == "false"@,
{
    value.to_string()
}

/// Whether the keys of every object in a value stand in order.
pub open spec fn well_formed(json: Json) -> bool
    decreases json,
{
    match json {
        Json::Array(items) => forall|i: int|
            0 <= i < items.len() ==> well_formed(#[trigger] items[i]),
        Json::Object(entries) => {
            &&& ordered(entries)
            &&& forall|i: int| 0 <= i < entries.len() ==> well_formed((#[trigger] entries[i]).1)
        },
        _ => true,
    }
}

/// The items of a well-formed list are well formed.
pub proof fn items_are_well_formed(json: Json)
    requires
        well_formed(json),
        json is Array,
    ensures
        forall|i: int|
            0 <= i < json->Array_0.len() ==> well_formed(#[trigger] json->Array_0[i]),
{
}

/// The values in a well-formed object are well formed.
pub proof fn entries_are_well_formed(json: Json)
    requires
        well_formed(json),
        json is Object,
    ensures
        ordered(json->Object_0),
        forall|i: int|
            0 <= i < json->Object_0.len() ==> well_formed((#[trigger] json->Object_0[i]).1),
{
}

/// An object that is made of pairs with well-formed values is well formed.
pub proof fn made_objects_are_well_formed(pairs: Seq<(Seq<char>, Json)>)
    requires
        forall|i: int| 0 <= i < pairs.len() ==> well_formed((#[trigger] pairs[i]).1),
    ensures
        well_formed(Json::Object(object_of(pairs))),
{
    let r = Json::Object(object_of(pairs));
    object_is_ordered(pairs);
    object_entries(pairs);
    assert forall|i: int| 0 <= i < r->Object_0.len() implies well_formed(
        (#[trigger] r->Object_0[i]).1,
    ) by {
        assert(pairs.contains(object_of(pairs)[i]));
    }
}

/// Turns a value into one of `serde_json`.
pub fn to_serde(value: &JsonValue) -> (r: serde_json::Value)
    requires
        well_formed(value@),
    ensures
        json_of(r) == value@,
    decreases value,
{
    match value {
        JsonValue::Null => serde_null(),
        JsonValue::Bool(b) => serde_bool(*b),
        JsonValue::Number(n) => serde_number(n),
        JsonValue::String(s) => serde_string(s),
        JsonValue::Array(items) => {
            proof {
                items_are_well_formed(value@);
                assert(value@->Array_0 == items_view(items@));
                assert forall|i: int| 0 <= i < items@.len() implies well_formed(
                    (#[trigger] items@[i])@,
                ) by {
                    assert(value@->Array_0[i] == items@[i]@);
                }
            }
            let made = to_serde_items(items);
            serde_array(made)
        },
        JsonValue::Object(entries) => {
            proof {
                entries_are_well_formed(value@);
                assert(value@->Object_0 == entries_view(entries@));
                assert forall|i: int| 0 <= i < entries@.len() implies well_formed(
                    (#[trigger] entries@[i]).1@,
                ) by {
                    assert(value@->Object_0[i].1 == entries@[i].1@);
                }
            }
            let made = to_serde_entries(entries);
            serde_object(made)
        },
    }
}

/// Turns the items of a list into values of `serde_json`.
fn to_serde_items(items: &Vec<JsonValue>) -> (r: Vec<serde_json::Value>)
    requires
        forall|i: int| 0 <= i < items@.len() ==> well_formed((#[trigger] items@[i])@),
    ensures
        jsons_of(r@) == items_view(items@),
    decreases items,
{
    let mut r: Vec<serde_json::Value> = Vec::new();
    let mut i: usize = 0;
    while i < items.len()
        invariant
            i <= items@.len(),
            r@.len() == i,
            forall|j: int| 0 <= j < items@.len() ==> well_formed((#[trigger] items@[j])@),
            forall|j: int| 0 <= j < i ==> json_of(#[trigger] r@[j]) == items@[j]@,
        decreases items.len() - i,
    {
        let item = to_serde(&items[i]);
        r.push(item);
        i += 1;
    }
    assert(jsons_of(r@) =~= items_view(items@));
    r
}

/// Turns the entries of an object into pairs of `serde_json`.
fn to_serde_entries(entries: &Vec<(String, JsonValue)>) -> (r: Vec<
    (std::string::String, serde_json::Value),
>)
    requires
        forall|i: int| 0 <= i < entries@.len() ==> well_formed((#[trigger] entries@[i]).1@),
    ensures
        json_entries_of(r@) == entries_view(entries@),
    decreases entries,
{
    let mut r: Vec<(std::string::String, serde_json::Value)> = Vec::new();
    let mut i: usize = 0;
    while i < entries.len()
        invariant
            i <= entries@.len(),
            r@.len() == i,
            forall|j: int| 0 <= j < entries@.len() ==> well_formed((#[trigger] entries@[j]).1@),
            forall|j: int|
                0 <= j < i ==> (#[trigger] r@[j]).0@ == entries@[j].0@ && json_of(r@[j].1)
                    == entries@[j].1@,
        decreases entries.len() - i,
    {
        let value = to_serde(&entries[i].1);
        r.push((entries[i].0.clone(), value));
        i += 1;
    }
    assert(json_entries_of(r@) =~= entries_view(entries@));
    r
}

/// Writes a value as compact JSON text.
pub fn compact_text(value: &JsonValue) -> (r: String)
    requires
        well_formed(value@),
    ensures
        r@ == json_text(value@),
        value@ is Null ==> r@ == "null"@,
        value@ == Json::Bool(true) ==> r@ == "true"@,
        value@ == Json::Bool(false) ==> r@ == "false"@,
{
    let made = to_serde(value);
    serde_text(&made)
}

/// The JSON text of a value with line breaks and indents, or the words of a
/// complaint, as `serde_json` has them.
pub uninterp spec fn pretty(json: Json) -> Result<Seq<char>, Seq<char>>;

/// `serde_json::to_string_pretty` writes a value as JSON text with line breaks
/// and indents. How it sets them is left to the name.
#[verifier::external_body]
fn serde_pretty(value: &serde_json::Value) -> (r: Result<std::string::String, std::string::String>)
    ensures
        match r {
            Ok(text) => pretty(json_of(*value)) == Ok::<Seq<char>, Seq<char>>(text@),
            Err(e) => pretty(json_of(*value)) == Err::<Seq<char>, Seq<char>>(e@),
        },
{
    match serde_json::to_string_pretty(value) {
        Ok(text) => Ok(text),
        Err(e) => Err(e.to_string()),
    }
}

/// Writes a value as JSON text with line breaks and indents.
pub fn pretty_text(value: &JsonValue) -> (r: Result<String, String>)
    requires
        well_formed(value@),
    ensures
        match r {
            Ok(text) => pretty(value@) == Ok::<Seq<char>, Seq<char>>(text@),
            Err(e) => pretty(value@) == Err::<Seq<char>, Seq<char>>(e@),
        },
{
    let made = to_serde(value);
    serde_pretty(&made)
}

/// A value of `serde_json`, taken apart.
enum Parts<'a> {
    Null,
    Bool(bool),
    Number(&'a serde_json::Number),
    String(&'a std::string::String),
    Array(&'a Vec<serde_json::Value>),
    Object(Vec<(&'a std::string::String, &'a serde_json::Value)>),
}

/// What the borrowed entries of an object hold.
spec fn borrowed_entries_of(entries: Seq<(&std::string::String, &serde_json::Value)>) -> Seq<
    (Seq<char>, Json),
> {
    entries.map_values(|e: (&std::string::String, &serde_json::Value)| (e.0@, json_of(*e.1)))
}

/// What the parts of a value hold.
spec fn whole_of(parts: Parts) -> Json {
    match parts {
        Parts::Null => Json::Null,
        Parts::Bool(b) => Json::Bool(b),
        Parts::Number(n) => Json::Number(*n),
        Parts::String(s) => Json::String(s@),
        Parts::Array(items) => Json::Array(jsons_of(items@)),
        Parts::Object(entries) => Json::Object(borrowed_entries_of(entries@)),
    }
}

/// The variants of `serde_json::Value`, told apart. The map of an object is a
/// `BTreeMap`, so `serde_json::Map::iter` hands out its entries in the order of
/// their keys.
#[verifier::external_body]
fn take_apart(value: &serde_json::Value) -> (r: Parts<'_>)
    ensures
        whole_of(r) == json_of(*value),
        r matches Parts::Object(entries) ==> ordered(borrowed_entries_of(entries@)),
{
    match value {
        serde_json::Value::Null => Parts::Null,
        serde_json::Value::Bool(b) => Parts::Bool(*b),
        serde_json::Value::Number(n) => Parts::Number(n),
        serde_json::Value::String(s) => Parts::String(s),
        serde_json::Value::Array(items) => Parts::Array(items),
        serde_json::Value::Object(map) => Parts::Object(map.iter().collect()),
    }
}

/// Turns a value of `serde_json` into one of the library.
pub fn from_serde(value: &serde_json::Value) -> (r: JsonValue)
    ensures
        r@ == json_of(*value),
        well_formed(r@),
    decreases json_of(*value),
{
    match take_apart(value) {
        Parts::Null => JsonValue::Null,
        Parts::Bool(b) => JsonValue::Bool(b),
        Parts::Number(n) => JsonValue::Number(n.clone()),
        Parts::String(s) => JsonValue::String(s.clone()),
        Parts::Array(items) => {
            let mut r: Vec<JsonValue> = Vec::new();
            let mut i: usize = 0;
            while i < items.len()
                invariant
                    i <= items@.len(),
                    json_of(*value) == Json::Array(jsons_of(items@)),
                    r@.len() == i,
                    forall|j: int|
                        0 <= j < i ==> (#[trigger] r@[j])@ == json_of(items@[j]) && well_formed(
                            r@[j]@,
                        ),
                decreases items.len() - i,
            {
                assert(json_of(items@[i as int]) == json_of(*value)->Array_0[i as int]);
                let item = from_serde(&items[i]);
                r.push(item);
                i += 1;
            }
            assert(items_view(r@) =~= jsons_of(items@));
            proof {
                let made = json_of(*value);
                assert forall|j: int| 0 <= j < made->Array_0.len() implies well_formed(
                    #[trigger] made->Array_0[j],
                ) by {
                    assert(made->Array_0[j] == r@[j]@);
                }
            }
            JsonValue::Array(r)
        },
        Parts::Object(entries) => {
            let mut r: Vec<(String, JsonValue)> = Vec::new();
            let mut i: usize = 0;
            while i < entries.len()
                invariant
                    i <= entries@.len(),
                    json_of(*value) == Json::Object(borrowed_entries_of(entries@)),
                    r@.len() == i,
                    forall|j: int|
                        0 <= j < i ==> (#[trigger] r@[j]).0@ == entries@[j].0@ && r@[j].1@
                            == json_of(*entries@[j].1) && well_formed(r@[j].1@),
                decreases entries.len() - i,
            {
                assert(json_of(*entries@[i as int].1) == json_of(*value)->Object_0[i as int].1);
                let (key, found) = entries[i];
                let item = from_serde(found);
                r.push((key.clone(), item));
                i += 1;
            }
            assert(entries_view(r@) =~= borrowed_entries_of(entries@));
            proof {
                let made = json_of(*value);
                assert forall|j: int| 0 <= j < made->Object_0.len() implies well_formed(
                    (#[trigger] made->Object_0[j]).1,
                ) by {
                    assert(made->Object_0[j].1 == r@[j].1@);
                }
            }
            JsonValue::Object(r)
        },
    }
}

/// The value that a JSON text stands for, or the words of the complaint about
/// it, as `serde_json` has them.
pub uninterp spec fn parsed(text: Seq<char>) -> Result<Json, Seq<char>>;

/// `serde_json::from_str` reads a value from JSON text. Which texts it takes, and
/// what it says of the others, is left to the name.
#[verifier::external_body]
fn serde_parse(text: &str) -> (r: Result<serde_json::Value, std::string::String>)
    ensures
        match r {
            Ok(value) => parsed(text@) == Ok::<Json, Seq<char>>(json_of(value)),
            Err(e) => parsed(text@) == Err::<Json, Seq<char>>(e@),
        },
{
    match serde_json::from_str(text) {
        Ok(value) => Ok(value),
        Err(e) => Err(e.to_string()),
    }
}

/// Reads a value from JSON text.
pub fn parse_json(text: &str) -> (r: Result<JsonValue, String>)
    ensures
        match r {
            Ok(value) => parsed(text@) == Ok::<Json, Seq<char>>(value@) && well_formed(value@),
            Err(e) => parsed(text@) == Err::<Json, Seq<char>>(e@),
        },
{
    match serde_parse(text) {
        Ok(value) => Ok(from_serde(&value)),
        Err(e) => Err(e),
    }
}

/// A value as it is shown inside other text: a string as it is, any other value
/// as its compact JSON text.
pub open spec fn plain_text(json: Json) -> Seq<char> {
    match json {
        Json::String(s) => s,
        _ => json_text(json),
    }
}

/// Gives a value as it is shown inside other text.
pub fn text_of(value: &JsonValue) -> (r: String)
    requires
        well_formed(value@),
    ensures
        r@ == plain_text(value@),
{
    match value {
        JsonValue::String(s) => s.clone(),
        _ => compact_text(value),
    }
}

/// A string is shown as it is, without quotes, and any other value as the text
/// that `serde_json` writes for it.
pub proof fn values_are_shown_whole(json: Json)
    ensures
        json matches Json::String(s) ==> plain_text(json) == s,
        !(json is String) ==> plain_text(json) == json_text(json),
{
}

/// A well-formed value has no key twice in any of its objects.
pub proof fn well_formed_keys_differ(json: Json, i: int, j: int)
    requires
        well_formed(json),
        json is Object,
        0 <= i < j < json->Object_0.len(),
    ensures
        json->Object_0[i].0 != json->Object_0[j].0,
        before(json->Object_0[i].0, json->Object_0[j].0),
{
    entries_are_well_formed(json);
    before_is_total(json->Object_0[i].0, json->Object_0[j].0);
}

/// A value is well formed exactly if the values in it are, and the keys of each object
/// come one before the other. Values that hold no others always are.
pub proof fn well_formed_by_parts(json: Json)
    ensures
        !(json is Array) && !(json is Object) ==> well_formed(json),
        json matches Json::Array(items) ==> (well_formed(json) <==> forall|i: int|
            0 <= i < items.len() ==> well_formed(#[trigger] items[i])),
        json matches Json::Object(entries) ==> (well_formed(json) <==> {
            &&& forall|i: int, j: int|
                0 <= i < j < entries.len() ==> before(
                    (#[trigger] entries[i]).0,
                    (#[trigger] entries[j]).0,
                )
            &&& forall|i: int| 0 <= i < entries.len() ==> well_formed((#[trigger] entries[i]).1)
        }),
{
}

} // verus!
