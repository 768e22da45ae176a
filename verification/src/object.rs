//! The entries of a JSON object: found by key, kept in the order of the keys.

use vstd::prelude::*;

use crate::text::same_text;
use crate::value::{entries_view, Json, JsonValue};

verus! {

/// Whether `a` comes before `b`: the order of strings by their characters.
pub open spec fn before(a: Seq<char>, b: Seq<char>) -> bool
    decreases a.len(),
{
    if b.len() == 0 {
        false
    } else if a.len() == 0 {
        true
    } else if a[0] == b[0] {
        before(a.skip(1), b.skip(1))
    } else {
        a[0] < b[0]
    }
}

/// Whether the keys of the entries stand in strictly increasing order.
pub open spec fn ordered<V>(entries: Seq<(Seq<char>, V)>) -> bool {
    forall|i: int, j: int|
        0 <= i < j < entries.len() ==> before((#[trigger] entries[i]).0, (#[trigger] entries[j]).0)
}

/// The value that the entries give for a key.
pub open spec fn lookup<V>(entries: Seq<(Seq<char>, V)>, key: Seq<char>) -> Option<V>
    decreases entries.len(),
{
    if entries.len() == 0 {
        None
    } else if entries[0].0 == key {
        Some(entries[0].1)
    } else {
        lookup(entries.skip(1), key)
    }
}

/// The entries with `value` put under `key`: in place of the value that was
/// there, else where the order of the keys has it.
pub open spec fn put<V>(entries: Seq<(Seq<char>, V)>, key: Seq<char>, value: V) -> Seq<
    (Seq<char>, V),
>
    decreases entries.len(),
{
    if entries.len() == 0 {
        seq![(key, value)]
    } else if entries[0].0 == key {
        seq![(key, value)] + entries.skip(1)
    } else if before(key, entries[0].0) {
        seq![(key, value)] + entries
    } else {
        seq![entries[0]] + put(entries.skip(1), key, value)
    }
}

/// The object that is made of the given pairs, put in one after the other.
pub open spec fn object_of<V>(pairs: Seq<(Seq<char>, V)>) -> Seq<(Seq<char>, V)>
    decreases pairs.len(),
{
    if pairs.len() == 0 {
        pairs
    } else {
        put(object_of(pairs.drop_last()), pairs.last().0, pairs.last().1)
    }
}

/// No string comes before itself, and of two different strings exactly one
/// comes before the other.
pub proof fn before_is_total(a: Seq<char>, b: Seq<char>)
    ensures
        before(a, b) ==> !before(b, a),
        a == b ==> !before(a, b),
        a != b ==> before(a, b) || before(b, a),
    decreases a.len(),
{
    if a.len() > 0 && b.len() > 0 && a[0] == b[0] {
        before_is_total(a.skip(1), b.skip(1));
        if a.skip(1) == b.skip(1) {
            assert(a =~= seq![a[0]] + a.skip(1));
            assert(b =~= seq![b[0]] + b.skip(1));
        }
    } else if a.len() == 0 && b.len() == 0 {
        assert(a =~= b);
    }
}

/// What comes before a string comes before all that the string comes before.
pub proof fn before_is_transitive(a: Seq<char>, b: Seq<char>, c: Seq<char>)
    requires
        before(a, b),
        before(b, c),
    ensures
        before(a, c),
    decreases a.len(),
{
    if a.len() > 0 && b.len() > 0 && c.len() > 0 && a[0] == b[0] && b[0] == c[0] {
        before_is_transitive(a.skip(1), b.skip(1), c.skip(1));
    }
}

/// Putting an entry in keeps the order of the keys.
pub proof fn put_keeps_order<V>(entries: Seq<(Seq<char>, V)>, key: Seq<char>, value: V)
    requires
        ordered(entries),
    ensures
        ordered(put(entries, key, value)),
        forall|i: int|
            0 <= i < put(entries, key, value).len() ==> {
                let k = (#[trigger] put(entries, key, value)[i]).0;
                k == key || exists|j: int|
                    0 <= j < entries.len() && (#[trigger] entries[j]).0 == k
            },
    decreases entries.len(),
{
    let r = put(entries, key, value);
    if entries.len() > 0 {
        let rest = entries.skip(1);
        assert forall|i: int, j: int| 0 <= i < j < rest.len() implies before(
            (#[trigger] rest[i]).0,
            (#[trigger] rest[j]).0,
        ) by {
            assert(before(entries[i + 1].0, entries[j + 1].0));
        }
        put_keeps_order(rest, key, value);
        before_is_total(entries[0].0, key);
        if entries[0].0 == key {
            assert forall|i: int, j: int| 0 <= i < j < r.len() implies before(
                (#[trigger] r[i]).0,
                (#[trigger] r[j]).0,
            ) by {
                assert(before(entries[i].0, entries[j].0));
            }
            assert forall|i: int| 0 <= i < r.len() implies {
                let k = (#[trigger] r[i]).0;
                k == key || exists|j: int| 0 <= j < entries.len() && (#[trigger] entries[j]).0 == k
            } by {
                assert(entries[i].0 == r[i].0);
            }
        } else if before(key, entries[0].0) {
            assert forall|i: int, j: int| 0 <= i < j < r.len() implies before(
                (#[trigger] r[i]).0,
                (#[trigger] r[j]).0,
            ) by {
                if i > 0 {
                    assert(before(entries[i - 1].0, entries[j - 1].0));
                } else if j > 1 {
                    assert(before(entries[0].0, entries[j - 1].0));
                    before_is_transitive(key, entries[0].0, entries[j - 1].0);
                }
            }
            assert forall|i: int| 0 <= i < r.len() implies {
                let k = (#[trigger] r[i]).0;
                k == key || exists|j: int| 0 <= j < entries.len() && (#[trigger] entries[j]).0 == k
            } by {
                if i > 0 {
                    assert(entries[i - 1].0 == r[i].0);
                }
            }
        } else {
            let p = put(rest, key, value);
            assert forall|i: int| 0 <= i < r.len() implies {
                let k = (#[trigger] r[i]).0;
                k == key || exists|j: int| 0 <= j < entries.len() && (#[trigger] entries[j]).0 == k
            } by {
                if i == 0 {
                    assert(entries[0].0 == r[0].0);
                } else {
                    assert(r[i] == p[i - 1]);
                    if p[i - 1].0 != key {
                        let j = choose|j: int|
                            0 <= j < rest.len() && (#[trigger] rest[j]).0 == p[i - 1].0;
                        assert(entries[j + 1].0 == r[i].0);
                    }
                }
            }
            assert forall|i: int, j: int| 0 <= i < j < r.len() implies before(
                (#[trigger] r[i]).0,
                (#[trigger] r[j]).0,
            ) by {
                assert(r[j] == p[j - 1]);
                if i > 0 {
                    assert(r[i] == p[i - 1]);
                    assert(before(p[i - 1].0, p[j - 1].0));
                } else if p[j - 1].0 != key {
                    let m = choose|m: int|
                        0 <= m < rest.len() && (#[trigger] rest[m]).0 == p[j - 1].0;
                    assert(before(entries[0].0, entries[m + 1].0));
                }
            }
        }
    }
}

/// An object gives back the value that was put in last under a key, and what
/// it held under every other key.
pub proof fn lookup_after_put<V>(
    entries: Seq<(Seq<char>, V)>,
    key: Seq<char>,
    value: V,
    other: Seq<char>,
)
    requires
        ordered(entries),
    ensures
        lookup(put(entries, key, value), other) == if other == key {
            Some(value)
        } else {
            lookup(entries, other)
        },
    decreases entries.len(),
{
    let r = put(entries, key, value);
    if entries.len() == 0 {
        assert(r.skip(1) =~= entries);
        reveal_with_fuel(lookup, 2);
    } else {
        let rest = entries.skip(1);
        assert forall|i: int, j: int| 0 <= i < j < rest.len() implies before(
            (#[trigger] rest[i]).0,
            (#[trigger] rest[j]).0,
        ) by {
            assert(before(entries[i + 1].0, entries[j + 1].0));
        }
        if entries[0].0 == key {
            assert(r.skip(1) =~= rest);
        } else if before(key, entries[0].0) {
            assert(r.skip(1) =~= entries);
        } else {
            lookup_after_put(rest, key, value, other);
            assert(r.skip(1) =~= put(rest, key, value));
        }
    }
}

/// The keys of an object that is made of pairs stand in order.
pub proof fn object_is_ordered<V>(pairs: Seq<(Seq<char>, V)>)
    ensures
        ordered(object_of(pairs)),
    decreases pairs.len(),
{
    if pairs.len() > 0 {
        object_is_ordered(pairs.drop_last());
        put_keeps_order(object_of(pairs.drop_last()), pairs.last().0, pairs.last().1);
    }
}

/// A value that an object gives for a key is the value of one of its entries.
pub proof fn lookup_is_an_entry<V>(entries: Seq<(Seq<char>, V)>, key: Seq<char>)
    requires
        lookup(entries, key) is Some,
    ensures
        exists|i: int|
            0 <= i < entries.len() && (#[trigger] entries[i]).0 == key && Some(entries[i].1)
                == lookup(entries, key),
    decreases entries.len(),
{
    if entries[0].0 != key {
        let rest = entries.skip(1);
        lookup_is_an_entry(rest, key);
        let i = choose|i: int|
            0 <= i < rest.len() && (#[trigger] rest[i]).0 == key && Some(rest[i].1) == lookup(
                rest,
                key,
            );
        assert(entries[i + 1] == rest[i]);
    }
}

/// The entries after one was put in are the new one and some of the old ones.
pub proof fn put_entries<V>(entries: Seq<(Seq<char>, V)>, key: Seq<char>, value: V)
    ensures
        forall|i: int|
            0 <= i < put(entries, key, value).len() ==> (#[trigger] put(entries, key, value)[i])
                == (key, value) || entries.contains(put(entries, key, value)[i]),
    decreases entries.len(),
{
    let r = put(entries, key, value);
    if entries.len() > 0 {
        let rest = entries.skip(1);
        put_entries(rest, key, value);
        assert forall|i: int| 0 <= i < r.len() && (#[trigger] r[i]) != (
            key,
            value,
        ) implies entries.contains(r[i]) by {
            if entries[0].0 == key {
                assert(r[i] == entries[i]);
            } else if before(key, entries[0].0) {
                assert(r[i] == entries[i - 1]);
            } else if i == 0 {
                assert(r[i] == entries[0]);
            } else {
                assert(r[i] == put(rest, key, value)[i - 1]);
                let j = choose|j: int| 0 <= j < rest.len() && rest[j] == r[i];
                assert(entries[j + 1] == r[i]);
            }
        }
    }
}

/// Every entry of an object that is made of pairs is one of the pairs.
pub proof fn object_entries<V>(pairs: Seq<(Seq<char>, V)>)
    ensures
        forall|i: int|
            0 <= i < object_of(pairs).len() ==> pairs.contains(#[trigger] object_of(pairs)[i]),
    decreases pairs.len(),
{
    if pairs.len() > 0 {
        let rest = pairs.drop_last();
        let r = object_of(pairs);
        object_entries(rest);
        put_entries(object_of(rest), pairs.last().0, pairs.last().1);
        assert forall|i: int| 0 <= i < r.len() implies pairs.contains(#[trigger] r[i]) by {
            if r[i] == (pairs.last().0, pairs.last().1) {
                assert(r[i] == pairs[pairs.len() - 1]);
            } else {
                let k = choose|k: int| 0 <= k < object_of(rest).len() && object_of(rest)[k] == r[i];
                assert(rest.contains(object_of(rest)[k]));
                let j = choose|j: int| 0 <= j < rest.len() && rest[j] == r[i];
                assert(pairs[j] == r[i]);
            }
        }
    }
}

/// An object that is made of pairs gives for each key the value of the last pair
/// with that key.
pub proof fn last_pair_counts<V>(pairs: Seq<(Seq<char>, V)>, i: int)
    requires
        0 <= i < pairs.len(),
        forall|j: int| i < j < pairs.len() ==> (#[trigger] pairs[j]).0 != pairs[i].0,
    ensures
        lookup(object_of(pairs), pairs[i].0) == Some(pairs[i].1),
    decreases pairs.len(),
{
    let rest = pairs.drop_last();
    object_is_ordered(rest);
    lookup_after_put(object_of(rest), pairs.last().0, pairs.last().1, pairs[i].0);
    if i < rest.len() {
        last_pair_counts(rest, i);
    }
}

/// An object that is made of pairs has no other keys than those of the pairs.
pub proof fn no_other_keys<V>(pairs: Seq<(Seq<char>, V)>, key: Seq<char>)
    requires
        forall|j: int| 0 <= j < pairs.len() ==> (#[trigger] pairs[j]).0 != key,
    ensures
        lookup(object_of(pairs), key) is None,
    decreases pairs.len(),
{
    if pairs.len() > 0 {
        let rest = pairs.drop_last();
        object_is_ordered(rest);
        lookup_after_put(object_of(rest), pairs.last().0, pairs.last().1, key);
        no_other_keys(rest, key);
    }
}

/// Finds the value under a key.
pub fn find<'a>(entries: &'a Vec<(String, JsonValue)>, key: &str) -> (r: Option<&'a JsonValue>)
    ensures
        match r {
            Some(v) => lookup(entries_view(entries@), key@) == Some(v@),
            None => lookup(entries_view(entries@), key@) is None,
        },
{
    let ghost all = entries_view(entries@);
    let mut i: usize = 0;
    assert(all.skip(0) =~= all);
    while i < entries.len()
        invariant
            i <= entries@.len(),
            all == entries_view(entries@),
            lookup(all, key@) == lookup(all.skip(i as int), key@),
        decreases entries.len() - i,
    {
        assert(all.skip(i as int)[0] == (entries@[i as int].0@, entries@[i as int].1@));
        if same_text(&entries[i].0, key) {
            return Some(&entries[i].1);
        }
        assert(all.skip(i as int).skip(1) =~= all.skip(i + 1));
        i += 1;
    }
    None
}

/// The value under a key of an object.
pub open spec fn member(json: Json, key: Seq<char>) -> Option<Json> {
    match json {
        Json::Object(entries) => lookup(entries, key),
        _ => None,
    }
}

/// The value under a key, null where there is none.
pub open spec fn member_or_null(json: Json, key: Seq<char>) -> Json {
    match member(json, key) {
        Some(v) => v,
        None => Json::Null,
    }
}

/// Finds the value under a key of an object.
pub fn get<'a>(value: &'a JsonValue, key: &str) -> (r: Option<&'a JsonValue>)
    ensures
        match r {
            Some(v) => member(value@, key@) == Some(v@),
            None => member(value@, key@) is None,
        },
{
    match value {
        JsonValue::Object(entries) => {
            assert(value@ == Json::Object(entries_view(entries@)));
            find(entries, key)
        },
        _ => None,
    }
}

/// Copies the value under a key, null where there is none.
pub fn get_or_null(value: &JsonValue, key: &str) -> (r: JsonValue)
    ensures
        r@ == member_or_null(value@, key@),
{
    match get(value, key) {
        Some(v) => v.clone(),
        None => JsonValue::Null,
    }
}

/// Of two strings that first differ at a position, the one with the smaller
/// character there comes first.
pub proof fn first_difference_decides(a: Seq<char>, b: Seq<char>, k: int)
    requires
        0 <= k < a.len(),
        k < b.len(),
        forall|i: int| 0 <= i < k ==> (#[trigger] a[i]) == b[i],
        a[k] != b[k],
    ensures
        before(a, b) <==> a[k] < b[k],
    decreases k,
{
    if k > 0 {
        let x = a.skip(1);
        let y = b.skip(1);
        assert forall|i: int| 0 <= i < k - 1 implies (#[trigger] x[i]) == y[i] by {
            assert(a[i + 1] == b[i + 1]);
        }
        assert(a[0] == b[0]);
        first_difference_decides(x, y, k - 1);
    }
}

/// A string comes before every longer one that begins with it.
pub proof fn beginnings_come_first(a: Seq<char>, more: Seq<char>)
    requires
        more.len() > 0,
    ensures
        before(a, a + more),
        !before(a + more, a),
    decreases a.len(),
{
    if a.len() > 0 {
        beginnings_come_first(a.skip(1), more);
        assert((a + more).skip(1) =~= a.skip(1) + more);
    }
}

/// The first entry under a key is what is found there.
pub proof fn first_entry_is_found<V>(entries: Seq<(Seq<char>, V)>, i: int)
    requires
        0 <= i < entries.len(),
        forall|j: int| 0 <= j < i ==> (#[trigger] entries[j]).0 != entries[i].0,
    ensures
        lookup(entries, entries[i].0) == Some(entries[i].1),
    decreases i,
{
    if i > 0 {
        let rest = entries.skip(1);
        assert(entries[0].0 != entries[i].0);
        assert forall|j: int| 0 <= j < i - 1 implies (#[trigger] rest[j]).0 != rest[i - 1].0 by {
            assert(entries[j + 1].0 != entries[i].0);
        }
        first_entry_is_found(rest, i - 1);
    }
}

/// Under a key that no entry has nothing is found.
pub proof fn other_keys_are_not_found<V>(entries: Seq<(Seq<char>, V)>, key: Seq<char>)
    requires
        forall|j: int| 0 <= j < entries.len() ==> (#[trigger] entries[j]).0 != key,
    ensures
        lookup(entries, key) is None,
    decreases entries.len(),
{
    if entries.len() > 0 {
        let rest = entries.skip(1);
        assert(entries[0].0 != key);
        assert forall|j: int| 0 <= j < rest.len() implies (#[trigger] rest[j]).0 != key by {
            assert(entries[j + 1].0 != key);
        }
        other_keys_are_not_found(rest, key);
    }
}

/// Only an object has something under a key: what is found among its entries.
pub proof fn only_objects_have_members(json: Json, key: Seq<char>)
    ensures
        json matches Json::Object(entries) ==> member(json, key) == lookup(entries, key),
        !(json is Object) ==> member(json, key) is None,
        member(json, key) matches Some(v) ==> member_or_null(json, key) == v,
        member(json, key) is None ==> member_or_null(json, key) == Json::Null,
{
}

/// The keys of an object that is made of pairs increase from entry to entry, so
/// none occurs twice.
pub proof fn object_keys_increase<V>(pairs: Seq<(Seq<char>, V)>, i: int, j: int)
    requires
        0 <= i < j < object_of(pairs).len(),
    ensures
        before(object_of(pairs)[i].0, object_of(pairs)[j].0),
        object_of(pairs)[i].0 != object_of(pairs)[j].0,
{
    object_is_ordered(pairs);
    let a = object_of(pairs)[i].0;
    let b = object_of(pairs)[j].0;
    assert(before(a, b));
    before_is_total(a, b);
}

/// Of pairs with different keys, each is found in the object that is made of them.
pub proof fn each_pair_is_found<V>(pairs: Seq<(Seq<char>, V)>)
    requires
        forall|i: int, j: int|
            0 <= i < j < pairs.len() ==> (#[trigger] pairs[i]).0 != (#[trigger] pairs[j]).0,
    ensures
        forall|i: int|
            0 <= i < pairs.len() ==> lookup(object_of(pairs), (#[trigger] pairs[i]).0) == Some(
                pairs[i].1,
            ),
{
    assert forall|i: int| 0 <= i < pairs.len() implies lookup(
        object_of(pairs),
        (#[trigger] pairs[i]).0,
    ) == Some(pairs[i].1) by {
        last_pair_counts(pairs, i);
    }
}

/// An object has one entry more once something is put under a new key.
proof fn new_keys_add_an_entry<V>(entries: Seq<(Seq<char>, V)>, key: Seq<char>, value: V)
    requires
        lookup(entries, key) is None,
    ensures
        put(entries, key, value).len() == entries.len() + 1,
    decreases entries.len(),
{
    if entries.len() > 0 && entries[0].0 != key && !before(key, entries[0].0) {
        new_keys_add_an_entry(entries.skip(1), key, value);
    }
}

/// An object that is made of pairs with different keys has as many entries.
pub proof fn different_keys_all_stay<V>(pairs: Seq<(Seq<char>, V)>)
    requires
        forall|i: int, j: int|
            0 <= i < j < pairs.len() ==> (#[trigger] pairs[i]).0 != (#[trigger] pairs[j]).0,
    ensures
        object_of(pairs).len() == pairs.len(),
    decreases pairs.len(),
{
    if pairs.len() > 0 {
        let rest = pairs.drop_last();
        let last = pairs.len() - 1;
        assert forall|i: int, j: int| 0 <= i < j < rest.len() implies (#[trigger] rest[i]).0 != (
        #[trigger] rest[j]).0 by {
            assert(pairs[i].0 != pairs[j].0);
        }
        different_keys_all_stay(rest);
        assert forall|j: int| 0 <= j < rest.len() implies (#[trigger] rest[j]).0
            != pairs[last].0 by {
            assert(pairs[j].0 != pairs[last].0);
        }
        no_other_keys(rest, pairs[last].0);
        new_keys_add_an_entry(object_of(rest), pairs[last].0, pairs[last].1);
    }
}

} // verus!
