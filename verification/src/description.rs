//! What is asked of the description of a tokenizer before it is loaded: that
//! none of its parts can fail other than by saying so.

use vstd::prelude::*;

use crate::object::{get, lookup, member};
use crate::text::{chars_of, same_text};
use crate::value::{entries_view, items_view, Json, JsonValue};

verus! {

/// The largest id of a token, and the most tokens of a vocabulary or added to it.
pub const ID_LIMIT: u64 = 0x7fff_ffff;

/// The most ids to which a text is filled up.
pub const PADDING_LIMIT: u64 = 0x10_0000;

/// The unsigned integer that a number is, if it is one.
pub uninterp spec fn natural(n: serde_json::Number) -> Option<u64>;

/// `serde_json::Number::as_u64` gives a number as an unsigned integer, if it is
/// one that fits. Which numbers are is left to the name.
#[verifier::external_body]
fn as_natural(n: &serde_json::Number) -> (r: Option<u64>)
    ensures
        r == natural(*n),
{
    n.as_u64()
}

/// What a found value says.
pub open spec fn found(value: Option<&JsonValue>) -> Option<Json> {
    match value {
        Some(v) => Some(v@),
        None => None,
    }
}

/// Whether a value is left out or null.
pub open spec fn is_absent(value: Option<Json>) -> bool {
    value is None || value == Some(Json::Null)
}

/// Whether a value is the given string.
pub open spec fn is_text(value: Option<Json>, s: Seq<char>) -> bool {
    value == Some(Json::String(s))
}

/// Whether a value is a string that is not empty.
pub open spec fn is_some_text(value: Option<Json>) -> bool {
    value matches Some(Json::String(s)) && s.len() > 0
}

/// Whether a value is a truth value.
pub open spec fn is_truth_value(value: Option<Json>) -> bool {
    value matches Some(Json::Bool(_))
}

/// Whether a value is an unsigned integer in the given range.
pub open spec fn is_natural_in(value: Option<Json>, low: u64, high: u64) -> bool {
    value matches Some(Json::Number(n)) && natural(n) matches Some(k) && low <= k <= high
}

/// Tells whether a value is left out or null.
fn absent(value: Option<&JsonValue>) -> (r: bool)
    ensures
        r == is_absent(found(value)),
{
    match value {
        None => true,
        Some(JsonValue::Null) => true,
        _ => false,
    }
}

/// Tells whether a value is the given string.
fn text_is(value: Option<&JsonValue>, s: &str) -> (r: bool)
    ensures
        r == is_text(found(value), s@),
{
    match value {
        Some(JsonValue::String(t)) => same_text(t, s),
        _ => false,
    }
}

/// Tells whether a value is a string that is not empty.
fn some_text(value: Option<&JsonValue>) -> (r: bool)
    ensures
        r == is_some_text(found(value)),
{
    match value {
        Some(JsonValue::String(s)) => !s.as_str().is_empty(),
        _ => false,
    }
}

/// Tells whether a value is a truth value.
fn truth_value(value: Option<&JsonValue>) -> (r: bool)
    ensures
        r == is_truth_value(found(value)),
{
    match value {
        Some(JsonValue::Bool(_)) => true,
        _ => false,
    }
}

/// Tells whether a value is the given truth value.
fn truth_is(value: Option<&JsonValue>, wanted: bool) -> (r: bool)
    ensures
        r == (found(value) == Some(Json::Bool(wanted))),
{
    match value {
        Some(JsonValue::Bool(b)) => *b == wanted,
        _ => false,
    }
}

/// Tells whether a value is an unsigned integer in the given range.
fn natural_in(value: Option<&JsonValue>, low: u64, high: u64) -> (r: bool)
    ensures
        r == is_natural_in(found(value), low, high),
{
    match value {
        Some(JsonValue::Number(n)) => match as_natural(n) {
            Some(k) => low <= k && k <= high,
            None => false,
        },
        _ => false,
    }
}

/// Whether a pattern is a text to be found as it stands, rather than a regular
/// expression.
pub open spec fn is_literal(pattern: Option<Json>) -> bool {
    pattern matches Some(Json::Object(entries)) && entries.len() == 1 && entries[0].0 == "String"@
        && entries[0].1 is String
}

/// Tells whether a pattern is a text to be found as it stands.
fn literal(pattern: Option<&JsonValue>) -> (r: bool)
    ensures
        r == is_literal(found(pattern)),
{
    match pattern {
        Some(JsonValue::Object(entries)) => {
            assert(found(pattern) == Some(Json::Object(entries_view(entries@))));
            if entries.len() != 1 || !same_text(&entries[0].0, "String") {
                return false;
            }
            match &entries[0].1 {
                JsonValue::String(_) => true,
                _ => false,
            }
        },
        _ => false,
    }
}

/// A list of parts of a tokenizer that a text goes through one after the other.
#[derive(Debug, PartialEq, Eq, Structural, Clone, Copy)]
pub enum Stage {
    /// Normalizers; the flag tells whether they may leave nothing of a text.
    Normalizer { may_erase: bool },
    PreTokenizer,
    PostProcessor,
}

/// The key under which a part lists further parts.
pub open spec fn parts_key(stage: Stage) -> Seq<char> {
    match stage {
        Stage::Normalizer { .. } => "normalizers"@,
        Stage::PreTokenizer => "pretokenizers"@,
        Stage::PostProcessor => "processors"@,
    }
}

/// Whether normalizers of a type always leave something of a text.
pub open spec fn keeps_text(t: Option<Json>) -> bool {
    ||| is_text(t, "Sequence"@)
    ||| is_text(t, "NFC"@)
    ||| is_text(t, "NFD"@)
    ||| is_text(t, "NFKC"@)
    ||| is_text(t, "NFKD"@)
    ||| is_text(t, "Lowercase"@)
    ||| is_text(t, "ByteLevel"@)
}

/// Whether normalizers of a type take characters away, and do nothing worse.
pub open spec fn takes_away(t: Option<Json>) -> bool {
    ||| is_text(t, "Strip"@)
    ||| is_text(t, "StripAccents"@)
    ||| is_text(t, "Nmt"@)
    ||| is_text(t, "Bert"@)
}

/// Whether a description has what makes it one of a BERT normalizer, whichever
/// way it is read.
pub open spec fn is_bert_normalizer(json: Json) -> bool {
    &&& is_text(member(json, "type"@), "BertNormalizer"@)
    &&& is_truth_value(member(json, "clean_text"@))
    &&& is_truth_value(member(json, "handle_chinese_chars"@))
    &&& is_truth_value(member(json, "lowercase"@))
    &&& is_absent(member(json, "strip_accents"@)) || is_truth_value(member(json, "strip_accents"@))
}

/// Whether a description is one of a replacement of a text that is found as it
/// stands.
pub open spec fn is_literal_replacement(json: Json, may_erase: bool) -> bool {
    &&& is_text(member(json, "type"@), "Replace"@)
    &&& is_literal(member(json, "pattern"@))
    &&& !is_empty_literal(member(json, "pattern"@))
    &&& may_erase || is_some_text(member(json, "content"@))
}

/// Whether a pattern is the empty text.
pub open spec fn is_empty_literal(pattern: Option<Json>) -> bool {
    pattern matches Some(Json::Object(entries)) && entries[0].1 == Json::String(Seq::empty())
}

/// Whether a normalizer, but for the parts that it lists, goes through every
/// text.
pub open spec fn normalizer_holds(json: Json, may_erase: bool) -> bool {
    ||| keeps_text(member(json, "type"@))
    ||| may_erase && takes_away(member(json, "type"@))
    ||| may_erase && is_bert_normalizer(json)
    ||| is_text(member(json, "type"@), "Prepend"@) && is_some_text(member(json, "prepend"@))
    ||| is_literal_replacement(json, may_erase)
}

/// Whether pre-tokenizers of a type go through every text.
pub open spec fn splits_safely(t: Option<Json>) -> bool {
    ||| is_text(t, "Sequence"@)
    ||| is_text(t, "BertPreTokenizer"@)
    ||| is_text(t, "ByteLevel"@)
    ||| is_text(t, "CharDelimiterSplit"@)
    ||| is_text(t, "Metaspace"@)
    ||| is_text(t, "Whitespace"@)
    ||| is_text(t, "Punctuation"@)
    ||| is_text(t, "WhitespaceSplit"@)
    ||| is_text(t, "Digits"@)
    ||| is_text(t, "UnicodeScripts"@)
}

/// Whether a pre-tokenizer, but for the parts that it lists, goes through every
/// text.
pub open spec fn pre_tokenizer_holds(json: Json) -> bool {
    ||| splits_safely(member(json, "type"@))
    ||| is_text(member(json, "type"@), "FixedLength"@) && (member(json, "length"@) is None
        || is_natural_in(member(json, "length"@), 1, u64::MAX))
    ||| is_text(member(json, "type"@), "Split"@) && is_literal(member(json, "pattern"@))
}

/// Whether a piece of a template stands for the one text that is encoded.
pub open spec fn is_sequence_piece(piece: Json) -> bool {
    piece matches Json::Object(entries) && entries.len() == 1 && entries[0].0 == "Sequence"@
        && is_text(member(entries[0].1, "id"@), "A"@)
}

/// Whether a piece of a template stands for a special token.
pub open spec fn is_token_piece(piece: Json) -> bool {
    piece matches Json::Object(entries) && entries.len() == 1 && entries[0].0 == "SpecialToken"@
}

/// The number of pieces that stand for the text.
pub open spec fn sequence_pieces(pieces: Seq<Json>) -> nat
    decreases pieces.len(),
{
    if pieces.len() == 0 {
        0
    } else {
        sequence_pieces(pieces.drop_last()) + if is_sequence_piece(pieces.last()) {
            1nat
        } else {
            0nat
        }
    }
}

/// Whether a post-processor, but for the parts that it lists, goes through one
/// encoding: a template has the text exactly once, and no second text.
pub open spec fn post_processor_holds(json: Json) -> bool {
    match member(json, "single"@) {
        None => true,
        Some(Json::Array(pieces)) => {
            &&& forall|i: int|
                0 <= i < pieces.len() ==> is_sequence_piece(#[trigger] pieces[i]) || is_token_piece(
                    pieces[i],
                )
            &&& sequence_pieces(pieces) == 1
        },
        _ => false,
    }
}

/// Whether a part, but for the parts that it lists, goes through every text.
pub open spec fn part_holds(stage: Stage, json: Json) -> bool {
    match stage {
        Stage::Normalizer { may_erase } => normalizer_holds(json, may_erase),
        Stage::PreTokenizer => pre_tokenizer_holds(json),
        Stage::PostProcessor => post_processor_holds(json),
    }
}

/// Whether a part, with all the parts that it lists, goes through every text.
pub open spec fn is_harmless_part(stage: Stage, json: Json) -> bool
    decreases json,
{
    match json {
        Json::Object(entries) => {
            &&& part_holds(stage, json)
            &&& forall|i: int|
                0 <= i < entries.len() ==> (#[trigger] entries[i]).0 != parts_key(stage)
                    || are_harmless_parts(stage, entries[i].1)
        },
        _ => false,
    }
}

/// Whether all the parts in a list go through every text.
pub open spec fn are_harmless_parts(stage: Stage, json: Json) -> bool
    decreases json,
{
    match json {
        Json::Array(items) => forall|i: int|
            0 <= i < items.len() ==> is_harmless_part(stage, #[trigger] items[i]),
        _ => false,
    }
}

/// Tells whether a normalizer, but for the parts that it lists, goes through
/// every text.
fn check_normalizer(value: &JsonValue, may_erase: bool) -> (r: bool)
    ensures
        r == normalizer_holds(value@, may_erase),
{
    let t = get(value, "type");
    if text_is(t, "Sequence") || text_is(t, "NFC") || text_is(t, "NFD") || text_is(t, "NFKC")
        || text_is(t, "NFKD") || text_is(t, "Lowercase") || text_is(t, "ByteLevel") {
        return true;
    }
    if text_is(t, "Prepend") && some_text(get(value, "prepend")) {
        return true;
    }
    if text_is(t, "Replace") && check_replacement(value, may_erase) {
        return true;
    }
    if !may_erase {
        return false;
    }
    if text_is(t, "Strip") || text_is(t, "StripAccents") || text_is(t, "Nmt") || text_is(
        t,
        "Bert",
    ) {
        return true;
    }
    text_is(t, "BertNormalizer") && truth_value(get(value, "clean_text")) && truth_value(
        get(value, "handle_chinese_chars"),
    ) && truth_value(get(value, "lowercase")) && (absent(get(value, "strip_accents"))
        || truth_value(get(value, "strip_accents")))
}

/// Tells whether a replacement is one of a text that is found as it stands.
fn check_replacement(value: &JsonValue, may_erase: bool) -> (r: bool)
    ensures
        is_text(member(value@, "type"@), "Replace"@) ==> r == is_literal_replacement(
            value@,
            may_erase,
        ),
{
    let pattern = get(value, "pattern");
    if !literal(pattern) || !(may_erase || some_text(get(value, "content"))) {
        return false;
    }
    match pattern {
        Some(JsonValue::Object(entries)) => {
            assert(found(pattern) == Some(Json::Object(entries_view(entries@))));
            match &entries[0].1 {
                JsonValue::String(s) => {
                    assert(s@.len() == 0 ==> s@ =~= Seq::<char>::empty());
                    !s.as_str().is_empty()
                },
                _ => false,
            }
        },
        _ => false,
    }
}

/// Tells whether a pre-tokenizer, but for the parts that it lists, goes through
/// every text.
fn check_pre_tokenizer(value: &JsonValue) -> (r: bool)
    ensures
        r == pre_tokenizer_holds(value@),
{
    let t = get(value, "type");
    if text_is(t, "Sequence") || text_is(t, "BertPreTokenizer") || text_is(t, "ByteLevel")
        || text_is(t, "CharDelimiterSplit") || text_is(t, "Metaspace") || text_is(t, "Whitespace")
        || text_is(t, "Punctuation") || text_is(t, "WhitespaceSplit") || text_is(t, "Digits")
        || text_is(t, "UnicodeScripts") {
        return true;
    }
    if text_is(t, "FixedLength") && (get(value, "length").is_none() || natural_in(
        get(value, "length"),
        1,
        u64::MAX,
    )) {
        return true;
    }
    text_is(t, "Split") && literal(get(value, "pattern"))
}

/// Tells whether a piece of a template stands for the one text that is encoded.
fn sequence_piece(piece: &JsonValue) -> (r: bool)
    ensures
        r == is_sequence_piece(piece@),
{
    match piece {
        JsonValue::Object(entries) => {
            assert(piece@ == Json::Object(entries_view(entries@)));
            entries.len() == 1 && same_text(&entries[0].0, "Sequence") && text_is(
                get(&entries[0].1, "id"),
                "A",
            )
        },
        _ => false,
    }
}

/// Tells whether a piece of a template stands for a special token.
fn token_piece(piece: &JsonValue) -> (r: bool)
    ensures
        r == is_token_piece(piece@),
{
    match piece {
        JsonValue::Object(entries) => {
            assert(piece@ == Json::Object(entries_view(entries@)));
            entries.len() == 1 && same_text(&entries[0].0, "SpecialToken")
        },
        _ => false,
    }
}

/// Tells whether a post-processor, but for the parts that it lists, goes through
/// one encoding.
fn check_post_processor(value: &JsonValue) -> (r: bool)
    ensures
        r == post_processor_holds(value@),
{
    let single = get(value, "single");
    match single {
        None => true,
        Some(JsonValue::Array(pieces)) => {
            let ghost all = items_view(pieces@);
            assert(found(single) == Some(Json::Array(all)));
            let mut count: usize = 0;
            let mut i: usize = 0;
            while i < pieces.len()
                invariant
                    i <= pieces@.len(),
                    count <= i,
                    all == items_view(pieces@),
                    member(value@, "single"@) == Some(Json::Array(all)),
                    count == sequence_pieces(all.take(i as int)),
                    forall|j: int|
                        0 <= j < i ==> is_sequence_piece(#[trigger] all[j]) || is_token_piece(
                            all[j],
                        ),
                decreases pieces.len() - i,
            {
                assert(all.take(i + 1).drop_last() =~= all.take(i as int));
                assert(all.take(i + 1).last() == all[i as int]);
                assert(all[i as int] == pieces@[i as int]@);
                if sequence_piece(&pieces[i]) {
                    count += 1;
                } else if !token_piece(&pieces[i]) {
                    return false;
                }
                i += 1;
            }
            assert(all.take(i as int) =~= all);
            count == 1
        },
        _ => false,
    }
}

/// Tells whether a part, but for the parts that it lists, goes through every
/// text.
fn check_part(stage: Stage, value: &JsonValue) -> (r: bool)
    ensures
        r == part_holds(stage, value@),
{
    match stage {
        Stage::Normalizer { may_erase } => check_normalizer(value, may_erase),
        Stage::PreTokenizer => check_pre_tokenizer(value),
        Stage::PostProcessor => check_post_processor(value),
    }
}

/// Gives the key under which a part lists further parts.
fn key_of_parts(stage: Stage) -> (r: &'static str)
    ensures
        r@ == parts_key(stage),
{
    match stage {
        Stage::Normalizer { .. } => "normalizers",
        Stage::PreTokenizer => "pretokenizers",
        Stage::PostProcessor => "processors",
    }
}

/// Tells whether a part, with all the parts that it lists, goes through every
/// text.
fn check_parts(stage: Stage, value: &JsonValue) -> (r: bool)
    ensures
        r == is_harmless_part(stage, value@),
    decreases value,
{
    match value {
        JsonValue::Object(entries) => {
            let ghost all = entries_view(entries@);
            assert(value@ == Json::Object(all));
            if !check_part(stage, value) {
                return false;
            }
            let key = key_of_parts(stage);
            let mut i: usize = 0;
            while i < entries.len()
                invariant
                    i <= entries@.len(),
                    all == entries_view(entries@),
                    value@ == Json::Object(all),
                    *value == JsonValue::Object(*entries),
                    key@ == parts_key(stage),
                    part_holds(stage, value@),
                    forall|j: int|
                        0 <= j < i ==> (#[trigger] all[j]).0 != parts_key(stage)
                            || are_harmless_parts(stage, all[j].1),
                decreases entries.len() - i,
            {
                assert(all[i as int] == (entries@[i as int].0@, entries@[i as int].1@));
                if same_text(&entries[i].0, key) && !check_list(stage, &entries[i].1) {
                    assert(value@->Object_0[i as int].0 == parts_key(stage));
                    return false;
                }
                i += 1;
            }
            true
        },
        _ => false,
    }
}

/// Tells whether all the parts in a list go through every text.
fn check_list(stage: Stage, value: &JsonValue) -> (r: bool)
    ensures
        r == are_harmless_parts(stage, value@),
    decreases value,
{
    match value {
        JsonValue::Array(items) => {
            let ghost all = items_view(items@);
            assert(value@ == Json::Array(all));
            let mut i: usize = 0;
            while i < items.len()
                invariant
                    i <= items@.len(),
                    all == items_view(items@),
                    value@ == Json::Array(all),
                    *value == JsonValue::Array(*items),
                    forall|j: int| 0 <= j < i ==> is_harmless_part(stage, #[trigger] all[j]),
                decreases items.len() - i,
            {
                assert(all[i as int] == items@[i as int]@);
                if !check_parts(stage, &items[i]) {
                    assert(!is_harmless_part(stage, value@->Array_0[i as int]));
                    return false;
                }
                i += 1;
            }
            true
        },
        _ => false,
    }
}

/// Whether a part of a description is left out, or goes through every text.
pub open spec fn is_harmless_or_absent(stage: Stage, value: Option<Json>) -> bool {
    is_absent(value) || (value matches Some(json) && is_harmless_part(stage, json))
}

/// Tells whether a part of a description is left out, or goes through every text.
fn check_if_present(stage: Stage, value: Option<&JsonValue>) -> (r: bool)
    ensures
        r == is_harmless_or_absent(stage, found(value)),
{
    absent(value) || match value {
        Some(v) => check_parts(stage, v),
        None => false,
    }
}

/// Whether all the ids of a vocabulary are within the limit.
pub open spec fn ids_are_bounded(entries: Seq<(Seq<char>, Json)>) -> bool {
    forall|i: int|
        0 <= i < entries.len() ==> is_natural_in(Some((#[trigger] entries[i]).1), 0, ID_LIMIT)
}

/// Tells whether all the ids of a vocabulary are within the limit.
fn check_ids(entries: &Vec<(String, JsonValue)>) -> (r: bool)
    ensures
        r == ids_are_bounded(entries_view(entries@)),
{
    let ghost all = entries_view(entries@);
    let mut i: usize = 0;
    while i < entries.len()
        invariant
            i <= entries@.len(),
            all == entries_view(entries@),
            forall|j: int|
                0 <= j < i ==> is_natural_in(Some((#[trigger] all[j]).1), 0, ID_LIMIT),
        decreases entries.len() - i,
    {
        assert(all[i as int].1 == entries@[i as int].1@);
        if !natural_in(Some(&entries[i].1), 0, ID_LIMIT) {
            return false;
        }
        i += 1;
    }
    true
}

/// Whether a vocabulary is within the limit: one that gives each token its id, or
/// one that numbers its tokens in their order.
pub open spec fn is_bounded_vocabulary(vocab: Option<Json>) -> bool {
    match vocab {
        Some(Json::Object(entries)) => entries.len() <= ID_LIMIT && ids_are_bounded(entries),
        Some(Json::Array(items)) => items.len() <= ID_LIMIT,
        _ => false,
    }
}

/// Tells whether a vocabulary is within the limit.
fn check_vocabulary(vocab: Option<&JsonValue>) -> (r: bool)
    ensures
        r == is_bounded_vocabulary(found(vocab)),
{
    match vocab {
        Some(JsonValue::Object(entries)) => {
            assert(found(vocab) == Some(Json::Object(entries_view(entries@))));
            entries.len() as u64 <= ID_LIMIT && check_ids(entries)
        },
        Some(JsonValue::Array(items)) => {
            assert(found(vocab) == Some(Json::Array(items_view(items@))));
            items.len() as u64 <= ID_LIMIT
        },
        _ => false,
    }
}

/// The number of bytes that a character takes in UTF-8.
pub open spec fn char_bytes(c: char) -> nat {
    if (c as u32) < 0x80 {
        1
    } else if (c as u32) < 0x800 {
        2
    } else if (c as u32) < 0x1_0000 {
        3
    } else {
        4
    }
}

/// The number of bytes that a text takes in UTF-8.
pub open spec fn byte_count(s: Seq<char>) -> nat
    decreases s.len(),
{
    if s.len() == 0 {
        0
    } else {
        byte_count(s.drop_last()) + char_bytes(s.last())
    }
}

/// Whether a text can be cut behind its first `n` bytes.
pub open spec fn cuts_at(s: Seq<char>, n: nat) -> bool {
    exists|k: int| 0 <= k <= s.len() && #[trigger] byte_count(s.take(k)) == n
}

/// The part of a text behind its last blank, or all of it where it has none.
pub open spec fn behind_blank(s: Seq<char>) -> Seq<char>
    decreases s.len(),
{
    if s.len() == 0 || s.last() == ' ' {
        Seq::empty()
    } else {
        behind_blank(s.drop_last()).push(s.last())
    }
}

/// Whether a prefix of the given number of bytes can be cut from the right side of
/// a merge.
pub open spec fn merge_fits(merge: Json, n: nat) -> bool {
    match merge {
        Json::String(s) => cuts_at(behind_blank(s), n),
        Json::Array(sides) => sides.len() == 2 && sides[1] is String && cuts_at(
            sides[1]->String_0,
            n,
        ),
        _ => false,
    }
}

/// Whether the prefix of a model, if it has one, can be cut from the right sides of
/// all its merges, if it has any.
pub open spec fn merges_fit(prefix: Option<Json>, merges: Option<Json>) -> bool {
    match prefix {
        Some(Json::String(p)) => match merges {
            Some(Json::Array(items)) => forall|i: int|
                0 <= i < items.len() ==> merge_fits(#[trigger] items[i], byte_count(p)),
            _ => is_absent(merges),
        },
        _ => is_absent(prefix),
    }
}

/// Counts the bytes that a character takes in UTF-8.
fn bytes_of_char(c: char) -> (r: u128)
    ensures
        r == char_bytes(c),
        r <= 4,
{
    if (c as u32) < 0x80 {
        1
    } else if (c as u32) < 0x800 {
        2
    } else if (c as u32) < 0x1_0000 {
        3
    } else {
        4
    }
}

/// Counts the bytes that a text takes in UTF-8.
fn count_bytes(s: &str) -> (r: u128)
    ensures
        r == byte_count(s@),
{
    let chars = chars_of(s);
    let mut r: u128 = 0;
    let mut i: usize = 0;
    while i < chars.len()
        invariant
            i <= chars@.len(),
            chars@ == s@,
            r == byte_count(s@.take(i as int)),
            r <= 4 * i,
        decreases chars.len() - i,
    {
        assert(s@.take(i + 1).drop_last() =~= s@.take(i as int));
        r = r + bytes_of_char(chars[i]);
        i += 1;
    }
    assert(s@.take(i as int) =~= s@);
    r
}

/// Tells whether a text from the given position on can be cut behind its first `n`
/// bytes.
fn check_cut(chars: &Vec<char>, from: usize, n: u128) -> (r: bool)
    requires
        from <= chars@.len(),
    ensures
        r == cuts_at(chars@.skip(from as int), n as nat),
{
    let ghost rest = chars@.skip(from as int);
    let mut count: u128 = 0;
    let mut i: usize = from;
    assert(rest.take(0).len() == 0);
    while i < chars.len()
        invariant
            from <= i <= chars@.len(),
            rest == chars@.skip(from as int),
            count == byte_count(rest.take(i - from)),
            count <= 4 * (i - from),
            forall|k: int|
                0 <= k < i - from ==> #[trigger] byte_count(rest.take(k)) != n,
        decreases chars.len() - i,
    {
        if count == n {
            return true;
        }
        assert(rest.take(i - from + 1).drop_last() =~= rest.take(i - from));
        assert(rest.take(i - from + 1).last() == chars@[i as int]);
        count = count + bytes_of_char(chars[i]);
        i += 1;
    }
    count == n
}

/// Finds where the part of a text behind its last blank begins.
fn blank_end(chars: &Vec<char>) -> (r: usize)
    ensures
        r <= chars@.len(),
        behind_blank(chars@) == chars@.skip(r as int),
{
    let mut i: usize = chars.len();
    assert(chars@.take(i as int) + chars@.skip(i as int) =~= chars@);
    assert(behind_blank(chars@) =~= behind_blank(chars@.take(i as int)) + chars@.skip(i as int))
        by {
        assert(chars@.take(i as int) =~= chars@);
    }
    while i > 0
        invariant
            i <= chars@.len(),
            behind_blank(chars@) == behind_blank(chars@.take(i as int)) + chars@.skip(i as int),
        decreases i,
    {
        let ghost before = chars@.take(i as int);
        if chars[i - 1] == ' ' {
            assert(behind_blank(before) =~= Seq::<char>::empty());
            assert(behind_blank(chars@) =~= chars@.skip(i as int));
            return i;
        }
        assert(before.drop_last() =~= chars@.take(i - 1));
        assert(behind_blank(chars@) =~= behind_blank(chars@.take(i - 1)) + chars@.skip(i - 1));
        i -= 1;
    }
    assert(behind_blank(chars@) =~= chars@.skip(0));
    i
}

/// Tells whether a prefix of the given number of bytes can be cut from the right
/// side of a merge.
fn check_merge(merge: &JsonValue, n: u128) -> (r: bool)
    ensures
        r == merge_fits(merge@, n as nat),
{
    match merge {
        JsonValue::String(s) => {
            let chars = chars_of(s);
            let from: usize = blank_end(&chars);
            check_cut(&chars, from, n)
        },
        JsonValue::Array(sides) => {
            assert(merge@ == Json::Array(items_view(sides@)));
            if sides.len() != 2 {
                return false;
            }
            assert(items_view(sides@)[1] == sides@[1]@);
            match &sides[1] {
                JsonValue::String(s) => {
                    let chars = chars_of(s);
                    assert(chars@.skip(0) =~= s@);
                    check_cut(&chars, 0, n)
                },
                _ => false,
            }
        },
        _ => false,
    }
}

/// Tells whether the prefix of a model can be cut from the right sides of all its
/// merges.
fn check_merges(prefix: Option<&JsonValue>, merges: Option<&JsonValue>) -> (r: bool)
    ensures
        r == merges_fit(found(prefix), found(merges)),
{
    match prefix {
        Some(JsonValue::String(p)) => match merges {
            Some(JsonValue::Array(items)) => {
                let n: u128 = count_bytes(p);
                let ghost all = items_view(items@);
                assert(found(merges) == Some(Json::Array(all)));
                let mut i: usize = 0;
                while i < items.len()
                    invariant
                        i <= items@.len(),
                        all == items_view(items@),
                        found(prefix) == Some(Json::String(p@)),
                        found(merges) == Some(Json::Array(all)),
                        n == byte_count(p@),
                        forall|j: int|
                            0 <= j < i ==> merge_fits(#[trigger] all[j], byte_count(p@)),
                    decreases items.len() - i,
                {
                    assert(all[i as int] == items@[i as int]@);
                    if !check_merge(&items[i], n) {
                        let ghost merge = found(merges)->Some_0->Array_0[i as int];
                        assert(!merge_fits(merge, byte_count(p@)));
                        return false;
                    }
                    i += 1;
                }
                true
            },
            _ => absent(merges),
        },
        _ => absent(prefix),
    }
}

/// Whether a model can be built, or is refused, and goes through every text: its
/// vocabulary is within the limit, and where it may have merges they go with its
/// prefix.
pub open spec fn is_harmless_model(model: Option<Json>) -> bool {
    match model {
        Some(json) => {
            let t = member(json, "type"@);
            &&& is_bounded_vocabulary(member(json, "vocab"@))
            &&& is_text(t, "WordPiece"@) || is_text(t, "WordLevel"@) || is_text(t, "Unigram"@)
                || merges_fit(
                member(json, "continuing_subword_prefix"@),
                member(json, "merges"@),
            )
        },
        None => false,
    }
}

/// Tells whether a model can be built, or is refused, and goes through every text.
fn check_model(model: Option<&JsonValue>) -> (r: bool)
    ensures
        r == is_harmless_model(found(model)),
{
    match model {
        Some(value) => {
            let t = get(value, "type");
            check_vocabulary(get(value, "vocab")) && (text_is(t, "WordPiece") || text_is(
                t,
                "WordLevel",
            ) || text_is(t, "Unigram") || check_merges(
                get(value, "continuing_subword_prefix"),
                get(value, "merges"),
            ))
        },
        None => false,
    }
}

/// Whether none of the added tokens has a flag set.
pub open spec fn none_has(tokens: Seq<Json>, flag: Seq<char>) -> bool {
    forall|i: int|
        0 <= i < tokens.len() ==> member(#[trigger] tokens[i], flag) == Some(Json::Bool(false))
}

/// Tells whether none of the added tokens has a flag set.
fn check_flag(tokens: &Vec<JsonValue>, flag: &str) -> (r: bool)
    ensures
        r == none_has(items_view(tokens@), flag@),
{
    let ghost all = items_view(tokens@);
    let mut i: usize = 0;
    while i < tokens.len()
        invariant
            i <= tokens@.len(),
            all == items_view(tokens@),
            forall|j: int|
                0 <= j < i ==> member(#[trigger] all[j], flag@) == Some(Json::Bool(false)),
        decreases tokens.len() - i,
    {
        assert(all[i as int] == tokens@[i as int]@);
        if !truth_is(get(&tokens[i], flag), false) {
            return false;
        }
        i += 1;
    }
    true
}

/// Whether a text has a printed character of ASCII.
pub open spec fn is_visible(s: Seq<char>) -> bool {
    exists|k: int| 0 <= k < s.len() && is_printed(#[trigger] s[k])
}

/// Whether a character is a printed one of ASCII.
pub open spec fn is_printed(c: char) -> bool {
    0x20 < c as u32 && (c as u32) < 0x7f
}

/// Whether all added tokens have a printed character.
pub open spec fn are_visible(tokens: Seq<Json>) -> bool {
    forall|i: int|
        0 <= i < tokens.len() ==> is_visible_text(member(#[trigger] tokens[i], "content"@))
}

/// Whether a value is a string with a printed character.
pub open spec fn is_visible_text(value: Option<Json>) -> bool {
    value matches Some(Json::String(s)) && is_visible(s)
}

/// Tells whether a value is a string with a printed character.
fn visible_text(value: Option<&JsonValue>) -> (r: bool)
    ensures
        r == is_visible_text(found(value)),
{
    match value {
        Some(JsonValue::String(s)) => {
            let chars = chars_of(s);
            let mut i: usize = 0;
            while i < chars.len()
                invariant
                    i <= chars@.len(),
                    chars@ == s@,
                    found(value) == Some(Json::String(s@)),
                    forall|k: int| 0 <= k < i ==> !is_printed(#[trigger] s@[k]),
                decreases chars.len() - i,
            {
                let c: u32 = chars[i] as u32;
                if 0x20 < c && c < 0x7f {
                    assert(is_printed(s@[i as int]));
                    return true;
                }
                i += 1;
            }
            false
        },
        _ => false,
    }
}

/// Tells whether all added tokens have a printed character.
fn check_visible(tokens: &Vec<JsonValue>) -> (r: bool)
    ensures
        r == are_visible(items_view(tokens@)),
{
    let ghost all = items_view(tokens@);
    let mut i: usize = 0;
    while i < tokens.len()
        invariant
            i <= tokens@.len(),
            all == items_view(tokens@),
            forall|j: int|
                0 <= j < i ==> is_visible_text(member(#[trigger] all[j], "content"@)),
        decreases tokens.len() - i,
    {
        assert(all[i as int] == tokens@[i as int]@);
        if !visible_text(get(&tokens[i], "content")) {
            return false;
        }
        i += 1;
    }
    true
}

/// Whether added tokens can be told apart in every text. Where some of them take
/// the white space before them along, and some that behind them, none may lie in
/// white space as it is looked for.
pub open spec fn are_harmless_tokens(tokens: Option<Json>, as_given: bool) -> bool {
    is_absent(tokens) || (tokens matches Some(Json::Array(items)) && items.len() <= ID_LIMIT && (
    none_has(items, "lstrip"@) || none_has(items, "rstrip"@) || (as_given && are_visible(items))))
}

/// Whether no added token is looked for in a normalized text.
pub open spec fn are_unnormalized(tokens: Option<Json>) -> bool {
    is_absent(tokens) || (tokens matches Some(Json::Array(items)) && none_has(
        items,
        "normalized"@,
    ))
}

/// Tells whether added tokens can be told apart in every text.
fn check_tokens(tokens: Option<&JsonValue>, as_given: bool) -> (r: bool)
    ensures
        r == are_harmless_tokens(found(tokens), as_given),
{
    match tokens {
        Some(JsonValue::Array(items)) => {
            assert(found(tokens) == Some(Json::Array(items_view(items@))));
            items.len() as u64 <= ID_LIMIT && (check_flag(items, "lstrip") || check_flag(
                items,
                "rstrip",
            ) || (as_given && check_visible(items)))
        },
        _ => absent(tokens),
    }
}

/// Tells whether no added token is looked for in a normalized text.
fn check_unnormalized(tokens: Option<&JsonValue>) -> (r: bool)
    ensures
        r == are_unnormalized(found(tokens)),
{
    match tokens {
        Some(JsonValue::Array(items)) => {
            assert(found(tokens) == Some(Json::Array(items_view(items@))));
            check_flag(items, "normalized")
        },
        _ => absent(tokens),
    }
}

/// Whether texts are filled up to no more than the limit, if at all.
pub open spec fn is_bounded_padding(padding: Option<Json>) -> bool {
    is_absent(padding) || (padding matches Some(json) && {
        let strategy = member(json, "strategy"@);
        let multiple = member(json, "pad_to_multiple_of"@);
        &&& is_text(strategy, "BatchLongest"@) || (strategy matches Some(fixed) && is_natural_in(
            member(fixed, "Fixed"@),
            0,
            PADDING_LIMIT,
        ))
        &&& is_absent(multiple) || is_natural_in(multiple, 0, PADDING_LIMIT)
    })
}

/// Tells whether texts are filled up to no more than the limit, if at all.
fn check_padding(padding: Option<&JsonValue>) -> (r: bool)
    ensures
        r == is_bounded_padding(found(padding)),
{
    if absent(padding) {
        return true;
    }
    match padding {
        Some(value) => {
            let strategy = get(value, "strategy");
            let multiple = get(value, "pad_to_multiple_of");
            let bounded = text_is(strategy, "BatchLongest") || match strategy {
                Some(fixed) => natural_in(get(fixed, "Fixed"), 0, PADDING_LIMIT),
                None => false,
            };
            bounded && (absent(multiple) || natural_in(multiple, 0, PADDING_LIMIT))
        },
        None => false,
    }
}

/// Whether texts can be cut as asked for, if at all: to nothing, or to more than
/// the stride.
pub open spec fn is_possible_truncation(truncation: Option<Json>) -> bool {
    is_absent(truncation) || (truncation matches Some(json) && {
        let max_length = member(json, "max_length"@);
        let stride = member(json, "stride"@);
        &&& max_length matches Some(Json::Number(m)) && natural(m) matches Some(length) && (length
            == 0 || (length > 0 && is_natural_in(stride, 0, (length - 1) as u64)))
    })
}

/// Tells whether texts can be cut as asked for, if at all.
fn check_truncation(truncation: Option<&JsonValue>) -> (r: bool)
    ensures
        r == is_possible_truncation(found(truncation)),
{
    if absent(truncation) {
        return true;
    }
    match truncation {
        Some(value) => match get(value, "max_length") {
            Some(JsonValue::Number(m)) => match as_natural(m) {
                Some(length) => length == 0 || natural_in(get(value, "stride"), 0, length - 1),
                None => false,
            },
            _ => false,
        },
        None => false,
    }
}

/// Whether a tokenizer can be loaded from a description, or is refused, and then
/// goes through every text.
pub open spec fn is_harmless(json: Json) -> bool {
    let tokens = member(json, "added_tokens"@);
    let normalizer = member(json, "normalizer"@);
    &&& is_harmless_or_absent(
        Stage::Normalizer { may_erase: are_unnormalized(tokens) },
        normalizer,
    )
    &&& is_harmless_or_absent(Stage::PreTokenizer, member(json, "pre_tokenizer"@))
    &&& is_harmless_or_absent(Stage::PostProcessor, member(json, "post_processor"@))
    &&& is_harmless_model(member(json, "model"@))
    &&& are_harmless_tokens(tokens, are_unnormalized(tokens) || is_absent(normalizer))
    &&& is_bounded_padding(member(json, "padding"@))
    &&& is_possible_truncation(member(json, "truncation"@))
}

/// Tells whether a tokenizer can be loaded from a description, or is refused, and
/// then goes through every text.
pub fn check_description(value: &JsonValue) -> (r: bool)
    ensures
        r == is_harmless(value@),
{
    let tokens = get(value, "added_tokens");
    let normalizer = get(value, "normalizer");
    let may_erase = check_unnormalized(tokens);
    check_if_present(Stage::Normalizer { may_erase }, normalizer) && check_if_present(
        Stage::PreTokenizer,
        get(value, "pre_tokenizer"),
    ) && check_if_present(Stage::PostProcessor, get(value, "post_processor")) && check_model(
        get(value, "model"),
    ) && check_tokens(tokens, may_erase || absent(normalizer)) && check_padding(
        get(value, "padding"),
    ) && check_truncation(get(value, "truncation"))
}

/// Whether a description has a model that drops no merges at random.
pub open spec fn drops_nothing(json: Json) -> bool {
    member(json, "model"@) matches Some(model) && is_absent(member(model, "dropout"@))
}

/// Which normalizers that list no further parts are let in. Those that may leave
/// nothing of a text are only where they may.
pub proof fn let_in_normalizers(entries: Seq<(Seq<char>, Json)>, may_erase: bool, t: Seq<char>)
    requires
        lookup(entries, "type"@) == Some(Json::String(t)),
        forall|i: int| 0 <= i < entries.len() ==> (#[trigger] entries[i]).0 != "normalizers"@,
    ensures
        is_harmless_part(Stage::Normalizer { may_erase }, Json::Object(entries)) <==> {
            ||| t == "Sequence"@ || t == "NFC"@ || t == "NFD"@ || t == "NFKC"@ || t == "NFKD"@
            ||| t == "Lowercase"@ || t == "ByteLevel"@
            ||| may_erase && (t == "Strip"@ || t == "StripAccents"@ || t == "Nmt"@ || t == "Bert"@)
            ||| {
                &&& may_erase
                &&& t == "BertNormalizer"@
                &&& lookup(entries, "clean_text"@) matches Some(Json::Bool(_))
                &&& lookup(entries, "handle_chinese_chars"@) matches Some(Json::Bool(_))
                &&& lookup(entries, "lowercase"@) matches Some(Json::Bool(_))
                &&& match lookup(entries, "strip_accents"@) {
                    None => true,
                    Some(Json::Null) => true,
                    Some(Json::Bool(_)) => true,
                    _ => false,
                }
            }
            ||| {
                &&& t == "Prepend"@
                &&& lookup(entries, "prepend"@) matches Some(Json::String(s)) && s.len() > 0
            }
            ||| {
                &&& t == "Replace"@
                &&& lookup(entries, "pattern"@) matches Some(Json::Object(p)) && p.len() == 1
                    && p[0].0 == "String"@ && p[0].1 is String && p[0].1->String_0.len() > 0
                &&& may_erase || (lookup(entries, "content"@) matches Some(Json::String(s))
                    && s.len() > 0)
            }
        },
{
    let json = Json::Object(entries);
    assert(part_holds(Stage::Normalizer { may_erase }, json) == normalizer_holds(json, may_erase));
    if let Some(Json::Object(p)) = lookup(entries, "pattern"@) {
        if p.len() == 1 && p[0].1 is String && p[0].1->String_0.len() == 0 {
            assert(p[0].1->String_0 =~= Seq::<char>::empty());
        }
    }
}

/// Which pre-tokenizers that list no further parts are let in.
pub proof fn let_in_pre_tokenizers(entries: Seq<(Seq<char>, Json)>, t: Seq<char>)
    requires
        lookup(entries, "type"@) == Some(Json::String(t)),
        forall|i: int| 0 <= i < entries.len() ==> (#[trigger] entries[i]).0 != "pretokenizers"@,
    ensures
        is_harmless_part(Stage::PreTokenizer, Json::Object(entries)) <==> {
            ||| t == "Sequence"@ || t == "BertPreTokenizer"@ || t == "ByteLevel"@
            ||| t == "CharDelimiterSplit"@ || t == "Metaspace"@ || t == "Whitespace"@
            ||| t == "Punctuation"@ || t == "WhitespaceSplit"@ || t == "Digits"@
            ||| t == "UnicodeScripts"@
            ||| {
                &&& t == "FixedLength"@
                &&& match lookup(entries, "length"@) {
                    None => true,
                    Some(Json::Number(n)) => natural(n) matches Some(k) && k > 0,
                    _ => false,
                }
            }
            ||| {
                &&& t == "Split"@
                &&& lookup(entries, "pattern"@) matches Some(Json::Object(p)) && p.len() == 1
                    && p[0].0 == "String"@ && p[0].1 is String
            }
        },
{
    let json = Json::Object(entries);
    assert(part_holds(Stage::PreTokenizer, json) == pre_tokenizer_holds(json));
}

/// Without a piece for the text none is counted.
proof fn no_sequence_pieces(pieces: Seq<Json>)
    requires
        forall|i: int| 0 <= i < pieces.len() ==> !is_sequence_piece(#[trigger] pieces[i]),
    ensures
        sequence_pieces(pieces) == 0,
    decreases pieces.len(),
{
    if pieces.len() > 0 {
        let rest = pieces.drop_last();
        assert forall|i: int| 0 <= i < rest.len() implies !is_sequence_piece(
            #[trigger] rest[i],
        ) by {
            assert(rest[i] == pieces[i]);
        }
        no_sequence_pieces(rest);
        assert(!is_sequence_piece(pieces[pieces.len() - 1]));
    }
}

/// One piece for the text counts as one.
proof fn one_sequence_piece(pieces: Seq<Json>, k: int)
    requires
        0 <= k < pieces.len(),
        is_sequence_piece(pieces[k]),
    ensures
        sequence_pieces(pieces) >= 1,
        (forall|i: int|
            0 <= i < pieces.len() && i != k ==> !is_sequence_piece(#[trigger] pieces[i]))
            ==> sequence_pieces(pieces) == 1,
    decreases pieces.len(),
{
    let rest = pieces.drop_last();
    let last = pieces.len() - 1;
    if k == last {
        if forall|i: int|
            0 <= i < pieces.len() && i != k ==> !is_sequence_piece(#[trigger] pieces[i]) {
            assert forall|i: int| 0 <= i < rest.len() implies !is_sequence_piece(
                #[trigger] rest[i],
            ) by {
                assert(rest[i] == pieces[i]);
            }
            no_sequence_pieces(rest);
        }
    } else {
        one_sequence_piece(rest, k);
        if forall|i: int|
            0 <= i < pieces.len() && i != k ==> !is_sequence_piece(#[trigger] pieces[i]) {
            assert forall|i: int| 0 <= i < rest.len() && i != k implies !is_sequence_piece(
                #[trigger] rest[i],
            ) by {
                assert(rest[i] == pieces[i]);
            }
            assert(!is_sequence_piece(pieces[last]));
        }
    }
}

/// Two pieces for the text count as two.
proof fn two_sequence_pieces(pieces: Seq<Json>, k: int, m: int)
    requires
        0 <= k < m < pieces.len(),
        is_sequence_piece(pieces[k]),
        is_sequence_piece(pieces[m]),
    ensures
        sequence_pieces(pieces) >= 2,
    decreases pieces.len(),
{
    let rest = pieces.drop_last();
    if m == pieces.len() - 1 {
        one_sequence_piece(rest, k);
    } else {
        two_sequence_pieces(rest, k, m);
    }
}

/// A template is let in where one of its pieces stands for the text and all others
/// for special tokens, and a post-processor that is no template is let in as it is.
pub proof fn let_in_templates(entries: Seq<(Seq<char>, Json)>, pieces: Seq<Json>, k: int)
    requires
        forall|i: int| 0 <= i < entries.len() ==> (#[trigger] entries[i]).0 != "processors"@,
    ensures
        lookup(entries, "single"@) is None ==> is_harmless_part(
            Stage::PostProcessor,
            Json::Object(entries),
        ),
        ({
            &&& lookup(entries, "single"@) == Some(Json::Array(pieces))
            &&& 0 <= k < pieces.len()
            &&& forall|i: int|
                0 <= i < pieces.len() ==> (#[trigger] pieces[i]) is Object
                    && pieces[i]->Object_0.len() == 1
            &&& pieces[k]->Object_0[0].0 == "Sequence"@
            &&& member(pieces[k]->Object_0[0].1, "id"@) == Some(Json::String("A"@))
            &&& forall|i: int|
                0 <= i < pieces.len() && i != k ==> (#[trigger] pieces[i])->Object_0[0].0
                    == "SpecialToken"@
        }) ==> is_harmless_part(Stage::PostProcessor, Json::Object(entries)),
{
    let json = Json::Object(entries);
    assert(part_holds(Stage::PostProcessor, json) == post_processor_holds(json));
    reveal_strlit("Sequence");
    reveal_strlit("SpecialToken");
    if lookup(entries, "single"@) == Some(Json::Array(pieces)) && 0 <= k < pieces.len() && (
    forall|i: int|
        0 <= i < pieces.len() ==> (#[trigger] pieces[i]) is Object && pieces[i]->Object_0.len()
            == 1) && pieces[k]->Object_0[0].0 == "Sequence"@ && member(
        pieces[k]->Object_0[0].1,
        "id"@,
    ) == Some(Json::String("A"@)) && (forall|i: int|
        0 <= i < pieces.len() && i != k ==> (#[trigger] pieces[i])->Object_0[0].0
            == "SpecialToken"@) {
        assert(is_sequence_piece(pieces[k]));
        assert forall|i: int| 0 <= i < pieces.len() && i != k implies !is_sequence_piece(
            #[trigger] pieces[i],
        ) && is_token_piece(pieces[i]) by {
            assert(pieces[i] is Object);
            assert("Sequence"@.len() == 8 && "SpecialToken"@.len() == 12);
        }
        one_sequence_piece(pieces, k);
    }
}

/// A template is refused where a piece stands for neither the text nor a special
/// token, where no piece stands for the text, and where two do.
pub proof fn refused_templates(
    entries: Seq<(Seq<char>, Json)>,
    pieces: Seq<Json>,
    k: int,
    m: int,
)
    requires
        lookup(entries, "single"@) == Some(Json::Array(pieces)),
    ensures
        0 <= k < pieces.len() && !(pieces[k] matches Json::Object(piece) && piece.len() == 1 && (
        piece[0].0 == "SpecialToken"@ || (piece[0].0 == "Sequence"@ && member(
            piece[0].1,
            "id"@,
        ) == Some(Json::String("A"@))))) ==> !is_harmless_part(
            Stage::PostProcessor,
            Json::Object(entries),
        ),
        (forall|i: int|
            0 <= i < pieces.len() ==> !((#[trigger] pieces[i]) matches Json::Object(piece)
                && piece.len() == 1 && piece[0].0 == "Sequence"@)) ==> !is_harmless_part(
            Stage::PostProcessor,
            Json::Object(entries),
        ),
        0 <= k < m < pieces.len() && (pieces[k] matches Json::Object(piece) && piece.len() == 1
            && piece[0].0 == "Sequence"@) && (pieces[m] matches Json::Object(piece) && piece.len()
            == 1 && piece[0].0 == "Sequence"@) ==> !is_harmless_part(
            Stage::PostProcessor,
            Json::Object(entries),
        ),
{
    let json = Json::Object(entries);
    assert(part_holds(Stage::PostProcessor, json) == post_processor_holds(json));
    reveal_strlit("Sequence");
    reveal_strlit("SpecialToken");
    assert("Sequence"@.len() == 8 && "SpecialToken"@.len() == 12);
    if forall|i: int|
        0 <= i < pieces.len() ==> !((#[trigger] pieces[i]) matches Json::Object(piece)
            && piece.len() == 1 && piece[0].0 == "Sequence"@) {
        assert forall|i: int| 0 <= i < pieces.len() implies !is_sequence_piece(
            #[trigger] pieces[i],
        ) by {
            assert(pieces[i] == pieces[i]);
        }
        no_sequence_pieces(pieces);
    }
    if 0 <= k < m < pieces.len() && is_sequence_piece(pieces[k]) && is_sequence_piece(pieces[m]) {
        two_sequence_pieces(pieces, k, m);
    }
}

/// A part that is let in is an object, and so are all the parts that it lists, in a
/// list under the key of its kind, and each of these is let in itself.
pub proof fn listed_parts_are_asked(
    json: Json,
    may_erase: bool,
    i: int,
    j: int,
)
    ensures
        !(json is Object) ==> !is_harmless_part(Stage::Normalizer { may_erase }, json)
            && !is_harmless_part(Stage::PreTokenizer, json) && !is_harmless_part(
            Stage::PostProcessor,
            json,
        ),
        json matches Json::Object(entries) ==> (0 <= i < entries.len() ==> {
            let (key, list) = entries[i];
            let bad = !(list is Array);
            let inside = list is Array && 0 <= j < list->Array_0.len();
            &&& key == "normalizers"@ && (bad || (inside && !is_harmless_part(
                Stage::Normalizer { may_erase },
                list->Array_0[j],
            ))) ==> !is_harmless_part(Stage::Normalizer { may_erase }, json)
            &&& key == "pretokenizers"@ && (bad || (inside && !is_harmless_part(
                Stage::PreTokenizer,
                list->Array_0[j],
            ))) ==> !is_harmless_part(Stage::PreTokenizer, json)
            &&& key == "processors"@ && (bad || (inside && !is_harmless_part(
                Stage::PostProcessor,
                list->Array_0[j],
            ))) ==> !is_harmless_part(Stage::PostProcessor, json)
        }),
{
    if let Json::Object(entries) = json {
        if 0 <= i < entries.len() {
            let list = entries[i].1;
            if list is Array && 0 <= j < list->Array_0.len() {
                let item = list->Array_0[j];
                if !is_harmless_part(Stage::Normalizer { may_erase }, item) {
                    assert(!are_harmless_parts(Stage::Normalizer { may_erase }, list));
                }
                if !is_harmless_part(Stage::PreTokenizer, item) {
                    assert(!are_harmless_parts(Stage::PreTokenizer, list));
                }
                if !is_harmless_part(Stage::PostProcessor, item) {
                    assert(!are_harmless_parts(Stage::PostProcessor, list));
                }
            }
        }
    }
}

/// A list of parts is let in where all the parts are.
pub proof fn let_in_lists(entries: Seq<(Seq<char>, Json)>, stage: Stage, items: Seq<Json>, k: int)
    requires
        lookup(entries, "type"@) == Some(Json::String("Sequence"@)),
        stage is PostProcessor ==> lookup(entries, "single"@) is None,
        0 <= k < entries.len(),
        entries[k].1 == Json::Array(items),
        entries[k].0 == match stage {
            Stage::Normalizer { .. } => "normalizers"@,
            Stage::PreTokenizer => "pretokenizers"@,
            Stage::PostProcessor => "processors"@,
        },
        forall|i: int|
            0 <= i < entries.len() && i != k ==> (#[trigger] entries[i]).0 != entries[k].0,
        forall|i: int| 0 <= i < items.len() ==> is_harmless_part(stage, #[trigger] items[i]),
    ensures
        is_harmless_part(stage, Json::Object(entries)),
{
    let json = Json::Object(entries);
    assert(part_holds(stage, json));
    assert(are_harmless_parts(stage, entries[k].1));
    assert forall|i: int| 0 <= i < entries.len() implies (#[trigger] entries[i]).0 != parts_key(
        stage,
    ) || are_harmless_parts(stage, entries[i].1) by {
        if i != k {
            assert(entries[i].0 != entries[k].0);
        }
    }
}

/// A description is let in exactly if its parts are, which may be left out or null but
/// for the model. A normalizer may leave nothing of a text where no added token is
/// looked for in what it leaves.
pub proof fn let_in_descriptions(json: Json)
    ensures
        ({
            let tokens = member(json, "added_tokens"@);
            let normalizer = member(json, "normalizer"@);
            let splitter = member(json, "pre_tokenizer"@);
            let last = member(json, "post_processor"@);
            let bare = tokens is None || tokens == Some(Json::Null);
            let unnormalized = bare || (tokens matches Some(Json::Array(items)) && forall|i: int|
                0 <= i < items.len() ==> member(#[trigger] items[i], "normalized"@) == Some(
                    Json::Bool(false),
                ));
            let plain = normalizer is None || normalizer == Some(Json::Null);
            is_harmless(json) <==> {
                &&& plain || is_harmless_part(
                    Stage::Normalizer { may_erase: unnormalized },
                    normalizer->Some_0,
                )
                &&& splitter is None || splitter == Some(Json::Null) || is_harmless_part(
                    Stage::PreTokenizer,
                    splitter->Some_0,
                )
                &&& last is None || last == Some(Json::Null) || is_harmless_part(
                    Stage::PostProcessor,
                    last->Some_0,
                )
                &&& is_harmless_model(member(json, "model"@))
                &&& are_harmless_tokens(tokens, unnormalized || plain)
                &&& is_bounded_padding(member(json, "padding"@))
                &&& is_possible_truncation(member(json, "truncation"@))
            }
        }),
{
}

/// Which models are let in: those with a vocabulary of at most `0x7fff_ffff` tokens and
/// with no id above that, and, unless their type has no merges, with merges that go with
/// their prefix.
pub proof fn let_in_models(model: Json)
    ensures
        !is_harmless_model(None),
        is_harmless_model(Some(model)) <==> {
            let t = member(model, "type"@);
            &&& match member(model, "vocab"@) {
                Some(Json::Object(entries)) => entries.len() <= 0x7fff_ffff && forall|k: int|
                    0 <= k < entries.len() ==> ((#[trigger] entries[k]).1 matches Json::Number(n)
                        && natural(n) matches Some(id) && id <= 0x7fff_ffff),
                Some(Json::Array(items)) => items.len() <= 0x7fff_ffff,
                _ => false,
            }
            &&& t == Some(Json::String("WordPiece"@)) || t == Some(Json::String("WordLevel"@)) || t
                == Some(Json::String("Unigram"@)) || merges_fit(
                member(model, "continuing_subword_prefix"@),
                member(model, "merges"@),
            )
        },
{
}

/// Merges go with a prefix exactly if there is no prefix, or if there are no merges, or
/// if each of them is a text whose part behind the last blank, or a pair whose second
/// text, can be cut behind as many bytes as the prefix has.
pub proof fn let_in_merges(prefix: Option<Json>, merges: Option<Json>)
    ensures
        merges_fit(prefix, merges) <==> match prefix {
            None => true,
            Some(Json::Null) => true,
            Some(Json::String(p)) => match merges {
                None => true,
                Some(Json::Null) => true,
                Some(Json::Array(items)) => forall|k: int|
                    0 <= k < items.len() ==> match #[trigger] items[k] {
                        Json::String(s) => cuts_at(behind_blank(s), byte_count(p)),
                        Json::Array(sides) => sides.len() == 2 && sides[1] is String && cuts_at(
                            sides[1]->String_0,
                            byte_count(p),
                        ),
                        _ => false,
                    },
                _ => false,
            },
            _ => false,
        },
{
    if let (Some(Json::String(p)), Some(Json::Array(items))) = (prefix, merges) {
        assert forall|k: int| 0 <= k < items.len() implies merge_fits(
            #[trigger] items[k],
            byte_count(p),
        ) == match items[k] {
            Json::String(s) => cuts_at(behind_blank(s), byte_count(p)),
            Json::Array(sides) => sides.len() == 2 && sides[1] is String && cuts_at(
                sides[1]->String_0,
                byte_count(p),
            ),
            _ => false,
        } by {}
    }
}

/// Behind the last blank of a text stands what follows it, and a text without a blank is
/// taken whole.
pub proof fn behind_the_last_blank(a: Seq<char>, b: Seq<char>)
    requires
        !b.contains(' '),
    ensures
        behind_blank(a + seq![' '] + b) == b,
        behind_blank(b) == b,
    decreases b.len(),
{
    let s = a + seq![' '] + b;
    if b.len() == 0 {
        assert(s.last() == ' ');
        assert(b =~= Seq::<char>::empty());
    } else {
        let c = b.drop_last();
        assert(b.contains(b[b.len() - 1]));
        assert(!c.contains(' ')) by {
            if c.contains(' ') {
                let k = choose|k: int| 0 <= k < c.len() && c[k] == ' ';
                assert(b[k] == ' ');
            }
        }
        behind_the_last_blank(a, c);
        assert(s.drop_last() =~= a + seq![' '] + c);
        assert(c.push(b.last()) =~= b);
    }
}

/// A text can be cut behind a number of bytes exactly if its first characters take that
/// many: one each below `0x80`, two below `0x800`, three below `0x1_0000`, else four.
pub proof fn bytes_are_counted(s: Seq<char>, c: char, k: int, n: nat)
    ensures
        byte_count(Seq::empty()) == 0,
        byte_count(s.push(c)) == byte_count(s) + if (c as u32) < 0x80 {
            1nat
        } else if (c as u32) < 0x800 {
            2nat
        } else if (c as u32) < 0x1_0000 {
            3nat
        } else {
            4nat
        },
        0 <= k <= s.len() && byte_count(s.take(k)) == n ==> cuts_at(s, n),
        cuts_at(s, n) ==> exists|m: int| 0 <= m <= s.len() && #[trigger] byte_count(s.take(m)) == n,
{
    assert(s.push(c).drop_last() =~= s);
}

/// Which added tokens are let in: at most `0x7fff_ffff`, and either none that takes the
/// white space before it along, or none that takes that behind it, or, where they are
/// looked for as they are given, only such as have a printed character of ASCII.
pub proof fn let_in_tokens(items: Seq<Json>, as_given: bool)
    ensures
        are_harmless_tokens(None, as_given),
        are_harmless_tokens(Some(Json::Null), as_given),
        are_harmless_tokens(Some(Json::Array(items)), as_given) <==> items.len() <= 0x7fff_ffff && {
            ||| forall|i: int|
                0 <= i < items.len() ==> member(#[trigger] items[i], "lstrip"@) == Some(
                    Json::Bool(false),
                )
            ||| forall|i: int|
                0 <= i < items.len() ==> member(#[trigger] items[i], "rstrip"@) == Some(
                    Json::Bool(false),
                )
            ||| as_given && forall|i: int|
                0 <= i < items.len() ==> (member(#[trigger] items[i], "content"@) matches Some(
                    Json::String(s),
                ) && exists|k: int| 0 <= k < s.len() && 0x21 <= (#[trigger] s[k]) as u32 <= 0x7e)
        },
{
    assert forall|s: Seq<char>|
        #![trigger is_visible(s)]
        is_visible(s) <==> exists|k: int| 0 <= k < s.len() && 0x21 <= (#[trigger] s[k]) as u32 <= 0x7e by {
        if is_visible(s) {
            let k = choose|k: int| 0 <= k < s.len() && is_printed(#[trigger] s[k]);
            assert(0x21 <= s[k] as u32 <= 0x7e);
        }
        if exists|k: int| 0 <= k < s.len() && 0x21 <= (#[trigger] s[k]) as u32 <= 0x7e {
            let k = choose|k: int| 0 <= k < s.len() && 0x21 <= (#[trigger] s[k]) as u32 <= 0x7e;
            assert(is_printed(s[k]));
        }
    }
}

/// Texts are filled up to at most `0x10_0000` ids: to the longest, or to a fixed length,
/// and to a multiple of a number, each within that.
pub proof fn let_in_padding(padding: Json)
    requires
        !(padding is Null),
    ensures
        is_bounded_padding(None),
        is_bounded_padding(Some(Json::Null)),
        is_bounded_padding(Some(padding)) <==> {
            &&& match member(padding, "strategy"@) {
                Some(Json::String(s)) => s == "BatchLongest"@,
                Some(strategy) => member(strategy, "Fixed"@) matches Some(Json::Number(n))
                    && natural(n) matches Some(k) && k <= 0x10_0000,
                None => false,
            }
            &&& match member(padding, "pad_to_multiple_of"@) {
                None => true,
                Some(Json::Null) => true,
                Some(Json::Number(n)) => natural(n) matches Some(k) && k <= 0x10_0000,
                Some(_) => false,
            }
        },
{
}

/// Texts are cut to nothing, or to more ids than the stride.
pub proof fn let_in_truncation(truncation: Json)
    requires
        !(truncation is Null),
    ensures
        is_possible_truncation(None),
        is_possible_truncation(Some(Json::Null)),
        is_possible_truncation(Some(truncation)) <==> (member(
            truncation,
            "max_length"@,
        ) matches Some(Json::Number(m)) && natural(m) matches Some(length) && (length == 0 || (
        member(truncation, "stride"@) matches Some(Json::Number(n)) && natural(
            n,
        ) matches Some(stride) && stride < length))),
{
}

/// A model drops no merges at random exactly if its dropout is left out or null.
pub proof fn steadiness_goes_by_dropout(json: Json, model: Json)
    requires
        member(json, "model"@) == Some(model),
    ensures
        drops_nothing(json) <==> member(model, "dropout"@) is None || member(model, "dropout"@)
            == Some(Json::Null),
{
}

} // verus!
