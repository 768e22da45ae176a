//! Questions: read from their definitions, and rendered as lists of options.

use vstd::prelude::*;

use crate::error::{said, Error};
use crate::json::{
    collect_object, entries_are_well_formed, items_are_well_formed, json_text, plain_text, text_of,
    well_formed,
};
use crate::object::{
    find, last_pair_counts, lookup, lookup_is_an_entry, no_other_keys, object_entries,
    object_is_ordered, object_of, ordered,
};
use crate::text::{
    decimal, decimal_text, joined, joined3, lowercase, same_text, trim_text, trimmed,
};
use crate::value::{entries_view, items_view, Json, JsonValue};

verus! {

pub const QTYPE_CHOICE: i64 = 0;

pub const QTYPE_SCORE: i64 = 1;

pub const QTYPE_NOUL: i64 = 2;

/// A question as it is asked: its type, its instructions, its criteria and, for
/// a noul question, its labels.
#[derive(Debug)]
pub struct InternalQuestion {
    pub t: String,
    pub ins: String,
    pub crit: JsonValue,
    pub labels: Option<JsonValue>,
}

/// What a question says.
#[verifier::ext_equal]
pub struct Question {
    pub t: Seq<char>,
    pub ins: Seq<char>,
    pub crit: Json,
    pub labels: Option<Json>,
}

impl View for InternalQuestion {
    type V = Question;

    open spec fn view(&self) -> Question {
        Question {
            t: self.t@,
            ins: self.ins@,
            crit: self.crit@,
            labels: match self.labels {
                Some(v) => Some(v@),
                None => None,
            },
        }
    }
}

impl Clone for InternalQuestion {
    fn clone(&self) -> (r: InternalQuestion)
        ensures
            r@ == self@,
    {
        InternalQuestion {
            t: self.t.clone(),
            ins: self.ins.clone(),
            crit: self.crit.clone(),
            labels: match &self.labels {
                Some(v) => Some(v.clone()),
                None => None,
            },
        }
    }
}

/// Whether the values in a question are well formed.
pub open spec fn question_is_well_formed(q: Question) -> bool {
    &&& well_formed(q.crit)
    &&& q.labels matches Some(v) ==> well_formed(v)
}

/// The number that stands for a question type.
pub open spec fn qtype_of(t: Seq<char>) -> Option<i64> {
    if t == "choice"@ {
        Some(QTYPE_CHOICE)
    } else if t == "score"@ {
        Some(QTYPE_SCORE)
    } else if t == "noul"@ {
        Some(QTYPE_NOUL)
    } else {
        None
    }
}

/// Gives the number that stands for a question type.
pub fn qtype_id(t: &str) -> (r: Result<i64, Error<String>>)
    ensures
        said(r) == match qtype_of(t@) {
            Some(id) => Ok::<i64, Error<Seq<char>>>(id),
            None => Err(Error::UnknownQuestionType(t@)),
        },
{
    if same_text(t, "choice") {
        Ok(QTYPE_CHOICE)
    } else if same_text(t, "score") {
        Ok(QTYPE_SCORE)
    } else if same_text(t, "noul") {
        Ok(QTYPE_NOUL)
    } else {
        Err(Error::UnknownQuestionType(t.to_owned()))
    }
}

/// Gives the state as text: a string as it is, any other value as compact JSON.
pub fn serialize_state(state: &JsonValue) -> (r: String)
    requires
        well_formed(state@),
    ensures
        r@ == plain_text(state@),
{
    text_of(state)
}

/// What a list of strings says.
pub open spec fn texts(list: Seq<String>) -> Seq<Seq<char>> {
    list.map_values(|s: String| s@)
}

/// What the result of rendering options says.
pub open spec fn texts_said(r: Result<Vec<String>, Error<String>>) -> Result<
    Seq<Seq<char>>,
    Error<Seq<char>>,
> {
    match r {
        Ok(list) => Ok(texts(list@)),
        Err(e) => Err(e@),
    }
}

/// The labels for `false` and `true` of a noul question.
pub open spec fn noul_labels(labels: Option<Json>) -> Result<
    (Seq<char>, Seq<char>),
    Error<Seq<char>>,
> {
    match labels {
        None => Ok(("false"@, "true"@)),
        Some(Json::Object(entries)) => {
            if entries.len() != 2 {
                Err(Error::LabelsNotDistinct)
            } else {
                match (lookup(entries, "false"@), lookup(entries, "true"@)) {
                    (Some(Json::String(no)), Some(Json::String(yes))) => {
                        if trimmed(no).len() == 0 || trimmed(yes).len() == 0 || trimmed(no)
                            == trimmed(yes) {
                            Err(Error::LabelsNotDistinct)
                        } else {
                            Ok((trimmed(no), trimmed(yes)))
                        }
                    },
                    (None, _) => Err(Error::LabelsNotDistinct),
                    (_, None) => Err(Error::LabelsNotDistinct),
                    (Some(Json::String(_)), _) => Err(Error::TrueLabelNotString),
                    _ => Err(Error::FalseLabelNotString),
                }
            }
        },
        _ => Err(Error::LabelsNotObject),
    }
}

/// Gives the labels for `false` and `true` of a noul question.
fn resolve_noul_labels(labels: &Option<JsonValue>) -> (r: Result<
    (String, String),
    Error<String>,
>)
    ensures
        said(r) == noul_labels(
            match labels {
                Some(v) => Some(v@),
                None => None,
            },
        ),
{
    let entries = match labels {
        None => {
            return Ok(("false".to_owned(), "true".to_owned()));
        },
        Some(JsonValue::Object(entries)) => entries,
        _ => {
            return Err(Error::LabelsNotObject);
        },
    };
    assert(labels->Some_0@ == Json::Object(entries_view(entries@)));
    if entries.len() != 2 {
        return Err(Error::LabelsNotDistinct);
    }
    match (find(entries, "false"), find(entries, "true")) {
        (Some(JsonValue::String(no)), Some(JsonValue::String(yes))) => {
            let false_label = trim_text(no);
            let true_label = trim_text(yes);
            if false_label.as_str().is_empty() || true_label.as_str().is_empty() || same_text(
                &false_label,
                &true_label,
            ) {
                Err(Error::LabelsNotDistinct)
            } else {
                Ok((false_label, true_label))
            }
        },
        (None, _) => Err(Error::LabelsNotDistinct),
        (_, None) => Err(Error::LabelsNotDistinct),
        (Some(JsonValue::String(_)), _) => Err(Error::TrueLabelNotString),
        _ => Err(Error::FalseLabelNotString),
    }
}

/// Whether a criterion says nothing: it is null or the empty string.
pub open spec fn is_blank(criterion: Json) -> bool {
    criterion is Null || criterion == Json::String(Seq::empty())
}

/// Tells whether a criterion says nothing.
fn says_nothing(criterion: &JsonValue) -> (r: bool)
    ensures
        r == is_blank(criterion@),
{
    match criterion {
        JsonValue::Null => true,
        JsonValue::String(s) => {
            assert(s@.len() == 0 ==> s@ =~= Seq::<char>::empty());
            s.as_str().is_empty()
        },
        _ => false,
    }
}

/// One option of a choice question.
pub open spec fn choice_option(key: Seq<char>, criterion: Json) -> Seq<char> {
    if is_blank(criterion) {
        key
    } else {
        key + ": "@ + plain_text(criterion)
    }
}

/// One level of a score question.
pub open spec fn score_option(level: nat, criterion: Json) -> Seq<char> {
    "level "@ + decimal(level) + ": "@ + plain_text(criterion)
}

/// One answer of a noul question: the text of the criterion under the key, or
/// the given words where there is none.
pub open spec fn noul_option(
    label: Seq<char>,
    crit: Json,
    key: Seq<char>,
    otherwise: Seq<char>,
) -> Seq<char> {
    let criterion = match crit {
        Json::Object(entries) => lookup(entries, key),
        _ => None,
    };
    label + ": "@ + match criterion {
        Some(c) => if is_blank(c) {
            otherwise
        } else {
            plain_text(c)
        },
        None => otherwise,
    }
}

/// The options of a question, in the order in which they are shown.
pub open spec fn rendered_options(q: Question) -> Result<Seq<Seq<char>>, Error<Seq<char>>> {
    if q.t != "noul"@ && q.labels is Some {
        Err(Error::LabelsUnsupported)
    } else if q.t == "choice"@ {
        match q.crit {
            Json::Object(entries) => Ok(
                entries.map_values(|e: (Seq<char>, Json)| choice_option(e.0, e.1)),
            ),
            _ => Err(Error::ChoiceCriteriaNotObject),
        }
    } else if q.t == "score"@ {
        match q.crit {
            Json::Array(items) => Ok(
                Seq::new(items.len(), |i: int| score_option(i as nat, items[i])),
            ),
            _ => Err(Error::ScoreCriteriaNotList),
        }
    } else if q.t == "noul"@ {
        match noul_labels(q.labels) {
            Ok((no, yes)) => Ok(
                seq![
                    noul_option(no, q.crit, "false"@, "no, the statement does not hold"@),
                    noul_option(yes, q.crit, "true"@, "yes, the statement holds"@),
                ],
            ),
            Err(e) => Err(e),
        }
    } else {
        Err(Error::UnknownQuestionType(q.t))
    }
}

/// Renders the options of a choice question.
fn render_choices(entries: &Vec<(String, JsonValue)>) -> (r: Vec<String>)
    requires
        forall|i: int| 0 <= i < entries@.len() ==> well_formed((#[trigger] entries@[i]).1@),
    ensures
        texts(r@) == entries_view(entries@).map_values(
            |e: (Seq<char>, Json)| choice_option(e.0, e.1),
        ),
{
    let mut r: Vec<String> = Vec::new();
    let mut i: usize = 0;
    while i < entries.len()
        invariant
            i <= entries@.len(),
            forall|j: int| 0 <= j < entries@.len() ==> well_formed((#[trigger] entries@[j]).1@),
            r@.len() == i,
            forall|j: int|
                0 <= j < i ==> (#[trigger] r@[j])@ == choice_option(
                    entries@[j].0@,
                    entries@[j].1@,
                ),
        decreases entries.len() - i,
    {
        let key = &entries[i].0;
        let criterion = &entries[i].1;
        let option = if says_nothing(criterion) {
            key.clone()
        } else {
            joined3(key, ": ", &text_of(criterion))
        };
        r.push(option);
        i += 1;
    }
    assert(texts(r@) =~= entries_view(entries@).map_values(
        |e: (Seq<char>, Json)| choice_option(e.0, e.1),
    ));
    r
}

/// Renders the levels of a score question.
fn render_levels(items: &Vec<JsonValue>) -> (r: Vec<String>)
    requires
        forall|i: int| 0 <= i < items@.len() ==> well_formed((#[trigger] items@[i])@),
    ensures
        texts(r@) == Seq::new(
            items@.len(),
            |i: int| score_option(i as nat, items_view(items@)[i]),
        ),
{
    let mut r: Vec<String> = Vec::new();
    let mut i: usize = 0;
    while i < items.len()
        invariant
            i <= items@.len(),
            forall|j: int| 0 <= j < items@.len() ==> well_formed((#[trigger] items@[j])@),
            r@.len() == i,
            forall|j: int|
                0 <= j < i ==> (#[trigger] r@[j])@ == score_option(j as nat, items@[j]@),
        decreases items.len() - i,
    {
        let level = joined3("level ", &decimal_text(i), ": ");
        r.push(joined(&level, &text_of(&items[i])));
        i += 1;
    }
    assert(texts(r@) =~= Seq::new(
        items@.len(),
        |i: int| score_option(i as nat, items_view(items@)[i]),
    ));
    r
}

/// Renders one answer of a noul question.
fn render_noul(label: &str, crit: &JsonValue, key: &str, otherwise: &str) -> (r: String)
    requires
        well_formed(crit@),
    ensures
        r@ == noul_option(label@, crit@, key@, otherwise@),
{
    let mut text = otherwise.to_owned();
    if let JsonValue::Object(entries) = crit {
        proof {
            entries_are_well_formed(crit@);
            assert(crit@->Object_0 == entries_view(entries@));
            if lookup(entries_view(entries@), key@) is Some {
                lookup_is_an_entry(entries_view(entries@), key@);
            }
        }
        if let Some(criterion) = find(entries, key) {
            if !says_nothing(criterion) {
                text = text_of(criterion);
            }
        }
    }
    joined3(label, ": ", &text)
}

/// Renders the options of a question.
pub fn render_options(q: &InternalQuestion) -> (r: Result<Vec<String>, Error<String>>)
    requires
        question_is_well_formed(q@),
    ensures
        texts_said(r) == rendered_options(q@),
{
    if !same_text(&q.t, "noul") && q.labels.is_some() {
        return Err(Error::LabelsUnsupported);
    }
    if same_text(&q.t, "choice") {
        match &q.crit {
            JsonValue::Object(entries) => {
                proof {
                    entries_are_well_formed(q.crit@);
                    assert(q.crit@->Object_0 == entries_view(entries@));
                    assert forall|i: int| 0 <= i < entries@.len() implies well_formed(
                        (#[trigger] entries@[i]).1@,
                    ) by {
                        assert(q.crit@->Object_0[i].1 == entries@[i].1@);
                    }
                }
                Ok(render_choices(entries))
            },
            _ => Err(Error::ChoiceCriteriaNotObject),
        }
    } else if same_text(&q.t, "score") {
        match &q.crit {
            JsonValue::Array(items) => {
                proof {
                    items_are_well_formed(q.crit@);
                    assert(q.crit@->Array_0 == items_view(items@));
                    assert forall|i: int| 0 <= i < items@.len() implies well_formed(
                        (#[trigger] items@[i])@,
                    ) by {
                        assert(q.crit@->Array_0[i] == items@[i]@);
                    }
                }
                Ok(render_levels(items))
            },
            _ => Err(Error::ScoreCriteriaNotList),
        }
    } else if same_text(&q.t, "noul") {
        match resolve_noul_labels(&q.labels) {
            Ok((false_label, true_label)) => {
                let mut options: Vec<String> = Vec::new();
                options.push(
                    render_noul(
                        &false_label,
                        &q.crit,
                        "false",
                        "no, the statement does not hold",
                    ),
                );
                options.push(
                    render_noul(&true_label, &q.crit, "true", "yes, the statement holds"),
                );
                proof {
                    let no = false_label@;
                    let yes = true_label@;
                    assert(texts(options@) =~= seq![
                        noul_option(no, q@.crit, "false"@, "no, the statement does not hold"@),
                        noul_option(yes, q@.crit, "true"@, "yes, the statement holds"@),
                    ]);
                }
                Ok(options)
            },
            Err(e) => Err(e),
        }
    } else {
        Err(Error::UnknownQuestionType(q.t.clone()))
    }
}

/// The choice criteria that a list stands for: its items as keys, with nothing
/// said of them.
pub open spec fn listed_choices(items: Seq<Json>) -> Seq<(Seq<char>, Json)> {
    object_of(items.map_values(|c: Json| (plain_text(c), Json::Null)))
}

/// The entries with their keys in lower case.
pub open spec fn lowercased(entries: Seq<(Seq<char>, Json)>) -> Seq<(Seq<char>, Json)> {
    object_of(entries.map_values(|e: (Seq<char>, Json)| (lowercase(e.0), e.1)))
}

/// The criteria that a question of a known type goes by.
pub open spec fn criteria_of(qid: Seq<char>, t: Seq<char>, crit: Json) -> Result<
    Json,
    Error<Seq<char>>,
> {
    if t == "choice"@ {
        match crit {
            Json::Array(items) => Ok(Json::Object(listed_choices(items))),
            Json::Object(_) => Ok(crit),
            _ => Err(Error::ChoiceCriteriaInvalid { qid }),
        }
    } else if t == "score"@ {
        match crit {
            Json::Array(_) => Ok(crit),
            _ => Err(Error::ScoreCriteriaInvalid { qid }),
        }
    } else {
        match crit {
            Json::Null => Ok(Json::Object(Seq::empty())),
            Json::Object(entries) => Ok(Json::Object(lowercased(entries))),
            _ => Err(Error::NoulCriteriaInvalid { qid }),
        }
    }
}

/// The question that a definition stands for.
pub open spec fn internal_of(qid: Seq<char>, qdef: Json) -> Result<Question, Error<Seq<char>>> {
    match qdef {
        Json::Object(entries) => match lookup(entries, "type"@) {
            Some(Json::String(t)) => {
                if qtype_of(t) is None {
                    Err(Error::TypeUnknown { qid, t })
                } else {
                    match lookup(entries, "instructions"@) {
                        None => Err(Error::InstructionsMissing { qid }),
                        Some(ins) => {
                            let given = match lookup(entries, "criteria"@) {
                                Some(crit) => crit,
                                None => Json::Null,
                            };
                            match criteria_of(qid, t, given) {
                                Ok(crit) => Ok(
                                    Question {
                                        t,
                                        ins: plain_text(ins),
                                        crit,
                                        labels: lookup(entries, "labels"@),
                                    },
                                ),
                                Err(e) => Err(e),
                            }
                        },
                    }
                }
            },
            _ => Err(Error::TypeMissing { qid }),
        },
        _ => Err(Error::DefinitionNotObject { qid }),
    }
}

/// Makes choice criteria of a list.
fn choices_from_list(items: &Vec<JsonValue>) -> (r: Vec<(String, JsonValue)>)
    requires
        forall|i: int| 0 <= i < items@.len() ==> well_formed((#[trigger] items@[i])@),
    ensures
        entries_view(r@) == listed_choices(items_view(items@)),
{
    let mut pairs: Vec<(String, JsonValue)> = Vec::new();
    let mut i: usize = 0;
    while i < items.len()
        invariant
            i <= items@.len(),
            forall|j: int| 0 <= j < items@.len() ==> well_formed((#[trigger] items@[j])@),
            pairs@.len() == i,
            forall|j: int|
                0 <= j < i ==> (#[trigger] pairs@[j]).0@ == plain_text(items@[j]@)
                    && pairs@[j].1@ == Json::Null,
        decreases items.len() - i,
    {
        pairs.push((text_of(&items[i]), JsonValue::Null));
        i += 1;
    }
    assert(entries_view(pairs@) =~= items_view(items@).map_values(
        |c: Json| (plain_text(c), Json::Null),
    ));
    collect_object(&pairs)
}

/// Puts the keys of noul criteria into lower case.
fn lowercase_keys(entries: &Vec<(String, JsonValue)>) -> (r: Vec<(String, JsonValue)>)
    ensures
        entries_view(r@) == lowercased(entries_view(entries@)),
{
    let mut pairs: Vec<(String, JsonValue)> = Vec::new();
    let mut i: usize = 0;
    while i < entries.len()
        invariant
            i <= entries@.len(),
            pairs@.len() == i,
            forall|j: int|
                0 <= j < i ==> (#[trigger] pairs@[j]).0@ == lowercase(entries@[j].0@)
                    && pairs@[j].1@ == entries@[j].1@,
        decreases entries.len() - i,
    {
        let pair = (entries[i].0.as_str().to_lowercase(), entries[i].1.clone());
        pairs.push(pair);
        i += 1;
    }
    assert(entries_view(pairs@) =~= entries_view(entries@).map_values(
        |e: (Seq<char>, Json)| (lowercase(e.0), e.1),
    ));
    collect_object(&pairs)
}

/// The criteria that a question goes by are well formed where the given ones
/// are.
proof fn criteria_are_well_formed(qid: Seq<char>, t: Seq<char>, crit: Json)
    requires
        well_formed(crit),
        criteria_of(qid, t, crit) is Ok,
    ensures
        well_formed(criteria_of(qid, t, crit)->Ok_0),
{
    let r = criteria_of(qid, t, crit)->Ok_0;
    if t == "choice"@ && crit is Array {
        let pairs = crit->Array_0.map_values(|c: Json| (plain_text(c), Json::Null));
        object_is_ordered(pairs);
        object_entries(pairs);
        assert(r == Json::Object(object_of(pairs)));
        assert forall|i: int| 0 <= i < r->Object_0.len() implies well_formed(
            (#[trigger] r->Object_0[i]).1,
        ) by {
            assert(pairs.contains(object_of(pairs)[i]));
        }
    } else if t != "choice"@ && t != "score"@ && crit is Object {
        let entries = crit->Object_0;
        let pairs = entries.map_values(|e: (Seq<char>, Json)| (lowercase(e.0), e.1));
        object_is_ordered(pairs);
        object_entries(pairs);
        entries_are_well_formed(crit);
        assert(r == Json::Object(object_of(pairs)));
        assert forall|i: int| 0 <= i < r->Object_0.len() implies well_formed(
            (#[trigger] r->Object_0[i]).1,
        ) by {
            assert(pairs.contains(object_of(pairs)[i]));
            let j = choose|j: int| 0 <= j < pairs.len() && pairs[j] == object_of(pairs)[i];
            assert(well_formed(entries[j].1));
        }
    }
}

/// Brings the criteria of a question of a known type into the form that the
/// question goes by.
fn normalize_criteria(qid: &str, t: &str, crit: JsonValue) -> (r: Result<
    JsonValue,
    Error<String>,
>)
    requires
        well_formed(crit@),
    ensures
        said(r) == criteria_of(qid@, t@, crit@),
        r matches Ok(v) ==> well_formed(v@),
{
    proof {
        if criteria_of(qid@, t@, crit@) is Ok {
            criteria_are_well_formed(qid@, t@, crit@);
        }
    }
    if same_text(t, "choice") {
        match crit {
            JsonValue::Array(items) => {
                proof {
                    items_are_well_formed(crit@);
                    assert(crit@->Array_0 == items_view(items@));
                    assert forall|i: int| 0 <= i < items@.len() implies well_formed(
                        (#[trigger] items@[i])@,
                    ) by {
                        assert(crit@->Array_0[i] == items@[i]@);
                    }
                }
                Ok(JsonValue::Object(choices_from_list(&items)))
            },
            JsonValue::Object(entries) => Ok(JsonValue::Object(entries)),
            _ => Err(Error::ChoiceCriteriaInvalid { qid: qid.to_owned() }),
        }
    } else if same_text(t, "score") {
        match crit {
            JsonValue::Array(items) => Ok(JsonValue::Array(items)),
            _ => Err(Error::ScoreCriteriaInvalid { qid: qid.to_owned() }),
        }
    } else {
        match crit {
            JsonValue::Null => {
                let none: Vec<(String, JsonValue)> = Vec::new();
                assert(entries_view(none@) =~= Seq::<(Seq<char>, Json)>::empty());
                Ok(JsonValue::Object(none))
            },
            JsonValue::Object(entries) => Ok(JsonValue::Object(lowercase_keys(&entries))),
            _ => Err(Error::NoulCriteriaInvalid { qid: qid.to_owned() }),
        }
    }
}

/// A value found in a well-formed object is well formed.
proof fn found_is_well_formed(json: Json, key: Seq<char>)
    requires
        well_formed(json),
        json is Object,
        lookup(json->Object_0, key) is Some,
    ensures
        well_formed(lookup(json->Object_0, key)->Some_0),
{
    entries_are_well_formed(json);
    lookup_is_an_entry(json->Object_0, key);
}

/// Copies the value that an object has under a key.
fn find_copy(entries: &Vec<(String, JsonValue)>, key: &str) -> (r: Option<JsonValue>)
    ensures
        match r {
            Some(v) => lookup(entries_view(entries@), key@) == Some(v@),
            None => lookup(entries_view(entries@), key@) is None,
        },
{
    match find(entries, key) {
        Some(v) => Some(v.clone()),
        None => None,
    }
}

/// Reads a question from its definition.
pub fn to_internal(qid: &str, qdef: &JsonValue) -> (r: Result<InternalQuestion, Error<String>>)
    requires
        well_formed(qdef@),
    ensures
        said(r) == internal_of(qid@, qdef@),
        r matches Ok(q) ==> question_is_well_formed(q@),
{
    let entries = match qdef {
        JsonValue::Object(entries) => entries,
        _ => {
            return Err(Error::DefinitionNotObject { qid: qid.to_owned() });
        },
    };
    let ghost all = entries_view(entries@);
    assert(qdef@ == Json::Object(all));
    let t = match find(entries, "type") {
        Some(JsonValue::String(t)) => t.clone(),
        _ => {
            return Err(Error::TypeMissing { qid: qid.to_owned() });
        },
    };
    if !same_text(&t, "choice") && !same_text(&t, "score") && !same_text(&t, "noul") {
        return Err(Error::TypeUnknown { qid: qid.to_owned(), t });
    }
    let ins = match find(entries, "instructions") {
        Some(v) => {
            proof {
                found_is_well_formed(qdef@, "instructions"@);
            }
            text_of(v)
        },
        None => {
            return Err(Error::InstructionsMissing { qid: qid.to_owned() });
        },
    };
    proof {
        if lookup(all, "criteria"@) is Some {
            found_is_well_formed(qdef@, "criteria"@);
        }
        if lookup(all, "labels"@) is Some {
            found_is_well_formed(qdef@, "labels"@);
        }
    }
    let given = match find_copy(entries, "criteria") {
        Some(v) => v,
        None => JsonValue::Null,
    };
    match normalize_criteria(qid, &t, given) {
        Ok(crit) => {
            let labels = find_copy(entries, "labels");
            Ok(InternalQuestion { t, ins, crit, labels })
        },
        Err(e) => Err(e),
    }
}

/// The three question types have different names.
pub proof fn type_names_differ()
    ensures
        "choice"@ != "score"@,
        "choice"@ != "noul"@,
        "score"@ != "noul"@,
{
    reveal_strlit("choice");
    reveal_strlit("score");
    reveal_strlit("noul");
    assert("choice"@.len() == 6 && "score"@.len() == 5 && "noul"@.len() == 4);
}

/// A question that was read from a definition has a known type, and its options
/// can be rendered unless its labels stand in the way: labels that a question
/// other than a noul question has, or that a noul question cannot use.
pub proof fn read_questions_render(qid: Seq<char>, qdef: Json)
    requires
        internal_of(qid, qdef) is Ok,
    ensures
        ({
            let q = internal_of(qid, qdef)->Ok_0;
            &&& qtype_of(q.t) is Some
            &&& q.t != "noul"@ ==> if q.labels is Some {
                rendered_options(q) == Err::<Seq<Seq<char>>, Error<Seq<char>>>(
                    Error::LabelsUnsupported,
                )
            } else {
                rendered_options(q) is Ok
            }
            &&& q.t == "noul"@ ==> match noul_labels(q.labels) {
                Ok(_) => rendered_options(q) is Ok,
                Err(e) => rendered_options(q) == Err::<Seq<Seq<char>>, Error<Seq<char>>>(e),
            }
        }),
{
    type_names_differ();
}

/// A choice question has one option for each entry of its criteria, a score
/// question one for each level, a noul question two.
pub proof fn option_count(q: Question)
    requires
        rendered_options(q) is Ok,
    ensures
        q.t == "choice"@ ==> q.crit is Object && rendered_options(q)->Ok_0.len()
            == q.crit->Object_0.len(),
        q.t == "score"@ ==> q.crit is Array && rendered_options(q)->Ok_0.len()
            == q.crit->Array_0.len(),
        q.t == "noul"@ ==> rendered_options(q)->Ok_0.len() == 2,
{
    type_names_differ();
}

/// The labels of a noul question are two different non-empty texts.
pub proof fn noul_labels_differ(labels: Option<Json>)
    requires
        noul_labels(labels) is Ok,
    ensures
        noul_labels(labels)->Ok_0.0.len() > 0,
        noul_labels(labels)->Ok_0.1.len() > 0,
        noul_labels(labels)->Ok_0.0 != noul_labels(labels)->Ok_0.1,
{
    reveal_strlit("false");
    reveal_strlit("true");
}

/// The criteria of a noul question are found whatever the case of their keys:
/// of the keys with one lower-case form the last one counts.
pub proof fn noul_keys_ignore_case(entries: Seq<(Seq<char>, Json)>, i: int)
    requires
        0 <= i < entries.len(),
        forall|j: int|
            i < j < entries.len() ==> lowercase((#[trigger] entries[j]).0) != lowercase(
                entries[i].0,
            ),
    ensures
        lookup(lowercased(entries), lowercase(entries[i].0)) == Some(entries[i].1),
{
    let pairs = entries.map_values(|e: (Seq<char>, Json)| (lowercase(e.0), e.1));
    assert forall|j: int| i < j < pairs.len() implies (#[trigger] pairs[j]).0 != pairs[i].0 by {
        assert(pairs[j].0 == lowercase(entries[j].0));
    }
    last_pair_counts(pairs, i);
}

/// A list of choices stands for the choices that it names, each once and with
/// nothing said of it.
pub proof fn listed_choices_are_the_items(items: Seq<Json>)
    ensures
        forall|i: int|
            0 <= i < items.len() ==> lookup(
                listed_choices(items),
                plain_text(#[trigger] items[i]),
            ) == Some(Json::Null),
        forall|key: Seq<char>|
            (forall|i: int| 0 <= i < items.len() ==> plain_text(#[trigger] items[i]) != key)
                ==> #[trigger] lookup(listed_choices(items), key) is None,
        ordered(listed_choices(items)),
        forall|i: int|
            0 <= i < listed_choices(items).len() ==> (#[trigger] listed_choices(items)[i]).1
                == Json::Null,
{
    let pairs = items.map_values(|c: Json| (plain_text(c), Json::Null));
    object_is_ordered(pairs);
    object_entries(pairs);
    assert forall|i: int| 0 <= i < listed_choices(items).len() implies (
    #[trigger] listed_choices(items)[i]).1 == Json::Null by {
        assert(pairs.contains(object_of(pairs)[i]));
    }
    assert forall|i: int| 0 <= i < items.len() implies lookup(
        listed_choices(items),
        plain_text(#[trigger] items[i]),
    ) == Some(Json::Null) by {
        named_choice_is_listed(items, i);
    }
    assert forall|key: Seq<char>|
        (forall|i: int| 0 <= i < items.len() ==> plain_text(#[trigger] items[i])
            != key) implies #[trigger] lookup(listed_choices(items), key) is None by {
        assert forall|j: int| 0 <= j < pairs.len() implies (#[trigger] pairs[j]).0 != key by {
            assert(plain_text(items[j]) != key);
        }
        no_other_keys(pairs, key);
    }
}

/// Each item of a list of choices is one of the choices.
proof fn named_choice_is_listed(items: Seq<Json>, i: int)
    requires
        0 <= i < items.len(),
    ensures
        lookup(listed_choices(items), plain_text(items[i])) == Some(Json::Null),
    decreases items.len() - i,
{
    let pairs = items.map_values(|c: Json| (plain_text(c), Json::Null));
    if exists|j: int| i < j < items.len() && plain_text(#[trigger] items[j]) == plain_text(items[i]) {
        let j = choose|j: int|
            i < j < items.len() && plain_text(#[trigger] items[j]) == plain_text(items[i]);
        named_choice_is_listed(items, j);
    } else {
        assert forall|j: int| i < j < pairs.len() implies (#[trigger] pairs[j]).0
            != pairs[i].0 by {
            assert(plain_text(items[j]) != plain_text(items[i]));
        }
        last_pair_counts(pairs, i);
    }
}

/// The types of questions are a choice, a score and a noul, in this order, and
/// there is no other.
pub proof fn types_are_numbered(t: Seq<char>)
    ensures
        t == "choice"@ ==> qtype_of(t) == Some(0i64),
        t == "score"@ ==> qtype_of(t) == Some(1i64),
        t == "noul"@ ==> qtype_of(t) == Some(2i64),
        t != "choice"@ && t != "score"@ && t != "noul"@ ==> qtype_of(t) is None,
{
    type_names_differ();
}

/// Each choice is shown at its place: its key, then what is said of it, if
/// anything is.
pub proof fn choices_are_shown(q: Question, i: int)
    requires
        q.t == "choice"@,
        q.labels is None,
        q.crit is Object,
    ensures
        rendered_options(q) is Ok,
        rendered_options(q)->Ok_0.len() == q.crit->Object_0.len(),
        0 <= i < q.crit->Object_0.len() ==> ({
            let (key, c) = q.crit->Object_0[i];
            let shown = rendered_options(q)->Ok_0[i];
            match c {
                Json::Null => shown == key,
                Json::String(s) => if s.len() == 0 {
                    shown == key
                } else {
                    shown == key + ": "@ + s
                },
                _ => shown == key + ": "@ + json_text(c),
            }
        }),
{
    type_names_differ();
    if let Json::String(s) = q.crit->Object_0[i].1 {
        if s.len() == 0 {
            assert(s =~= Seq::<char>::empty());
        }
    }
}

/// Each level of a score is shown at its place: its number, then its criterion.
pub proof fn levels_are_shown(q: Question, i: int)
    requires
        q.t == "score"@,
        q.labels is None,
        q.crit is Array,
    ensures
        rendered_options(q) is Ok,
        rendered_options(q)->Ok_0.len() == q.crit->Array_0.len(),
        0 <= i < q.crit->Array_0.len() ==> ({
            let c = q.crit->Array_0[i];
            let shown = rendered_options(q)->Ok_0[i];
            match c {
                Json::String(s) => shown == "level "@ + decimal(i as nat) + ": "@ + s,
                _ => shown == "level "@ + decimal(i as nat) + ": "@ + json_text(c),
            }
        }),
{
    type_names_differ();
}

/// A noul question without labels goes by `false` and `true`. Labels that it can
/// use are two different texts, white space at their ends apart, and it goes by
/// them.
pub proof fn usable_labels_are_used(entries: Seq<(Seq<char>, Json)>, no: Seq<char>, yes: Seq<char>)
    requires
        entries.len() == 2,
        lookup(entries, "false"@) == Some(Json::String(no)),
        lookup(entries, "true"@) == Some(Json::String(yes)),
        trimmed(no).len() > 0,
        trimmed(yes).len() > 0,
        trimmed(no) != trimmed(yes),
    ensures
        noul_labels(None) == Ok::<_, Error<Seq<char>>>(("false"@, "true"@)),
        noul_labels(Some(Json::Object(entries))) == Ok::<_, Error<Seq<char>>>(
            (trimmed(no), trimmed(yes)),
        ),
{
}

/// Labels that a noul question cannot use are refused, with what is wrong: they
/// are no object; or they are not two, under `false` and `true`; or one of them is
/// no text; or one is empty, or both are the same.
pub proof fn unusable_labels_are_refused(labels: Json)
    ensures
        !(labels is Object) ==> noul_labels(Some(labels)) == Err::<(Seq<char>, Seq<char>), _>(
            Error::<Seq<char>>::LabelsNotObject,
        ),
        labels matches Json::Object(entries) ==> {
            let no = lookup(entries, "false"@);
            let yes = lookup(entries, "true"@);
            let r = noul_labels(Some(labels));
            let lacking = entries.len() != 2 || no is None || yes is None;
            &&& lacking ==> r == Err::<(Seq<char>, Seq<char>), _>(
                Error::<Seq<char>>::LabelsNotDistinct,
            )
            &&& !lacking && !(no->Some_0 is String) ==> r == Err::<(Seq<char>, Seq<char>), _>(
                Error::<Seq<char>>::FalseLabelNotString,
            )
            &&& !lacking && no->Some_0 is String && !(yes->Some_0 is String) ==> r == Err::<
                (Seq<char>, Seq<char>),
                _,
            >(Error::<Seq<char>>::TrueLabelNotString)
            &&& !lacking && no->Some_0 is String && yes->Some_0 is String && (trimmed(
                no->Some_0->String_0,
            ).len() == 0 || trimmed(yes->Some_0->String_0).len() == 0 || trimmed(
                no->Some_0->String_0,
            ) == trimmed(yes->Some_0->String_0)) ==> r == Err::<(Seq<char>, Seq<char>), _>(
                Error::<Seq<char>>::LabelsNotDistinct,
            )
        },
{
}

/// A noul question shows two options: its false label with the criterion under
/// `false`, and its true label with the criterion under `true`, whatever the
/// labels are.
pub proof fn noul_criteria_are_shown(q: Question)
    requires
        q.t == "noul"@,
        noul_labels(q.labels) is Ok,
    ensures
        rendered_options(q) is Ok,
        rendered_options(q)->Ok_0.len() == 2,
        q.crit matches Json::Object(entries) ==> {
            let shown = rendered_options(q)->Ok_0;
            let (no, yes) = noul_labels(q.labels)->Ok_0;
            &&& match lookup(entries, "false"@) {
                Some(Json::String(s)) => s.len() > 0 ==> shown[0] == no + ": "@ + s,
                Some(Json::Null) => true,
                Some(c) => shown[0] == no + ": "@ + json_text(c),
                None => true,
            }
            &&& match lookup(entries, "true"@) {
                Some(Json::String(s)) => s.len() > 0 ==> shown[1] == yes + ": "@ + s,
                Some(Json::Null) => true,
                Some(c) => shown[1] == yes + ": "@ + json_text(c),
                None => true,
            }
        },
{
    type_names_differ();
}

/// Where nothing is said of an answer of a noul question, it is shown with the
/// usual words.
pub proof fn noul_answers_have_words(q: Question)
    requires
        q.t == "noul"@,
        noul_labels(q.labels) is Ok,
    ensures
        rendered_options(q) is Ok,
        ({
            let shown = rendered_options(q)->Ok_0;
            let (no, yes) = noul_labels(q.labels)->Ok_0;
            let on_no = if q.crit is Object {
                lookup(q.crit->Object_0, "false"@)
            } else {
                None
            };
            let on_yes = if q.crit is Object {
                lookup(q.crit->Object_0, "true"@)
            } else {
                None
            };
            &&& on_no is None || on_no == Some(Json::Null) || on_no == Some(
                Json::String(Seq::empty()),
            ) ==> shown[0] == no + ": "@ + "no, the statement does not hold"@
            &&& on_yes is None || on_yes == Some(Json::Null) || on_yes == Some(
                Json::String(Seq::empty()),
            ) ==> shown[1] == yes + ": "@ + "yes, the statement holds"@
        }),
{
    type_names_differ();
}

/// The options of a question are refused exactly if it has labels and is no noul
/// question, if its criteria are not those of its type, if its labels are of no
/// use, or if its type is unknown.
pub proof fn options_are_refused(q: Question)
    ensures
        q.t != "noul"@ && q.labels is Some ==> rendered_options(q) == Err::<Seq<Seq<char>>, _>(
            Error::<Seq<char>>::LabelsUnsupported,
        ),
        q.labels is None && q.t == "choice"@ && !(q.crit is Object) ==> rendered_options(q)
            == Err::<Seq<Seq<char>>, _>(Error::<Seq<char>>::ChoiceCriteriaNotObject),
        q.labels is None && q.t == "score"@ && !(q.crit is Array) ==> rendered_options(q) == Err::<
            Seq<Seq<char>>,
            _,
        >(Error::<Seq<char>>::ScoreCriteriaNotList),
        q.t == "noul"@ && noul_labels(q.labels) is Err ==> rendered_options(q) == Err::<
            Seq<Seq<char>>,
            _,
        >(noul_labels(q.labels)->Err_0),
        q.labels is None && q.t != "choice"@ && q.t != "score"@ && q.t != "noul"@
            ==> rendered_options(q) == Err::<Seq<Seq<char>>, _>(Error::UnknownQuestionType(q.t)),
{
    type_names_differ();
}

/// A definition stands for a question exactly if it is an object with a known
/// type, with instructions, and with criteria that fit the type. Otherwise the
/// complaint names the question and the first of these that fails.
pub proof fn definitions_are_read(qid: Seq<char>, qdef: Json)
    ensures
        !(qdef is Object) ==> internal_of(qid, qdef) == Err::<Question, _>(
            Error::DefinitionNotObject { qid },
        ),
        qdef matches Json::Object(entries) ==> {
            let r = internal_of(qid, qdef);
            let crit = lookup(entries, "criteria"@);
            match lookup(entries, "type"@) {
                Some(Json::String(t)) => {
                    let known = t == "choice"@ || t == "score"@ || t == "noul"@;
                    let told = lookup(entries, "instructions"@) is Some;
                    let listed = crit matches Some(Json::Array(_));
                    let keyed = crit matches Some(Json::Object(_));
                    let open = crit is None || crit == Some(Json::Null);
                    &&& !known ==> r == Err::<Question, _>(Error::TypeUnknown { qid, t })
                    &&& known && !told ==> r == Err::<Question, _>(
                        Error::InstructionsMissing { qid },
                    )
                    &&& told && t == "choice"@ ==> if listed || keyed {
                        r is Ok
                    } else {
                        r == Err::<Question, _>(Error::ChoiceCriteriaInvalid { qid })
                    }
                    &&& told && t == "score"@ ==> if listed {
                        r is Ok
                    } else {
                        r == Err::<Question, _>(Error::ScoreCriteriaInvalid { qid })
                    }
                    &&& told && t == "noul"@ ==> if open || keyed {
                        r is Ok
                    } else {
                        r == Err::<Question, _>(Error::NoulCriteriaInvalid { qid })
                    }
                },
                _ => r == Err::<Question, _>(Error::TypeMissing { qid }),
            }
        },
{
    type_names_differ();
}

/// A question that is read keeps its type, its instructions as plain text, and its
/// labels. A choice among keys and a score keep their criteria as they are, and a
/// noul question without criteria has an empty object of them.
pub proof fn definitions_are_kept(qid: Seq<char>, entries: Seq<(Seq<char>, Json)>)
    requires
        internal_of(qid, Json::Object(entries)) is Ok,
    ensures
        ({
            let q = internal_of(qid, Json::Object(entries))->Ok_0;
            let crit = lookup(entries, "criteria"@);
            &&& lookup(entries, "type"@) == Some(Json::String(q.t))
            &&& match lookup(entries, "instructions"@) {
                Some(Json::String(s)) => q.ins == s,
                Some(ins) => q.ins == json_text(ins),
                None => false,
            }
            &&& q.labels == lookup(entries, "labels"@)
            &&& q.t == "choice"@ && crit->Some_0 is Object ==> q.crit == crit->Some_0
            &&& q.t == "score"@ ==> q.crit == crit->Some_0
            &&& q.t == "noul"@ && (crit is None || crit == Some(Json::Null)) ==> q.crit
                == Json::Object(Seq::empty())
        }),
{
    type_names_differ();
}

/// A choice that is given as a list has its items, as plain text, for keys, each
/// once, in the order of keys and with nothing said of it.
pub proof fn listed_choices_are_read(
    qid: Seq<char>,
    entries: Seq<(Seq<char>, Json)>,
    items: Seq<Json>,
    key: Seq<char>,
)
    requires
        internal_of(qid, Json::Object(entries)) is Ok,
        lookup(entries, "type"@) == Some(Json::String("choice"@)),
        lookup(entries, "criteria"@) == Some(Json::Array(items)),
    ensures
        ({
            let crit = internal_of(qid, Json::Object(entries))->Ok_0.crit;
            let is_listed = exists|i: int|
                0 <= i < items.len() && key == match #[trigger] items[i] {
                    Json::String(s) => s,
                    _ => json_text(items[i]),
                };
            &&& crit is Object
            &&& ordered(crit->Object_0)
            &&& is_listed ==> lookup(crit->Object_0, key) == Some(Json::Null)
            &&& !is_listed ==> lookup(crit->Object_0, key) is None
        }),
{
    type_names_differ();
    listed_choices_are_the_items(items);
    let list = listed_choices(items);
    if exists|i: int|
        0 <= i < items.len() && key == match #[trigger] items[i] {
            Json::String(s) => s,
            _ => json_text(items[i]),
        } {
        let i = choose|i: int|
            0 <= i < items.len() && key == match #[trigger] items[i] {
                Json::String(s) => s,
                _ => json_text(items[i]),
            };
        assert(plain_text(items[i]) == key);
    } else {
        assert forall|i: int| 0 <= i < items.len() implies plain_text(
            #[trigger] items[i],
        ) != key by {
            assert(items[i] == items[i]);
        }
    }
    assert(internal_of(qid, Json::Object(entries))->Ok_0.crit == Json::Object(list));
}

/// The criteria of a noul question are read under their keys in lower case, in the
/// order of these. Of several with one lower-case key the last is read, and nothing
/// is read under any other key.
pub proof fn noul_criteria_are_read(
    qid: Seq<char>,
    entries: Seq<(Seq<char>, Json)>,
    given: Seq<(Seq<char>, Json)>,
    key: Seq<char>,
    i: int,
)
    requires
        internal_of(qid, Json::Object(entries)) is Ok,
        lookup(entries, "type"@) == Some(Json::String("noul"@)),
        lookup(entries, "criteria"@) == Some(Json::Object(given)),
        -1 <= i < given.len(),
        i >= 0 ==> lowercase(given[i].0) == key,
        forall|j: int| i < j < given.len() ==> lowercase((#[trigger] given[j]).0) != key,
    ensures
        ({
            let crit = internal_of(qid, Json::Object(entries))->Ok_0.crit;
            &&& crit is Object
            &&& ordered(crit->Object_0)
            &&& i >= 0 ==> lookup(crit->Object_0, key) == Some(given[i].1)
            &&& i < 0 ==> lookup(crit->Object_0, key) is None
        }),
{
    type_names_differ();
    let pairs = given.map_values(|e: (Seq<char>, Json)| (lowercase(e.0), e.1));
    object_is_ordered(pairs);
    assert(internal_of(qid, Json::Object(entries))->Ok_0.crit == Json::Object(object_of(pairs)));
    assert forall|j: int| i < j < pairs.len() implies (#[trigger] pairs[j]).0 != key by {
        assert(pairs[j].0 == lowercase(given[j].0));
    }
    if i >= 0 {
        last_pair_counts(pairs, i);
    } else {
        no_other_keys(pairs, key);
    }
}

/// A question says what it holds, and so does a list of texts.
pub proof fn questions_say_what_they_hold(q: InternalQuestion, list: Seq<String>, i: int)
    ensures
        q@.t == q.t@,
        q@.ins == q.ins@,
        q@.crit == q.crit@,
        q.labels is None <==> q@.labels is None,
        q.labels matches Some(v) ==> q@.labels == Some(v@),
        texts(list).len() == list.len(),
        0 <= i < list.len() ==> texts(list)[i] == list[i]@,
{
}

/// A question is well formed exactly if its criteria are, and its labels, if it has any.
pub proof fn well_formed_questions(q: Question)
    ensures
        q.labels is None ==> (question_is_well_formed(q) <==> well_formed(q.crit)),
        q.labels matches Some(labels) ==> (question_is_well_formed(q) <==> well_formed(q.crit)
            && well_formed(labels)),
{
}

/// What comes of rendering options says the options or the complaint.
pub proof fn renderings_say_what_they_hold(list: Vec<String>, e: Error<String>)
    ensures
        texts_said(Ok(list)) == Ok::<Seq<Seq<char>>, Error<Seq<char>>>(texts(list@)),
        texts_said(Err(e)) == Err::<Seq<Seq<char>>, Error<Seq<char>>>(e@),
{
}

} // verus!
