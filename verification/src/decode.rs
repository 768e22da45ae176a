//! Temperatures, and the answers that the scores of the model amount to.

use tokenizers::Tokenizer;
use vstd::prelude::*;

use crate::agent::{
    encoded_questions_are_marked, may_encode_item, may_prepare, named, prepared_items_are_encoded,
    questions_in, questions_keep_names, questions_of, Item,
};
use crate::error::{said, Error};
use crate::json::{
    entries_are_well_formed, items_are_well_formed, made_objects_are_well_formed, object,
    push_pair, well_formed,
};
use crate::object::{
    before, before_is_total, each_pair_is_found, first_entry_is_found, last_pair_counts, lookup, no_other_keys,
    object_of, ordered,
};
use crate::question::{
    internal_of, option_count, qtype_of, question_is_well_formed, read_questions_render,
    rendered_options, type_names_differ, InternalQuestion, Question, QTYPE_CHOICE, QTYPE_NOUL,
    QTYPE_SCORE,
};
use crate::text::{decimal, decimal_text, decimals_tell_apart, joined3, same_text};
use crate::tokens::SpecialIds;
use crate::value::{entries_view, items_view, Json, JsonValue};

verus! {

/// The name of a question type in temperature buckets.
pub open spec fn bucket_type(qtype: i64) -> Seq<char> {
    if qtype == QTYPE_SCORE {
        "score"@
    } else if qtype == QTYPE_NOUL {
        "noul"@
    } else {
        "choice"@
    }
}

/// The size class of a number of options in temperature buckets.
pub open spec fn bucket_size(k: int) -> Seq<char> {
    if k <= 2 {
        "2"@
    } else if k <= 5 {
        "3-5"@
    } else if k <= 10 {
        "6-10"@
    } else {
        "11+"@
    }
}

/// The temperature bucket of a question with `k` options.
pub open spec fn bucket_of(qtype: i64, k: int) -> Seq<char> {
    bucket_type(qtype) + ":"@ + bucket_size(k)
}

/// Names the temperature bucket of a question with `k` options.
pub fn temp_bucket(qtype: i64, k: usize) -> (r: String)
    ensures
        r@ == bucket_of(qtype, k as int),
{
    let name = if qtype == QTYPE_CHOICE {
        "choice"
    } else if qtype == QTYPE_SCORE {
        "score"
    } else if qtype == QTYPE_NOUL {
        "noul"
    } else {
        "choice"
    };
    let size = if k <= 2 {
        "2"
    } else if k <= 5 {
        "3-5"
    } else if k <= 10 {
        "6-10"
    } else {
        "11+"
    };
    joined3(name, ":", size)
}

/// What named numbers say.
pub open spec fn numbers<T>(list: Seq<(String, T)>) -> Seq<(Seq<char>, T)> {
    list.map_values(|e: (String, T)| (e.0@, e.1))
}

/// Whether no name occurs twice.
pub open spec fn names_differ<T>(list: Seq<(String, T)>) -> bool {
    forall|i: int, j: int|
        0 <= i < j < list.len() ==> (#[trigger] list[i]).0@ != (#[trigger] list[j]).0@
}

/// The configuration of an agent. `T` is the type of its real numbers.
#[derive(Debug, Clone)]
pub struct AgentConfig<T> {
    pub encoder: String,
    pub head_layers: usize,
    pub max_len: usize,
    pub head_max_len: usize,
    pub act_costs: Vec<(String, T)>,
    pub temperature: Vec<T>,
    pub temperature_by_options: Vec<(String, T)>,
}

impl<T> AgentConfig<T> {
    /// Whether no name occurs twice in a table of the configuration.
    pub open spec fn wf(self) -> bool {
        names_differ(self.act_costs@) && names_differ(self.temperature_by_options@)
    }
}

/// The temperatures by which scores are divided: one for each question type,
/// and others for single buckets.
#[derive(Debug)]
pub struct Temperatures<T> {
    pub by_type: Vec<T>,
    pub by_options: Vec<(String, T)>,
}

impl<T: Copy> Temperatures<T> {
    /// Whether no bucket occurs twice.
    pub open spec fn wf(self) -> bool {
        names_differ(self.by_options@)
    }

    /// The temperature for a question with `k` options: that of its bucket, else
    /// that of its type, else the neutral one.
    pub open spec fn scale_of(self, qtype: i64, k: int, neutral: T) -> T {
        match lookup(numbers(self.by_options@), bucket_of(qtype, k)) {
            Some(t) => t,
            None => {
                if (qtype as usize) < self.by_type@.len() {
                    self.by_type@[qtype as usize as int]
                } else {
                    neutral
                }
            },
        }
    }

    /// Takes the temperatures from a configuration, each of them clamped. Unless
    /// there are three by type, those are neutral.
    pub fn from_config<F: Fn(T) -> T>(cfg: &AgentConfig<T>, neutral: T, clamp: F) -> (r:
        Temperatures<T>)
        requires
            cfg.wf(),
            forall|t: T| call_requires(clamp, (t,)),
        ensures
            r.wf(),
            r.by_type@.len() == 3,
            forall|i: int|
                0 <= i < 3 ==> if cfg.temperature@.len() == 3 {
                    call_ensures(clamp, (cfg.temperature@[i],), #[trigger] r.by_type@[i])
                } else {
                    r.by_type@[i] == neutral
                },
            r.by_options@.len() == cfg.temperature_by_options@.len(),
            forall|i: int|
                0 <= i < r.by_options@.len() ==> (#[trigger] r.by_options@[i]).0@
                    == cfg.temperature_by_options@[i].0@ && call_ensures(
                    clamp,
                    (cfg.temperature_by_options@[i].1,),
                    r.by_options@[i].1,
                ),
    {
        let mut by_type: Vec<T> = Vec::new();
        let given = cfg.temperature.len() == 3;
        let mut i: usize = 0;
        while i < 3
            invariant
                i <= 3,
                given == (cfg.temperature@.len() == 3),
                forall|t: T| call_requires(clamp, (t,)),
                by_type@.len() == i,
                forall|j: int|
                    0 <= j < i ==> if cfg.temperature@.len() == 3 {
                        call_ensures(clamp, (cfg.temperature@[j],), #[trigger] by_type@[j])
                    } else {
                        by_type@[j] == neutral
                    },
            decreases 3 - i,
        {
            if given {
                by_type.push(clamp(cfg.temperature[i]));
            } else {
                by_type.push(neutral);
            }
            i += 1;
        }
        let mut by_options: Vec<(String, T)> = Vec::new();
        let mut n: usize = 0;
        while n < cfg.temperature_by_options.len()
            invariant
                n <= cfg.temperature_by_options@.len(),
                forall|t: T| call_requires(clamp, (t,)),
                by_options@.len() == n,
                forall|j: int|
                    0 <= j < n ==> (#[trigger] by_options@[j]).0@
                        == cfg.temperature_by_options@[j].0@ && call_ensures(
                        clamp,
                        (cfg.temperature_by_options@[j].1,),
                        by_options@[j].1,
                    ),
            decreases cfg.temperature_by_options.len() - n,
        {
            let t = clamp(cfg.temperature_by_options[n].1);
            by_options.push((cfg.temperature_by_options[n].0.clone(), t));
            n += 1;
        }
        Temperatures { by_type, by_options }
    }

    /// Gives the temperature for a question with `k` options.
    pub fn scale(&self, qtype: i64, k: usize, neutral: T) -> (r: T)
        ensures
            r == self.scale_of(qtype, k as int, neutral),
    {
        let bucket = temp_bucket(qtype, k);
        let ghost all = numbers(self.by_options@);
        let mut i: usize = 0;
        assert(all.skip(0) =~= all);
        while i < self.by_options.len()
            invariant
                i <= self.by_options@.len(),
                all == numbers(self.by_options@),
                bucket@ == bucket_of(qtype, k as int),
                lookup(all, bucket@) == lookup(all.skip(i as int), bucket@),
            decreases self.by_options.len() - i,
        {
            assert(all.skip(i as int)[0] == (
                self.by_options@[i as int].0@,
                self.by_options@[i as int].1,
            ));
            if same_text(&self.by_options[i].0, &bucket) {
                return self.by_options[i].1;
            }
            assert(all.skip(i as int).skip(1) =~= all.skip(i + 1));
            i += 1;
        }
        let at: usize = qtype as usize;
        if at < self.by_type.len() {
            self.by_type[at]
        } else {
            neutral
        }
    }
}

/// The number by which a question type goes in decoding: that of a choice where
/// the type is unknown.
pub open spec fn decoding_qtype_of(t: Seq<char>) -> i64 {
    match qtype_of(t) {
        Some(id) => id,
        None => QTYPE_CHOICE,
    }
}

/// Gives the number by which a question type goes in decoding.
pub fn decoding_qtype(t: &str) -> (r: i64)
    ensures
        r == decoding_qtype_of(t@),
{
    if same_text(t, "choice") {
        QTYPE_CHOICE
    } else if same_text(t, "score") {
        QTYPE_SCORE
    } else if same_text(t, "noul") {
        QTYPE_NOUL
    } else {
        QTYPE_CHOICE
    }
}

/// The position of the largest rank, the last one where there are several.
pub open spec fn best_of(ranks: Seq<u64>) -> int
    decreases ranks.len(),
{
    if ranks.len() <= 1 {
        0
    } else {
        let before = best_of(ranks.drop_last());
        if ranks.last() >= ranks[before] {
            ranks.len() - 1
        } else {
            before
        }
    }
}

/// The best option has the largest rank, and every later one a smaller rank.
pub proof fn best_is_last_largest(ranks: Seq<u64>)
    requires
        ranks.len() > 0,
    ensures
        0 <= best_of(ranks) < ranks.len(),
        forall|i: int| 0 <= i < ranks.len() ==> (#[trigger] ranks[i]) <= ranks[best_of(ranks)],
        forall|i: int| best_of(ranks) < i < ranks.len() ==> (#[trigger] ranks[i]) < ranks[best_of(
            ranks,
        )],
    decreases ranks.len(),
{
    if ranks.len() > 1 {
        let rest = ranks.drop_last();
        best_is_last_largest(rest);
        let b = best_of(rest);
        assert forall|i: int| 0 <= i < ranks.len() - 1 implies (#[trigger] ranks[i]) <= ranks[b] by {
            assert(rest[i] <= rest[b]);
        }
        assert forall|i: int| b < i < ranks.len() - 1 implies (#[trigger] ranks[i]) < ranks[b] by {
            assert(rest[i] < rest[b]);
        }
    }
}

/// Finds the best option: the largest rank, the last one where there are
/// several.
pub fn best_option(ranks: &Vec<u64>) -> (r: usize)
    ensures
        r == best_of(ranks@),
{
    if ranks.len() <= 1 {
        return 0;
    }
    let mut best: usize = 0;
    let mut i: usize = 1;
    while i < ranks.len()
        invariant
            1 <= i <= ranks@.len(),
            best < i,
            best == best_of(ranks@.take(i as int)),
        decreases ranks.len() - i,
    {
        assert(ranks@.take(i + 1).drop_last() =~= ranks@.take(i as int));
        if ranks[i] >= ranks[best] {
            best = i;
        }
        i += 1;
    }
    assert(ranks@.take(i as int) =~= ranks@);
    best
}

/// What the model makes of one question, as numbers to be reported: how its
/// options rank, how probable each is, and the figures drawn from that.
#[derive(Debug)]
pub struct Scores {
    /// The ranks of the options: a larger rank is a larger probability.
    pub ranks: Vec<u64>,
    pub probabilities: Vec<JsonValue>,
    /// The expected level of a score question.
    pub expected: JsonValue,
    pub confidence: JsonValue,
    /// The larger one of the two probabilities of a noul question.
    pub certainty: JsonValue,
    pub answer_confidence: JsonValue,
    pub act_probability: JsonValue,
}

/// What scores say.
#[verifier::ext_equal]
pub struct Figures {
    pub ranks: Seq<u64>,
    pub probabilities: Seq<Json>,
    pub expected: Json,
    pub confidence: Json,
    pub certainty: Json,
    pub answer_confidence: Json,
    pub act_probability: Json,
}

impl View for Scores {
    type V = Figures;

    open spec fn view(&self) -> Figures {
        Figures {
            ranks: self.ranks@,
            probabilities: items_view(self.probabilities@),
            expected: self.expected@,
            confidence: self.confidence@,
            certainty: self.certainty@,
            answer_confidence: self.answer_confidence@,
            act_probability: self.act_probability@,
        }
    }
}

/// Whether the figures are well formed.
pub open spec fn figures_are_well_formed(f: Figures) -> bool {
    &&& forall|i: int| 0 <= i < f.probabilities.len() ==> well_formed(#[trigger] f.probabilities[i])
    &&& well_formed(f.expected)
    &&& well_formed(f.confidence)
    &&& well_formed(f.certainty)
    &&& well_formed(f.answer_confidence)
    &&& well_formed(f.act_probability)
}

/// Whether there are figures enough to answer a question: the best option of a
/// choice is one of its criteria, the criteria of a score are a list, and a noul
/// question has two probabilities.
pub open spec fn is_answerable(q: Question, f: Figures) -> bool {
    &&& q.t == "choice"@ ==> q.crit is Object && best_of(f.ranks) < q.crit->Object_0.len()
    &&& q.t == "score"@ ==> q.crit is Array
    &&& q.t == "noul"@ ==> f.probabilities.len() >= 2
}

/// What to do: how probable it is that acting is right.
pub open spec fn action_of(f: Figures) -> Json {
    Json::Object(object_of(seq![("act_probability"@, f.act_probability)]))
}

/// The pairs of the choices with their probabilities, as far as both go.
pub open spec fn choice_pairs(entries: Seq<(Seq<char>, Json)>, probabilities: Seq<Json>) -> Seq<
    (Seq<char>, Json),
> {
    Seq::new(
        if entries.len() < probabilities.len() {
            entries.len()
        } else {
            probabilities.len()
        },
        |i: int| (entries[i].0, probabilities[i]),
    )
}

/// Values under their positions.
pub open spec fn numbered_pairs(items: Seq<Json>) -> Seq<(Seq<char>, Json)> {
    Seq::new(items.len(), |i: int| (decimal(i as nat), items[i]))
}

/// The pairs of the answer to a choice question.
pub open spec fn choice_answer(entries: Seq<(Seq<char>, Json)>, f: Figures) -> Seq<
    (Seq<char>, Json),
> {
    seq![
        ("type"@, Json::String("choice"@)),
        ("choice"@, Json::String(entries[best_of(f.ranks)].0)),
        ("probabilities"@, Json::Object(object_of(choice_pairs(entries, f.probabilities)))),
        ("confidence"@, f.confidence),
        ("answer_confidence"@, f.answer_confidence),
        ("action"@, action_of(f)),
    ]
}

/// The pairs of the answer to a score question.
pub open spec fn score_answer(levels: Seq<Json>, f: Figures) -> Seq<(Seq<char>, Json)> {
    seq![
        ("type"@, Json::String("score"@)),
        ("score"@, f.expected),
        ("legend"@, Json::Object(object_of(numbered_pairs(levels)))),
        ("probabilities"@, Json::Object(object_of(numbered_pairs(f.probabilities)))),
        ("confidence"@, f.confidence),
        ("answer_confidence"@, f.answer_confidence),
        ("action"@, action_of(f)),
    ]
}

/// The pairs of the answer to a noul question.
pub open spec fn noul_answer(f: Figures) -> Seq<(Seq<char>, Json)> {
    seq![
        ("type"@, Json::String("noul"@)),
        ("noul"@, f.probabilities[1]),
        ("confidence"@, f.certainty),
        ("answer_confidence"@, f.answer_confidence),
        ("action"@, action_of(f)),
    ]
}

/// The answer to a question.
pub open spec fn answer_of(q: Question, f: Figures) -> Result<Json, Error<Seq<char>>> {
    if q.t == "choice"@ {
        Ok(Json::Object(object_of(choice_answer(q.crit->Object_0, f))))
    } else if q.t == "score"@ {
        Ok(Json::Object(object_of(score_answer(q.crit->Array_0, f))))
    } else if q.t == "noul"@ {
        Ok(Json::Object(object_of(noul_answer(f))))
    } else {
        Err(Error::UnknownAnswerType(q.t))
    }
}

/// The answers to questions under their names, or the first complaint.
pub open spec fn answer_pairs(questions: Seq<(Seq<char>, Question)>, figures: Seq<Figures>) -> Result<
    Seq<(Seq<char>, Json)>,
    Error<Seq<char>>,
>
    decreases questions.len(),
{
    if questions.len() == 0 {
        Ok(Seq::empty())
    } else {
        match answer_pairs(questions.drop_last(), figures) {
            Ok(before) => match answer_of(questions.last().1, figures[questions.len() - 1]) {
                Ok(answer) => Ok(before.push((questions.last().0, answer))),
                Err(e) => Err(e),
            },
            Err(e) => Err(e),
        }
    }
}

/// What a list of scores says.
pub open spec fn figures_of(scores: Seq<Scores>) -> Seq<Figures> {
    scores.map_values(|s: Scores| s@)
}

/// Makes an object of the choices and their probabilities.
fn choice_probabilities(
    entries: &Vec<(String, JsonValue)>,
    probabilities: &Vec<JsonValue>,
) -> (r: JsonValue)
    ensures
        r@ == Json::Object(
            object_of(choice_pairs(entries_view(entries@), items_view(probabilities@))),
        ),
{
    let ghost wanted = choice_pairs(entries_view(entries@), items_view(probabilities@));
    let mut pairs: Vec<(String, JsonValue)> = Vec::new();
    let mut i: usize = 0;
    assert(entries_view(pairs@) =~= wanted.take(0));
    while i < entries.len() && i < probabilities.len()
        invariant
            i <= entries@.len(),
            i <= probabilities@.len(),
            wanted == choice_pairs(entries_view(entries@), items_view(probabilities@)),
            entries_view(pairs@) == wanted.take(i as int),
        decreases entries.len() - i,
    {
        push_pair(&mut pairs, &entries[i].0, probabilities[i].clone());
        assert(wanted[i as int] == (entries@[i as int].0@, probabilities@[i as int]@));
        assert(wanted.take(i + 1) =~= wanted.take(i as int).push(wanted[i as int]));
        i += 1;
    }
    assert(wanted.take(i as int) =~= wanted);
    object(&pairs)
}

/// Makes an object of values under their positions.
fn numbered(items: &Vec<JsonValue>) -> (r: JsonValue)
    ensures
        r@ == Json::Object(object_of(numbered_pairs(items_view(items@)))),
{
    let ghost wanted = numbered_pairs(items_view(items@));
    let mut pairs: Vec<(String, JsonValue)> = Vec::new();
    let mut i: usize = 0;
    assert(entries_view(pairs@) =~= wanted.take(0));
    while i < items.len()
        invariant
            i <= items@.len(),
            wanted == numbered_pairs(items_view(items@)),
            entries_view(pairs@) == wanted.take(i as int),
        decreases items.len() - i,
    {
        push_pair(&mut pairs, &decimal_text(i), items[i].clone());
        assert(wanted[i as int] == (decimal(i as nat), items@[i as int]@));
        assert(wanted.take(i + 1) =~= wanted.take(i as int).push(wanted[i as int]));
        i += 1;
    }
    assert(wanted.take(i as int) =~= wanted);
    object(&pairs)
}

/// Says what to do.
fn action(scores: &Scores) -> (r: JsonValue)
    ensures
        r@ == action_of(scores@),
{
    let mut pairs: Vec<(String, JsonValue)> = Vec::new();
    push_pair(&mut pairs, "act_probability", scores.act_probability.clone());
    assert(entries_view(pairs@) =~= seq![("act_probability"@, scores@.act_probability)]);
    object(&pairs)
}

/// Answers a question.
pub fn decode_answer(q: &InternalQuestion, scores: &Scores) -> (r: Result<
    JsonValue,
    Error<String>,
>)
    requires
        is_answerable(q@, scores@),
    ensures
        said(r) == answer_of(q@, scores@),
{
    let mut pairs: Vec<(String, JsonValue)> = Vec::new();
    if same_text(&q.t, "choice") {
        if let JsonValue::Object(entries) = &q.crit {
            let best: usize = best_option(&scores.ranks);
            assert(q.crit@->Object_0 == entries_view(entries@));
            push_pair(&mut pairs, "type", JsonValue::String("choice".to_owned()));
            push_pair(&mut pairs, "choice", JsonValue::String(entries[best].0.clone()));
            push_pair(
                &mut pairs,
                "probabilities",
                choice_probabilities(entries, &scores.probabilities),
            );
            push_pair(&mut pairs, "confidence", scores.confidence.clone());
            push_pair(&mut pairs, "answer_confidence", scores.answer_confidence.clone());
            push_pair(&mut pairs, "action", action(scores));
            assert(entries_view(pairs@) =~= choice_answer(q@.crit->Object_0, scores@));
        }
    } else if same_text(&q.t, "score") {
        if let JsonValue::Array(levels) = &q.crit {
            assert(q.crit@->Array_0 == items_view(levels@));
            push_pair(&mut pairs, "type", JsonValue::String("score".to_owned()));
            push_pair(&mut pairs, "score", scores.expected.clone());
            push_pair(&mut pairs, "legend", numbered(levels));
            push_pair(&mut pairs, "probabilities", numbered(&scores.probabilities));
            push_pair(&mut pairs, "confidence", scores.confidence.clone());
            push_pair(&mut pairs, "answer_confidence", scores.answer_confidence.clone());
            push_pair(&mut pairs, "action", action(scores));
            assert(entries_view(pairs@) =~= score_answer(q@.crit->Array_0, scores@));
        }
    } else if same_text(&q.t, "noul") {
        push_pair(&mut pairs, "type", JsonValue::String("noul".to_owned()));
        push_pair(&mut pairs, "noul", scores.probabilities[1].clone());
        push_pair(&mut pairs, "confidence", scores.certainty.clone());
        push_pair(&mut pairs, "answer_confidence", scores.answer_confidence.clone());
        push_pair(&mut pairs, "action", action(scores));
        assert(entries_view(pairs@) =~= noul_answer(scores@));
    } else {
        return Err(Error::UnknownAnswerType(q.t.clone()));
    }
    Ok(object(&pairs))
}

/// Once one question is not answered, none of the longer lists is.
proof fn first_refusal_stands(
    questions: Seq<(Seq<char>, Question)>,
    figures: Seq<Figures>,
    i: int,
)
    requires
        0 <= i <= questions.len(),
        answer_pairs(questions.take(i), figures) is Err,
    ensures
        answer_pairs(questions, figures) == answer_pairs(questions.take(i), figures),
    decreases questions.len(),
{
    if i == questions.len() {
        assert(questions.take(i) =~= questions);
    } else {
        assert(questions.drop_last().take(i) =~= questions.take(i));
        first_refusal_stands(questions.drop_last(), figures, i);
    }
}

/// The answers to named questions are well formed where the questions and the
/// figures are.
proof fn named_answers_are_well_formed(
    questions: Seq<(String, InternalQuestion)>,
    scores: Seq<Scores>,
)
    requires
        questions.len() <= scores.len(),
        forall|i: int|
            0 <= i < questions.len() ==> is_answerable((#[trigger] questions[i]).1@, scores[i]@),
        forall|i: int|
            0 <= i < questions.len() ==> question_is_well_formed((#[trigger] questions[i]).1@)
                && figures_are_well_formed(scores[i]@),
        answer_pairs(named(questions), figures_of(scores)) is Ok,
    ensures
        well_formed(
            Json::Object(object_of(answer_pairs(named(questions), figures_of(scores))->Ok_0)),
        ),
{
    let all = named(questions);
    let figures = figures_of(scores);
    assert forall|i: int| 0 <= i < all.len() implies question_is_well_formed(
        (#[trigger] all[i]).1,
    ) && figures_are_well_formed(figures[i]) && is_answerable(all[i].1, figures[i]) by {
        assert(all[i].1 == questions[i].1@);
        assert(figures[i] == scores[i]@);
    }
    answers_are_well_formed(all, figures);
}

/// Answers the questions, under their names.
pub fn decode_answers(
    questions: &Vec<(String, InternalQuestion)>,
    scores: &Vec<Scores>,
) -> (r: Result<JsonValue, Error<String>>)
    requires
        questions@.len() <= scores@.len(),
        forall|i: int|
            0 <= i < questions@.len() ==> is_answerable(
                (#[trigger] questions@[i]).1@,
                scores@[i]@,
            ),
    ensures
        said(r) == match answer_pairs(named(questions@), figures_of(scores@)) {
            Ok(pairs) => Ok::<Json, Error<Seq<char>>>(Json::Object(object_of(pairs))),
            Err(e) => Err(e),
        },
        r matches Ok(answers) ==> ((forall|i: int|
            0 <= i < questions@.len() ==> question_is_well_formed((#[trigger] questions@[i]).1@)
                && figures_are_well_formed(scores@[i]@)) ==> well_formed(answers@)),
{
    let ghost all = named(questions@);
    let ghost figures = figures_of(scores@);
    let mut pairs: Vec<(String, JsonValue)> = Vec::new();
    let mut i: usize = 0;
    assert(entries_view(pairs@) =~= Seq::<(Seq<char>, Json)>::empty());
    while i < questions.len()
        invariant
            i <= questions@.len() <= scores@.len(),
            all == named(questions@),
            figures == figures_of(scores@),
            forall|j: int|
                0 <= j < questions@.len() ==> is_answerable(
                    (#[trigger] questions@[j]).1@,
                    scores@[j]@,
                ),
            answer_pairs(all.take(i as int), figures) == Ok::<
                Seq<(Seq<char>, Json)>,
                Error<Seq<char>>,
            >(entries_view(pairs@)),
        decreases questions.len() - i,
    {
        assert(all.take(i + 1).drop_last() =~= all.take(i as int));
        assert(all.take(i + 1).last() == (questions@[i as int].0@, questions@[i as int].1@));
        assert(figures[i as int] == scores@[i as int]@);
        match decode_answer(&questions[i].1, &scores[i]) {
            Ok(answer) => {
                push_pair(&mut pairs, &questions[i].0, answer);
            },
            Err(e) => {
                proof {
                    first_refusal_stands(all, figures, i + 1);
                }
                return Err(e);
            },
        }
        i += 1;
    }
    assert(all.take(i as int) =~= all);
    proof {
        if forall|i: int|
            0 <= i < questions@.len() ==> question_is_well_formed((#[trigger] questions@[i]).1@)
                && figures_are_well_formed(scores@[i]@) {
            named_answers_are_well_formed(questions@, scores@);
        }
    }
    Ok(object(&pairs))
}

/// A negative question type has the neutral temperature where its bucket has none
/// of its own and the temperatures by type are few. On a machine with 32 bits it
/// must fit in its words.
pub proof fn negative_types_are_neutral<T: Copy>(
    temps: Temperatures<T>,
    qtype: i64,
    k: nat,
    neutral: T,
)
    requires
        qtype < 0,
        usize::BITS == 64 || -0x8000_0000 <= qtype,
        temps.by_type@.len() <= 0x7fff_ffff,
        lookup(numbers(temps.by_options@), bucket_of(qtype, k as int)) is None,
    ensures
        temps.scale_of(qtype, k as int, neutral) == neutral,
{
    assert(qtype as usize >= 0x8000_0000) by (bit_vector)
        requires
            qtype < 0,
            usize::BITS == 64 || -0x8000_0000 <= qtype,
    ;
}

/// Two buckets are one exactly if the question types and the size classes are
/// the same.
pub proof fn buckets_tell_apart(a: i64, j: nat, b: i64, k: nat)
    ensures
        bucket_of(a, j as int) == bucket_of(b, k as int) <==> bucket_type(a) == bucket_type(b)
            && bucket_size(j as int) == bucket_size(k as int),
        bucket_type(QTYPE_CHOICE) != bucket_type(QTYPE_SCORE),
        bucket_type(QTYPE_CHOICE) != bucket_type(QTYPE_NOUL),
        bucket_type(QTYPE_SCORE) != bucket_type(QTYPE_NOUL),
{
    reveal_strlit("choice");
    reveal_strlit("score");
    reveal_strlit("noul");
    reveal_strlit(":");
    reveal_strlit("2");
    reveal_strlit("3-5");
    reveal_strlit("6-10");
    reveal_strlit("11+");
    type_names_differ();
    let x = bucket_of(a, j as int);
    let y = bucket_of(b, k as int);
    assert(x[0] == bucket_type(a)[0] && y[0] == bucket_type(b)[0]);
    assert(x.last() == bucket_size(j as int).last() && y.last() == bucket_size(k as int).last());
}

/// The pairs of answers come in the order of the questions, each question under
/// its name.
proof fn answer_pairs_keep_names(questions: Seq<(Seq<char>, Question)>, figures: Seq<Figures>)
    requires
        answer_pairs(questions, figures) is Ok,
    ensures
        answer_pairs(questions, figures)->Ok_0.len() == questions.len(),
        forall|i: int|
            0 <= i < questions.len() ==> (#[trigger] answer_pairs(questions, figures)->Ok_0[i]).0
                == questions[i].0 && answer_of(questions[i].1, figures[i]) == Ok::<
                Json,
                Error<Seq<char>>,
            >(answer_pairs(questions, figures)->Ok_0[i].1),
    decreases questions.len(),
{
    if questions.len() > 0 {
        let rest = questions.drop_last();
        let r = answer_pairs(questions, figures)->Ok_0;
        answer_pairs_keep_names(rest, figures);
        assert forall|i: int| 0 <= i < questions.len() implies (#[trigger] r[i]).0
            == questions[i].0 && answer_of(questions[i].1, figures[i]) == Ok::<
            Json,
            Error<Seq<char>>,
        >(r[i].1) by {
            if i < rest.len() {
                assert(answer_pairs(rest, figures)->Ok_0[i] == r[i]);
            }
        }
    }
}

/// Questions of known types are all answered.
proof fn known_types_are_answered(questions: Seq<(Seq<char>, Question)>, figures: Seq<Figures>)
    requires
        forall|i: int| 0 <= i < questions.len() ==> qtype_of((#[trigger] questions[i]).1.t) is Some,
    ensures
        answer_pairs(questions, figures) is Ok,
    decreases questions.len(),
{
    if questions.len() > 0 {
        let rest = questions.drop_last();
        assert forall|i: int| 0 <= i < rest.len() implies qtype_of(
            (#[trigger] rest[i]).1.t,
        ) is Some by {
            assert(rest[i] == questions[i]);
        }
        assert(qtype_of(questions[questions.len() - 1].1.t) is Some);
        known_types_are_answered(rest, figures);
    }
}

/// Every question that was read is answered: the answers hold, under the name of
/// each question, the answer to that question.
pub proof fn every_question_is_answered(questions: Json, figures: Seq<Figures>, i: int)
    requires
        well_formed(questions),
        questions_of(questions) is Ok,
        0 <= i < questions_of(questions)->Ok_0.len(),
    ensures
        ({
            let list = questions_of(questions)->Ok_0;
            &&& answer_pairs(list, figures) is Ok
            &&& answer_of(list[i].1, figures[i]) is Ok
            &&& lookup(object_of(answer_pairs(list, figures)->Ok_0), list[i].0) == Some(
                answer_of(list[i].1, figures[i])->Ok_0,
            )
        }),
{
    let entries = questions->Object_0;
    let list = questions_of(questions)->Ok_0;
    entries_are_well_formed(questions);
    questions_keep_names(entries);
    assert forall|j: int| 0 <= j < list.len() implies qtype_of(
        (#[trigger] list[j]).1.t,
    ) is Some by {
        read_questions_render(entries[j].0, entries[j].1);
    }
    known_types_are_answered(list, figures);
    answer_pairs_keep_names(list, figures);
    let pairs = answer_pairs(list, figures)->Ok_0;
    assert forall|j: int| i < j < pairs.len() implies (#[trigger] pairs[j]).0 != pairs[i].0 by {
        assert(list[i].0 == entries[i].0 && list[j].0 == entries[j].0);
        assert(before(entries[i].0, entries[j].0));
        before_is_total(entries[i].0, entries[j].0);
    }
    last_pair_counts(pairs, i);
}

/// The answer to a choice question names the best option, and gives each option
/// its probability under its name.
pub proof fn choice_answers_report(entries: Seq<(Seq<char>, Json)>, f: Figures, i: int)
    requires
        ordered(entries),
        0 <= i < entries.len(),
        i < f.probabilities.len(),
    ensures
        lookup(object_of(choice_answer(entries, f)), "choice"@) == Some(
            Json::String(entries[best_of(f.ranks)].0),
        ),
        lookup(object_of(choice_answer(entries, f)), "probabilities"@) == Some(
            Json::Object(object_of(choice_pairs(entries, f.probabilities))),
        ),
        lookup(object_of(choice_pairs(entries, f.probabilities)), entries[i].0) == Some(
            f.probabilities[i],
        ),
{
    answer_keys_differ();
    let answer = choice_answer(entries, f);
    last_pair_counts(answer, 1);
    last_pair_counts(answer, 2);
    let pairs = choice_pairs(entries, f.probabilities);
    assert forall|j: int| i < j < pairs.len() implies (#[trigger] pairs[j]).0 != pairs[i].0 by {
        assert(before(entries[i].0, entries[j].0));
        before_is_total(entries[i].0, entries[j].0);
    }
    last_pair_counts(pairs, i);
}

/// Values under their positions are found there.
pub proof fn numbered_values_are_found(items: Seq<Json>, i: int)
    requires
        0 <= i < items.len(),
    ensures
        lookup(object_of(numbered_pairs(items)), decimal(i as nat)) == Some(items[i]),
{
    let pairs = numbered_pairs(items);
    assert forall|j: int| i < j < pairs.len() implies (#[trigger] pairs[j]).0 != pairs[i].0 by {
        decimals_tell_apart(i as nat, j as nat);
    }
    last_pair_counts(pairs, i);
}

/// The answer to a score question gives the expected level, and under the number
/// of each level its criterion and its probability.
pub proof fn score_answers_report(levels: Seq<Json>, f: Figures, i: int)
    requires
        0 <= i < levels.len(),
        i < f.probabilities.len(),
    ensures
        lookup(object_of(score_answer(levels, f)), "score"@) == Some(f.expected),
        lookup(object_of(score_answer(levels, f)), "legend"@) == Some(
            Json::Object(object_of(numbered_pairs(levels))),
        ),
        lookup(object_of(score_answer(levels, f)), "probabilities"@) == Some(
            Json::Object(object_of(numbered_pairs(f.probabilities))),
        ),
        lookup(object_of(numbered_pairs(levels)), decimal(i as nat)) == Some(levels[i]),
        lookup(object_of(numbered_pairs(f.probabilities)), decimal(i as nat)) == Some(
            f.probabilities[i],
        ),
{
    answer_keys_differ();
    let answer = score_answer(levels, f);
    last_pair_counts(answer, 1);
    last_pair_counts(answer, 2);
    last_pair_counts(answer, 3);
    numbered_values_are_found(levels, i);
    numbered_values_are_found(f.probabilities, i);
}

/// The answer to a noul question gives the probability of its second option, and
/// is as confident as that or its opposite is probable.
pub proof fn noul_answers_report(f: Figures)
    ensures
        lookup(object_of(noul_answer(f)), "noul"@) == Some(f.probabilities[1]),
        lookup(object_of(noul_answer(f)), "confidence"@) == Some(f.certainty),
{
    answer_keys_differ();
    last_pair_counts(noul_answer(f), 1);
    last_pair_counts(noul_answer(f), 2);
}

/// The keys of an answer that are looked up here differ from those behind them.
proof fn answer_keys_differ()
    ensures
        "choice"@ != "probabilities"@,
        "choice"@ != "confidence"@,
        "choice"@ != "answer_confidence"@,
        "choice"@ != "action"@,
        "probabilities"@ != "confidence"@,
        "probabilities"@ != "answer_confidence"@,
        "probabilities"@ != "action"@,
        "score"@ != "legend"@,
        "score"@ != "probabilities"@,
        "score"@ != "confidence"@,
        "score"@ != "answer_confidence"@,
        "score"@ != "action"@,
        "legend"@ != "probabilities"@,
        "legend"@ != "confidence"@,
        "legend"@ != "answer_confidence"@,
        "legend"@ != "action"@,
        "noul"@ != "confidence"@,
        "noul"@ != "answer_confidence"@,
        "noul"@ != "action"@,
        "confidence"@ != "answer_confidence"@,
        "confidence"@ != "action"@,
{
    reveal_strlit("choice");
    reveal_strlit("probabilities");
    reveal_strlit("confidence");
    reveal_strlit("answer_confidence");
    reveal_strlit("action");
    reveal_strlit("score");
    reveal_strlit("legend");
    reveal_strlit("noul");
    assert("score"@.len() == 5 && "noul"@.len() == 4 && "legend"@[0] == 'l');
    assert("choice"@[0] == 'c' && "probabilities"@[0] == 'p' && "action"@[0] == 'a');
    assert("choice"@.len() == 6 && "confidence"@.len() == 10 && "answer_confidence"@.len() == 17);
    assert("probabilities"@.len() == 13);
}

/// A question that was read and whose options render can be answered from one
/// rank and one probability for each option, if there is an option at all.
pub proof fn rendered_questions_are_answerable(qid: Seq<char>, qdef: Json, f: Figures)
    requires
        internal_of(qid, qdef) is Ok,
        rendered_options(internal_of(qid, qdef)->Ok_0) is Ok,
        f.ranks.len() == rendered_options(internal_of(qid, qdef)->Ok_0)->Ok_0.len(),
        f.probabilities.len() == f.ranks.len(),
        f.ranks.len() > 0,
    ensures
        is_answerable(internal_of(qid, qdef)->Ok_0, f),
{
    type_names_differ();
    option_count(internal_of(qid, qdef)->Ok_0);
    best_is_last_largest(f.ranks);
}

/// Whatever the tokenizer gives, a question that was encoded can be answered from
/// one rank and one probability for each of its marks, if it has a mark at all.
pub proof fn encoded_questions_are_answerable(
    tok: Tokenizer,
    special: SpecialIds,
    state: Json,
    questions: Json,
    max_len: usize,
    head_max_len: usize,
    items: Seq<Item>,
    f: Figures,
    i: int,
)
    requires
        may_prepare(tok, special, state, questions, max_len, head_max_len, Ok(items)),
        0 <= i < items.len(),
        f.ranks.len() == items[i].layout.markers.len(),
        f.probabilities.len() == f.ranks.len(),
        f.ranks.len() > 0,
    ensures
        questions_of(questions) is Ok,
        questions_of(questions)->Ok_0.len() == items.len(),
        is_answerable(questions_of(questions)->Ok_0[i].1, f),
{
    let list = questions_of(questions)->Ok_0;
    let ids = prepared_items_are_encoded(
        tok,
        special,
        state,
        questions,
        max_len,
        head_max_len,
        items,
    );
    assert(may_encode_item(
        tok,
        special,
        state,
        list[i].0,
        list[i].1,
        ids,
        max_len,
        head_max_len,
        Ok(items[i]),
    ));
    encoded_questions_are_marked(
        tok,
        special,
        state,
        list[i].0,
        list[i].1,
        ids,
        max_len,
        head_max_len,
        items[i],
    );
    let entries = questions->Object_0;
    questions_keep_names(entries);
    assert(questions_in(entries)->Ok_0[i] == list[i]);
    rendered_questions_are_answerable(entries[i].0, entries[i].1, f);
}

/// The answers are well formed where the questions and the figures are.
pub proof fn answers_are_well_formed(questions: Seq<(Seq<char>, Question)>, figures: Seq<Figures>)
    requires
        answer_pairs(questions, figures) is Ok,
        questions.len() <= figures.len(),
        forall|i: int|
            0 <= i < questions.len() ==> question_is_well_formed((#[trigger] questions[i]).1)
                && figures_are_well_formed(figures[i]) && is_answerable(
                questions[i].1,
                figures[i],
            ),
    ensures
        well_formed(Json::Object(object_of(answer_pairs(questions, figures)->Ok_0))),
{
    let pairs = answer_pairs(questions, figures)->Ok_0;
    answer_pairs_keep_names(questions, figures);
    assert forall|i: int| 0 <= i < pairs.len() implies well_formed((#[trigger] pairs[i]).1) by {
        assert(pairs[i].0 == questions[i].0);
        answer_is_well_formed(questions[i].1, figures[i]);
    }
    made_objects_are_well_formed(pairs);
}

/// An answer is well formed where the question and the figures are.
proof fn answer_is_well_formed(q: Question, f: Figures)
    requires
        question_is_well_formed(q),
        figures_are_well_formed(f),
        is_answerable(q, f),
        answer_of(q, f) is Ok,
    ensures
        well_formed(answer_of(q, f)->Ok_0),
{
    type_names_differ();
    made_objects_are_well_formed(seq![("act_probability"@, f.act_probability)]);
    if q.t == "choice"@ {
        let pairs = choice_pairs(q.crit->Object_0, f.probabilities);
        assert forall|i: int| 0 <= i < pairs.len() implies well_formed(
            (#[trigger] pairs[i]).1,
        ) by {
            assert(well_formed(f.probabilities[i]));
        }
        made_objects_are_well_formed(pairs);
        made_objects_are_well_formed(choice_answer(q.crit->Object_0, f));
    } else if q.t == "score"@ {
        let levels = numbered_pairs(q.crit->Array_0);
        items_are_well_formed(q.crit);
        assert forall|i: int| 0 <= i < levels.len() implies well_formed(
            (#[trigger] levels[i]).1,
        ) by {
            assert(well_formed(q.crit->Array_0[i]));
        }
        made_objects_are_well_formed(levels);
        let pairs = numbered_pairs(f.probabilities);
        assert forall|i: int| 0 <= i < pairs.len() implies well_formed(
            (#[trigger] pairs[i]).1,
        ) by {
            assert(well_formed(f.probabilities[i]));
        }
        made_objects_are_well_formed(pairs);
        made_objects_are_well_formed(score_answer(q.crit->Array_0, f));
    } else {
        assert(well_formed(f.probabilities[1]));
        made_objects_are_well_formed(noul_answer(f));
    }
}

/// All keys of answers differ.
proof fn all_answer_keys_differ()
    ensures
        "type"@ != "choice"@,
        "type"@ != "score"@,
        "type"@ != "noul"@,
        "type"@ != "legend"@,
        "type"@ != "probabilities"@,
        "type"@ != "confidence"@,
        "type"@ != "answer_confidence"@,
        "type"@ != "action"@,
        "choice"@ != "score"@,
        "choice"@ != "noul"@,
        "choice"@ != "legend"@,
        "choice"@ != "probabilities"@,
        "choice"@ != "confidence"@,
        "choice"@ != "answer_confidence"@,
        "choice"@ != "action"@,
        "score"@ != "noul"@,
        "score"@ != "legend"@,
        "score"@ != "probabilities"@,
        "score"@ != "confidence"@,
        "score"@ != "answer_confidence"@,
        "score"@ != "action"@,
        "noul"@ != "legend"@,
        "noul"@ != "probabilities"@,
        "noul"@ != "confidence"@,
        "noul"@ != "answer_confidence"@,
        "noul"@ != "action"@,
        "legend"@ != "probabilities"@,
        "legend"@ != "confidence"@,
        "legend"@ != "answer_confidence"@,
        "legend"@ != "action"@,
        "probabilities"@ != "confidence"@,
        "probabilities"@ != "answer_confidence"@,
        "probabilities"@ != "action"@,
        "confidence"@ != "answer_confidence"@,
        "confidence"@ != "action"@,
        "answer_confidence"@ != "action"@,
{
    reveal_strlit("type");
    reveal_strlit("choice");
    reveal_strlit("score");
    reveal_strlit("noul");
    reveal_strlit("legend");
    reveal_strlit("probabilities");
    reveal_strlit("confidence");
    reveal_strlit("answer_confidence");
    reveal_strlit("action");
    assert("type"@.len() == 4 && "noul"@.len() == 4 && "type"@[0] == 't' && "noul"@[0] == 'n');
    assert("choice"@.len() == 6 && "legend"@.len() == 6 && "action"@.len() == 6);
    assert("choice"@[0] == 'c' && "legend"@[0] == 'l' && "action"@[0] == 'a');
    assert("score"@.len() == 5 && "probabilities"@.len() == 13 && "confidence"@.len() == 10);
    assert("answer_confidence"@.len() == 17);
}

/// Every answer says of what type the question is, how confident it is, how
/// confident the answer is, and how probable it is that acting is right. A choice
/// and a score are as confident as the figures say, however many options there
/// are, and a noul question as certain.
pub proof fn answers_say_how_sure_they_are(q: Question, f: Figures)
    requires
        q.t == "choice"@ || q.t == "score"@ || q.t == "noul"@,
    ensures
        answer_of(q, f) is Ok,
        answer_of(q, f)->Ok_0 is Object,
        ({
            let a = answer_of(q, f)->Ok_0->Object_0;
            &&& lookup(a, "type"@) == Some(Json::String(q.t))
            &&& q.t == "choice"@ ==> lookup(a, "confidence"@) == Some(f.confidence)
            &&& q.t == "score"@ ==> lookup(a, "confidence"@) == Some(f.confidence)
            &&& q.t == "noul"@ ==> lookup(a, "confidence"@) == Some(f.certainty)
            &&& lookup(a, "answer_confidence"@) == Some(f.answer_confidence)
            &&& lookup(a, "action"@) is Some
            &&& lookup(a, "action"@)->Some_0 is Object
            &&& lookup(lookup(a, "action"@)->Some_0->Object_0, "act_probability"@) == Some(
                f.act_probability,
            )
        }),
{
    all_answer_keys_differ();
    let act = seq![("act_probability"@, f.act_probability)];
    each_pair_is_found(act);
    assert(act[0] == ("act_probability"@, f.act_probability));
    if q.t == "choice"@ {
        let pairs = choice_answer(q.crit->Object_0, f);
        each_pair_is_found(pairs);
        assert(pairs[0].0 == "type"@ && pairs[3].0 == "confidence"@);
        assert(pairs[4].0 == "answer_confidence"@ && pairs[5].0 == "action"@);
    } else if q.t == "score"@ {
        let pairs = score_answer(q.crit->Array_0, f);
        each_pair_is_found(pairs);
        assert(pairs[0].0 == "type"@ && pairs[4].0 == "confidence"@);
        assert(pairs[5].0 == "answer_confidence"@ && pairs[6].0 == "action"@);
    } else {
        let pairs = noul_answer(f);
        each_pair_is_found(pairs);
        assert(pairs[0].0 == "type"@ && pairs[2].0 == "confidence"@);
        assert(pairs[3].0 == "answer_confidence"@ && pairs[4].0 == "action"@);
    }
}

/// The answer to a choice names an option that no other outranks, the last one
/// where several rank highest.
pub proof fn choices_name_the_best(q: Question, f: Figures, best: int)
    requires
        q.t == "choice"@,
        q.crit is Object,
        0 <= best < q.crit->Object_0.len(),
        best < f.ranks.len(),
        forall|i: int| 0 <= i < f.ranks.len() ==> (#[trigger] f.ranks[i]) <= f.ranks[best],
        forall|i: int| best < i < f.ranks.len() ==> (#[trigger] f.ranks[i]) < f.ranks[best],
    ensures
        answer_of(q, f) is Ok,
        answer_of(q, f)->Ok_0 is Object,
        lookup(answer_of(q, f)->Ok_0->Object_0, "choice"@) == Some(
            Json::String(q.crit->Object_0[best].0),
        ),
{
    all_answer_keys_differ();
    best_is_last_largest(f.ranks);
    let b = best_of(f.ranks);
    assert(f.ranks[b] <= f.ranks[best] && f.ranks[best] <= f.ranks[b]);
    assert(b == best);
    let pairs = choice_answer(q.crit->Object_0, f);
    each_pair_is_found(pairs);
    assert(pairs[1].0 == "choice"@);
}

/// The answer to a choice gives each option that has one its probability, under its key.
/// Of options with the same key the last counts.
pub proof fn choices_give_probabilities(q: Question, f: Figures, i: int)
    requires
        q.t == "choice"@,
        q.crit is Object,
        0 <= i < q.crit->Object_0.len(),
        i < f.probabilities.len(),
        forall|j: int|
            i < j < q.crit->Object_0.len() && j < f.probabilities.len() ==> (
            #[trigger] q.crit->Object_0[j]).0 != q.crit->Object_0[i].0,
    ensures
        answer_of(q, f) is Ok,
        answer_of(q, f)->Ok_0 is Object,
        ({
            let given = lookup(answer_of(q, f)->Ok_0->Object_0, "probabilities"@);
            &&& given is Some
            &&& given->Some_0 is Object
            &&& lookup(given->Some_0->Object_0, q.crit->Object_0[i].0) == Some(f.probabilities[i])
        }),
{
    all_answer_keys_differ();
    let entries = q.crit->Object_0;
    let answer = choice_answer(entries, f);
    each_pair_is_found(answer);
    assert(answer[2].0 == "probabilities"@);
    let pairs = choice_pairs(entries, f.probabilities);
    assert forall|j: int| i < j < pairs.len() implies (#[trigger] pairs[j]).0 != pairs[i].0 by {
        assert(entries[j].0 != entries[i].0);
    }
    last_pair_counts(pairs, i);
}

/// The answer to a choice gives no probability under a key that no option with a
/// probability has.
pub proof fn choices_give_nothing_else(q: Question, f: Figures, key: Seq<char>)
    requires
        q.t == "choice"@,
        q.crit is Object,
        forall|j: int|
            0 <= j < q.crit->Object_0.len() && j < f.probabilities.len() ==> (
            #[trigger] q.crit->Object_0[j]).0 != key,
    ensures
        answer_of(q, f) is Ok,
        answer_of(q, f)->Ok_0 is Object,
        ({
            let given = lookup(answer_of(q, f)->Ok_0->Object_0, "probabilities"@);
            &&& given is Some
            &&& given->Some_0 is Object
            &&& lookup(given->Some_0->Object_0, key) is None
        }),
{
    all_answer_keys_differ();
    let entries = q.crit->Object_0;
    let answer = choice_answer(entries, f);
    each_pair_is_found(answer);
    assert(answer[2].0 == "probabilities"@);
    let pairs = choice_pairs(entries, f.probabilities);
    assert forall|j: int| 0 <= j < pairs.len() implies (#[trigger] pairs[j]).0 != key by {
        assert(entries[j].0 != key);
    }
    no_other_keys(pairs, key);
}

/// Nothing stands under a key that is no position in a list.
proof fn numbered_values_are_all(items: Seq<Json>, key: Seq<char>)
    requires
        forall|i: int| 0 <= i < items.len() ==> #[trigger] decimal(i as nat) != key,
    ensures
        lookup(object_of(numbered_pairs(items)), key) is None,
{
    let pairs = numbered_pairs(items);
    assert forall|j: int| 0 <= j < pairs.len() implies (#[trigger] pairs[j]).0 != key by {
        assert(decimal(j as nat) != key);
    }
    no_other_keys(pairs, key);
}

/// The answer to a score gives the expected level, and under the number of each
/// level its criterion and its probability, as far as there are any.
pub proof fn scores_give_levels(q: Question, f: Figures, i: nat)
    requires
        q.t == "score"@,
        q.crit is Array,
    ensures
        answer_of(q, f) is Ok,
        answer_of(q, f)->Ok_0 is Object,
        ({
            let a = answer_of(q, f)->Ok_0->Object_0;
            let legend = lookup(a, "legend"@);
            let given = lookup(a, "probabilities"@);
            &&& lookup(a, "score"@) == Some(f.expected)
            &&& legend is Some
            &&& legend->Some_0 is Object
            &&& lookup(legend->Some_0->Object_0, decimal(i)) == if i < q.crit->Array_0.len() {
                Some(q.crit->Array_0[i as int])
            } else {
                None
            }
            &&& given is Some
            &&& given->Some_0 is Object
            &&& lookup(given->Some_0->Object_0, decimal(i)) == if i < f.probabilities.len() {
                Some(f.probabilities[i as int])
            } else {
                None
            }
        }),
{
    all_answer_keys_differ();
    let levels = q.crit->Array_0;
    let answer = score_answer(levels, f);
    each_pair_is_found(answer);
    assert(answer[1].0 == "score"@ && answer[2].0 == "legend"@ && answer[3].0
        == "probabilities"@);
    if i < levels.len() {
        numbered_values_are_found(levels, i as int);
    } else {
        assert forall|j: int| 0 <= j < levels.len() implies #[trigger] decimal(j as nat)
            != decimal(i) by {
            decimals_tell_apart(j as nat, i);
        }
        numbered_values_are_all(levels, decimal(i));
    }
    if i < f.probabilities.len() {
        numbered_values_are_found(f.probabilities, i as int);
    } else {
        assert forall|j: int| 0 <= j < f.probabilities.len() implies #[trigger] decimal(j as nat)
            != decimal(i) by {
            decimals_tell_apart(j as nat, i);
        }
        numbered_values_are_all(f.probabilities, decimal(i));
    }
}

/// The legend and the probabilities of a score hold nothing but what stands under
/// the number of a level.
pub proof fn scores_give_nothing_else(q: Question, f: Figures, key: Seq<char>)
    requires
        q.t == "score"@,
        q.crit is Array,
        forall|n: nat| #[trigger] decimal(n) != key,
    ensures
        ({
            let a = answer_of(q, f)->Ok_0->Object_0;
            let legend = lookup(a, "legend"@);
            let given = lookup(a, "probabilities"@);
            &&& legend is Some
            &&& lookup(legend->Some_0->Object_0, key) is None
            &&& given is Some
            &&& lookup(given->Some_0->Object_0, key) is None
        }),
{
    all_answer_keys_differ();
    let answer = score_answer(q.crit->Array_0, f);
    each_pair_is_found(answer);
    assert(answer[2].0 == "legend"@ && answer[3].0 == "probabilities"@);
    numbered_values_are_all(q.crit->Array_0, key);
    numbered_values_are_all(f.probabilities, key);
}

/// The answer to a noul question gives the probability of its second option.
pub proof fn nouls_give_the_second(q: Question, f: Figures)
    requires
        q.t == "noul"@,
    ensures
        answer_of(q, f) is Ok,
        answer_of(q, f)->Ok_0 is Object,
        lookup(answer_of(q, f)->Ok_0->Object_0, "noul"@) == Some(f.probabilities[1]),
{
    all_answer_keys_differ();
    let pairs = noul_answer(f);
    each_pair_is_found(pairs);
    assert(pairs[1].0 == "noul"@);
}

/// An answer holds nothing else: a choice has a choice and probabilities, a score
/// a score, a legend and probabilities, a noul question its probability, and each
/// the type, the two confidences and the action.
pub proof fn answers_hold_nothing_else(q: Question, f: Figures, key: Seq<char>)
    requires
        q.t == "choice"@ || q.t == "score"@ || q.t == "noul"@,
        key != "type"@,
        key != "confidence"@,
        key != "answer_confidence"@,
        key != "action"@,
        q.t != "noul"@ ==> key != "probabilities"@,
        q.t == "score"@ ==> key != "legend"@,
        key != q.t,
    ensures
        answer_of(q, f) is Ok,
        answer_of(q, f)->Ok_0 is Object,
        lookup(answer_of(q, f)->Ok_0->Object_0, key) is None,
{
    all_answer_keys_differ();
    if q.t == "choice"@ {
        no_other_keys(choice_answer(q.crit->Object_0, f), key);
    } else if q.t == "score"@ {
        no_other_keys(score_answer(q.crit->Array_0, f), key);
    } else {
        no_other_keys(noul_answer(f), key);
    }
}

/// The action of an answer holds nothing but the probability of acting.
pub proof fn actions_hold_nothing_else(q: Question, f: Figures, key: Seq<char>)
    requires
        q.t == "choice"@ || q.t == "score"@ || q.t == "noul"@,
        key != "act_probability"@,
    ensures
        ({
            let action = lookup(answer_of(q, f)->Ok_0->Object_0, "action"@);
            &&& action is Some
            &&& action->Some_0 is Object
            &&& lookup(action->Some_0->Object_0, key) is None
        }),
{
    answers_say_how_sure_they_are(q, f);
    all_answer_keys_differ();
    no_other_keys(seq![("act_probability"@, f.act_probability)], key);
    if q.t == "choice"@ {
        let pairs = choice_answer(q.crit->Object_0, f);
        each_pair_is_found(pairs);
        assert(pairs[5].0 == "action"@);
    } else if q.t == "score"@ {
        let pairs = score_answer(q.crit->Array_0, f);
        each_pair_is_found(pairs);
        assert(pairs[6].0 == "action"@);
    } else {
        let pairs = noul_answer(f);
        each_pair_is_found(pairs);
        assert(pairs[4].0 == "action"@);
    }
}

/// A question of an unknown type has no answer, and the complaint names the type.
pub proof fn unknown_types_are_not_answered(q: Question, f: Figures)
    requires
        q.t != "choice"@,
        q.t != "score"@,
        q.t != "noul"@,
    ensures
        answer_of(q, f) == Err::<Json, _>(Error::UnknownAnswerType(q.t)),
{
}

/// Where all questions are answered, the answers are those of the questions, each
/// with its own figures, under the name and at the place of the question.
pub proof fn answers_keep_their_places(
    questions: Seq<(Seq<char>, Question)>,
    figures: Seq<Figures>,
    i: int,
)
    requires
        forall|j: int|
            0 <= j < questions.len() ==> answer_of((#[trigger] questions[j]).1, figures[j]) is Ok,
    ensures
        answer_pairs(questions, figures) is Ok,
        answer_pairs(questions, figures)->Ok_0.len() == questions.len(),
        0 <= i < questions.len() ==> answer_pairs(questions, figures)->Ok_0[i].0 == questions[i].0
            && answer_of(questions[i].1, figures[i]) == Ok::<Json, Error<Seq<char>>>(
            answer_pairs(questions, figures)->Ok_0[i].1,
        ),
{
    all_are_answered(questions, figures);
    answer_pairs_keep_names(questions, figures);
    if 0 <= i < questions.len() {
        assert(answer_pairs(questions, figures)->Ok_0[i].0 == questions[i].0);
    }
}

/// Where each question has an answer, all are answered.
proof fn all_are_answered(questions: Seq<(Seq<char>, Question)>, figures: Seq<Figures>)
    requires
        forall|j: int|
            0 <= j < questions.len() ==> answer_of((#[trigger] questions[j]).1, figures[j]) is Ok,
    ensures
        answer_pairs(questions, figures) is Ok,
    decreases questions.len(),
{
    if questions.len() > 0 {
        let rest = questions.drop_last();
        assert forall|j: int| 0 <= j < rest.len() implies answer_of(
            (#[trigger] rest[j]).1,
            figures[j],
        ) is Ok by {
            assert(rest[j] == questions[j]);
        }
        all_are_answered(rest, figures);
        assert(answer_of(questions[questions.len() - 1].1, figures[questions.len() - 1]) is Ok);
    }
}

/// The first question that has no answer is the one that is complained of.
pub proof fn first_unanswered_is_named(
    questions: Seq<(Seq<char>, Question)>,
    figures: Seq<Figures>,
    i: int,
)
    requires
        0 <= i < questions.len(),
        forall|j: int|
            0 <= j < i ==> answer_of((#[trigger] questions[j]).1, figures[j]) is Ok,
        answer_of(questions[i].1, figures[i]) is Err,
    ensures
        answer_pairs(questions, figures) == Err::<Seq<(Seq<char>, Json)>, _>(
            answer_of(questions[i].1, figures[i])->Err_0,
        ),
{
    let few = questions.take(i);
    assert forall|j: int| 0 <= j < few.len() implies answer_of(
        (#[trigger] few[j]).1,
        figures[j],
    ) is Ok by {
        assert(few[j] == questions[j]);
    }
    all_are_answered(few, figures);
    let more = questions.take(i + 1);
    assert(more.drop_last() =~= few);
    assert(more.last() == questions[i]);
    first_refusal_stands(questions, figures, i + 1);
}

/// The temperature of a bucket counts where there is one, the first one where there
/// are several.
pub proof fn buckets_come_first<T: Copy>(
    temps: Temperatures<T>,
    qtype: i64,
    k: nat,
    neutral: T,
    i: int,
)
    requires
        0 <= i < temps.by_options@.len(),
        temps.by_options@[i].0@ == bucket_of(qtype, k as int),
        forall|j: int|
            0 <= j < i ==> (#[trigger] temps.by_options@[j]).0@ != bucket_of(qtype, k as int),
    ensures
        temps.scale_of(qtype, k as int, neutral) == temps.by_options@[i].1,
{
    let list = numbers(temps.by_options@);
    assert(list[i] == (temps.by_options@[i].0@, temps.by_options@[i].1));
    assert forall|j: int| 0 <= j < i implies (#[trigger] list[j]).0 != list[i].0 by {
        assert(list[j].0 == temps.by_options@[j].0@);
    }
    first_entry_is_found(list, i);
}

/// Nothing is looked up under a name that no number has.
proof fn other_names_have_no_number<T>(list: Seq<(String, T)>, name: Seq<char>)
    requires
        forall|j: int| 0 <= j < list.len() ==> (#[trigger] list[j]).0@ != name,
    ensures
        lookup(numbers(list), name) is None,
    decreases list.len(),
{
    if list.len() > 0 {
        let rest = list.skip(1);
        assert(list[0].0@ != name);
        assert forall|j: int| 0 <= j < rest.len() implies (#[trigger] rest[j]).0@ != name by {
            assert(list[j + 1].0@ != name);
        }
        other_names_have_no_number(rest, name);
        assert(numbers(list).skip(1) =~= numbers(rest));
    }
}

/// Where its bucket has no temperature of its own, a choice has the first
/// temperature by type, a score the second and a noul question the third. Where
/// there is none, the neutral one counts.
pub proof fn types_have_their_temperatures<T: Copy>(
    temps: Temperatures<T>,
    qtype: i64,
    k: nat,
    neutral: T,
)
    requires
        forall|j: int|
            0 <= j < temps.by_options@.len() ==> (#[trigger] temps.by_options@[j]).0@ != bucket_of(
                qtype,
                k as int,
            ),
        0 <= qtype <= 0x7fff_ffff,
    ensures
        temps.by_type@.len() == 3 && qtype == 0 ==> temps.scale_of(qtype, k as int, neutral)
            == temps.by_type@[0],
        temps.by_type@.len() == 3 && qtype == 1 ==> temps.scale_of(qtype, k as int, neutral)
            == temps.by_type@[1],
        temps.by_type@.len() == 3 && qtype == 2 ==> temps.scale_of(qtype, k as int, neutral)
            == temps.by_type@[2],
        qtype < temps.by_type@.len() ==> temps.scale_of(qtype, k as int, neutral)
            == temps.by_type@[qtype as int],
        temps.by_type@.len() <= qtype ==> temps.scale_of(qtype, k as int, neutral) == neutral,
{
    other_names_have_no_number(temps.by_options@, bucket_of(qtype, k as int));
    assert(qtype as usize == qtype) by (bit_vector)
        requires
            0 <= qtype <= 0x7fff_ffff,
    ;
}

/// The buckets of a choice, a score and a noul question go up to two options, from
/// three to five, from six to ten, and beyond. Any other type goes by the buckets
/// of a choice.
pub proof fn buckets_are_named(qtype: i64, k: nat)
    ensures
        qtype == 1 ==> bucket_of(qtype, k as int) == if k <= 2 {
            "score:2"@
        } else if k <= 5 {
            "score:3-5"@
        } else if k <= 10 {
            "score:6-10"@
        } else {
            "score:11+"@
        },
        qtype == 2 ==> bucket_of(qtype, k as int) == if k <= 2 {
            "noul:2"@
        } else if k <= 5 {
            "noul:3-5"@
        } else if k <= 10 {
            "noul:6-10"@
        } else {
            "noul:11+"@
        },
        qtype != 1 && qtype != 2 ==> bucket_of(qtype, k as int) == if k <= 2 {
            "choice:2"@
        } else if k <= 5 {
            "choice:3-5"@
        } else if k <= 10 {
            "choice:6-10"@
        } else {
            "choice:11+"@
        },
{
    reveal_strlit("choice");
    reveal_strlit("score");
    reveal_strlit("noul");
    reveal_strlit(":");
    reveal_strlit("2");
    reveal_strlit("3-5");
    reveal_strlit("6-10");
    reveal_strlit("11+");
    reveal_strlit("score:2");
    reveal_strlit("score:3-5");
    reveal_strlit("score:6-10");
    reveal_strlit("score:11+");
    reveal_strlit("noul:2");
    reveal_strlit("noul:3-5");
    reveal_strlit("noul:6-10");
    reveal_strlit("noul:11+");
    reveal_strlit("choice:2");
    reveal_strlit("choice:3-5");
    reveal_strlit("choice:6-10");
    reveal_strlit("choice:11+");
    let r = bucket_of(qtype, k as int);
    if qtype == 1 {
        assert(k <= 2 ==> r =~= "score:2"@);
        assert(2 < k <= 5 ==> r =~= "score:3-5"@);
        assert(5 < k <= 10 ==> r =~= "score:6-10"@);
        assert(10 < k ==> r =~= "score:11+"@);
    } else if qtype == 2 {
        assert(k <= 2 ==> r =~= "noul:2"@);
        assert(2 < k <= 5 ==> r =~= "noul:3-5"@);
        assert(5 < k <= 10 ==> r =~= "noul:6-10"@);
        assert(10 < k ==> r =~= "noul:11+"@);
    } else {
        assert(k <= 2 ==> r =~= "choice:2"@);
        assert(2 < k <= 5 ==> r =~= "choice:3-5"@);
        assert(5 < k <= 10 ==> r =~= "choice:6-10"@);
        assert(10 < k ==> r =~= "choice:11+"@);
    }
}

/// In decoding, each known type goes by its number, and an unknown type by that of
/// a choice.
pub proof fn types_are_decoded_by_number(t: Seq<char>)
    ensures
        t == "score"@ ==> decoding_qtype_of(t) == 1,
        t == "noul"@ ==> decoding_qtype_of(t) == 2,
        t != "score"@ && t != "noul"@ ==> decoding_qtype_of(t) == 0,
{
    type_names_differ();
}

/// With no ranks, or with one, the best option is the first.
pub proof fn few_ranks_have_the_first_best(ranks: Seq<u64>)
    requires
        ranks.len() <= 1,
    ensures
        best_of(ranks) == 0,
{
}

/// Scores say what they hold.
pub proof fn scores_say_what_they_hold(scores: Seq<Scores>, i: int)
    requires
        0 <= i < scores.len(),
    ensures
        figures_of(scores).len() == scores.len(),
        ({
            let s = scores[i];
            let f = figures_of(scores)[i];
            &&& f.ranks == s.ranks@
            &&& f.probabilities.len() == s.probabilities@.len()
            &&& forall|j: int|
                0 <= j < f.probabilities.len() ==> (#[trigger] f.probabilities[j])
                    == s.probabilities@[j]@
            &&& f.expected == s.expected@
            &&& f.confidence == s.confidence@
            &&& f.certainty == s.certainty@
            &&& f.answer_confidence == s.answer_confidence@
            &&& f.act_probability == s.act_probability@
        }),
{
}

/// A question can be answered exactly if it is a choice whose best option is one of its
/// criteria, or a score whose criteria are a list, or a noul question with at least two
/// probabilities, or of an unknown type, of which the answer is a complaint.
pub proof fn answerable_questions(q: Question, f: Figures)
    ensures
        q.t == "choice"@ ==> (is_answerable(q, f) <==> (q.crit matches Json::Object(entries)
            && best_of(f.ranks) < entries.len())),
        q.t == "score"@ ==> (is_answerable(q, f) <==> q.crit is Array),
        q.t == "noul"@ ==> (is_answerable(q, f) <==> f.probabilities.len() >= 2),
        q.t != "choice"@ && q.t != "score"@ && q.t != "noul"@ ==> is_answerable(q, f),
{
    type_names_differ();
}

/// The names in a table differ exactly if no two entries have the same, and a
/// configuration asks that of both its tables, temperatures of their one.
pub proof fn tables_have_different_names<T: Copy>(cfg: AgentConfig<T>, temps: Temperatures<T>)
    ensures
        cfg.wf() <==> {
            &&& forall|i: int, j: int|
                0 <= i < j < cfg.act_costs@.len() ==> (#[trigger] cfg.act_costs@[i]).0@ != (
                #[trigger] cfg.act_costs@[j]).0@
            &&& forall|i: int, j: int|
                0 <= i < j < cfg.temperature_by_options@.len() ==> (
                #[trigger] cfg.temperature_by_options@[i]).0@ != (
                #[trigger] cfg.temperature_by_options@[j]).0@
        },
        temps.wf() <==> forall|i: int, j: int|
            0 <= i < j < temps.by_options@.len() ==> (#[trigger] temps.by_options@[i]).0@ != (
            #[trigger] temps.by_options@[j]).0@,
{
}

/// Figures are well formed exactly if all their values are.
pub proof fn well_formed_figures(f: Figures)
    ensures
        figures_are_well_formed(f) <==> {
            &&& forall|i: int|
                0 <= i < f.probabilities.len() ==> well_formed(#[trigger] f.probabilities[i])
            &&& well_formed(f.expected)
            &&& well_formed(f.confidence)
            &&& well_formed(f.certainty)
            &&& well_formed(f.answer_confidence)
            &&& well_formed(f.act_probability)
        },
{
}

/// Where the names of the questions differ, the answers hold the answer to each question
/// under its name, and nothing under any other name.
pub proof fn answers_are_found_by_name(
    questions: Seq<(Seq<char>, Question)>,
    figures: Seq<Figures>,
    i: int,
    key: Seq<char>,
)
    requires
        answer_pairs(questions, figures) is Ok,
        0 <= i < questions.len(),
        forall|a: int, b: int|
            0 <= a < b < questions.len() ==> (#[trigger] questions[a]).0 != (
            #[trigger] questions[b]).0,
        forall|a: int| 0 <= a < questions.len() ==> (#[trigger] questions[a]).0 != key,
    ensures
        ({
            let answers = object_of(answer_pairs(questions, figures)->Ok_0);
            &&& answer_of(questions[i].1, figures[i]) is Ok
            &&& lookup(answers, questions[i].0) == Some(
                answer_of(questions[i].1, figures[i])->Ok_0,
            )
            &&& lookup(answers, key) is None
        }),
{
    answer_pairs_keep_names(questions, figures);
    let pairs = answer_pairs(questions, figures)->Ok_0;
    assert forall|a: int, b: int| 0 <= a < b < pairs.len() implies (#[trigger] pairs[a]).0 != (
    #[trigger] pairs[b]).0 by {
        assert(pairs[a].0 == questions[a].0 && pairs[b].0 == questions[b].0);
    }
    each_pair_is_found(pairs);
    assert(pairs[i].0 == questions[i].0);
    assert forall|a: int| 0 <= a < pairs.len() implies (#[trigger] pairs[a]).0 != key by {
        assert(pairs[a].0 == questions[a].0);
    }
    no_other_keys(pairs, key);
}

} // verus!
