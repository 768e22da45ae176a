//! From a state and its questions to the encoded questions that the model sees.

use tokenizers::Tokenizer;
use vstd::prelude::*;

use crate::batch::EncodedItem;
use crate::error::{said, Error};
use crate::json::{entries_are_well_formed, json_text, well_formed};
use crate::layout::{
    is_cut_from, kept_state, laid_out, layout_of, Layout, HEAD_TOKENS, ROW_TOKENS,
};
use crate::question::{
    internal_of, qtype_id, qtype_of, question_is_well_formed, render_options, rendered_options,
    to_internal, type_names_differ, InternalQuestion, Question,
};
use crate::sequence::{
    are_enough, build_from_outcomes, build_sequence, built_from, built_layouts_are_marked,
    built_sequences_come_of_their_texts, failed_builds_come_of_a_text, first_failure_is_told,
    given_outcomes_are_built, keeps_mask, kept_ends_are_built_alike, layout_said,
    mask_token_is_gone, masks_are_marks, may_build, only_the_tokenizer_fails, outcomes_are_laid_out,
    outcomes_said,
    part_texts, smaller_lengths_cut_builds_short, state_text, steady_builds_are_one, text_of_state,
    Limits,
};
use crate::text::{occurs_at, replaced};
use crate::tokens::{
    can_encode, encode_text, is_steady, may_encode, steady_outcomes_are_one, LoadedTokenizer,
    SpecialIds,
};
use crate::value::{entries_view, Json, JsonValue};

verus! {

/// The questions that the entries define, or the first complaint about one.
pub open spec fn questions_in(entries: Seq<(Seq<char>, Json)>) -> Result<
    Seq<(Seq<char>, Question)>,
    Error<Seq<char>>,
>
    decreases entries.len(),
{
    if entries.len() == 0 {
        Ok(Seq::empty())
    } else {
        match questions_in(entries.drop_last()) {
            Ok(before) => match internal_of(entries.last().0, entries.last().1) {
                Ok(q) => Ok(before.push((entries.last().0, q))),
                Err(e) => Err(e),
            },
            Err(e) => Err(e),
        }
    }
}

/// The questions that a JSON value defines, by their names.
pub open spec fn questions_of(questions: Json) -> Result<
    Seq<(Seq<char>, Question)>,
    Error<Seq<char>>,
> {
    match questions {
        Json::Object(entries) => questions_in(entries),
        _ => Err(Error::QuestionsNotObject),
    }
}

/// What named questions say.
pub open spec fn named(list: Seq<(String, InternalQuestion)>) -> Seq<(Seq<char>, Question)> {
    list.map_values(|e: (String, InternalQuestion)| (e.0@, e.1@))
}

/// Whether the values in named questions are well formed.
pub open spec fn questions_are_well_formed(list: Seq<(String, InternalQuestion)>) -> bool {
    forall|i: int| 0 <= i < list.len() ==> question_is_well_formed((#[trigger] list[i]).1@)
}

/// What the result of reading questions says.
pub open spec fn questions_said(
    r: Result<Vec<(String, InternalQuestion)>, Error<String>>,
) -> Result<Seq<(Seq<char>, Question)>, Error<Seq<char>>> {
    match r {
        Ok(list) => Ok(named(list@)),
        Err(e) => Err(e@),
    }
}

/// Once one question is not readable, none of the longer lists is.
proof fn first_complaint_stands(entries: Seq<(Seq<char>, Json)>, i: int)
    requires
        0 <= i <= entries.len(),
        questions_in(entries.take(i)) is Err,
    ensures
        questions_in(entries) == questions_in(entries.take(i)),
    decreases entries.len(),
{
    if i == entries.len() {
        assert(entries.take(i) =~= entries);
    } else {
        assert(entries.drop_last().take(i) =~= entries.take(i));
        first_complaint_stands(entries.drop_last(), i);
    }
}

/// Reads the questions, by their names.
pub fn read_questions(questions: &JsonValue) -> (r: Result<
    Vec<(String, InternalQuestion)>,
    Error<String>,
>)
    requires
        well_formed(questions@),
    ensures
        questions_said(r) == questions_of(questions@),
        r matches Ok(list) ==> questions_are_well_formed(list@),
{
    let entries = match questions {
        JsonValue::Object(entries) => entries,
        _ => {
            return Err(Error::QuestionsNotObject);
        },
    };
    let ghost all = entries_view(entries@);
    proof {
        entries_are_well_formed(questions@);
        assert(questions@->Object_0 == all);
    }
    let mut list: Vec<(String, InternalQuestion)> = Vec::new();
    let mut i: usize = 0;
    assert(named(list@) =~= Seq::<(Seq<char>, Question)>::empty());
    while i < entries.len()
        invariant
            i <= entries@.len(),
            all == entries_view(entries@),
            questions@ == Json::Object(all),
            forall|j: int| 0 <= j < all.len() ==> well_formed((#[trigger] all[j]).1),
            questions_in(all.take(i as int)) == Ok::<
                Seq<(Seq<char>, Question)>,
                Error<Seq<char>>,
            >(named(list@)),
            forall|j: int|
                0 <= j < list@.len() ==> question_is_well_formed((#[trigger] list@[j]).1@),
        decreases entries.len() - i,
    {
        assert(all[i as int] == (entries@[i as int].0@, entries@[i as int].1@));
        assert(all.take(i + 1).drop_last() =~= all.take(i as int));
        assert(all.take(i + 1).last() == all[i as int]);
        match to_internal(&entries[i].0, &entries[i].1) {
            Ok(q) => {
                let ghost before = named(list@);
                list.push((entries[i].0.clone(), q));
                assert(named(list@) =~= before.push((entries@[i as int].0@, q@)));
            },
            Err(e) => {
                proof {
                    first_complaint_stands(all, i + 1);
                }
                return Err(e);
            },
        }
        i += 1;
    }
    assert(all.take(i as int) =~= all);
    Ok(list)
}

/// The questions that entries define have the names of the entries, and are what
/// the entries define.
pub proof fn questions_keep_names(entries: Seq<(Seq<char>, Json)>)
    requires
        questions_in(entries) is Ok,
    ensures
        questions_in(entries)->Ok_0.len() == entries.len(),
        forall|i: int|
            0 <= i < entries.len() ==> (#[trigger] questions_in(entries)->Ok_0[i]).0
                == entries[i].0 && internal_of(entries[i].0, entries[i].1) == Ok::<
                Question,
                Error<Seq<char>>,
            >(questions_in(entries)->Ok_0[i].1),
    decreases entries.len(),
{
    if entries.len() > 0 {
        let rest = entries.drop_last();
        let r = questions_in(entries)->Ok_0;
        questions_keep_names(rest);
        assert forall|i: int| 0 <= i < entries.len() implies (#[trigger] r[i]).0 == entries[i].0
            && internal_of(entries[i].0, entries[i].1) == Ok::<Question, Error<Seq<char>>>(
            r[i].1,
        ) by {
            if i < rest.len() {
                assert(questions_in(rest)->Ok_0[i] == r[i]);
            }
        }
    }
}

/// What an encoded question says.
#[verifier::ext_equal]
pub struct Item {
    pub layout: Layout,
    pub qtype: i64,
}

impl View for EncodedItem {
    type V = Item;

    open spec fn view(&self) -> Item {
        Item { layout: layout_of(self.ids@, self.markers@), qtype: self.qtype }
    }
}

/// The encoded question that a layout makes, unless marks of its options are
/// missing.
pub open spec fn item_of(
    qid: Seq<char>,
    q: Question,
    layout: Layout,
    head_max_len: usize,
) -> Result<Item, Error<Seq<char>>> {
    match rendered_options(q) {
        Ok(options) => {
            if layout.markers.len() != options.len() {
                Err(Error::OptionsExceed { qid, head_max_len })
            } else {
                match qtype_of(q.t) {
                    Some(qtype) => Ok(Item { layout, qtype }),
                    None => Err(Error::UnknownQuestionType(q.t)),
                }
            }
        },
        Err(e) => Err(e),
    }
}

/// Makes an encoded question of its ids and marks, unless marks of its options
/// are missing.
pub fn encoded_item(
    qid: &str,
    q: &InternalQuestion,
    ids: Vec<u32>,
    markers: Vec<usize>,
    head_max_len: usize,
) -> (r: Result<EncodedItem, Error<String>>)
    requires
        question_is_well_formed(q@),
    ensures
        said(r) == item_of(qid@, q@, layout_of(ids@, markers@), head_max_len),
{
    let options = match render_options(q) {
        Ok(options) => options,
        Err(e) => {
            return Err(e);
        },
    };
    if markers.len() != options.len() {
        return Err(Error::OptionsExceed { qid: qid.to_owned(), head_max_len });
    }
    match qtype_id(&q.t) {
        Ok(qtype) => Ok(EncodedItem { ids, markers, qtype }),
        Err(e) => Err(e),
    }
}

/// Whether encoding one question may come out like this.
pub open spec fn may_encode_item(
    tok: Tokenizer,
    special: SpecialIds,
    state: Json,
    qid: Seq<char>,
    q: Question,
    state_ids: Seq<u32>,
    max_len: usize,
    head_max_len: usize,
    r: Result<Item, Error<Seq<char>>>,
) -> bool {
    let limits = Limits {
        max_len: max_len as int,
        head_max_len: head_max_len as int,
        truncate_left: state is Array,
    };
    exists|built: Result<Layout, Error<Seq<char>>>| #[trigger]
        may_build(tok, special, state, q, Some(state_ids), limits, built) && r == match built {
            Ok(layout) => item_of(qid, q, layout, head_max_len),
            Err(e) => Err(e),
        }
}

/// Encodes one question before a state whose ids are given.
fn encode_question(
    tok: &Tokenizer,
    special: &SpecialIds,
    state: &JsonValue,
    qid: &str,
    q: &InternalQuestion,
    state_ids: &Vec<u32>,
    max_len: usize,
    head_max_len: usize,
) -> (r: Result<EncodedItem, Error<String>>)
    requires
        can_encode(*tok),
        well_formed(state@),
        question_is_well_formed(q@),
        head_max_len <= isize::MAX,
    ensures
        may_encode_item(
            *tok,
            *special,
            state@,
            qid@,
            q@,
            state_ids@,
            max_len,
            head_max_len,
            said(r),
        ),
{
    let truncate_left = matches!(state, JsonValue::Array(_));
    let built = build_sequence(
        tok,
        special,
        state,
        q,
        max_len,
        head_max_len,
        truncate_left,
        Some(state_ids.as_slice()),
    );
    let ghost outcome = layout_said(built);
    let ghost limits = Limits {
        max_len: max_len as int,
        head_max_len: head_max_len as int,
        truncate_left: state@ is Array,
    };
    assert(truncate_left == (state@ is Array));
    assert(may_build(*tok, *special, state@, q@, Some(state_ids@), limits, outcome));
    match built {
        Ok((ids, markers)) => encoded_item(qid, q, ids, markers, head_max_len),
        Err(e) => Err(e),
    }
}

/// The encoded question that is made from what encoding its texts gave, up to the
/// first failure.
pub open spec fn item_from(
    special: SpecialIds,
    qid: Seq<char>,
    q: Question,
    outcomes: Seq<Result<Seq<u32>, Seq<char>>>,
    state_ids: Seq<u32>,
    max_len: usize,
    head_max_len: usize,
    truncate_left: bool,
) -> Result<Item, Error<Seq<char>>> {
    let limits = Limits {
        max_len: max_len as int,
        head_max_len: head_max_len as int,
        truncate_left,
    };
    match built_from(special, q, outcomes, state_ids, limits) {
        Ok(layout) => item_of(qid, q, layout, head_max_len),
        Err(e) => Err(e),
    }
}

/// Makes an encoded question from what encoding its texts gave, before a state
/// whose ids are given.
pub fn item_from_outcomes(
    special: &SpecialIds,
    state: &JsonValue,
    qid: &str,
    q: &InternalQuestion,
    outcomes: &Vec<Result<Vec<u32>, String>>,
    state_ids: &Vec<u32>,
    max_len: usize,
    head_max_len: usize,
) -> (r: Result<EncodedItem, Error<String>>)
    requires
        question_is_well_formed(q@),
        are_enough(q@, outcomes_said(outcomes@)),
        head_max_len <= isize::MAX,
    ensures
        said(r) == item_from(
            *special,
            qid@,
            q@,
            outcomes_said(outcomes@),
            state_ids@,
            max_len,
            head_max_len,
            state@ is Array,
        ),
{
    let truncate_left = matches!(state, JsonValue::Array(_));
    assert(truncate_left == (state@ is Array));
    match build_from_outcomes(
        special,
        q,
        outcomes,
        state_ids,
        max_len,
        head_max_len,
        truncate_left,
    ) {
        Ok((ids, markers)) => encoded_item(qid, q, ids, markers, head_max_len),
        Err(e) => Err(e),
    }
}

/// An encoded question that is made from what a tokenizer may give for its texts,
/// in their order, is one that may be encoded with that tokenizer.
pub proof fn given_outcomes_are_encoded(
    tok: Tokenizer,
    special: SpecialIds,
    state: Json,
    qid: Seq<char>,
    q: Question,
    outcomes: Seq<Result<Seq<u32>, Seq<char>>>,
    state_ids: Seq<u32>,
    max_len: usize,
    head_max_len: usize,
)
    requires
        are_enough(q, outcomes),
        rendered_options(q) matches Ok(options) ==> outcomes.len() <= options.len() + 1
            && forall|i: int|
            0 <= i < outcomes.len() ==> may_encode(
                tok,
                part_texts(special, q, options)[i],
                #[trigger] outcomes[i],
            ),
    ensures
        may_encode_item(
            tok,
            special,
            state,
            qid,
            q,
            state_ids,
            max_len,
            head_max_len,
            item_from(
                special,
                qid,
                q,
                outcomes,
                state_ids,
                max_len,
                head_max_len,
                state is Array,
            ),
        ),
{
    let limits = Limits {
        max_len: max_len as int,
        head_max_len: head_max_len as int,
        truncate_left: state is Array,
    };
    given_outcomes_are_built(tok, special, state, q, outcomes, state_ids, limits);
}

/// Whether the items are what encoding the first questions may give.
pub open spec fn may_encode_first(
    tok: Tokenizer,
    special: SpecialIds,
    state: Json,
    questions: Seq<(Seq<char>, Question)>,
    state_ids: Seq<u32>,
    max_len: usize,
    head_max_len: usize,
    items: Seq<Item>,
) -> bool {
    &&& items.len() <= questions.len()
    &&& forall|i: int|
        0 <= i < items.len() ==> may_encode_item(
            tok,
            special,
            state,
            questions[i].0,
            questions[i].1,
            state_ids,
            max_len,
            head_max_len,
            Ok(#[trigger] items[i]),
        )
}

/// Whether encoding questions before a state whose ids are given may come out
/// like this: they are encoded in their order, and the first failure ends it.
pub open spec fn may_encode_all(
    tok: Tokenizer,
    special: SpecialIds,
    state: Json,
    questions: Seq<(Seq<char>, Question)>,
    state_ids: Seq<u32>,
    max_len: usize,
    head_max_len: usize,
    r: Result<Seq<Item>, Error<Seq<char>>>,
) -> bool {
    exists|items: Seq<Item>| #[trigger]
        may_encode_first(
            tok,
            special,
            state,
            questions,
            state_ids,
            max_len,
            head_max_len,
            items,
        ) && match r {
            Ok(all) => items.len() == questions.len() && all == items,
            Err(e) => items.len() < questions.len() && may_encode_item(
                tok,
                special,
                state,
                questions[items.len() as int].0,
                questions[items.len() as int].1,
                state_ids,
                max_len,
                head_max_len,
                Err(e),
            ),
        }
}

/// Whether encoding a state and its questions may come out like this. What can
/// differ between two outcomes is what the tokenizer gives for the texts.
pub open spec fn may_prepare(
    tok: Tokenizer,
    special: SpecialIds,
    state: Json,
    questions: Json,
    max_len: usize,
    head_max_len: usize,
    r: Result<Seq<Item>, Error<Seq<char>>>,
) -> bool {
    match questions_of(questions) {
        Err(e) => r == Err::<Seq<Item>, Error<Seq<char>>>(e),
        Ok(list) => exists|outcome: Result<Seq<u32>, Seq<char>>| #[trigger]
            may_encode(tok, state_text(special, state), outcome) && match outcome {
                Ok(ids) => may_encode_all(
                    tok,
                    special,
                    state,
                    list,
                    ids,
                    max_len,
                    head_max_len,
                    r,
                ),
                Err(reason) => r == Err::<Seq<Item>, Error<Seq<char>>>(
                    Error::TokenizeStateFailed(reason),
                ),
            },
    }
}

/// Questions by their names, with the encoded form of each.
#[derive(Debug)]
pub struct Prepared {
    pub questions: Vec<(String, InternalQuestion)>,
    pub items: Vec<EncodedItem>,
}

/// What encoded questions say.
pub open spec fn items_of(items: Seq<EncodedItem>) -> Seq<Item> {
    items.map_values(|item: EncodedItem| item@)
}

/// What the result of encoding questions says.
pub open spec fn items_said(r: Result<Prepared, Error<String>>) -> Result<
    Seq<Item>,
    Error<Seq<char>>,
> {
    match r {
        Ok(p) => Ok(items_of(p.items@)),
        Err(e) => Err(e@),
    }
}

/// Encodes questions before a state whose ids are given.
fn encode_all(
    tok: &Tokenizer,
    special: &SpecialIds,
    state: &JsonValue,
    questions: &Vec<(String, InternalQuestion)>,
    state_ids: &Vec<u32>,
    max_len: usize,
    head_max_len: usize,
) -> (r: Result<Vec<EncodedItem>, Error<String>>)
    requires
        can_encode(*tok),
        well_formed(state@),
        forall|i: int|
            0 <= i < questions@.len() ==> question_is_well_formed((#[trigger] questions@[i]).1@),
        head_max_len <= isize::MAX,
    ensures
        may_encode_all(
            *tok,
            *special,
            state@,
            named(questions@),
            state_ids@,
            max_len,
            head_max_len,
            match r {
                Ok(items) => Ok(items_of(items@)),
                Err(e) => Err(e@),
            },
        ),
{
    let ghost all = named(questions@);
    let mut items: Vec<EncodedItem> = Vec::new();
    let mut i: usize = 0;
    while i < questions.len()
        invariant
            i <= questions@.len(),
            all == named(questions@),
            can_encode(*tok),
            well_formed(state@),
            forall|j: int|
                0 <= j < questions@.len() ==> question_is_well_formed(
                    (#[trigger] questions@[j]).1@,
                ),
            head_max_len <= isize::MAX,
            items@.len() == i,
            may_encode_first(
                *tok,
                *special,
                state@,
                all,
                state_ids@,
                max_len,
                head_max_len,
                items_of(items@),
            ),
        decreases questions.len() - i,
    {
        let ghost before = items_of(items@);
        assert(all[i as int] == (questions@[i as int].0@, questions@[i as int].1@));
        match encode_question(
            tok,
            special,
            state,
            &questions[i].0,
            &questions[i].1,
            state_ids,
            max_len,
            head_max_len,
        ) {
            Ok(item) => {
                items.push(item);
                assert(items_of(items@) =~= before.push(item@));
                assert forall|j: int| 0 <= j < items_of(items@).len() implies may_encode_item(
                    *tok,
                    *special,
                    state@,
                    all[j].0,
                    all[j].1,
                    state_ids@,
                    max_len,
                    head_max_len,
                    Ok(#[trigger] items_of(items@)[j]),
                ) by {
                    if j < before.len() {
                        assert(items_of(items@)[j] == before[j]);
                    }
                }
            },
            Err(e) => {
                return Err(e);
            },
        }
        i += 1;
    }
    Ok(items)
}

/// Reads the questions and encodes each of them before the state. The end of
/// the state is kept where the state is a list, else its beginning.
pub fn encode_questions(
    tok: &Tokenizer,
    special: &SpecialIds,
    state: &JsonValue,
    questions: &JsonValue,
    max_len: usize,
    head_max_len: usize,
) -> (r: Result<Prepared, Error<String>>)
    requires
        can_encode(*tok),
        well_formed(state@),
        well_formed(questions@),
        head_max_len <= isize::MAX,
    ensures
        may_prepare(
            *tok,
            *special,
            state@,
            questions@,
            max_len,
            head_max_len,
            items_said(r),
        ),
        r matches Ok(p) ==> questions_of(questions@) == Ok::<
            Seq<(Seq<char>, Question)>,
            Error<Seq<char>>,
        >(named(p.questions@)) && questions_are_well_formed(p.questions@),
{
    let list = match read_questions(questions) {
        Ok(list) => list,
        Err(e) => {
            return Err(e);
        },
    };
    let text = text_of_state(special, state);
    let state_ids = match encode_text(tok, &text) {
        Ok(ids) => ids,
        Err(reason) => {
            return Err(Error::TokenizeStateFailed(reason));
        },
    };
    match encode_all(tok, special, state, &list, &state_ids, max_len, head_max_len) {
        Ok(items) => Ok(Prepared { questions: list, items }),
        Err(e) => Err(e),
    }
}

/// Reads and encodes questions, if the head budget is a signed machine word.
pub fn try_encode_questions(
    tok: &LoadedTokenizer,
    special: &SpecialIds,
    state: &JsonValue,
    questions: &JsonValue,
    max_len: usize,
    head_max_len: usize,
) -> (r: Option<Result<Prepared, Error<String>>>)
    requires
        well_formed(state@),
        well_formed(questions@),
    ensures
        r is Some <==> head_max_len <= isize::MAX,
        r matches Some(out) ==> may_prepare(
            tok.inner(),
            *special,
            state@,
            questions@,
            max_len,
            head_max_len,
            items_said(out),
        ),
        r matches Some(Ok(p)) ==> questions_of(questions@) == Ok::<
            Seq<(Seq<char>, Question)>,
            Error<Seq<char>>,
        >(named(p.questions@)) && questions_are_well_formed(p.questions@),
{
    if head_max_len <= isize::MAX as usize {
        let tok = tok.tokenizer();
        Some(encode_questions(tok, special, state, questions, max_len, head_max_len))
    } else {
        None
    }
}

/// A question whose options render is encoded, unless the tokenizer fails on one
/// of its texts, where the head budget has room for the smallest share of the head
/// and of each option, and the model takes two ids more than the budget.
pub proof fn roomy_questions_are_encoded(
    tok: Tokenizer,
    special: SpecialIds,
    state: Json,
    qid: Seq<char>,
    q: Question,
    state_ids: Seq<u32>,
    max_len: usize,
    head_max_len: usize,
    e: Error<Seq<char>>,
)
    requires
        may_encode_item(
            tok,
            special,
            state,
            qid,
            q,
            state_ids,
            max_len,
            head_max_len,
            Err(e),
        ),
        rendered_options(q) is Ok,
        ROW_TOKENS * rendered_options(q)->Ok_0.len() + HEAD_TOKENS <= head_max_len,
        head_max_len + 2 <= max_len,
    ensures
        e is TokenizeFailed,
{
    let limits = Limits {
        max_len: max_len as int,
        head_max_len: head_max_len as int,
        truncate_left: state is Array,
    };
    let built = choose|built: Result<Layout, Error<Seq<char>>>| #[trigger]
        may_build(tok, special, state, q, Some(state_ids), limits, built) && Err::<
            Item,
            Error<Seq<char>>,
        >(e) == match built {
            Ok(layout) => item_of(qid, q, layout, head_max_len),
            Err(e) => Err(e),
        };
    match built {
        Ok(layout) => {
            built_layouts_are_marked(tok, special, state, q, Some(state_ids), limits, layout);
        },
        Err(e) => {
            only_the_tokenizer_fails(tok, special, state, q, Some(state_ids), limits, e);
        },
    }
}

/// Whatever the tokenizer gives, an encoded question has one mark for each of
/// its options, each mark points at a `[MASK]`, and it is no longer than the
/// model takes.
pub proof fn encoded_questions_are_marked(
    tok: Tokenizer,
    special: SpecialIds,
    state: Json,
    qid: Seq<char>,
    q: Question,
    state_ids: Seq<u32>,
    max_len: usize,
    head_max_len: usize,
    item: Item,
)
    requires
        may_encode_item(
            tok,
            special,
            state,
            qid,
            q,
            state_ids,
            max_len,
            head_max_len,
            Ok(item),
        ),
    ensures
        rendered_options(q) is Ok,
        item.layout.markers.len() == rendered_options(q)->Ok_0.len(),
        qtype_of(q.t) == Some(item.qtype),
        item.layout.ids.len() <= max_len,
        forall|i: int|
            0 <= i < item.layout.markers.len() ==> 0 < (#[trigger] item.layout.markers[i])
                < item.layout.ids.len() && item.layout.ids[item.layout.markers[i]]
                == special.mask,
{
    let limits = Limits {
        max_len: max_len as int,
        head_max_len: head_max_len as int,
        truncate_left: state is Array,
    };
    let built = choose|built: Result<Layout, Error<Seq<char>>>| #[trigger]
        may_build(tok, special, state, q, Some(state_ids), limits, built) && Ok::<
            Item,
            Error<Seq<char>>,
        >(item) == match built {
            Ok(layout) => item_of(qid, q, layout, head_max_len),
            Err(e) => Err(e),
        };
    let layout = built->Ok_0;
    built_layouts_are_marked(
        tok,
        special,
        state,
        q,
        Some(state_ids),
        limits,
        layout,
    );
}

/// Encoded questions come of ids that the tokenizer may give for the state, one
/// for each question that was read.
pub proof fn prepared_items_are_encoded(
    tok: Tokenizer,
    special: SpecialIds,
    state: Json,
    questions: Json,
    max_len: usize,
    head_max_len: usize,
    items: Seq<Item>,
) -> (ids: Seq<u32>)
    requires
        may_prepare(tok, special, state, questions, max_len, head_max_len, Ok(items)),
    ensures
        questions_of(questions) is Ok,
        questions_of(questions)->Ok_0.len() == items.len(),
        may_encode(tok, state_text(special, state), Ok(ids)),
        may_encode_first(
            tok,
            special,
            state,
            questions_of(questions)->Ok_0,
            ids,
            max_len,
            head_max_len,
            items,
        ),
{
    let list = questions_of(questions)->Ok_0;
    let r: Result<Seq<Item>, Error<Seq<char>>> = Ok(items);
    let outcome = choose|outcome: Result<Seq<u32>, Seq<char>>| #[trigger]
        may_encode(tok, state_text(special, state), outcome) && match outcome {
            Ok(ids) => may_encode_all(
                tok,
                special,
                state,
                list,
                ids,
                max_len,
                head_max_len,
                r,
            ),
            Err(reason) => r == Err::<Seq<Item>, Error<Seq<char>>>(
                Error::TokenizeStateFailed(reason),
            ),
        };
    outcome->Ok_0
}

/// With a tokenizer that gives the mask id for no text that lacks the mask token,
/// `[MASK]` stands in encoded questions only where their marks point: no state,
/// instructions or option can add one.
pub proof fn questions_mark_only_options(
    tok: Tokenizer,
    special: SpecialIds,
    state: Json,
    questions: Json,
    max_len: usize,
    head_max_len: usize,
    items: Seq<Item>,
    i: int,
    at: int,
)
    requires
        may_prepare(tok, special, state, questions, max_len, head_max_len, Ok(items)),
        keeps_mask(tok, special),
        special.mask_token@ == "[MASK]"@,
        special.cls != special.mask,
        special.sep != special.mask,
        0 <= i < items.len(),
        0 <= at < items[i].layout.ids.len(),
        items[i].layout.ids[at] == special.mask,
    ensures
        items[i].layout.markers.contains(at),
{
    let list = questions_of(questions)->Ok_0;
    let ids = prepared_items_are_encoded(
        tok,
        special,
        state,
        questions,
        max_len,
        head_max_len,
        items,
    );
    let (qid, q) = list[i];
    assert(may_encode_item(
        tok,
        special,
        state,
        qid,
        q,
        ids,
        max_len,
        head_max_len,
        Ok(items[i]),
    ));
    let limits = Limits {
        max_len: max_len as int,
        head_max_len: head_max_len as int,
        truncate_left: state is Array,
    };
    let built = choose|built: Result<Layout, Error<Seq<char>>>| #[trigger]
        may_build(tok, special, state, q, Some(ids), limits, built) && Ok::<
            Item,
            Error<Seq<char>>,
        >(items[i]) == match built {
            Ok(layout) => item_of(qid, q, layout, head_max_len),
            Err(e) => Err(e),
        };
    assert forall|k: int| !occurs_at(
        state_text(special, state),
        special.mask_token@,
        k,
    ) by {
        mask_token_is_gone(special, q, q.ins, state, k);
    }
    masks_are_marks(tok, special, state, q, Some(ids), limits, built->Ok_0, at);
}

/// Whether the same is kept of two encoded states, or both failed in the same
/// words.
pub open spec fn kept_alike(
    one: Result<Seq<u32>, Seq<char>>,
    other: Result<Seq<u32>, Seq<char>>,
    max_len: int,
    truncate_left: bool,
) -> bool {
    match (one, other) {
        (Ok(x), Ok(y)) => kept_state(x, max_len, truncate_left) == kept_state(
            y,
            max_len,
            truncate_left,
        ),
        (Err(x), Err(y)) => x == y,
        _ => false,
    }
}

/// A question may be encoded alike before two lists, or two other states, of which
/// the same is kept.
pub proof fn kept_ends_are_encoded_alike(
    tok: Tokenizer,
    special: SpecialIds,
    one: Json,
    other: Json,
    qid: Seq<char>,
    q: Question,
    one_ids: Seq<u32>,
    other_ids: Seq<u32>,
    max_len: usize,
    head_max_len: usize,
    r: Result<Item, Error<Seq<char>>>,
)
    requires
        one is Array == other is Array,
        kept_alike(Ok(one_ids), Ok(other_ids), max_len as int, one is Array),
    ensures
        may_encode_item(tok, special, one, qid, q, one_ids, max_len, head_max_len, r)
            == may_encode_item(tok, special, other, qid, q, other_ids, max_len, head_max_len, r),
{
    let limits = Limits {
        max_len: max_len as int,
        head_max_len: head_max_len as int,
        truncate_left: one is Array,
    };
    assert forall|built: Result<Layout, Error<Seq<char>>>|
        #![trigger may_build(tok, special, one, q, Some(one_ids), limits, built)]
        #![trigger may_build(tok, special, other, q, Some(other_ids), limits, built)]
        may_build(tok, special, one, q, Some(one_ids), limits, built) == may_build(
            tok,
            special,
            other,
            q,
            Some(other_ids),
            limits,
            built,
        ) by {
        kept_ends_are_built_alike(
            tok,
            special,
            one,
            other,
            q,
            one_ids,
            other_ids,
            limits,
            built,
        );
    }
}

/// Questions may come out before a state as they may before another one, if both
/// are lists or neither is, and if for whatever the tokenizer may give for the one
/// it may give something for the other of which the same is kept.
pub proof fn kept_ends_are_prepared_alike(
    tok: Tokenizer,
    special: SpecialIds,
    one: Json,
    other: Json,
    questions: Json,
    max_len: usize,
    head_max_len: usize,
    r: Result<Seq<Item>, Error<Seq<char>>>,
)
    requires
        one is Array == other is Array,
        forall|x: Result<Seq<u32>, Seq<char>>| #[trigger]
            may_encode(tok, state_text(special, one), x) ==> exists|
                y: Result<Seq<u32>, Seq<char>>,
            | #[trigger]
                may_encode(tok, state_text(special, other), y) && kept_alike(
                    x,
                    y,
                    max_len as int,
                    one is Array,
                ),
        may_prepare(tok, special, one, questions, max_len, head_max_len, r),
    ensures
        may_prepare(tok, special, other, questions, max_len, head_max_len, r),
{
    if questions_of(questions) is Ok {
        let list = questions_of(questions)->Ok_0;
        let x = choose|x: Result<Seq<u32>, Seq<char>>| #[trigger]
            may_encode(tok, state_text(special, one), x) && match x {
                Ok(ids) => may_encode_all(
                    tok,
                    special,
                    one,
                    list,
                    ids,
                    max_len,
                    head_max_len,
                    r,
                ),
                Err(reason) => r == Err::<Seq<Item>, Error<Seq<char>>>(
                    Error::TokenizeStateFailed(reason),
                ),
            };
        let y = choose|y: Result<Seq<u32>, Seq<char>>| #[trigger]
            may_encode(tok, state_text(special, other), y) && kept_alike(
                x,
                y,
                max_len as int,
                one is Array,
            );
        if x is Ok {
            encoded_before_the_other(
                tok,
                special,
                one,
                other,
                list,
                x->Ok_0,
                y->Ok_0,
                max_len,
                head_max_len,
                r,
            );
        }
        assert(may_encode(tok, state_text(special, other), y));
    }
}

/// What may come of questions before one state may come of them before another one
/// of which the same is kept.
proof fn encoded_before_the_other(
    tok: Tokenizer,
    special: SpecialIds,
    one: Json,
    other: Json,
    questions: Seq<(Seq<char>, Question)>,
    one_ids: Seq<u32>,
    other_ids: Seq<u32>,
    max_len: usize,
    head_max_len: usize,
    r: Result<Seq<Item>, Error<Seq<char>>>,
)
    requires
        one is Array == other is Array,
        kept_alike(Ok(one_ids), Ok(other_ids), max_len as int, one is Array),
        may_encode_all(tok, special, one, questions, one_ids, max_len, head_max_len, r),
    ensures
        may_encode_all(tok, special, other, questions, other_ids, max_len, head_max_len, r),
{
    let items = choose|items: Seq<Item>| #[trigger]
        may_encode_first(
            tok,
            special,
            one,
            questions,
            one_ids,
            max_len,
            head_max_len,
            items,
        ) && match r {
            Ok(all) => items.len() == questions.len() && all == items,
            Err(e) => items.len() < questions.len() && may_encode_item(
                tok,
                special,
                one,
                questions[items.len() as int].0,
                questions[items.len() as int].1,
                one_ids,
                max_len,
                head_max_len,
                Err(e),
            ),
        };
    assert forall|i: int| 0 <= i < items.len() implies may_encode_item(
        tok,
        special,
        other,
        questions[i].0,
        questions[i].1,
        other_ids,
        max_len,
        head_max_len,
        Ok(#[trigger] items[i]),
    ) by {
        kept_ends_are_encoded_alike(
            tok,
            special,
            one,
            other,
            questions[i].0,
            questions[i].1,
            one_ids,
            other_ids,
            max_len,
            head_max_len,
            Ok(items[i]),
        );
    }
    if let Err(e) = r {
        kept_ends_are_encoded_alike(
            tok,
            special,
            one,
            other,
            questions[items.len() as int].0,
            questions[items.len() as int].1,
            one_ids,
            other_ids,
            max_len,
            head_max_len,
            Err(e),
        );
    }
    assert(may_encode_first(
        tok,
        special,
        other,
        questions,
        other_ids,
        max_len,
        head_max_len,
        items,
    ));
}

/// Before two lists, or two other states, that have the same text, questions may
/// come out alike.
pub proof fn same_texts_are_prepared_alike(
    tok: Tokenizer,
    special: SpecialIds,
    one: Json,
    other: Json,
    questions: Json,
    max_len: usize,
    head_max_len: usize,
    r: Result<Seq<Item>, Error<Seq<char>>>,
)
    requires
        one is Array == other is Array,
        state_text(special, one) == state_text(special, other),
    ensures
        may_prepare(tok, special, one, questions, max_len, head_max_len, r) == may_prepare(
            tok,
            special,
            other,
            questions,
            max_len,
            head_max_len,
            r,
        ),
{
    assert forall|x: Result<Seq<u32>, Seq<char>>| #[trigger]
        may_encode(tok, state_text(special, one), x) implies exists|
        y: Result<Seq<u32>, Seq<char>>,
    | #[trigger]
        may_encode(tok, state_text(special, other), y) && kept_alike(
            x,
            y,
            max_len as int,
            one is Array,
        ) by {
        assert(kept_alike(x, x, max_len as int, one is Array));
    }
    if may_prepare(tok, special, one, questions, max_len, head_max_len, r) {
        kept_ends_are_prepared_alike(
            tok,
            special,
            one,
            other,
            questions,
            max_len,
            head_max_len,
            r,
        );
    }
    if may_prepare(tok, special, other, questions, max_len, head_max_len, r) {
        kept_ends_are_prepared_alike(
            tok,
            special,
            other,
            one,
            questions,
            max_len,
            head_max_len,
            r,
        );
    }
}

/// Whether one encoded question is the other cut short.
pub open spec fn item_is_cut_from(
    short: Item,
    long: Item,
    max_len: int,
    truncate_left: bool,
) -> bool {
    short.qtype == long.qtype && exists|front_len: int| #[trigger]
        is_cut_from(short.layout, long.layout, front_len, max_len, truncate_left)
}

/// A question that may be encoded in a smaller length may be encoded in a larger
/// one, and is that cut short.
proof fn smaller_lengths_cut_items_short(
    tok: Tokenizer,
    special: SpecialIds,
    state: Json,
    qid: Seq<char>,
    q: Question,
    state_ids: Seq<u32>,
    smaller: usize,
    larger: usize,
    head_max_len: usize,
    short: Item,
) -> (long: Item)
    requires
        may_encode_item(
            tok,
            special,
            state,
            qid,
            q,
            state_ids,
            smaller,
            head_max_len,
            Ok(short),
        ),
        smaller <= larger,
    ensures
        may_encode_item(
            tok,
            special,
            state,
            qid,
            q,
            state_ids,
            larger,
            head_max_len,
            Ok(long),
        ),
        item_is_cut_from(short, long, smaller as int, state is Array),
{
    let few = Limits {
        max_len: smaller as int,
        head_max_len: head_max_len as int,
        truncate_left: state is Array,
    };
    let many = Limits {
        max_len: larger as int,
        head_max_len: head_max_len as int,
        truncate_left: state is Array,
    };
    let built = choose|built: Result<Layout, Error<Seq<char>>>| #[trigger]
        may_build(tok, special, state, q, Some(state_ids), few, built) && Ok::<
            Item,
            Error<Seq<char>>,
        >(short) == match built {
            Ok(layout) => item_of(qid, q, layout, head_max_len),
            Err(e) => Err(e),
        };
    let layout = smaller_lengths_cut_builds_short(
        tok,
        special,
        state,
        q,
        Some(state_ids),
        few,
        many,
        built->Ok_0,
    );
    built_layouts_are_marked(tok, special, state, q, Some(state_ids), many, layout);
    let r: Result<Layout, Error<Seq<char>>> = Ok(layout);
    assert(may_build(tok, special, state, q, Some(state_ids), many, r));
    let long = Item { layout, qtype: short.qtype };
    let front_len = choose|front_len: int| #[trigger]
        is_cut_from(built->Ok_0, layout, front_len, smaller as int, state is Array);
    assert(is_cut_from(short.layout, long.layout, front_len, smaller as int, state is Array));
    long
}

/// Questions that may be encoded in a smaller length may be encoded in a larger
/// one, and each of them is what it is there, cut short.
pub proof fn smaller_lengths_cut_questions_short(
    tok: Tokenizer,
    special: SpecialIds,
    state: Json,
    questions: Json,
    smaller: usize,
    larger: usize,
    head_max_len: usize,
    short: Seq<Item>,
) -> (long: Seq<Item>)
    requires
        may_prepare(tok, special, state, questions, smaller, head_max_len, Ok(short)),
        smaller <= larger,
    ensures
        may_prepare(tok, special, state, questions, larger, head_max_len, Ok(long)),
        long.len() == short.len(),
        forall|i: int|
            0 <= i < short.len() ==> item_is_cut_from(
                #[trigger] short[i],
                long[i],
                smaller as int,
                state is Array,
            ),
{
    let list = questions_of(questions)->Ok_0;
    let ids = prepared_items_are_encoded(
        tok,
        special,
        state,
        questions,
        smaller,
        head_max_len,
        short,
    );
    let fits = |i: int, item: Item|
        may_encode_item(
            tok,
            special,
            state,
            list[i].0,
            list[i].1,
            ids,
            larger,
            head_max_len,
            Ok(item),
        ) && item_is_cut_from(short[i], item, smaller as int, state is Array);
    let long = Seq::new(short.len(), |i: int| choose|item: Item| #[trigger] fits(i, item));
    assert forall|i: int| 0 <= i < short.len() implies fits(i, #[trigger] long[i]) by {
        assert(may_encode_item(
            tok,
            special,
            state,
            list[i].0,
            list[i].1,
            ids,
            smaller,
            head_max_len,
            Ok(short[i]),
        ));
        let item = smaller_lengths_cut_items_short(
            tok,
            special,
            state,
            list[i].0,
            list[i].1,
            ids,
            smaller,
            larger,
            head_max_len,
            short[i],
        );
        assert(fits(i, item));
    }
    assert forall|i: int| 0 <= i < short.len() implies item_is_cut_from(
        #[trigger] short[i],
        long[i],
        smaller as int,
        state is Array,
    ) by {
        assert(fits(i, long[i]));
    }
    assert(may_encode_first(tok, special, state, list, ids, larger, head_max_len, long));
    let r: Result<Seq<Item>, Error<Seq<char>>> = Ok(long);
    assert(may_encode_all(tok, special, state, list, ids, larger, head_max_len, r));
    let outcome: Result<Seq<u32>, Seq<char>> = Ok(ids);
    assert(may_encode(tok, state_text(special, state), outcome));
    long
}

/// With a tokenizer whose model drops no merges at random, encoding a question
/// twice comes out the same.
pub proof fn steady_items_are_one(
    tok: Tokenizer,
    special: SpecialIds,
    state: Json,
    qid: Seq<char>,
    q: Question,
    state_ids: Seq<u32>,
    max_len: usize,
    head_max_len: usize,
    one: Result<Item, Error<Seq<char>>>,
    other: Result<Item, Error<Seq<char>>>,
)
    requires
        is_steady(tok),
        may_encode_item(tok, special, state, qid, q, state_ids, max_len, head_max_len, one),
        may_encode_item(tok, special, state, qid, q, state_ids, max_len, head_max_len, other),
    ensures
        one == other,
{
    let limits = Limits {
        max_len: max_len as int,
        head_max_len: head_max_len as int,
        truncate_left: state is Array,
    };
    let a = choose|built: Result<Layout, Error<Seq<char>>>| #[trigger]
        may_build(tok, special, state, q, Some(state_ids), limits, built) && one == match built {
            Ok(layout) => item_of(qid, q, layout, head_max_len),
            Err(e) => Err(e),
        };
    let b = choose|built: Result<Layout, Error<Seq<char>>>| #[trigger]
        may_build(tok, special, state, q, Some(state_ids), limits, built) && other == match built {
            Ok(layout) => item_of(qid, q, layout, head_max_len),
            Err(e) => Err(e),
        };
    steady_builds_are_one(tok, special, state, q, Some(state_ids), limits, a, b);
}

/// With a tokenizer whose model drops no merges at random, encoding questions before
/// a state whose ids are given comes out the same twice.
proof fn steady_lists_are_one(
    tok: Tokenizer,
    special: SpecialIds,
    state: Json,
    questions: Seq<(Seq<char>, Question)>,
    state_ids: Seq<u32>,
    max_len: usize,
    head_max_len: usize,
    one: Result<Seq<Item>, Error<Seq<char>>>,
    other: Result<Seq<Item>, Error<Seq<char>>>,
)
    requires
        is_steady(tok),
        may_encode_all(tok, special, state, questions, state_ids, max_len, head_max_len, one),
        may_encode_all(tok, special, state, questions, state_ids, max_len, head_max_len, other),
    ensures
        one == other,
{
    let encodes = |i: int, r: Result<Item, Error<Seq<char>>>|
        may_encode_item(
            tok,
            special,
            state,
            questions[i].0,
            questions[i].1,
            state_ids,
            max_len,
            head_max_len,
            r,
        );
    let fits = |items: Seq<Item>, r: Result<Seq<Item>, Error<Seq<char>>>|
        match r {
            Ok(all) => items.len() == questions.len() && all == items,
            Err(e) => items.len() < questions.len() && encodes(items.len() as int, Err(e)),
        };
    let a = choose|items: Seq<Item>| #[trigger]
        may_encode_first(
            tok,
            special,
            state,
            questions,
            state_ids,
            max_len,
            head_max_len,
            items,
        ) && fits(items, one);
    let b = choose|items: Seq<Item>| #[trigger]
        may_encode_first(
            tok,
            special,
            state,
            questions,
            state_ids,
            max_len,
            head_max_len,
            items,
        ) && fits(items, other);
    assert forall|i: int, x: Result<Item, Error<Seq<char>>>, y: Result<Item, Error<Seq<char>>>|
        #[trigger] encodes(i, x) && #[trigger] encodes(i, y) implies x == y by {
        steady_items_are_one(
            tok,
            special,
            state,
            questions[i].0,
            questions[i].1,
            state_ids,
            max_len,
            head_max_len,
            x,
            y,
        );
    }
    assert forall|i: int| 0 <= i < a.len() implies encodes(i, Ok(#[trigger] a[i])) by {}
    assert forall|i: int| 0 <= i < b.len() implies encodes(i, Ok(#[trigger] b[i])) by {}
    assert forall|i: int| 0 <= i < a.len() && i < b.len() implies #[trigger] a[i] == b[i] by {
        assert(encodes(i, Ok(a[i])) && encodes(i, Ok(b[i])));
    }
    if a.len() < b.len() {
        assert(encodes(a.len() as int, Ok(b[a.len() as int])));
        assert(encodes(a.len() as int, Err(one->Err_0)));
    }
    if b.len() < a.len() {
        assert(encodes(b.len() as int, Ok(a[b.len() as int])));
        assert(encodes(b.len() as int, Err(other->Err_0)));
    }
    assert(a =~= b);
    if one is Err {
        assert(encodes(a.len() as int, Err(one->Err_0)));
        assert(encodes(a.len() as int, Err(other->Err_0)));
    }
}

/// With a tokenizer whose model drops no merges at random, encoding a state and its
/// questions twice comes out the same.
pub proof fn steady_questions_are_one(
    tok: Tokenizer,
    special: SpecialIds,
    state: Json,
    questions: Json,
    max_len: usize,
    head_max_len: usize,
    one: Result<Seq<Item>, Error<Seq<char>>>,
    other: Result<Seq<Item>, Error<Seq<char>>>,
)
    requires
        is_steady(tok),
        may_prepare(tok, special, state, questions, max_len, head_max_len, one),
        may_prepare(tok, special, state, questions, max_len, head_max_len, other),
    ensures
        one == other,
{
    if questions_of(questions) is Ok {
        let list = questions_of(questions)->Ok_0;
        let text = state_text(special, state);
        let a = choose|outcome: Result<Seq<u32>, Seq<char>>| #[trigger]
            may_encode(tok, text, outcome) && match outcome {
                Ok(ids) => may_encode_all(
                    tok,
                    special,
                    state,
                    list,
                    ids,
                    max_len,
                    head_max_len,
                    one,
                ),
                Err(reason) => one == Err::<Seq<Item>, Error<Seq<char>>>(
                    Error::TokenizeStateFailed(reason),
                ),
            };
        let b = choose|outcome: Result<Seq<u32>, Seq<char>>| #[trigger]
            may_encode(tok, text, outcome) && match outcome {
                Ok(ids) => may_encode_all(
                    tok,
                    special,
                    state,
                    list,
                    ids,
                    max_len,
                    head_max_len,
                    other,
                ),
                Err(reason) => other == Err::<Seq<Item>, Error<Seq<char>>>(
                    Error::TokenizeStateFailed(reason),
                ),
            };
        steady_outcomes_are_one(tok, text, a, b);
        if a is Ok {
            steady_lists_are_one(
                tok,
                special,
                state,
                list,
                a->Ok_0,
                max_len,
                head_max_len,
                one,
                other,
            );
        }
    }
}

/// With a tokenizer whose model drops no merges at random, questions that were
/// encoded in a smaller length are what they are in a larger length, each cut
/// short; in the larger length none of them fails.
pub proof fn steady_questions_are_cut_short(
    tok: Tokenizer,
    special: SpecialIds,
    state: Json,
    questions: Json,
    smaller: usize,
    larger: usize,
    head_max_len: usize,
    short: Seq<Item>,
    r: Result<Seq<Item>, Error<Seq<char>>>,
)
    requires
        is_steady(tok),
        may_prepare(tok, special, state, questions, smaller, head_max_len, Ok(short)),
        may_prepare(tok, special, state, questions, larger, head_max_len, r),
        smaller <= larger,
    ensures
        r matches Ok(long) && long.len() == short.len() && forall|i: int|
            0 <= i < short.len() ==> item_is_cut_from(
                #[trigger] short[i],
                long[i],
                smaller as int,
                state is Array,
            ),
{
    let found = smaller_lengths_cut_questions_short(
        tok,
        special,
        state,
        questions,
        smaller,
        larger,
        head_max_len,
        short,
    );
    steady_questions_are_one(
        tok,
        special,
        state,
        questions,
        larger,
        head_max_len,
        Ok(found),
        r,
    );
}

/// With a tokenizer whose model drops no merges at random, questions come out the
/// same before two lists, or two other states, of which the same is kept.
pub proof fn steady_kept_ends_agree(
    tok: Tokenizer,
    special: SpecialIds,
    one: Json,
    other: Json,
    questions: Json,
    max_len: usize,
    head_max_len: usize,
    one_outcome: Result<Seq<u32>, Seq<char>>,
    other_outcome: Result<Seq<u32>, Seq<char>>,
    a: Result<Seq<Item>, Error<Seq<char>>>,
    b: Result<Seq<Item>, Error<Seq<char>>>,
)
    requires
        is_steady(tok),
        one is Array == other is Array,
        may_encode(tok, state_text(special, one), one_outcome),
        may_encode(tok, state_text(special, other), other_outcome),
        kept_alike(one_outcome, other_outcome, max_len as int, one is Array),
        may_prepare(tok, special, one, questions, max_len, head_max_len, a),
        may_prepare(tok, special, other, questions, max_len, head_max_len, b),
    ensures
        a == b,
{
    let text = state_text(special, one);
    assert forall|x: Result<Seq<u32>, Seq<char>>| #[trigger] may_encode(tok, text, x) implies exists|
        y: Result<Seq<u32>, Seq<char>>,
    | #[trigger]
        may_encode(tok, state_text(special, other), y) && kept_alike(
            x,
            y,
            max_len as int,
            one is Array,
        ) by {
        steady_outcomes_are_one(tok, text, x, one_outcome);
        assert(may_encode(tok, state_text(special, other), other_outcome));
    }
    kept_ends_are_prepared_alike(tok, special, one, other, questions, max_len, head_max_len, a);
    steady_questions_are_one(tok, special, other, questions, max_len, head_max_len, a, b);
}

/// With a tokenizer whose model drops no merges at random, questions come out the
/// same before two lists, or two other states, that have the same text.
pub proof fn steady_same_texts_agree(
    tok: Tokenizer,
    special: SpecialIds,
    one: Json,
    other: Json,
    questions: Json,
    max_len: usize,
    head_max_len: usize,
    a: Result<Seq<Item>, Error<Seq<char>>>,
    b: Result<Seq<Item>, Error<Seq<char>>>,
)
    requires
        is_steady(tok),
        one is Array == other is Array,
        state_text(special, one) == state_text(special, other),
        may_prepare(tok, special, one, questions, max_len, head_max_len, a),
        may_prepare(tok, special, other, questions, max_len, head_max_len, b),
    ensures
        a == b,
{
    same_texts_are_prepared_alike(tok, special, one, other, questions, max_len, head_max_len, a);
    steady_questions_are_one(tok, special, other, questions, max_len, head_max_len, a, b);
}

/// Where all entries define questions, those are the questions, each under its name
/// and at its place.
pub proof fn defined_questions_are_read(entries: Seq<(Seq<char>, Json)>, i: int)
    requires
        forall|j: int|
            0 <= j < entries.len() ==> internal_of(
                (#[trigger] entries[j]).0,
                entries[j].1,
            ) is Ok,
    ensures
        questions_of(Json::Object(entries)) is Ok,
        ({
            let list = questions_of(Json::Object(entries))->Ok_0;
            &&& list.len() == entries.len()
            &&& 0 <= i < entries.len() ==> list[i].0 == entries[i].0 && internal_of(
                entries[i].0,
                entries[i].1,
            ) == Ok::<Question, Error<Seq<char>>>(list[i].1)
        }),
{
    all_are_read(entries);
    questions_keep_names(entries);
    if 0 <= i < entries.len() {
        assert(questions_in(entries)->Ok_0[i].0 == entries[i].0);
    }
}

/// Where each entry defines a question, all are read.
proof fn all_are_read(entries: Seq<(Seq<char>, Json)>)
    requires
        forall|j: int|
            0 <= j < entries.len() ==> internal_of(
                (#[trigger] entries[j]).0,
                entries[j].1,
            ) is Ok,
    ensures
        questions_in(entries) is Ok,
    decreases entries.len(),
{
    if entries.len() > 0 {
        let rest = entries.drop_last();
        assert forall|j: int| 0 <= j < rest.len() implies internal_of(
            (#[trigger] rest[j]).0,
            rest[j].1,
        ) is Ok by {
            assert(rest[j] == entries[j]);
        }
        all_are_read(rest);
        let last = entries[entries.len() - 1];
        assert(internal_of(last.0, last.1) is Ok);
    }
}

/// The first entry that defines no question is the one that is complained of, and
/// what is no object has no questions.
pub proof fn first_undefined_is_named(entries: Seq<(Seq<char>, Json)>, i: int, other: Json)
    requires
        0 <= i < entries.len(),
        forall|j: int|
            0 <= j < i ==> internal_of((#[trigger] entries[j]).0, entries[j].1) is Ok,
        internal_of(entries[i].0, entries[i].1) is Err,
        !(other is Object),
    ensures
        questions_of(Json::Object(entries)) == Err::<Seq<(Seq<char>, Question)>, _>(
            internal_of(entries[i].0, entries[i].1)->Err_0,
        ),
        questions_of(other) == Err::<Seq<(Seq<char>, Question)>, _>(
            Error::<Seq<char>>::QuestionsNotObject,
        ),
{
    let few = entries.take(i);
    assert forall|j: int| 0 <= j < few.len() implies internal_of(
        (#[trigger] few[j]).0,
        few[j].1,
    ) is Ok by {
        assert(few[j] == entries[j]);
    }
    all_are_read(few);
    let more = entries.take(i + 1);
    assert(more.drop_last() =~= few);
    assert(more.last() == entries[i]);
    first_complaint_stands(entries, i + 1);
}

/// A layout makes an encoded question, with the number of its type, exactly if the
/// options render, each of them has its mark, and the type is known.
pub proof fn whole_layouts_are_items(
    qid: Seq<char>,
    q: Question,
    layout: Layout,
    head_max_len: usize,
)
    ensures
        rendered_options(q) matches Err(e) ==> item_of(qid, q, layout, head_max_len) == Err::<
            Item,
            _,
        >(e),
        rendered_options(q) matches Ok(options) ==> {
            let r = item_of(qid, q, layout, head_max_len);
            if layout.markers.len() == options.len() {
                &&& r is Ok
                &&& r->Ok_0.layout == layout
                &&& q.t == "choice"@ ==> r->Ok_0.qtype == 0
                &&& q.t == "score"@ ==> r->Ok_0.qtype == 1
                &&& q.t == "noul"@ ==> r->Ok_0.qtype == 2
            } else {
                r == Err::<Item, _>(Error::OptionsExceed { qid, head_max_len })
            }
        },
{
    type_names_differ();
}

/// Whether a question is encoded from the ids of its head, of its options, of their
/// first forty-eight ids each, and of the state, as a tokenizer may give them.
pub open spec fn is_encoded_from(
    tok: Tokenizer,
    special: SpecialIds,
    state: Json,
    q: Question,
    state_ids: Seq<u32>,
    max_len: usize,
    head_max_len: usize,
    item: Item,
    parts: (Seq<u32>, Seq<Seq<u32>>, Seq<Seq<u32>>),
) -> bool {
    let texts = rendered_options(q)->Ok_0;
    let (head, options, cut) = parts;
    let mask = special.mask_token@;
    &&& rendered_options(q) is Ok
    &&& may_encode(tok, q.t + " question: "@ + replaced(q.ins, mask, " "@), Ok(head))
    &&& options.len() == texts.len()
    &&& cut.len() == texts.len()
    &&& forall|i: int|
        0 <= i < texts.len() ==> may_encode(
            tok,
            " "@ + replaced(#[trigger] texts[i], mask, " "@),
            Ok(options[i]),
        )
    &&& forall|i: int|
        0 <= i < texts.len() ==> (#[trigger] cut[i]) == if options[i].len() <= 48 {
            options[i]
        } else {
            options[i].take(48)
        }
    &&& item.layout == laid_out(
        special,
        head,
        cut,
        state_ids,
        max_len as int,
        head_max_len as int,
        state is Array,
    )
    &&& item.layout.markers.len() == texts.len()
    &&& q.t == "choice"@ ==> item.qtype == 0
    &&& q.t == "score"@ ==> item.qtype == 1
    &&& q.t == "noul"@ ==> item.qtype == 2
    &&& q.t == "choice"@ || q.t == "score"@ || q.t == "noul"@
}

/// A question that is encoded is laid out from what the tokenizer may give for its
/// texts and from the ids of the state, whose end is kept exactly if it is a list.
/// All its options have their marks, and it has the number of its type.
pub proof fn encoded_questions_in_full(
    tok: Tokenizer,
    special: SpecialIds,
    state: Json,
    qid: Seq<char>,
    q: Question,
    state_ids: Seq<u32>,
    max_len: usize,
    head_max_len: usize,
    item: Item,
) -> (parts: (Seq<u32>, Seq<Seq<u32>>, Seq<Seq<u32>>))
    requires
        may_encode_item(
            tok,
            special,
            state,
            qid,
            q,
            state_ids,
            max_len,
            head_max_len,
            Ok(item),
        ),
    ensures
        is_encoded_from(
            tok,
            special,
            state,
            q,
            state_ids,
            max_len,
            head_max_len,
            item,
            parts,
        ),
{
    type_names_differ();
    let limits = Limits {
        max_len: max_len as int,
        head_max_len: head_max_len as int,
        truncate_left: state is Array,
    };
    let r: Result<Item, Error<Seq<char>>> = Ok(item);
    let built = choose|built: Result<Layout, Error<Seq<char>>>| #[trigger]
        may_build(tok, special, state, q, Some(state_ids), limits, built) && r == match built {
            Ok(layout) => item_of(qid, q, layout, head_max_len),
            Err(e) => Err(e),
        };
    let layout = built->Ok_0;
    let (head, options, cut, given) = built_sequences_come_of_their_texts(
        tok,
        special,
        state,
        q,
        Some(state_ids),
        limits,
        layout,
    );
    (head, options, cut)
}

/// Questions that are encoded are all those that were read, each laid out at its
/// place from what the tokenizer may give for its texts, and all from the same ids,
/// which the tokenizer may give for the text of the state.
pub proof fn prepared_questions_in_full(
    tok: Tokenizer,
    special: SpecialIds,
    state: Json,
    questions: Json,
    max_len: usize,
    head_max_len: usize,
    items: Seq<Item>,
) -> (r: (Seq<u32>, Seq<(Seq<u32>, Seq<Seq<u32>>, Seq<Seq<u32>>)>))
    requires
        may_prepare(tok, special, state, questions, max_len, head_max_len, Ok(items)),
    ensures
        questions_of(questions) is Ok,
        questions_of(questions)->Ok_0.len() == items.len(),
        may_encode(
            tok,
            replaced(
                match state {
                    Json::String(s) => s,
                    _ => json_text(state),
                },
                special.mask_token@,
                " "@,
            ),
            Ok(r.0),
        ),
        r.1.len() == items.len(),
        forall|i: int|
            0 <= i < items.len() ==> is_encoded_from(
                tok,
                special,
                state,
                questions_of(questions)->Ok_0[i].1,
                r.0,
                max_len,
                head_max_len,
                #[trigger] items[i],
                r.1[i],
            ),
{
    let ids = prepared_items_are_encoded(
        tok,
        special,
        state,
        questions,
        max_len,
        head_max_len,
        items,
    );
    let list = questions_of(questions)->Ok_0;
    let parts = first_questions_in_full(
        tok,
        special,
        state,
        list,
        ids,
        max_len,
        head_max_len,
        items,
        items.len() as int,
    );
    (ids, parts)
}

/// The first of the encoded questions are laid out from what the tokenizer may give.
proof fn first_questions_in_full(
    tok: Tokenizer,
    special: SpecialIds,
    state: Json,
    list: Seq<(Seq<char>, Question)>,
    ids: Seq<u32>,
    max_len: usize,
    head_max_len: usize,
    items: Seq<Item>,
    n: int,
) -> (parts: Seq<(Seq<u32>, Seq<Seq<u32>>, Seq<Seq<u32>>)>)
    requires
        may_encode_first(tok, special, state, list, ids, max_len, head_max_len, items),
        0 <= n <= items.len(),
    ensures
        parts.len() == n,
        forall|i: int|
            0 <= i < n ==> is_encoded_from(
                tok,
                special,
                state,
                list[i].1,
                ids,
                max_len,
                head_max_len,
                #[trigger] items[i],
                parts[i],
            ),
    decreases n,
{
    if n == 0 {
        Seq::empty()
    } else {
        let before = first_questions_in_full(
            tok,
            special,
            state,
            list,
            ids,
            max_len,
            head_max_len,
            items,
            n - 1,
        );
        assert(may_encode_item(
            tok,
            special,
            state,
            list[n - 1].0,
            list[n - 1].1,
            ids,
            max_len,
            head_max_len,
            Ok(items[n - 1]),
        ));
        let last = encoded_questions_in_full(
            tok,
            special,
            state,
            list[n - 1].0,
            list[n - 1].1,
            ids,
            max_len,
            head_max_len,
            items[n - 1],
        );
        before.push(last)
    }
}

/// A question that is not encoded has options that do not render, or more of them
/// than fit, or the tokenizer may fail on one of its texts with the words that are
/// told. The result is the place of that text, with the head first.
pub proof fn refused_questions_have_a_reason(
    tok: Tokenizer,
    special: SpecialIds,
    state: Json,
    qid: Seq<char>,
    q: Question,
    state_ids: Seq<u32>,
    max_len: usize,
    head_max_len: usize,
    e: Error<Seq<char>>,
) -> (at: int)
    requires
        may_encode_item(
            tok,
            special,
            state,
            qid,
            q,
            state_ids,
            max_len,
            head_max_len,
            Err(e),
        ),
    ensures
        rendered_options(q) matches Err(words) ==> e == words,
        rendered_options(q) matches Ok(texts) ==> {
            let mask = special.mask_token@;
            ||| e == Error::OptionsExceed { qid, head_max_len }
            ||| {
                &&& e is TokenizeFailed
                &&& at == 0
                &&& may_encode(
                    tok,
                    q.t + " question: "@ + replaced(q.ins, mask, " "@),
                    Err(e->TokenizeFailed_0),
                )
            }
            ||| {
                &&& e is TokenizeFailed
                &&& 0 < at <= texts.len()
                &&& may_encode(
                    tok,
                    " "@ + replaced(texts[at - 1], mask, " "@),
                    Err(e->TokenizeFailed_0),
                )
            }
        },
{
    type_names_differ();
    let limits = Limits {
        max_len: max_len as int,
        head_max_len: head_max_len as int,
        truncate_left: state is Array,
    };
    let r: Result<Item, Error<Seq<char>>> = Err(e);
    let built = choose|built: Result<Layout, Error<Seq<char>>>| #[trigger]
        may_build(tok, special, state, q, Some(state_ids), limits, built) && r == match built {
            Ok(layout) => item_of(qid, q, layout, head_max_len),
            Err(e) => Err(e),
        };
    match built {
        Ok(layout) => {
            assert(r == item_of(qid, q, layout, head_max_len));
            0
        },
        Err(words) => {
            let (at, gone) = failed_builds_come_of_a_text(
                tok,
                special,
                state,
                q,
                Some(state_ids),
                limits,
                words,
            );
            at
        },
    }
}

/// Questions that are not encoded fail over the first that is not readable, or over
/// the state, where the tokenizer may fail on its text with the words that are told,
/// or over one of them behind which the others go unasked. The result is the place of
/// that one, the ids of the state, and the questions that were encoded before.
pub proof fn refusals_have_a_reason(
    tok: Tokenizer,
    special: SpecialIds,
    state: Json,
    questions: Json,
    max_len: usize,
    head_max_len: usize,
    e: Error<Seq<char>>,
) -> (r: (int, Seq<u32>, Seq<Item>))
    requires
        may_prepare(tok, special, state, questions, max_len, head_max_len, Err(e)),
    ensures
        questions_of(questions) matches Err(words) ==> e == words,
        questions_of(questions) matches Ok(list) ==> {
            let text = replaced(
                match state {
                    Json::String(s) => s,
                    _ => json_text(state),
                },
                special.mask_token@,
                " "@,
            );
            let (at, ids, items) = r;
            ||| {
                &&& e is TokenizeStateFailed
                &&& may_encode(tok, text, Err(e->TokenizeStateFailed_0))
            }
            ||| {
                &&& may_encode(tok, text, Ok(ids))
                &&& 0 <= at < list.len()
                &&& items.len() == at
                &&& forall|i: int|
                    0 <= i < at ==> may_encode_item(
                        tok,
                        special,
                        state,
                        list[i].0,
                        list[i].1,
                        ids,
                        max_len,
                        head_max_len,
                        Ok(#[trigger] items[i]),
                    )
                &&& may_encode_item(
                    tok,
                    special,
                    state,
                    list[at].0,
                    list[at].1,
                    ids,
                    max_len,
                    head_max_len,
                    Err(e),
                )
            }
        },
{
    let out: Result<Seq<Item>, Error<Seq<char>>> = Err(e);
    match questions_of(questions) {
        Err(_) => (0, Seq::empty(), Seq::empty()),
        Ok(list) => {
            let outcome = choose|outcome: Result<Seq<u32>, Seq<char>>| #[trigger]
                may_encode(tok, state_text(special, state), outcome) && match outcome {
                    Ok(ids) => may_encode_all(
                        tok,
                        special,
                        state,
                        list,
                        ids,
                        max_len,
                        head_max_len,
                        out,
                    ),
                    Err(reason) => out == Err::<Seq<Item>, Error<Seq<char>>>(
                        Error::TokenizeStateFailed(reason),
                    ),
                };
            match outcome {
                Err(_) => (0, Seq::empty(), Seq::empty()),
                Ok(ids) => {
                    let items = choose|items: Seq<Item>| #[trigger]
                        may_encode_first(
                            tok,
                            special,
                            state,
                            list,
                            ids,
                            max_len,
                            head_max_len,
                            items,
                        ) && items.len() < list.len() && may_encode_item(
                            tok,
                            special,
                            state,
                            list[items.len() as int].0,
                            list[items.len() as int].1,
                            ids,
                            max_len,
                            head_max_len,
                            Err(e),
                        );
                    (items.len() as int, ids, items)
                },
            }
        },
    }
}

/// From given outcomes a question is encoded with the layout that they make, and with
/// the number of its type, if none of them is a failure and all its options have
/// their marks.
pub proof fn outcomes_are_encoded(
    special: SpecialIds,
    qid: Seq<char>,
    q: Question,
    outcomes: Seq<Result<Seq<u32>, Seq<char>>>,
    cut: Seq<Seq<u32>>,
    state_ids: Seq<u32>,
    max_len: usize,
    head_max_len: usize,
    truncate_left: bool,
)
    requires
        rendered_options(q) is Ok,
        outcomes.len() > 0,
        forall|i: int| 0 <= i < outcomes.len() ==> (#[trigger] outcomes[i]) is Ok,
        cut.len() == outcomes.len() - 1,
        forall|i: int|
            0 <= i < cut.len() ==> (#[trigger] cut[i]) == if outcomes[i + 1]->Ok_0.len() <= 48 {
                outcomes[i + 1]->Ok_0
            } else {
                outcomes[i + 1]->Ok_0.take(48)
            },
    ensures
        ({
            let layout = laid_out(
                special,
                outcomes[0]->Ok_0,
                cut,
                state_ids,
                max_len as int,
                head_max_len as int,
                truncate_left,
            );
            let r = item_from(
                special,
                qid,
                q,
                outcomes,
                state_ids,
                max_len,
                head_max_len,
                truncate_left,
            );
            if layout.markers.len() == rendered_options(q)->Ok_0.len() {
                &&& r is Ok
                &&& r->Ok_0.layout == layout
                &&& q.t == "choice"@ ==> r->Ok_0.qtype == 0
                &&& q.t == "score"@ ==> r->Ok_0.qtype == 1
                &&& q.t == "noul"@ ==> r->Ok_0.qtype == 2
            } else {
                r == Err::<Item, _>(Error::OptionsExceed { qid, head_max_len })
            }
        }),
{
    let limits = Limits {
        max_len: max_len as int,
        head_max_len: head_max_len as int,
        truncate_left,
    };
    outcomes_are_laid_out(special, q, outcomes, cut, state_ids, limits);
    let layout = built_from(special, q, outcomes, state_ids, limits)->Ok_0;
    whole_layouts_are_items(qid, q, layout, head_max_len);
}

/// Of given outcomes with failures the first one is told, unless the options do not
/// render.
pub proof fn failed_outcomes_are_told(
    special: SpecialIds,
    qid: Seq<char>,
    q: Question,
    outcomes: Seq<Result<Seq<u32>, Seq<char>>>,
    k: int,
    state_ids: Seq<u32>,
    max_len: usize,
    head_max_len: usize,
    truncate_left: bool,
)
    requires
        0 <= k < outcomes.len(),
        outcomes[k] is Err,
        forall|i: int| 0 <= i < k ==> (#[trigger] outcomes[i]) is Ok,
    ensures
        item_from(
            special,
            qid,
            q,
            outcomes,
            state_ids,
            max_len,
            head_max_len,
            truncate_left,
        ) == Err::<Item, _>(
            match rendered_options(q) {
                Ok(_) => Error::TokenizeFailed(outcomes[k]->Err_0),
                Err(e) => e,
            },
        ),
{
    let limits = Limits {
        max_len: max_len as int,
        head_max_len: head_max_len as int,
        truncate_left,
    };
    first_failure_is_told(special, q, outcomes, k, state_ids, limits);
}

/// Named questions and encoded questions say what they hold.
pub proof fn items_say_what_they_hold(
    list: Seq<(String, InternalQuestion)>,
    items: Seq<EncodedItem>,
    i: int,
)
    ensures
        named(list).len() == list.len(),
        0 <= i < list.len() ==> named(list)[i] == (list[i].0@, list[i].1@),
        items_of(items).len() == items.len(),
        0 <= i < items.len() ==> {
            let item = items_of(items)[i];
            &&& item.qtype == items[i].qtype
            &&& item.layout.ids == items[i].ids@
            &&& item.layout.markers.len() == items[i].markers@.len()
            &&& forall|j: int|
                0 <= j < items[i].markers@.len() ==> (#[trigger] item.layout.markers[j])
                    == items[i].markers@[j]
        },
{
}

/// What comes of reading and of encoding questions says the questions or the complaint.
pub proof fn readings_say_what_they_hold(
    list: Vec<(String, InternalQuestion)>,
    p: Prepared,
    e: Error<String>,
)
    ensures
        questions_said(Ok(list)) == Ok::<Seq<(Seq<char>, Question)>, Error<Seq<char>>>(
            named(list@),
        ),
        questions_said(Err(e)) == Err::<Seq<(Seq<char>, Question)>, Error<Seq<char>>>(e@),
        items_said(Ok(p)) == Ok::<Seq<Item>, Error<Seq<char>>>(items_of(p.items@)),
        items_said(Err(e)) == Err::<Seq<Item>, Error<Seq<char>>>(e@),
{
}

} // verus!
