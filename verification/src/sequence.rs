//! Questions as sequences of token ids.

use tokenizers::Tokenizer;
use vstd::prelude::*;

use crate::error::Error;
use crate::json::{json_text, plain_text, well_formed};
use crate::layout::{
    assemble_sequence, first_ids, is_cut_from, kept, kept_ends_are_laid_out_alike, kept_state, laid_out,
    layout_begins_with_cls, layout_ends_with_sep, layout_of, markers_point_at_masks,
    masks_stand_at_markers, roomy_options_are_marked, rows_view, smaller_lengths_cut_short, Layout,
    HEAD_TOKENS, OPTION_TOKENS, ROW_TOKENS,
};
use crate::question::{
    qtype_of, question_is_well_formed, render_options, rendered_options, serialize_state, texts,
    InternalQuestion, Question,
};
use crate::text::{
    blank_separates, blanked_pattern_is_gone, joined, joined3, occurs_at, replace_all, replaced,
    replacing_nothing_keeps_text,
};
use crate::tokens::{
    can_encode, encode_text, is_steady, may_encode, outcome_of, steady_outcomes_are_one, SpecialIds,
};
use crate::value::{Json, JsonValue};

verus! {

/// A text with a blank in place of each mask token.
pub open spec fn unmasked(special: SpecialIds, text: Seq<char>) -> Seq<char> {
    replaced(text, special.mask_token@, " "@)
}

/// The text of the head: the type and the instructions.
pub open spec fn head_text(special: SpecialIds, q: Question) -> Seq<char> {
    q.t + " question: "@ + unmasked(special, q.ins)
}

/// The text of one option.
pub open spec fn option_text(special: SpecialIds, option: Seq<char>) -> Seq<char> {
    " "@ + unmasked(special, option)
}

/// The text of the state.
pub open spec fn state_text(special: SpecialIds, state: Json) -> Seq<char> {
    unmasked(special, plain_text(state))
}

/// How an encoded question is laid out.
pub struct Limits {
    pub max_len: int,
    pub head_max_len: int,
    pub truncate_left: bool,
}

/// The layout of a question whose texts were encoded to the given ids, each
/// option cut to its share.
pub open spec fn encoded(
    special: SpecialIds,
    head: Seq<u32>,
    options: Seq<Seq<u32>>,
    state: Seq<u32>,
    limits: Limits,
) -> Layout {
    laid_out(
        special,
        head,
        options.map_values(|o: Seq<u32>| kept(o, OPTION_TOKENS as int)),
        state,
        limits.max_len,
        limits.head_max_len,
        limits.truncate_left,
    )
}

/// Whether the ids are what encoding the first options may give.
pub open spec fn may_encode_options(
    tok: Tokenizer,
    special: SpecialIds,
    options: Seq<Seq<char>>,
    ids: Seq<Seq<u32>>,
) -> bool {
    &&& ids.len() <= options.len()
    &&& forall|i: int|
        0 <= i < ids.len() ==> may_encode(
            tok,
            option_text(special, options[i]),
            Ok(#[trigger] ids[i]),
        )
}

/// Whether laying out a question may come out like this, once its head and its
/// options are encoded: with the given state ids, or with ids that encoding the
/// state may give.
pub open spec fn may_finish(
    tok: Tokenizer,
    special: SpecialIds,
    state: Json,
    head: Seq<u32>,
    options: Seq<Seq<u32>>,
    state_ids: Option<Seq<u32>>,
    limits: Limits,
    r: Result<Layout, Error<Seq<char>>>,
) -> bool {
    match state_ids {
        Some(ids) => r == Ok::<Layout, Error<Seq<char>>>(
            encoded(special, head, options, ids, limits),
        ),
        None => exists|outcome: Result<Seq<u32>, Seq<char>>| #[trigger]
            may_encode(tok, state_text(special, state), outcome) && r == match outcome {
                Ok(ids) => Ok::<Layout, Error<Seq<char>>>(
                    encoded(special, head, options, ids, limits),
                ),
                Err(reason) => Err(Error::TokenizeFailed(reason)),
            },
    }
}

/// Whether building the sequence of a question may come out like this, once its
/// head is encoded: the options are encoded in their order, and the first
/// failure ends it.
pub open spec fn may_continue(
    tok: Tokenizer,
    special: SpecialIds,
    state: Json,
    head: Seq<u32>,
    options: Seq<Seq<char>>,
    state_ids: Option<Seq<u32>>,
    limits: Limits,
    r: Result<Layout, Error<Seq<char>>>,
) -> bool {
    exists|ids: Seq<Seq<u32>>| #[trigger]
        may_encode_options(tok, special, options, ids) && if ids.len() < options.len() {
            exists|reason: Seq<char>| #[trigger]
                may_encode(tok, option_text(special, options[ids.len() as int]), Err(reason))
                    && r == Err::<Layout, Error<Seq<char>>>(Error::TokenizeFailed(reason))
        } else {
            may_finish(tok, special, state, head, ids, state_ids, limits, r)
        }
}

/// Whether building the sequence of a question may come out like this. What can
/// differ between two outcomes is what the tokenizer gives for the texts.
pub open spec fn may_build(
    tok: Tokenizer,
    special: SpecialIds,
    state: Json,
    q: Question,
    state_ids: Option<Seq<u32>>,
    limits: Limits,
    r: Result<Layout, Error<Seq<char>>>,
) -> bool {
    match rendered_options(q) {
        Err(e) => r == Err::<Layout, Error<Seq<char>>>(e),
        Ok(options) => exists|head: Result<Seq<u32>, Seq<char>>| #[trigger]
            may_encode(tok, head_text(special, q), head) && match head {
                Ok(ids) => may_continue(
                    tok,
                    special,
                    state,
                    ids,
                    options,
                    state_ids,
                    limits,
                    r,
                ),
                Err(reason) => r == Err::<Layout, Error<Seq<char>>>(Error::TokenizeFailed(reason)),
            },
    }
}

/// What the result of building a sequence says.
pub open spec fn layout_said(r: Result<(Vec<u32>, Vec<usize>), Error<String>>) -> Result<
    Layout,
    Error<Seq<char>>,
> {
    match r {
        Ok((ids, markers)) => Ok(layout_of(ids@, markers@)),
        Err(e) => Err(e@),
    }
}

/// Encodes a text without special tokens.
fn encode_no_special(tok: &Tokenizer, text: &str) -> (r: Result<Vec<u32>, Error<String>>)
    requires
        can_encode(*tok),
    ensures
        match r {
            Ok(ids) => may_encode(*tok, text@, Ok(ids@)),
            Err(e) => exists|reason: Seq<char>| #[trigger]
                may_encode(*tok, text@, Err(reason)) && e@ == Error::TokenizeFailed(reason),
        },
{
    match encode_text(tok, text) {
        Ok(ids) => Ok(ids),
        Err(reason) => Err(Error::TokenizeFailed(reason)),
    }
}

/// Encodes a text without special tokens, and keeps the first ids.
fn encode_truncated(tok: &Tokenizer, text: &str, max_length: usize) -> (r: Result<
    Vec<u32>,
    Error<String>,
>)
    requires
        can_encode(*tok),
    ensures
        match r {
            Ok(ids) => exists|all: Seq<u32>| #[trigger]
                may_encode(*tok, text@, Ok(all)) && ids@ == kept(all, max_length as int),
            Err(e) => exists|reason: Seq<char>| #[trigger]
                may_encode(*tok, text@, Err(reason)) && e@ == Error::TokenizeFailed(reason),
        },
{
    match encode_no_special(tok, text) {
        Ok(all) => {
            let mut ids = all;
            let ghost given = ids@;
            ids.truncate(max_length);
            assert(ids@ =~= kept(given, max_length as int));
            Ok(ids)
        },
        Err(e) => Err(e),
    }
}

/// Encodes the options of a question, in their order.
fn encode_options(tok: &Tokenizer, special: &SpecialIds, options: &Vec<String>) -> (r: Result<
    Vec<Vec<u32>>,
    Error<String>,
>)
    requires
        can_encode(*tok),
    ensures
        match r {
            Ok(rows) => exists|ids: Seq<Seq<u32>>| #[trigger]
                may_encode_options(*tok, *special, texts(options@), ids) && ids.len()
                    == options@.len() && rows_view(rows@) == ids.map_values(
                    |o: Seq<u32>| kept(o, OPTION_TOKENS as int),
                ),
            Err(e) => exists|ids: Seq<Seq<u32>>| #[trigger]
                may_encode_options(*tok, *special, texts(options@), ids) && ids.len()
                    < options@.len() && exists|reason: Seq<char>| #[trigger]
                    may_encode(
                        *tok,
                        option_text(*special, texts(options@)[ids.len() as int]),
                        Err(reason),
                    ) && e@ == Error::TokenizeFailed(reason),
        },
{
    let ghost all = texts(options@);
    let ghost mut ids: Seq<Seq<u32>> = Seq::empty();
    let mut rows: Vec<Vec<u32>> = Vec::new();
    let mut i: usize = 0;
    while i < options.len()
        invariant
            i <= options@.len(),
            all == texts(options@),
            can_encode(*tok),
            ids.len() == i,
            rows@.len() == i,
            may_encode_options(*tok, *special, all, ids),
            forall|j: int|
                0 <= j < i ==> (#[trigger] rows@[j])@ == kept(ids[j], OPTION_TOKENS as int),
        decreases options.len() - i,
    {
        let text = joined(" ", &replace_all(&options[i], &special.mask_token, " "));
        assert(text@ == option_text(*special, all[i as int]));
        match encode_truncated(tok, &text, OPTION_TOKENS) {
            Ok(row) => {
                proof {
                    let given = choose|given: Seq<u32>| #[trigger]
                        may_encode(*tok, text@, Ok(given)) && row@ == kept(
                            given,
                            OPTION_TOKENS as int,
                        );
                    let so_far = ids;
                    ids = ids.push(given);
                    assert forall|j: int| 0 <= j < ids.len() implies may_encode(
                        *tok,
                        option_text(*special, all[j]),
                        Ok(#[trigger] ids[j]),
                    ) by {
                        if j < so_far.len() {
                            assert(ids[j] == so_far[j]);
                        }
                    }
                }
                rows.push(row);
            },
            Err(e) => {
                return Err(e);
            },
        }
        i += 1;
    }
    assert(rows_view(rows@) =~= ids.map_values(|o: Seq<u32>| kept(o, OPTION_TOKENS as int)));
    Ok(rows)
}

/// Builds the sequence of a question:
/// `[CLS] <type> question: instructions [SEP] [MASK] opt0 ... [SEP] state [SEP]`,
/// with the positions of the marks. The state is encoded unless its ids are
/// given.
pub fn build_sequence(
    tok: &Tokenizer,
    special: &SpecialIds,
    state: &JsonValue,
    q: &InternalQuestion,
    max_len: usize,
    head_max_len: usize,
    truncate_left: bool,
    state_ids: Option<&[u32]>,
) -> (r: Result<(Vec<u32>, Vec<usize>), Error<String>>)
    requires
        can_encode(*tok),
        well_formed(state@),
        question_is_well_formed(q@),
        head_max_len <= isize::MAX,
    ensures
        may_build(
            *tok,
            *special,
            state@,
            q@,
            match state_ids {
                Some(ids) => Some(ids@),
                None => None,
            },
            Limits { max_len: max_len as int, head_max_len: head_max_len as int, truncate_left },
            layout_said(r),
        ),
{
    let options = match render_options(q) {
        Ok(options) => options,
        Err(e) => {
            return Err(e);
        },
    };
    let head = joined3(&q.t, " question: ", &replace_all(&q.ins, &special.mask_token, " "));
    assert(head@ == head_text(*special, q@));
    let head_ids = match encode_no_special(tok, &head) {
        Ok(ids) => ids,
        Err(e) => {
            return Err(e);
        },
    };
    let option_ids = match encode_options(tok, special, &options) {
        Ok(rows) => rows,
        Err(e) => {
            return Err(e);
        },
    };
    let ghost limits = Limits {
        max_len: max_len as int,
        head_max_len: head_max_len as int,
        truncate_left,
    };
    let ghost option_texts = texts(options@);
    let ghost given = choose|given: Seq<Seq<u32>>| #[trigger]
        may_encode_options(*tok, *special, option_texts, given) && given.len() == options@.len()
            && rows_view(option_ids@) == given.map_values(
            |o: Seq<u32>| kept(o, OPTION_TOKENS as int),
        );
    let ghost head_given = head_ids@;
    let owned_state: Vec<u32>;
    let state_slice: &[u32] = match state_ids {
        Some(ids) => ids,
        None => {
            let text = text_of_state(special, state);
            owned_state =
            match encode_no_special(tok, &text) {
                Ok(ids) => ids,
                Err(e) => {
                    proof {
                        let out: Result<Layout, Error<Seq<char>>> = Err(e@);
                        let reason = choose|reason: Seq<char>| #[trigger]
                            may_encode(*tok, text@, Err(reason)) && e@ == Error::TokenizeFailed(
                                reason,
                            );
                        let outcome: Result<Seq<u32>, Seq<char>> = Err(reason);
                        assert(may_encode(*tok, state_text(*special, state@), outcome));
                        let state_given: Option<Seq<u32>> = None;
                        assert(may_finish(
                            *tok,
                            *special,
                            state@,
                            head_given,
                            given,
                            state_given,
                            limits,
                            out,
                        ));
                        assert(may_continue(
                            *tok,
                            *special,
                            state@,
                            head_given,
                            option_texts,
                            state_given,
                            limits,
                            out,
                        ));
                    }
                    return Err(e);
                },
            };
            owned_state.as_slice()
        },
    };
    let (ids, markers) = assemble_sequence(
        special,
        head_ids,
        &option_ids,
        state_slice,
        max_len,
        head_max_len,
        truncate_left,
    );
    proof {
        let out: Result<Layout, Error<Seq<char>>> = Ok(layout_of(ids@, markers@));
        let state_given: Option<Seq<u32>> = match state_ids {
            Some(ids) => Some(ids@),
            None => None,
        };
        assert(encoded(*special, head_given, given, state_slice@, limits) == layout_of(
            ids@,
            markers@,
        ));
        if state_given is None {
            let outcome: Result<Seq<u32>, Seq<char>> = Ok(state_slice@);
            assert(may_encode(*tok, state_text(*special, state@), outcome));
        }
        assert(may_finish(
            *tok,
            *special,
            state@,
            head_given,
            given,
            state_given,
            limits,
            out,
        ));
        assert(may_continue(
            *tok,
            *special,
            state@,
            head_given,
            option_texts,
            state_given,
            limits,
            out,
        ));
    }
    Ok((ids, markers))
}

/// The texts of a question that are encoded, in their order: its head, and its
/// options.
pub open spec fn part_texts(special: SpecialIds, q: Question, options: Seq<Seq<char>>) -> Seq<
    Seq<char>,
> {
    seq![head_text(special, q)] + options.map_values(|o: Seq<char>| option_text(special, o))
}

/// Gives the texts of a question that are encoded, in their order.
pub fn question_texts(special: &SpecialIds, q: &InternalQuestion) -> (r: Result<
    Vec<String>,
    Error<String>,
>)
    requires
        question_is_well_formed(q@),
    ensures
        match rendered_options(q@) {
            Ok(options) => r matches Ok(list) && texts(list@) == part_texts(
                *special,
                q@,
                options,
            ),
            Err(e) => r matches Err(said) && said@ == e,
        },
{
    let options = match render_options(q) {
        Ok(options) => options,
        Err(e) => {
            return Err(e);
        },
    };
    let ghost all = texts(options@);
    let ghost wanted = part_texts(*special, q@, all);
    let mut list: Vec<String> = Vec::new();
    list.push(joined3(&q.t, " question: ", &replace_all(&q.ins, &special.mask_token, " ")));
    let mut i: usize = 0;
    while i < options.len()
        invariant
            i <= options@.len(),
            all == texts(options@),
            wanted == part_texts(*special, q@, all),
            list@.len() == i + 1,
            forall|j: int| 0 <= j <= i ==> (#[trigger] list@[j])@ == wanted[j],
        decreases options.len() - i,
    {
        let text = joined(" ", &replace_all(&options[i], &special.mask_token, " "));
        assert(text@ == option_text(*special, all[i as int]));
        assert(wanted[i + 1] == option_text(*special, all[i as int]));
        list.push(text);
        i += 1;
    }
    assert(texts(list@) =~= wanted);
    Ok(list)
}

/// Gives the text of the state that is encoded.
pub fn text_of_state(special: &SpecialIds, state: &JsonValue) -> (r: String)
    requires
        well_formed(state@),
    ensures
        r@ == state_text(*special, state@),
{
    replace_all(&serialize_state(state), &special.mask_token, " ")
}

/// The words of the first failure among outcomes, if there is one.
pub open spec fn first_failure(outcomes: Seq<Result<Seq<u32>, Seq<char>>>) -> Option<Seq<char>>
    decreases outcomes.len(),
{
    if outcomes.len() == 0 {
        None
    } else {
        match outcomes[0] {
            Err(words) => Some(words),
            Ok(_) => first_failure(outcomes.skip(1)),
        }
    }
}

/// What outcomes of encoding say.
pub open spec fn outcomes_said(list: Seq<Result<Vec<u32>, String>>) -> Seq<
    Result<Seq<u32>, Seq<char>>,
> {
    list.map_values(|r: Result<Vec<u32>, String>| outcome_of(r))
}

/// The ids in outcomes none of which is a failure.
pub open spec fn ids_in(outcomes: Seq<Result<Seq<u32>, Seq<char>>>) -> Seq<Seq<u32>> {
    outcomes.map_values(|r: Result<Seq<u32>, Seq<char>>| r->Ok_0)
}

/// The sequence that is built from what encoding the texts of a question gave, up
/// to the first failure.
pub open spec fn built_from(
    special: SpecialIds,
    q: Question,
    outcomes: Seq<Result<Seq<u32>, Seq<char>>>,
    state_ids: Seq<u32>,
    limits: Limits,
) -> Result<Layout, Error<Seq<char>>> {
    match rendered_options(q) {
        Err(e) => Err(e),
        Ok(_) => match first_failure(outcomes) {
            Some(words) => Err(Error::TokenizeFailed(words)),
            None => Ok(
                encoded(
                    special,
                    outcomes[0]->Ok_0,
                    ids_in(outcomes.skip(1)),
                    state_ids,
                    limits,
                ),
            ),
        },
    }
}

/// Whether there are outcomes enough to build a question from: one for each of its
/// texts, or as many as there are up to a failure.
pub open spec fn are_enough(q: Question, outcomes: Seq<Result<Seq<u32>, Seq<char>>>) -> bool {
    rendered_options(q) matches Ok(options) ==> first_failure(outcomes) is Some || outcomes.len()
        == options.len() + 1
}

/// Builds the sequence of a question from what encoding its texts gave.
pub fn build_from_outcomes(
    special: &SpecialIds,
    q: &InternalQuestion,
    outcomes: &Vec<Result<Vec<u32>, String>>,
    state_ids: &Vec<u32>,
    max_len: usize,
    head_max_len: usize,
    truncate_left: bool,
) -> (r: Result<(Vec<u32>, Vec<usize>), Error<String>>)
    requires
        question_is_well_formed(q@),
        are_enough(q@, outcomes_said(outcomes@)),
        head_max_len <= isize::MAX,
    ensures
        layout_said(r) == built_from(
            *special,
            q@,
            outcomes_said(outcomes@),
            state_ids@,
            Limits { max_len: max_len as int, head_max_len: head_max_len as int, truncate_left },
        ),
{
    if let Err(e) = render_options(q) {
        return Err(e);
    }
    let ghost all = outcomes_said(outcomes@);
    let mut head: Vec<u32> = Vec::new();
    let mut rows: Vec<Vec<u32>> = Vec::new();
    let mut i: usize = 0;
    assert(all.skip(0) =~= all);
    while i < outcomes.len()
        invariant
            i <= outcomes@.len(),
            all == outcomes_said(outcomes@),
            rendered_options(q@) is Ok,
            first_failure(all) == first_failure(all.skip(i as int)),
            i > 0 ==> rows@.len() == i - 1 && all[0] == Ok::<Seq<u32>, Seq<char>>(head@),
            i == 0 ==> rows@.len() == 0,
            forall|j: int|
                0 <= j < rows@.len() ==> (#[trigger] rows@[j])@ == kept(
                    all[j + 1]->Ok_0,
                    OPTION_TOKENS as int,
                ),
        decreases outcomes.len() - i,
    {
        assert(all.skip(i as int)[0] == outcome_of(outcomes@[i as int]));
        assert(all[i as int] == outcome_of(outcomes@[i as int]));
        assert(all.skip(i as int).skip(1) =~= all.skip(i + 1));
        match &outcomes[i] {
            Ok(ids) => {
                if i == 0 {
                    head = first_ids(ids, ids.len());
                } else {
                    rows.push(first_ids(ids, OPTION_TOKENS));
                }
            },
            Err(words) => {
                return Err(Error::TokenizeFailed(words.clone()));
            },
        }
        i += 1;
    }
    assert(first_failure(all.skip(i as int)) is None);
    assert(rows_view(rows@) =~= ids_in(all.skip(1)).map_values(
        |o: Seq<u32>| kept(o, OPTION_TOKENS as int),
    ));
    Ok(
        assemble_sequence(
            special,
            head,
            &rows,
            state_ids.as_slice(),
            max_len,
            head_max_len,
            truncate_left,
        ),
    )
}

/// Whether a question may be laid out from the given ids of its head, its options
/// and its state.
pub open spec fn are_parts(
    tok: Tokenizer,
    special: SpecialIds,
    state: Json,
    q: Question,
    state_ids: Option<Seq<u32>>,
    head: Seq<u32>,
    options: Seq<Seq<u32>>,
    given: Seq<u32>,
) -> bool {
    &&& rendered_options(q) is Ok
    &&& may_encode(tok, head_text(special, q), Ok(head))
    &&& may_encode_options(tok, special, rendered_options(q)->Ok_0, options)
    &&& options.len() == rendered_options(q)->Ok_0.len()
    &&& match state_ids {
        Some(ids) => given == ids,
        None => may_encode(tok, state_text(special, state), Ok(given)),
    }
}

/// A built sequence is laid out from what the tokenizer may give for its texts.
proof fn parts_of_build(
    tok: Tokenizer,
    special: SpecialIds,
    state: Json,
    q: Question,
    state_ids: Option<Seq<u32>>,
    limits: Limits,
    layout: Layout,
) -> (parts: (Seq<u32>, Seq<Seq<u32>>, Seq<u32>))
    requires
        may_build(tok, special, state, q, state_ids, limits, Ok(layout)),
    ensures
        are_parts(tok, special, state, q, state_ids, parts.0, parts.1, parts.2),
        layout == encoded(special, parts.0, parts.1, parts.2, limits),
{
    let r: Result<Layout, Error<Seq<char>>> = Ok(layout);
    let options = rendered_options(q)->Ok_0;
    let head = choose|head: Result<Seq<u32>, Seq<char>>| #[trigger]
        may_encode(tok, head_text(special, q), head) && match head {
            Ok(ids) => may_continue(tok, special, state, ids, options, state_ids, limits, r),
            Err(reason) => r == Err::<Layout, Error<Seq<char>>>(Error::TokenizeFailed(reason)),
        };
    let head_ids = head->Ok_0;
    let ids = choose|ids: Seq<Seq<u32>>| #[trigger]
        may_encode_options(tok, special, options, ids) && if ids.len() < options.len() {
            exists|reason: Seq<char>| #[trigger]
                may_encode(tok, option_text(special, options[ids.len() as int]), Err(reason))
                    && r == Err::<Layout, Error<Seq<char>>>(Error::TokenizeFailed(reason))
        } else {
            may_finish(tok, special, state, head_ids, ids, state_ids, limits, r)
        };
    let given = match state_ids {
        Some(given) => given,
        None => {
            let outcome = choose|outcome: Result<Seq<u32>, Seq<char>>| #[trigger]
                may_encode(tok, state_text(special, state), outcome) && r == match outcome {
                    Ok(given) => Ok::<Layout, Error<Seq<char>>>(
                        encoded(special, head_ids, ids, given, limits),
                    ),
                    Err(reason) => Err(Error::TokenizeFailed(reason)),
                };
            outcome->Ok_0
        },
    };
    (head_ids, ids, given)
}

/// What the tokenizer may give for the texts of a question may be laid out.
proof fn build_of_parts(
    tok: Tokenizer,
    special: SpecialIds,
    state: Json,
    q: Question,
    state_ids: Option<Seq<u32>>,
    limits: Limits,
    head: Seq<u32>,
    options: Seq<Seq<u32>>,
    given: Seq<u32>,
)
    requires
        are_parts(tok, special, state, q, state_ids, head, options, given),
    ensures
        may_build(
            tok,
            special,
            state,
            q,
            state_ids,
            limits,
            Ok(encoded(special, head, options, given, limits)),
        ),
{
    let r: Result<Layout, Error<Seq<char>>> = Ok(encoded(special, head, options, given, limits));
    let outcome: Result<Seq<u32>, Seq<char>> = Ok(given);
    if state_ids is None {
        assert(may_encode(tok, state_text(special, state), outcome));
    }
    assert(may_finish(tok, special, state, head, options, state_ids, limits, r));
    let texts = rendered_options(q)->Ok_0;
    assert(may_encode_options(tok, special, texts, options));
    assert(may_continue(tok, special, state, head, texts, state_ids, limits, r));
    let head_outcome: Result<Seq<u32>, Seq<char>> = Ok(head);
    assert(may_encode(tok, head_text(special, q), head_outcome));
}

/// Whatever the tokenizer gives, a built sequence is no longer than the model
/// takes, begins with `[CLS]`, and ends with `[SEP]` unless it is as long as the
/// model takes. Its marks stand in the order of the options, and each points at a
/// `[MASK]`. Every option has its mark where the head budget has room for the
/// smallest share of the head and of each option, and the model takes two ids
/// more than the budget.
pub proof fn built_layouts_are_marked(
    tok: Tokenizer,
    special: SpecialIds,
    state: Json,
    q: Question,
    state_ids: Option<Seq<u32>>,
    limits: Limits,
    layout: Layout,
)
    requires
        may_build(tok, special, state, q, state_ids, limits, Ok(layout)),
        0 <= limits.max_len,
        0 <= limits.head_max_len,
    ensures
        rendered_options(q) is Ok,
        layout.ids.len() <= limits.max_len,
        limits.max_len > 0 ==> layout.ids.len() > 0 && layout.ids[0] == special.cls,
        layout.ids.len() < limits.max_len ==> layout.ids.last() == special.sep,
        layout.markers.len() <= rendered_options(q)->Ok_0.len(),
        forall|i: int|
            0 <= i < layout.markers.len() ==> 0 < (#[trigger] layout.markers[i])
                < layout.ids.len() && layout.ids[layout.markers[i]] == special.mask,
        forall|i: int, j: int|
            0 <= i < j < layout.markers.len() ==> layout.markers[i] < layout.markers[j],
        ROW_TOKENS * rendered_options(q)->Ok_0.len() + HEAD_TOKENS <= limits.head_max_len
            && limits.head_max_len + 2 <= limits.max_len ==> layout.markers.len()
            == rendered_options(q)->Ok_0.len(),
{
    let options = rendered_options(q)->Ok_0;
    let (head_ids, ids, given) = parts_of_build(tok, special, state, q, state_ids, limits, layout);
    let rows = ids.map_values(|o: Seq<u32>| kept(o, OPTION_TOKENS as int));
    let max_len = limits.max_len as nat;
    let head_max_len = limits.head_max_len as nat;
    let left = limits.truncate_left;
    markers_point_at_masks(special, head_ids, rows, given, max_len, head_max_len, left);
    layout_ends_with_sep(special, head_ids, rows, given, max_len, head_max_len, left);
    if max_len > 0 {
        layout_begins_with_cls(special, head_ids, rows, given, max_len, head_max_len, left);
    }
    if ROW_TOKENS * options.len() + HEAD_TOKENS <= head_max_len && head_max_len + 2 <= max_len {
        roomy_options_are_marked(special, head_ids, rows, given, max_len, head_max_len, left);
    }
}

/// A question whose options render can fail to be built only because the
/// tokenizer fails on one of its texts.
pub proof fn only_the_tokenizer_fails(
    tok: Tokenizer,
    special: SpecialIds,
    state: Json,
    q: Question,
    state_ids: Option<Seq<u32>>,
    limits: Limits,
    e: Error<Seq<char>>,
)
    requires
        may_build(tok, special, state, q, state_ids, limits, Err(e)),
        rendered_options(q) is Ok,
    ensures
        e is TokenizeFailed,
{
}

/// A text that lacks the opening bracket holds no mask token.
proof fn no_bracket_no_mask(text: Seq<char>)
    requires
        !text.contains('['),
    ensures
        forall|at: int| !#[trigger] occurs_at(text, "[MASK]"@, at),
{
    reveal_strlit("[MASK]");
    assert forall|at: int| !#[trigger] occurs_at(text, "[MASK]"@, at) by {
        if occurs_at(text, "[MASK]"@, at) {
            assert(text.subrange(at, at + "[MASK]"@.len())[0] == '[');
            assert(text.contains(text[at]));
        }
    }
}

/// No text that is handed to the tokenizer for the head, an option or the state
/// holds the mask token.
pub proof fn mask_token_is_gone(
    special: SpecialIds,
    q: Question,
    option: Seq<char>,
    state: Json,
    at: int,
)
    requires
        special.mask_token@ == "[MASK]"@,
        qtype_of(q.t) is Some,
    ensures
        !occurs_at(head_text(special, q), special.mask_token@, at),
        !occurs_at(option_text(special, option), special.mask_token@, at),
        !occurs_at(state_text(special, state), special.mask_token@, at),
{
    let mask = "[MASK]"@;
    reveal_strlit("[MASK]");
    reveal_strlit(" ");
    assert(" "@ =~= seq![' ']);
    assert(mask =~= seq!['[', 'M', 'A', 'S', 'K', ']']);
    assert forall|text: Seq<char>, i: int| !#[trigger] occurs_at(
        unmasked(special, text),
        mask,
        i,
    ) by {
        blanked_pattern_is_gone(text, mask, i);
    }
    let nothing = Seq::<char>::empty();
    no_bracket_no_mask(nothing);
    blank_separates(nothing, unmasked(special, option), mask, at);
    assert(nothing + seq![' '] + unmasked(special, option) =~= option_text(special, option));
    reveal_strlit("choice");
    reveal_strlit("score");
    reveal_strlit("noul");
    reveal_strlit("question:");
    reveal_strlit(" question: ");
    no_bracket_no_mask(q.t);
    no_bracket_no_mask("question:"@);
    let before = q.t + seq![' '] + "question:"@;
    assert forall|i: int| !#[trigger] occurs_at(before, mask, i) by {
        blank_separates(q.t, "question:"@, mask, i);
    }
    blank_separates(before, unmasked(special, q.ins), mask, at);
    assert(before + seq![' '] + unmasked(special, q.ins) =~= head_text(special, q));
}

/// Whether a tokenizer gives the mask id for no text that lacks the mask token.
pub open spec fn keeps_mask(tok: Tokenizer, special: SpecialIds) -> bool {
    forall|text: Seq<char>, ids: Seq<u32>|
        (forall|at: int| !occurs_at(text, special.mask_token@, at)) && #[trigger] may_encode(
            tok,
            text,
            Ok(ids),
        ) ==> !ids.contains(special.mask)
}

/// With a tokenizer that gives the mask id for no text that lacks the mask token,
/// `[MASK]` stands in a built sequence only where its marks point, whatever the
/// texts hold.
pub proof fn masks_are_marks(
    tok: Tokenizer,
    special: SpecialIds,
    state: Json,
    q: Question,
    state_ids: Option<Seq<u32>>,
    limits: Limits,
    layout: Layout,
    at: int,
)
    requires
        may_build(tok, special, state, q, state_ids, limits, Ok(layout)),
        0 <= limits.max_len,
        0 <= limits.head_max_len,
        keeps_mask(tok, special),
        special.mask_token@ == "[MASK]"@,
        special.cls != special.mask,
        special.sep != special.mask,
        qtype_of(q.t) is Some,
        state_ids matches Some(ids) ==> !ids.contains(special.mask),
        0 <= at < layout.ids.len(),
        layout.ids[at] == special.mask,
    ensures
        layout.markers.contains(at),
{
    let (head, ids, given) = parts_of_build(tok, special, state, q, state_ids, limits, layout);
    let texts = rendered_options(q)->Ok_0;
    let mask_token = special.mask_token@;
    assert forall|i: int| !occurs_at(head_text(special, q), mask_token, i) by {
        mask_token_is_gone(special, q, q.ins, state, i);
    }
    assert forall|i: int| !occurs_at(state_text(special, state), mask_token, i) by {
        mask_token_is_gone(special, q, q.ins, state, i);
    }
    assert(!given.contains(special.mask));
    let rows = ids.map_values(|o: Seq<u32>| kept(o, OPTION_TOKENS as int));
    assert forall|k: int| 0 <= k < rows.len() implies !(#[trigger] rows[k]).contains(
        special.mask,
    ) by {
        assert forall|i: int| !occurs_at(option_text(special, texts[k]), mask_token, i) by {
            mask_token_is_gone(special, q, texts[k], state, i);
        }
        assert(may_encode(tok, option_text(special, texts[k]), Ok(ids[k])));
        assert(!ids[k].contains(special.mask));
        if rows[k].contains(special.mask) {
            let p = choose|p: int| 0 <= p < rows[k].len() && rows[k][p] == special.mask;
            assert(ids[k][p] == special.mask);
        }
    }
    masks_stand_at_markers(
        special,
        head,
        rows,
        given,
        limits.max_len as nat,
        limits.head_max_len as nat,
        limits.truncate_left,
        at,
    );
}

/// What may be built before one state may be built before another one of which the
/// same is kept.
proof fn built_before_the_other(
    tok: Tokenizer,
    special: SpecialIds,
    one: Json,
    other: Json,
    q: Question,
    one_ids: Seq<u32>,
    other_ids: Seq<u32>,
    limits: Limits,
    r: Result<Layout, Error<Seq<char>>>,
)
    requires
        0 <= limits.max_len,
        0 <= limits.head_max_len,
        kept_state(one_ids, limits.max_len, limits.truncate_left) == kept_state(
            other_ids,
            limits.max_len,
            limits.truncate_left,
        ),
        may_build(tok, special, one, q, Some(one_ids), limits, r),
    ensures
        may_build(tok, special, other, q, Some(other_ids), limits, r),
{
    match r {
        Ok(layout) => {
            let (head, ids, given) = parts_of_build(
                tok,
                special,
                one,
                q,
                Some(one_ids),
                limits,
                layout,
            );
            kept_ends_are_laid_out_alike(
                special,
                head,
                ids.map_values(|o: Seq<u32>| kept(o, OPTION_TOKENS as int)),
                one_ids,
                other_ids,
                limits.max_len as nat,
                limits.head_max_len as nat,
                limits.truncate_left,
            );
            build_of_parts(tok, special, other, q, Some(other_ids), limits, head, ids, other_ids);
        },
        Err(_) => {
            if rendered_options(q) is Ok {
                let options = rendered_options(q)->Ok_0;
                let x: Option<Seq<u32>> = Some(one_ids);
                let y: Option<Seq<u32>> = Some(other_ids);
                let head = choose|head: Result<Seq<u32>, Seq<char>>| #[trigger]
                    may_encode(tok, head_text(special, q), head) && match head {
                        Ok(ids) => may_continue(tok, special, one, ids, options, x, limits, r),
                        Err(reason) => r == Err::<Layout, Error<Seq<char>>>(
                            Error::TokenizeFailed(reason),
                        ),
                    };
                if head is Ok {
                    assert(may_continue(tok, special, other, head->Ok_0, options, y, limits, r));
                }
                assert(may_encode(tok, head_text(special, q), head));
            }
        },
    }
}

/// Before states of which the same is kept in the length that the model takes, a
/// question may be built alike.
pub proof fn kept_ends_are_built_alike(
    tok: Tokenizer,
    special: SpecialIds,
    one: Json,
    other: Json,
    q: Question,
    one_ids: Seq<u32>,
    other_ids: Seq<u32>,
    limits: Limits,
    r: Result<Layout, Error<Seq<char>>>,
)
    requires
        0 <= limits.max_len,
        0 <= limits.head_max_len,
        kept_state(one_ids, limits.max_len, limits.truncate_left) == kept_state(
            other_ids,
            limits.max_len,
            limits.truncate_left,
        ),
    ensures
        may_build(tok, special, one, q, Some(one_ids), limits, r) == may_build(
            tok,
            special,
            other,
            q,
            Some(other_ids),
            limits,
            r,
        ),
{
    if may_build(tok, special, one, q, Some(one_ids), limits, r) {
        built_before_the_other(tok, special, one, other, q, one_ids, other_ids, limits, r);
    }
    if may_build(tok, special, other, q, Some(other_ids), limits, r) {
        built_before_the_other(tok, special, other, one, q, other_ids, one_ids, limits, r);
    }
}

/// A sequence that may be built in a smaller length is one that may be built in a
/// larger length, cut short.
pub proof fn smaller_lengths_cut_builds_short(
    tok: Tokenizer,
    special: SpecialIds,
    state: Json,
    q: Question,
    state_ids: Option<Seq<u32>>,
    smaller: Limits,
    larger: Limits,
    short: Layout,
) -> (long: Layout)
    requires
        may_build(tok, special, state, q, state_ids, smaller, Ok(short)),
        0 <= smaller.max_len <= larger.max_len,
        0 <= smaller.head_max_len,
        smaller.head_max_len == larger.head_max_len,
        smaller.truncate_left == larger.truncate_left,
    ensures
        may_build(tok, special, state, q, state_ids, larger, Ok(long)),
        exists|front_len: int| #[trigger]
            is_cut_from(short, long, front_len, smaller.max_len, smaller.truncate_left),
{
    let (head, ids, given) = parts_of_build(tok, special, state, q, state_ids, smaller, short);
    build_of_parts(tok, special, state, q, state_ids, larger, head, ids, given);
    smaller_lengths_cut_short(
        special,
        head,
        ids.map_values(|o: Seq<u32>| kept(o, OPTION_TOKENS as int)),
        given,
        smaller.max_len as nat,
        larger.max_len as nat,
        smaller.head_max_len as nat,
        smaller.truncate_left,
    );
    encoded(special, head, ids, given, larger)
}

/// With a tokenizer whose model drops no merges at random, options that were
/// encoded twice have the same ids as far as both go.
proof fn steady_options_agree(
    tok: Tokenizer,
    special: SpecialIds,
    options: Seq<Seq<char>>,
    one: Seq<Seq<u32>>,
    other: Seq<Seq<u32>>,
    i: int,
)
    requires
        is_steady(tok),
        may_encode_options(tok, special, options, one),
        may_encode_options(tok, special, options, other),
        0 <= i < one.len(),
    ensures
        i < other.len() ==> one[i] == other[i],
        i == other.len() ==> forall|reason: Seq<char>|
            !#[trigger] may_encode(tok, option_text(special, options[i]), Err(reason)),
{
    let text = option_text(special, options[i]);
    let given: Result<Seq<u32>, Seq<char>> = Ok(one[i]);
    assert(may_encode(tok, text, given));
    if i < other.len() {
        let again: Result<Seq<u32>, Seq<char>> = Ok(other[i]);
        assert(may_encode(tok, text, again));
        steady_outcomes_are_one(tok, text, given, again);
    }
    assert forall|reason: Seq<char>| !#[trigger] may_encode(tok, text, Err(reason)) by {
        let failed: Result<Seq<u32>, Seq<char>> = Err(reason);
        if may_encode(tok, text, failed) {
            steady_outcomes_are_one(tok, text, given, failed);
        }
    }
}

/// With a tokenizer whose model drops no merges at random, building the sequence of
/// a question twice comes out the same.
pub proof fn steady_builds_are_one(
    tok: Tokenizer,
    special: SpecialIds,
    state: Json,
    q: Question,
    state_ids: Option<Seq<u32>>,
    limits: Limits,
    one: Result<Layout, Error<Seq<char>>>,
    other: Result<Layout, Error<Seq<char>>>,
)
    requires
        is_steady(tok),
        may_build(tok, special, state, q, state_ids, limits, one),
        may_build(tok, special, state, q, state_ids, limits, other),
    ensures
        one == other,
{
    if rendered_options(q) is Ok {
        let options = rendered_options(q)->Ok_0;
        let a = choose|head: Result<Seq<u32>, Seq<char>>| #[trigger]
            may_encode(tok, head_text(special, q), head) && match head {
                Ok(ids) => may_continue(tok, special, state, ids, options, state_ids, limits, one),
                Err(reason) => one == Err::<Layout, Error<Seq<char>>>(
                    Error::TokenizeFailed(reason),
                ),
            };
        let b = choose|head: Result<Seq<u32>, Seq<char>>| #[trigger]
            may_encode(tok, head_text(special, q), head) && match head {
                Ok(ids) => may_continue(
                    tok,
                    special,
                    state,
                    ids,
                    options,
                    state_ids,
                    limits,
                    other,
                ),
                Err(reason) => other == Err::<Layout, Error<Seq<char>>>(
                    Error::TokenizeFailed(reason),
                ),
            };
        steady_outcomes_are_one(tok, head_text(special, q), a, b);
        if a is Ok {
            steady_ends_are_one(
                tok,
                special,
                state,
                a->Ok_0,
                options,
                state_ids,
                limits,
                one,
                other,
            );
        }
    }
}

/// With a tokenizer whose model drops no merges at random, what follows the head of
/// a question comes out the same twice.
proof fn steady_ends_are_one(
    tok: Tokenizer,
    special: SpecialIds,
    state: Json,
    head: Seq<u32>,
    options: Seq<Seq<char>>,
    state_ids: Option<Seq<u32>>,
    limits: Limits,
    one: Result<Layout, Error<Seq<char>>>,
    other: Result<Layout, Error<Seq<char>>>,
)
    requires
        is_steady(tok),
        may_continue(tok, special, state, head, options, state_ids, limits, one),
        may_continue(tok, special, state, head, options, state_ids, limits, other),
    ensures
        one == other,
{
    let a = choose|ids: Seq<Seq<u32>>| #[trigger]
        may_encode_options(tok, special, options, ids) && if ids.len() < options.len() {
            exists|reason: Seq<char>| #[trigger]
                may_encode(tok, option_text(special, options[ids.len() as int]), Err(reason))
                    && one == Err::<Layout, Error<Seq<char>>>(Error::TokenizeFailed(reason))
        } else {
            may_finish(tok, special, state, head, ids, state_ids, limits, one)
        };
    let b = choose|ids: Seq<Seq<u32>>| #[trigger]
        may_encode_options(tok, special, options, ids) && if ids.len() < options.len() {
            exists|reason: Seq<char>| #[trigger]
                may_encode(tok, option_text(special, options[ids.len() as int]), Err(reason))
                    && other == Err::<Layout, Error<Seq<char>>>(Error::TokenizeFailed(reason))
        } else {
            may_finish(tok, special, state, head, ids, state_ids, limits, other)
        };
    if a.len() < b.len() {
        steady_options_agree(tok, special, options, b, a, a.len() as int);
    }
    if b.len() < a.len() {
        steady_options_agree(tok, special, options, a, b, b.len() as int);
    }
    assert forall|i: int| 0 <= i < a.len() implies a[i] == b[i] by {
        steady_options_agree(tok, special, options, a, b, i);
    }
    assert(a =~= b);
    if a.len() < options.len() {
        let text = option_text(special, options[a.len() as int]);
        let x = choose|reason: Seq<char>| #[trigger]
            may_encode(tok, text, Err(reason)) && one == Err::<Layout, Error<Seq<char>>>(
                Error::TokenizeFailed(reason),
            );
        let y = choose|reason: Seq<char>| #[trigger]
            may_encode(tok, text, Err(reason)) && other == Err::<Layout, Error<Seq<char>>>(
                Error::TokenizeFailed(reason),
            );
        steady_outcomes_are_one(tok, text, Err(x), Err(y));
    } else if state_ids is None {
        let text = state_text(special, state);
        let x = choose|outcome: Result<Seq<u32>, Seq<char>>| #[trigger]
            may_encode(tok, text, outcome) && one == match outcome {
                Ok(ids) => Ok::<Layout, Error<Seq<char>>>(
                    encoded(special, head, a, ids, limits),
                ),
                Err(reason) => Err(Error::TokenizeFailed(reason)),
            };
        let y = choose|outcome: Result<Seq<u32>, Seq<char>>| #[trigger]
            may_encode(tok, text, outcome) && other == match outcome {
                Ok(ids) => Ok::<Layout, Error<Seq<char>>>(
                    encoded(special, head, a, ids, limits),
                ),
                Err(reason) => Err(Error::TokenizeFailed(reason)),
            };
        steady_outcomes_are_one(tok, text, x, y);
    }
}

/// With a tokenizer whose model drops no merges at random, a sequence that was
/// built in a smaller length is the one that was built in a larger length, cut
/// short.
pub proof fn steady_builds_are_cut_short(
    tok: Tokenizer,
    special: SpecialIds,
    state: Json,
    q: Question,
    state_ids: Option<Seq<u32>>,
    smaller: Limits,
    larger: Limits,
    short: Layout,
    long: Layout,
)
    requires
        is_steady(tok),
        may_build(tok, special, state, q, state_ids, smaller, Ok(short)),
        may_build(tok, special, state, q, state_ids, larger, Ok(long)),
        0 <= smaller.max_len <= larger.max_len,
        0 <= smaller.head_max_len,
        smaller.head_max_len == larger.head_max_len,
        smaller.truncate_left == larger.truncate_left,
    ensures
        exists|front_len: int| #[trigger]
            is_cut_from(short, long, front_len, smaller.max_len, smaller.truncate_left),
{
    let found = smaller_lengths_cut_builds_short(
        tok,
        special,
        state,
        q,
        state_ids,
        smaller,
        larger,
        short,
    );
    steady_builds_are_one(tok, special, state, q, state_ids, larger, Ok(found), Ok(long));
}

/// Before the first failure among outcomes none failed.
proof fn first_failure_is_found(outcomes: Seq<Result<Seq<u32>, Seq<char>>>) -> (k: int)
    ensures
        0 <= k <= outcomes.len(),
        forall|i: int| 0 <= i < k ==> (#[trigger] outcomes[i]) is Ok,
        match first_failure(outcomes) {
            Some(words) => k < outcomes.len() && outcomes[k] == Err::<Seq<u32>, Seq<char>>(words),
            None => k == outcomes.len(),
        },
    decreases outcomes.len(),
{
    if outcomes.len() == 0 || outcomes[0] is Err {
        0
    } else {
        let rest = outcomes.skip(1);
        let k = first_failure_is_found(rest);
        assert forall|i: int| 0 <= i < k + 1 implies (#[trigger] outcomes[i]) is Ok by {
            if i > 0 {
                assert(rest[i - 1] is Ok);
            }
        }
        if k < rest.len() {
            assert(rest[k] == outcomes[k + 1]);
        }
        k + 1
    }
}

/// A sequence that is built from what a tokenizer may give for the texts of a
/// question, in their order, is one that may be built with that tokenizer.
pub proof fn given_outcomes_are_built(
    tok: Tokenizer,
    special: SpecialIds,
    state: Json,
    q: Question,
    outcomes: Seq<Result<Seq<u32>, Seq<char>>>,
    state_ids: Seq<u32>,
    limits: Limits,
)
    requires
        are_enough(q, outcomes),
        rendered_options(q) matches Ok(options) ==> outcomes.len() <= options.len() + 1
            && forall|i: int|
            0 <= i < outcomes.len() ==> may_encode(
                tok,
                part_texts(special, q, options)[i],
                #[trigger] outcomes[i],
            ),
    ensures
        may_build(
            tok,
            special,
            state,
            q,
            Some(state_ids),
            limits,
            built_from(special, q, outcomes, state_ids, limits),
        ),
{
    if rendered_options(q) is Ok {
        let options = rendered_options(q)->Ok_0;
        let r = built_from(special, q, outcomes, state_ids, limits);
        let all = part_texts(special, q, options);
        let k = first_failure_is_found(outcomes);
        assert(outcomes.len() > 0);
        assert(may_encode(tok, all[0], outcomes[0]));
        assert(all[0] == head_text(special, q));
        if k > 0 {
            let head = outcomes[0]->Ok_0;
            let ids = ids_in(outcomes.subrange(1, k));
            assert forall|i: int| 0 <= i < ids.len() implies may_encode(
                tok,
                option_text(special, options[i]),
                Ok(#[trigger] ids[i]),
            ) by {
                assert(outcomes[i + 1] is Ok);
                assert(may_encode(tok, all[i + 1], outcomes[i + 1]));
                assert(all[i + 1] == option_text(special, options[i]));
                assert(outcomes[i + 1] == Ok::<Seq<u32>, Seq<char>>(ids[i]));
            }
            assert(may_encode_options(tok, special, options, ids));
            if first_failure(outcomes) is None {
                assert(outcomes.subrange(1, k) =~= outcomes.skip(1));
                build_of_parts(
                    tok,
                    special,
                    state,
                    q,
                    Some(state_ids),
                    limits,
                    head,
                    ids,
                    state_ids,
                );
            } else {
                let words = first_failure(outcomes)->Some_0;
                assert(all[k] == option_text(special, options[k - 1]));
                assert(may_encode(tok, all[k], outcomes[k]));
                assert(may_encode(
                    tok,
                    option_text(special, options[ids.len() as int]),
                    Err(words),
                ));
                assert(may_continue(
                    tok,
                    special,
                    state,
                    head,
                    options,
                    Some(state_ids),
                    limits,
                    r,
                ));
            }
        }
    }
}

/// What is handed to the tokenizer for the head is the type and the instructions,
/// for an option a blank and the option, for the state a string as it is and any
/// other value as compact JSON, each with a blank in place of the mask token.
pub proof fn texts_are_handed_over(
    special: SpecialIds,
    q: Question,
    option: Seq<char>,
    state: Json,
)
    ensures
        head_text(special, q) == q.t + " question: "@ + replaced(
            q.ins,
            special.mask_token@,
            " "@,
        ),
        option_text(special, option) == " "@ + replaced(option, special.mask_token@, " "@),
        state matches Json::String(s) ==> state_text(special, state) == replaced(
            s,
            special.mask_token@,
            " "@,
        ),
        !(state is String) ==> state_text(special, state) == replaced(
            json_text(state),
            special.mask_token@,
            " "@,
        ),
{
}

/// A state in whose text the mask token does not occur is handed to the tokenizer
/// as it is: a string itself, and any other value, objects and lists among them, as
/// compact JSON.
pub proof fn states_without_masks_are_kept(special: SpecialIds, state: Json, text: Seq<char>)
    requires
        special.mask_token@.len() > 0,
        state matches Json::String(s) ==> text == s,
        !(state is String) ==> text == json_text(state),
        forall|at: int| !#[trigger] occurs_at(text, special.mask_token@, at),
    ensures
        state_text(special, state) == text,
{
    replacing_nothing_keeps_text(text, special.mask_token@, " "@);
}

/// Instructions and options in which the mask token does not occur are handed to the
/// tokenizer as they are, behind the type and behind a blank.
pub proof fn parts_without_masks_are_kept(special: SpecialIds, q: Question, option: Seq<char>)
    requires
        special.mask_token@.len() > 0,
        forall|at: int| !#[trigger] occurs_at(q.ins, special.mask_token@, at),
        forall|at: int| !#[trigger] occurs_at(option, special.mask_token@, at),
    ensures
        head_text(special, q) == q.t + " question: "@ + q.ins,
        option_text(special, option) == " "@ + option,
{
    replacing_nothing_keeps_text(q.ins, special.mask_token@, " "@);
    replacing_nothing_keeps_text(option, special.mask_token@, " "@);
}

/// The texts of a question are its head and then its options, in their order.
pub proof fn texts_come_in_order(
    special: SpecialIds,
    q: Question,
    options: Seq<Seq<char>>,
    i: int,
)
    ensures
        part_texts(special, q, options).len() == options.len() + 1,
        part_texts(special, q, options)[0] == q.t + " question: "@ + replaced(
            q.ins,
            special.mask_token@,
            " "@,
        ),
        0 <= i < options.len() ==> part_texts(special, q, options)[i + 1] == " "@ + replaced(
            options[i],
            special.mask_token@,
            " "@,
        ),
{
}

/// Of each option the first forty-eight ids are laid out, or all where there are no
/// more.
pub proof fn long_options_are_cut(
    special: SpecialIds,
    head: Seq<u32>,
    options: Seq<Seq<u32>>,
    cut: Seq<Seq<u32>>,
    state: Seq<u32>,
    limits: Limits,
)
    requires
        cut.len() == options.len(),
        forall|i: int|
            0 <= i < options.len() ==> (#[trigger] cut[i]) == if options[i].len() <= 48 {
                options[i]
            } else {
                options[i].take(48)
            },
    ensures
        encoded(special, head, options, state, limits) == laid_out(
            special,
            head,
            cut,
            state,
            limits.max_len,
            limits.head_max_len,
            limits.truncate_left,
        ),
{
    assert(cut =~= options.map_values(|o: Seq<u32>| kept(o, OPTION_TOKENS as int)));
}

/// A sequence that is built is laid out from what the tokenizer may give for the
/// head, for each option in its place, of which the first forty-eight ids count, and
/// for the state, unless the ids of the state are given.
pub proof fn built_sequences_come_of_their_texts(
    tok: Tokenizer,
    special: SpecialIds,
    state: Json,
    q: Question,
    state_ids: Option<Seq<u32>>,
    limits: Limits,
    layout: Layout,
) -> (parts: (Seq<u32>, Seq<Seq<u32>>, Seq<Seq<u32>>, Seq<u32>))
    requires
        may_build(tok, special, state, q, state_ids, limits, Ok(layout)),
    ensures
        rendered_options(q) is Ok,
        ({
            let texts = rendered_options(q)->Ok_0;
            let mask = special.mask_token@;
            let (head, options, cut, given) = parts;
            &&& may_encode(tok, q.t + " question: "@ + replaced(q.ins, mask, " "@), Ok(head))
            &&& options.len() == texts.len()
            &&& cut.len() == texts.len()
            &&& forall|i: int|
                0 <= i < texts.len() ==> may_encode(
                    tok,
                    " "@ + replaced(#[trigger] texts[i], mask, " "@),
                    Ok(options[i]),
                )
            &&& forall|i: int|
                0 <= i < texts.len() ==> (#[trigger] cut[i]) == if options[i].len() <= 48 {
                    options[i]
                } else {
                    options[i].take(48)
                }
            &&& state_ids matches Some(ids) ==> given == ids
            &&& state_ids is None ==> may_encode(
                tok,
                replaced(
                    match state {
                        Json::String(s) => s,
                        _ => json_text(state),
                    },
                    mask,
                    " "@,
                ),
                Ok(given),
            )
            &&& layout == laid_out(
                special,
                head,
                cut,
                given,
                limits.max_len,
                limits.head_max_len,
                limits.truncate_left,
            )
        }),
{
    let texts = rendered_options(q)->Ok_0;
    let (head, options, given) = parts_of_build(tok, special, state, q, state_ids, limits, layout);
    let cut = options.map_values(|o: Seq<u32>| kept(o, OPTION_TOKENS as int));
    assert forall|i: int| 0 <= i < texts.len() implies may_encode(
        tok,
        " "@ + replaced(#[trigger] texts[i], special.mask_token@, " "@),
        Ok(options[i]),
    ) by {
        assert(may_encode(tok, option_text(special, texts[i]), Ok(options[i])));
    }
    (head, options, cut, given)
}

/// A sequence that is not built fails over its options where those do not render,
/// and else over the first text on which the tokenizer fails: the head, or an option
/// behind which the others go unasked, or the state where its ids are not given. The
/// result is the place of that text, with the head first and the state last, and the
/// ids of the options before it.
pub proof fn failed_builds_come_of_a_text(
    tok: Tokenizer,
    special: SpecialIds,
    state: Json,
    q: Question,
    state_ids: Option<Seq<u32>>,
    limits: Limits,
    e: Error<Seq<char>>,
) -> (r: (int, Seq<Seq<u32>>))
    requires
        may_build(tok, special, state, q, state_ids, limits, Err(e)),
    ensures
        rendered_options(q) matches Err(words) ==> e == words,
        rendered_options(q) matches Ok(texts) ==> {
            let mask = special.mask_token@;
            let (at, gone) = r;
            &&& e is TokenizeFailed
            &&& 0 <= at <= texts.len() + 1
            &&& at == 0 ==> may_encode(
                tok,
                q.t + " question: "@ + replaced(q.ins, mask, " "@),
                Err(e->TokenizeFailed_0),
            )
            &&& at > 0 ==> exists|head: Seq<u32>| #[trigger]
                may_encode(tok, q.t + " question: "@ + replaced(q.ins, mask, " "@), Ok(head))
            &&& at > 0 ==> gone.len() == at - 1
            &&& forall|i: int|
                0 <= i < at - 1 ==> may_encode(
                    tok,
                    " "@ + replaced(texts[i], mask, " "@),
                    Ok(#[trigger] gone[i]),
                )
            &&& 0 < at <= texts.len() ==> may_encode(
                tok,
                " "@ + replaced(texts[at - 1], mask, " "@),
                Err(e->TokenizeFailed_0),
            )
            &&& at == texts.len() + 1 ==> state_ids is None && may_encode(
                tok,
                replaced(
                    match state {
                        Json::String(s) => s,
                        _ => json_text(state),
                    },
                    mask,
                    " "@,
                ),
                Err(e->TokenizeFailed_0),
            )
        },
{
    let out: Result<Layout, Error<Seq<char>>> = Err(e);
    match rendered_options(q) {
        Err(_) => (0, Seq::empty()),
        Ok(options) => {
            let head = choose|head: Result<Seq<u32>, Seq<char>>| #[trigger]
                may_encode(tok, head_text(special, q), head) && match head {
                    Ok(ids) => may_continue(
                        tok,
                        special,
                        state,
                        ids,
                        options,
                        state_ids,
                        limits,
                        out,
                    ),
                    Err(reason) => out == Err::<Layout, Error<Seq<char>>>(
                        Error::TokenizeFailed(reason),
                    ),
                };
            if head is Err {
                assert(e == Error::TokenizeFailed(head->Err_0));
                let words: Result<Seq<u32>, Seq<char>> = Err(e->TokenizeFailed_0);
                assert(head == words);
                (0, Seq::empty())
            } else {
                let head_ids = head->Ok_0;
                let first: Result<Seq<u32>, Seq<char>> = Ok(head_ids);
                assert(may_encode(tok, head_text(special, q), first));
                let ids = choose|ids: Seq<Seq<u32>>| #[trigger]
                    may_encode_options(tok, special, options, ids) && if ids.len()
                        < options.len() {
                        exists|reason: Seq<char>| #[trigger]
                            may_encode(
                                tok,
                                option_text(special, options[ids.len() as int]),
                                Err(reason),
                            ) && out == Err::<Layout, Error<Seq<char>>>(
                                Error::TokenizeFailed(reason),
                            )
                    } else {
                        may_finish(tok, special, state, head_ids, ids, state_ids, limits, out)
                    };
                assert forall|i: int| 0 <= i < ids.len() implies may_encode(
                    tok,
                    " "@ + replaced(options[i], special.mask_token@, " "@),
                    Ok(#[trigger] ids[i]),
                ) by {
                    assert(may_encode(tok, option_text(special, options[i]), Ok(ids[i])));
                }
                if ids.len() < options.len() {
                    let reason = choose|reason: Seq<char>| #[trigger]
                        may_encode(
                            tok,
                            option_text(special, options[ids.len() as int]),
                            Err(reason),
                        ) && out == Err::<Layout, Error<Seq<char>>>(Error::TokenizeFailed(reason));
                    assert(e == Error::TokenizeFailed(reason));
                } else {
                    assert(state_ids is None);
                    let outcome = choose|outcome: Result<Seq<u32>, Seq<char>>| #[trigger]
                        may_encode(tok, state_text(special, state), outcome) && out
                            == match outcome {
                            Ok(given) => Ok::<Layout, Error<Seq<char>>>(
                                encoded(special, head_ids, ids, given, limits),
                            ),
                            Err(reason) => Err(Error::TokenizeFailed(reason)),
                        };
                    let words: Result<Seq<u32>, Seq<char>> = Err(e->TokenizeFailed_0);
                    assert(outcome == words);
                }
                (ids.len() as int + 1, ids)
            }
        },
    }
}

/// From given outcomes a sequence is built exactly if the options render and none of
/// the outcomes is a failure: of the first outcome as the head, and of the others as
/// the options, of which the first forty-eight ids count. Else the complaint is that
/// of the options, or tells the first failure.
pub proof fn outcomes_are_laid_out(
    special: SpecialIds,
    q: Question,
    outcomes: Seq<Result<Seq<u32>, Seq<char>>>,
    cut: Seq<Seq<u32>>,
    state_ids: Seq<u32>,
    limits: Limits,
)
    requires
        outcomes.len() > 0,
        forall|i: int| 0 <= i < outcomes.len() ==> (#[trigger] outcomes[i]) is Ok,
        cut.len() == outcomes.len() - 1,
        forall|i: int|
            0 <= i < cut.len() ==> (#[trigger] cut[i]) == if outcomes[i + 1]->Ok_0.len() <= 48 {
                outcomes[i + 1]->Ok_0
            } else {
                outcomes[i + 1]->Ok_0.take(48)
            },
    ensures
        rendered_options(q) is Ok ==> built_from(special, q, outcomes, state_ids, limits) == Ok::<
            Layout,
            Error<Seq<char>>,
        >(
            laid_out(
                special,
                outcomes[0]->Ok_0,
                cut,
                state_ids,
                limits.max_len,
                limits.head_max_len,
                limits.truncate_left,
            ),
        ),
        rendered_options(q) matches Err(e) ==> built_from(
            special,
            q,
            outcomes,
            state_ids,
            limits,
        ) == Err::<Layout, _>(e),
{
    no_failure_is_found(outcomes);
    assert(cut =~= ids_in(outcomes.skip(1)).map_values(
        |o: Seq<u32>| kept(o, OPTION_TOKENS as int),
    ));
}

/// Among outcomes that all are ids no failure is found.
proof fn no_failure_is_found(outcomes: Seq<Result<Seq<u32>, Seq<char>>>)
    requires
        forall|i: int| 0 <= i < outcomes.len() ==> (#[trigger] outcomes[i]) is Ok,
    ensures
        first_failure(outcomes) is None,
    decreases outcomes.len(),
{
    if outcomes.len() > 0 {
        let rest = outcomes.skip(1);
        assert(outcomes[0] is Ok);
        assert forall|i: int| 0 <= i < rest.len() implies (#[trigger] rest[i]) is Ok by {
            assert(outcomes[i + 1] is Ok);
        }
        no_failure_is_found(rest);
    }
}

/// The failure that is found behind outcomes that are ids is the first one.
proof fn failure_is_the_first(outcomes: Seq<Result<Seq<u32>, Seq<char>>>, k: int)
    requires
        0 <= k < outcomes.len(),
        outcomes[k] is Err,
        forall|i: int| 0 <= i < k ==> (#[trigger] outcomes[i]) is Ok,
    ensures
        first_failure(outcomes) == Some(outcomes[k]->Err_0),
    decreases k,
{
    if k > 0 {
        let rest = outcomes.skip(1);
        assert(outcomes[0] is Ok);
        assert forall|i: int| 0 <= i < k - 1 implies (#[trigger] rest[i]) is Ok by {
            assert(outcomes[i + 1] is Ok);
        }
        failure_is_the_first(rest, k - 1);
    }
}

/// Of given outcomes with failures the first one is told, unless the options do not
/// render.
pub proof fn first_failure_is_told(
    special: SpecialIds,
    q: Question,
    outcomes: Seq<Result<Seq<u32>, Seq<char>>>,
    k: int,
    state_ids: Seq<u32>,
    limits: Limits,
)
    requires
        0 <= k < outcomes.len(),
        outcomes[k] is Err,
        forall|i: int| 0 <= i < k ==> (#[trigger] outcomes[i]) is Ok,
    ensures
        rendered_options(q) is Ok ==> built_from(special, q, outcomes, state_ids, limits)
            == Err::<Layout, _>(Error::TokenizeFailed(outcomes[k]->Err_0)),
        rendered_options(q) matches Err(e) ==> built_from(
            special,
            q,
            outcomes,
            state_ids,
            limits,
        ) == Err::<Layout, _>(e),
{
    failure_is_the_first(outcomes, k);
}

/// Outcomes say what they hold.
pub proof fn outcomes_say_what_they_hold(list: Seq<Result<Vec<u32>, String>>, i: int)
    ensures
        outcomes_said(list).len() == list.len(),
        0 <= i < list.len() ==> match list[i] {
            Ok(ids) => outcomes_said(list)[i] == Ok::<Seq<u32>, Seq<char>>(ids@),
            Err(words) => outcomes_said(list)[i] == Err::<Seq<u32>, Seq<char>>(words@),
        },
{
}

/// There are outcomes enough exactly if the options do not render, or one of the outcomes
/// is a failure, or there is one for the head and one for each option.
pub proof fn enough_outcomes(q: Question, outcomes: Seq<Result<Seq<u32>, Seq<char>>>)
    ensures
        are_enough(q, outcomes) <==> match rendered_options(q) {
            Err(_) => true,
            Ok(options) => (exists|k: int| 0 <= k < outcomes.len() && #[trigger] outcomes[k] is Err)
                || outcomes.len() == options.len() + 1,
        },
{
    if exists|k: int| 0 <= k < outcomes.len() && #[trigger] outcomes[k] is Err {
        if first_failure(outcomes) is None {
            all_are_ids(outcomes);
        }
    } else {
        no_failure_is_found(outcomes);
    }
}

/// Outcomes among which no failure is found all are ids.
proof fn all_are_ids(outcomes: Seq<Result<Seq<u32>, Seq<char>>>)
    requires
        first_failure(outcomes) is None,
    ensures
        forall|i: int| 0 <= i < outcomes.len() ==> (#[trigger] outcomes[i]) is Ok,
    decreases outcomes.len(),
{
    if outcomes.len() > 0 {
        let rest = outcomes.skip(1);
        all_are_ids(rest);
        assert forall|i: int| 0 <= i < outcomes.len() implies (#[trigger] outcomes[i]) is Ok by {
            if i > 0 {
                assert(rest[i - 1] is Ok);
            }
        }
    }
}

/// What comes of building a sequence says the layout or the complaint.
pub proof fn builds_say_what_they_hold(ids: Vec<u32>, markers: Vec<usize>, e: Error<String>)
    ensures
        layout_said(Ok((ids, markers))) == Ok::<Layout, Error<Seq<char>>>(
            layout_of(ids@, markers@),
        ),
        layout_said(Err(e)) == Err::<Layout, Error<Seq<char>>>(e@),
{
}

} // verus!
