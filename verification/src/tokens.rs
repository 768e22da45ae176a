//! The tokenizer and the ids of its special tokens.

use tokenizers::Tokenizer;
use vstd::prelude::*;

use crate::description::{check_description, drops_nothing, is_harmless};
use crate::error::Error;
use crate::json::{json_of, parse_json, parsed, to_serde, well_formed};
use crate::value::{Json, JsonValue};

verus! {

/// A tokenizer of the `tokenizers` crate.
#[verifier::external_type_specification]
#[verifier::external_body]
pub struct ExTokenizer(tokenizers::Tokenizer);

/// The id that a tokenizer has for a token.
pub uninterp spec fn token_id(tok: Tokenizer, token: Seq<char>) -> Option<u32>;

/// `token_to_id` looks a token up in the added tokens and then in the
/// vocabulary of the model.
#[verifier::external_body]
fn find_token(tok: &Tokenizer, token: &str) -> (r: Option<u32>)
    ensures
        r == token_id(*tok, token@),
{
    tok.token_to_id(token)
}

/// Whether loading a description may come out as the given tokenizer, or as a
/// refusal with the given words. Two tokenizers that are loaded from one
/// description differ in how they keep their tables.
pub uninterp spec fn may_load(json: Json, outcome: Result<Tokenizer, Seq<char>>) -> bool;

/// What a loading says: the tokenizer, or the words of the refusal.
pub open spec fn loading_of(r: Result<Tokenizer, String>) -> Result<Tokenizer, Seq<char>> {
    match r {
        Ok(tok) => Ok(tok),
        Err(e) => Err(e@),
    }
}

/// `serde_json::from_value` makes a tokenizer of its description, by the
/// `Deserialize` of `tokenizers::Tokenizer`, or refuses. That panics on some
/// descriptions: where a normalizer holds a broken table or fails on an added
/// token, where the prefix of a model cannot be cut from a merge, and where the ids
/// of added tokens run over. The descriptions that are let in have none of these,
/// and a decoder, which is read without being used, panics only on broken text.
/// Which descriptions are refused, and in what words, is left to the relation.
#[verifier::external_body]
fn load_description(description: serde_json::Value) -> (r: Result<Tokenizer, String>)
    requires
        is_harmless(json_of(description)),
    ensures
        may_load(json_of(description), loading_of(r)),
{
    match serde_json::from_value(description) {
        Ok(tok) => Ok(tok),
        Err(e) => Err(e.to_string()),
    }
}

/// Whether a tokenizer was loaded from a description all of whose parts go
/// through every text.
pub open spec fn can_encode(tok: Tokenizer) -> bool {
    exists|json: Json| #[trigger] may_load(json, Ok(tok)) && is_harmless(json)
}

/// Whether a tokenizer was loaded from a description whose model drops no merges
/// at random.
pub open spec fn is_steady(tok: Tokenizer) -> bool {
    exists|json: Json| #[trigger] may_load(json, Ok(tok)) && drops_nothing(json)
}

/// A tokenizer that goes through every text.
pub struct LoadedTokenizer {
    tok: Tokenizer,
}

impl LoadedTokenizer {
    /// The tokenizer itself.
    pub closed spec fn inner(self) -> Tokenizer {
        self.tok
    }

    #[verifier::type_invariant]
    spec fn wf(self) -> bool {
        can_encode(self.tok)
    }

    /// Loads a tokenizer from its description, all of whose parts go through every
    /// text.
    pub fn load(description: &JsonValue) -> (r: Result<LoadedTokenizer, Error<String>>)
        requires
            well_formed(description@),
            is_harmless(description@),
        ensures
            match r {
                Ok(t) => may_load(description@, Ok(t.inner())),
                Err(e) => exists|words: Seq<char>| #[trigger]
                    may_load(description@, Err(words)) && e@ == Error::TokenizerNotLoaded(words),
            },
    {
        match load_description(to_serde(description)) {
            Ok(tok) => Ok(LoadedTokenizer { tok }),
            Err(words) => Err(Error::TokenizerNotLoaded(words)),
        }
    }

    /// Loads a tokenizer from the text of its description, if all its parts go
    /// through every text. Of a description with a part that can panic nothing is
    /// loaded, and nothing is said.
    pub fn try_load(text: &str) -> (r: Option<Result<LoadedTokenizer, Error<String>>>)
        ensures
            match parsed(text@) {
                Err(words) => r matches Some(Err(e)) && e@ == Error::TokenizerNotLoaded(words),
                Ok(json) => {
                    &&& r is Some <==> is_harmless(json)
                    &&& r matches Some(Ok(t)) ==> may_load(json, Ok(t.inner()))
                    &&& r matches Some(Err(e)) ==> exists|words: Seq<char>| #[trigger]
                        may_load(json, Err(words)) && e@ == Error::TokenizerNotLoaded(words)
                },
            },
    {
        let description = match parse_json(text) {
            Ok(value) => value,
            Err(words) => {
                return Some(Err(Error::TokenizerNotLoaded(words)));
            },
        };
        if check_description(&description) {
            Some(LoadedTokenizer::load(&description))
        } else {
            None
        }
    }

    /// Gives the tokenizer itself.
    pub fn tokenizer(&self) -> (r: &Tokenizer)
        ensures
            *r == self.inner(),
            can_encode(*r),
    {
        proof {
            use_type_invariant(self);
        }
        &self.tok
    }
}

/// What encoding a text without special tokens gives, where the model draws the
/// given lots: the ids, or the words of the failure. A lot says of a merge that
/// could be carried out whether it is dropped.
pub uninterp spec fn encoding(
    tok: Tokenizer,
    text: Seq<char>,
    lots: Seq<bool>,
) -> Result<Seq<u32>, Seq<char>>;

/// Whether the model of a tokenizer may draw the given lots: none, where it drops
/// no merges at random.
pub open spec fn may_draw(tok: Tokenizer, lots: Seq<bool>) -> bool {
    is_steady(tok) ==> lots == Seq::<bool>::empty()
}

/// Whether encoding a text without special tokens may come out as the given
/// ids, or as a failure with the given words. A tokenizer whose model drops
/// merges at random has more than one outcome for a text.
pub open spec fn may_encode(
    tok: Tokenizer,
    text: Seq<char>,
    outcome: Result<Seq<u32>, Seq<char>>,
) -> bool {
    exists|lots: Seq<bool>| may_draw(tok, lots) && outcome == #[trigger] encoding(tok, text, lots)
}

/// A tokenizer whose model drops no merges at random has one outcome for a text.
pub proof fn steady_outcomes_are_one(
    tok: Tokenizer,
    text: Seq<char>,
    one: Result<Seq<u32>, Seq<char>>,
    other: Result<Seq<u32>, Seq<char>>,
)
    requires
        is_steady(tok),
        may_encode(tok, text, one),
        may_encode(tok, text, other),
    ensures
        one == other,
{
}

/// What an encoding says: its ids, or the words of the failure.
pub open spec fn outcome_of(r: Result<Vec<u32>, String>) -> Result<Seq<u32>, Seq<char>> {
    match r {
        Ok(ids) => Ok(ids@),
        Err(e) => Err(e@),
    }
}

/// `encode`, asked for no special tokens, gives the ids of a text or fails. It
/// panics where a part of the tokenizer does: a normalizer with a broken table,
/// with nothing to put in front or with an empty text to replace, a pattern whose
/// search fails, pieces of length 0, a template for two texts, an added token of
/// which the normalizer leaves nothing or which lies in the white space that
/// another took along, a length to fill up to that no memory holds, or a length to
/// cut to that is not above the stride. A tokenizer that was loaded from a
/// description without such parts has none of them. What comes out is left to the
/// name: it is the same each time for a tokenizer, a text, and the lots that a
/// model with dropout draws; no other part of a tokenizer is random, and without
/// dropout no lot is drawn.
#[verifier::external_body]
fn run_encode(tok: &Tokenizer, text: &str) -> (r: Result<Vec<u32>, String>)
    requires
        can_encode(*tok),
    ensures
        exists|lots: Seq<bool>| outcome_of(r) == #[trigger] encoding(*tok, text@, lots),
        is_steady(*tok) ==> outcome_of(r) == encoding(*tok, text@, Seq::<bool>::empty()),
{
    match tok.encode(text, false) {
        Ok(encoding) => Ok(encoding.get_ids().to_vec()),
        Err(e) => Err(e.to_string()),
    }
}

/// Encodes a text without special tokens.
pub(crate) fn encode_text(tok: &Tokenizer, text: &str) -> (r: Result<Vec<u32>, String>)
    requires
        can_encode(*tok),
    ensures
        may_encode(*tok, text@, outcome_of(r)),
{
    let r = run_encode(tok, text);
    proof {
        let lots = if is_steady(*tok) {
            Seq::<bool>::empty()
        } else {
            choose|lots: Seq<bool>| outcome_of(r) == #[trigger] encoding(*tok, text@, lots)
        };
        assert(may_draw(*tok, lots) && outcome_of(r) == encoding(*tok, text@, lots));
    }
    r
}

/// The ids of the special tokens, and the token that marks an option.
pub struct SpecialIds {
    pub cls: u32,
    pub sep: u32,
    pub mask: u32,
    pub pad: u32,
    pub mask_token: String,
}

/// Whether the special ids are made of the given ids.
pub open spec fn made_of(r: SpecialIds, cls: u32, sep: u32, mask: u32, pad: u32) -> bool {
    &&& r.cls == cls
    &&& r.sep == sep
    &&& r.mask == mask
    &&& r.pad == pad
    &&& r.mask_token@ == "[MASK]"@
}

/// The special ids that come of the four lookups, or the first token that has
/// no id.
pub open spec fn special_outcome(
    cls: Option<u32>,
    sep: Option<u32>,
    mask: Option<u32>,
    pad: Option<u32>,
    r: Result<SpecialIds, Error<String>>,
) -> bool {
    match (cls, sep, mask, pad) {
        (None, _, _, _) => r matches Err(e) && e@ == Error::MissingSpecialToken("[CLS]"@),
        (_, None, _, _) => r matches Err(e) && e@ == Error::MissingSpecialToken("[SEP]"@),
        (_, _, None, _) => r matches Err(e) && e@ == Error::MissingSpecialToken("[MASK]"@),
        (_, _, _, None) => r matches Err(e) && e@ == Error::MissingSpecialToken("[PAD]"@),
        (Some(cls), Some(sep), Some(mask), Some(pad)) => r matches Ok(s) && made_of(
            s,
            cls,
            sep,
            mask,
            pad,
        ),
    }
}

/// Takes the id that was found for a token, or says that it is missing.
fn required(found: Option<u32>, name: &str) -> (r: Result<u32, Error<String>>)
    ensures
        match found {
            Some(id) => r == Ok::<u32, Error<String>>(id),
            None => r matches Err(e) && e@ == Error::MissingSpecialToken(name@),
        },
{
    match found {
        Some(id) => Ok(id),
        None => Err(Error::MissingSpecialToken(name.to_owned())),
    }
}

impl SpecialIds {
    /// Puts the special ids together from what was found for `[CLS]`, `[SEP]`,
    /// `[MASK]` and `[PAD]`.
    pub fn from_lookups(
        cls: Option<u32>,
        sep: Option<u32>,
        mask: Option<u32>,
        pad: Option<u32>,
    ) -> (r: Result<SpecialIds, Error<String>>)
        ensures
            special_outcome(cls, sep, mask, pad, r),
    {
        Ok(
            SpecialIds {
                cls: required(cls, "[CLS]")?,
                sep: required(sep, "[SEP]")?,
                mask: required(mask, "[MASK]")?,
                pad: required(pad, "[PAD]")?,
                mask_token: "[MASK]".to_owned(),
            },
        )
    }

    /// Looks the special tokens up in a tokenizer.
    pub fn from_tokenizer(tok: &Tokenizer) -> (r: Result<SpecialIds, Error<String>>)
        ensures
            special_outcome(
                token_id(*tok, "[CLS]"@),
                token_id(*tok, "[SEP]"@),
                token_id(*tok, "[MASK]"@),
                token_id(*tok, "[PAD]"@),
                r,
            ),
    {
        SpecialIds::from_lookups(
            find_token(tok, "[CLS]"),
            find_token(tok, "[SEP]"),
            find_token(tok, "[MASK]"),
            find_token(tok, "[PAD]"),
        )
    }
}

/// The special ids are those that were found for `[CLS]`, `[SEP]`, `[MASK]` and
/// `[PAD]`, and the token that marks an option is `[MASK]`. Of the tokens without an
/// id the first one, in this order, is named.
pub proof fn special_ids_are_found(
    cls: Option<u32>,
    sep: Option<u32>,
    mask: Option<u32>,
    pad: Option<u32>,
    r: Result<SpecialIds, Error<String>>,
)
    requires
        special_outcome(cls, sep, mask, pad, r),
    ensures
        cls is Some && sep is Some && mask is Some && pad is Some ==> r is Ok && {
            let s = r->Ok_0;
            &&& cls == Some(s.cls)
            &&& sep == Some(s.sep)
            &&& mask == Some(s.mask)
            &&& pad == Some(s.pad)
            &&& s.mask_token@ == "[MASK]"@
        },
        cls is None ==> r is Err && r->Err_0@ == Error::<Seq<char>>::MissingSpecialToken(
            "[CLS]"@,
        ),
        cls is Some && sep is None ==> r is Err && r->Err_0@
            == Error::<Seq<char>>::MissingSpecialToken("[SEP]"@),
        cls is Some && sep is Some && mask is None ==> r is Err && r->Err_0@
            == Error::<Seq<char>>::MissingSpecialToken("[MASK]"@),
        cls is Some && sep is Some && mask is Some && pad is None ==> r is Err && r->Err_0@
            == Error::<Seq<char>>::MissingSpecialToken("[PAD]"@),
{
}

/// What may come of encoding a text is what encoding it gives with some lots, and
/// with none where the model drops nothing at random.
pub proof fn outcomes_come_of_encoding(
    tok: Tokenizer,
    text: Seq<char>,
    outcome: Result<Seq<u32>, Seq<char>>,
) -> (lots: Seq<bool>)
    requires
        may_encode(tok, text, outcome),
    ensures
        outcome == encoding(tok, text, lots),
        is_steady(tok) ==> lots.len() == 0,
{
    choose|lots: Seq<bool>| may_draw(tok, lots) && outcome == #[trigger] encoding(tok, text, lots)
}

/// An encoding says its ids or its words, and so does a loading.
pub proof fn encodings_say_what_they_hold(ids: Vec<u32>, words: String, tok: Tokenizer)
    ensures
        outcome_of(Ok(ids)) == Ok::<Seq<u32>, Seq<char>>(ids@),
        outcome_of(Err(words)) == Err::<Seq<u32>, Seq<char>>(words@),
        loading_of(Ok(tok)) == Ok::<Tokenizer, Seq<char>>(tok),
        loading_of(Err(words)) == Err::<Tokenizer, Seq<char>>(words@),
{
}

} // verus!
