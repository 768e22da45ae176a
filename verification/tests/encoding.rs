use laya_candle::agent::{
    encode_questions, encoded_item, item_from_outcomes, try_encode_questions, Prepared,
};
use laya_candle::batch::{collate, EncodedItem};
use laya_candle::decode::{decode_answers, Scores};
use laya_candle::error::Error;
use laya_candle::json::{compact_text, parse_json};
use laya_candle::question::{to_internal, InternalQuestion};
use laya_candle::sequence::{build_from_outcomes, build_sequence, question_texts, text_of_state};
use laya_candle::tokens::{LoadedTokenizer, SpecialIds};
use laya_candle::value::JsonValue;

const WORDS: &str = "\"[PAD]\":0,\"[CLS]\":1,\"[SEP]\":2,\"[MASK]\":3,\
    \"noul\":5,\"question:\":6,\"false:\":7,\"true:\":8,\"no,\":9,\"yes,\":10,\"the\":11,\
    \"statement\":12,\"does\":13,\"not\":14,\"hold\":15,\"holds\":16,\"Is\":17,\"it\":18,\
    \"choice\":20,\"a\":21,\"b\":22,\"c\":23,\"score\":24,\"level\":25,\"0:\":26,\"1:\":27";

fn tokenizer(words: &str, unknown: bool, truncation: &str) -> LoadedTokenizer {
    let vocab = if unknown {
        format!("{words},\"[UNK]\":4", words = words)
    } else {
        words.to_string()
    };
    let text = format!(
        "{{\"version\":\"1.0\",\"truncation\":{truncation},\"padding\":null,\"added_tokens\":[\
         {{\"id\":3,\"content\":\"[MASK]\",\"single_word\":false,\"lstrip\":false,\
         \"rstrip\":false,\"normalized\":false,\"special\":true}}],\"normalizer\":null,\
         \"pre_tokenizer\":{{\"type\":\"WhitespaceSplit\"}},\"post_processor\":null,\
         \"decoder\":null,\"model\":{{\"type\":\"WordLevel\",\"vocab\":{{{vocab}}},\
         \"unk_token\":\"[UNK]\"}}}}",
        truncation = truncation,
        vocab = vocab
    );
    LoadedTokenizer::try_load(&text).unwrap().unwrap()
}

fn usual() -> LoadedTokenizer {
    tokenizer(WORDS, true, "null")
}

fn strict() -> LoadedTokenizer {
    tokenizer(WORDS, false, "null")
}

fn special(tok: &LoadedTokenizer) -> SpecialIds {
    match SpecialIds::from_tokenizer(tok.tokenizer()) {
        Ok(special) => special,
        Err(e) => panic!("{}", e.message()),
    }
}

fn parse(text: &str) -> JsonValue {
    parse_json(text).unwrap()
}

fn question(text: &str) -> InternalQuestion {
    to_internal("q", &parse(text)).unwrap()
}

fn build(
    tok: &LoadedTokenizer,
    state: &str,
    q: &InternalQuestion,
    max_len: usize,
    state_ids: Option<&[u32]>,
) -> Result<(Vec<u32>, Vec<usize>), Error<String>> {
    let special = special(tok);
    build_sequence(tok.tokenizer(), &special, &parse(state), q, max_len, 192, false, state_ids)
}

fn encode(
    tok: &LoadedTokenizer,
    state: &str,
    questions: &str,
    max_len: usize,
) -> Result<Prepared, Error<String>> {
    let special = special(tok);
    encode_questions(tok.tokenizer(), &special, &parse(state), &parse(questions), max_len, 192)
}

#[test]
fn special_tokens_are_looked_up() {
    let s = special(&usual());
    assert_eq!((s.cls, s.sep, s.mask, s.pad), (1, 2, 3, 0));
    assert_eq!(s.mask_token, "[MASK]");
}

#[test]
fn missing_special_tokens_are_named() {
    let missing = |words: &str| -> String {
        match SpecialIds::from_tokenizer(tokenizer(words, true, "null").tokenizer()) {
            Ok(_) => panic!("a token is missing"),
            Err(e) => e.message(),
        }
    };
    assert_eq!(missing("\"a\":9"), "tokenizer missing special token [CLS]");
    assert_eq!(missing("\"[CLS]\":1"), "tokenizer missing special token [SEP]");
    assert_eq!(
        missing("\"[CLS]\":1,\"[SEP]\":2,\"[MASK]\":3"),
        "tokenizer missing special token [PAD]"
    );
    match SpecialIds::from_lookups(Some(1), Some(2), None, None) {
        Ok(_) => panic!("a token is missing"),
        Err(e) => assert_eq!(e, Error::MissingSpecialToken("[MASK]".to_string())),
    }
}

#[test]
fn noul_question_is_built() {
    let q = question("{\"type\":\"noul\",\"instructions\":\"Is it\"}");
    let (ids, markers) = build(&usual(), "\"a b\"", &q, 64, None).unwrap();
    assert_eq!(
        ids,
        vec![
            1, 5, 6, 17, 18, 2, 3, 7, 9, 11, 12, 13, 14, 15, 3, 8, 10, 11, 12, 16, 2, 21, 22, 2
        ]
    );
    assert_eq!(markers, vec![6, 14]);
}

#[test]
fn given_state_ids_are_taken() {
    let q = question("{\"type\":\"score\",\"instructions\":\"a\",\"criteria\":[\"b\"]}");
    let (ids, markers) = build(&usual(), "\"a b\"", &q, 64, Some(&[77, 78])).unwrap();
    assert_eq!(ids, vec![1, 24, 6, 21, 2, 3, 25, 26, 22, 2, 77, 78, 2]);
    assert_eq!(markers, vec![5]);
}

#[test]
fn mask_token_in_texts_is_blanked() {
    let q = question(
        "{\"type\":\"choice\",\"instructions\":\"a[MASK]b\",\"criteria\":{\"[MASK]c\":null}}",
    );
    let (ids, markers) = build(&usual(), "\"[MASK] a [MASK]\"", &q, 64, None).unwrap();
    assert_eq!(ids, vec![1, 20, 6, 21, 22, 2, 3, 23, 2, 21, 2]);
    assert_eq!(markers, vec![6]);
    assert_eq!(ids.iter().filter(|id| **id == 3).count(), 1);
}

#[test]
fn options_are_cut_to_48_tokens() {
    let long = vec!["a"; 60].join(" ");
    let q = question(&format!(
        "{{\"type\":\"choice\",\"instructions\":\"b\",\"criteria\":{{\"{long}\":null}}}}",
        long = long
    ));
    let (ids, _) = build(&usual(), "\"\"", &q, 512, None).unwrap();
    assert_eq!(ids.len(), 4 + 1 + 1 + 48 + 1 + 1);
    assert_eq!(ids.iter().filter(|id| **id == 21).count(), 48);
}

#[test]
fn tokenizer_failures_are_reported() {
    let q = question("{\"type\":\"noul\",\"instructions\":\"Is it\"}");
    let words = "WordLevel error: Missing [UNK] token from the vocabulary".to_string();
    assert!(build(&strict(), "\"a\"", &q, 64, None).is_ok());
    assert_eq!(
        build(&strict(), "\"stranger\"", &q, 64, None),
        Err(Error::TokenizeFailed(words.clone()))
    );
    assert!(build(&strict(), "\"stranger\"", &q, 64, Some(&[])).is_ok());
    let q = question("{\"type\":\"noul\",\"instructions\":\"stranger\"}");
    assert_eq!(
        build(&strict(), "\"a\"", &q, 64, None),
        Err(Error::TokenizeFailed(words.clone()))
    );
    let q = question("{\"type\":\"choice\",\"instructions\":\"a\",\"criteria\":[\"a\",\"other\"]}");
    assert_eq!(build(&strict(), "\"a\"", &q, 64, None), Err(Error::TokenizeFailed(words)));
}

#[test]
fn unrenderable_question_is_not_built() {
    let q = question("{\"type\":\"score\",\"instructions\":\"a\",\"criteria\":[],\"labels\":1}");
    assert_eq!(build(&strict(), "\"a\"", &q, 64, None), Err(Error::LabelsUnsupported));
}

#[test]
fn questions_are_encoded_before_the_state() {
    let p = encode(
        &usual(),
        "\"a b c\"",
        "{\"y\":{\"type\":\"noul\",\"instructions\":\"Is it\"},\
          \"x\":{\"type\":\"choice\",\"instructions\":\"it\",\"criteria\":[\"a\",\"b\"]}}",
        64,
    )
    .unwrap();
    assert_eq!(p.questions[0].0, "x");
    assert_eq!(p.questions[1].0, "y");
    assert_eq!(p.items[0].ids, vec![1, 20, 6, 18, 2, 3, 21, 3, 22, 2, 21, 22, 23, 2]);
    assert_eq!(p.items[0].markers, vec![5, 7]);
    assert_eq!(p.items[0].qtype, 0);
    assert_eq!(p.items[1].qtype, 2);
    assert_eq!(p.items[1].markers, vec![6, 14]);
}

#[test]
fn listed_states_keep_their_end() {
    let questions = "{\"x\":{\"type\":\"score\",\"instructions\":\"a\",\"criteria\":[\"b\"]}}";
    let listed = encode(&usual(), "[\" a b c \"]", questions, 12).unwrap();
    assert_eq!(listed.items[0].ids, vec![1, 24, 6, 21, 2, 3, 25, 26, 22, 2, 4, 2]);
    let plain = encode(&usual(), "\"a b c\"", questions, 12).unwrap();
    assert_eq!(plain.items[0].ids, vec![1, 24, 6, 21, 2, 3, 25, 26, 22, 2, 21, 2]);
    let listed = encode(&usual(), "[\" a b c \"]", questions, 14).unwrap();
    assert_eq!(listed.items[0].ids[10..], [22, 23, 4, 2]);
}

#[test]
fn missing_marks_are_reported() {
    let e = encode(
        &usual(),
        "\"a\"",
        "{\"x\":{\"type\":\"choice\",\"instructions\":\"it\",\"criteria\":[\"a\",\"b\"]}}",
        7,
    )
    .unwrap_err();
    assert_eq!(e, Error::OptionsExceed { qid: "x".to_string(), head_max_len: 192 });
    assert_eq!(e.message(), "question x options exceed head_max_len=192");
}

#[test]
fn layouts_become_items() {
    let q = question("{\"type\":\"noul\",\"instructions\":\"Is it\"}");
    let item = encoded_item("q", &q, vec![1, 3, 3], vec![1, 2], 9).unwrap();
    assert_eq!((item.ids, item.markers, item.qtype), (vec![1, 3, 3], vec![1, 2], 2));
    let e = encoded_item("q", &q, vec![1, 3], vec![1], 9).unwrap_err();
    assert_eq!(e, Error::OptionsExceed { qid: "q".to_string(), head_max_len: 9 });
}

#[test]
fn state_failures_are_reported() {
    let questions = "{\"x\":{\"type\":\"noul\",\"instructions\":\"it\"}}";
    let e = encode(&strict(), "\"stranger\"", questions, 64).unwrap_err();
    assert_eq!(
        e.message(),
        "tokenize state: WordLevel error: Missing [UNK] token from the vocabulary"
    );
    let e = encode(&strict(), "\"stranger\"", "{\"x\":1}", 64).unwrap_err();
    assert_eq!(e, Error::DefinitionNotObject { qid: "x".to_string() });
    assert_eq!(encode(&strict(), "\"a\"", "7", 64).unwrap_err(), Error::QuestionsNotObject);
}

#[test]
fn truncating_tokenizer_cuts_each_text() {
    let tok = tokenizer(
        WORDS,
        true,
        "{\"direction\":\"Right\",\"max_length\":3,\"strategy\":\"LongestFirst\",\"stride\":0}",
    );
    let q = question("{\"type\":\"noul\",\"instructions\":\"Is it\"}");
    let (ids, markers) = build(&tok, "\"a b c a\"", &q, 64, None).unwrap();
    assert_eq!(ids, vec![1, 5, 6, 17, 2, 3, 7, 9, 11, 3, 8, 10, 11, 2, 21, 22, 23, 2]);
    assert_eq!(markers, vec![5, 9]);
}

#[test]
fn head_budget_is_a_machine_word() {
    let tok = usual();
    let s = special(&tok);
    let state = parse("\"a b\"");
    let questions = parse("{\"x\":{\"type\":\"noul\",\"instructions\":\"it\"}}");
    assert!(try_encode_questions(&tok, &s, &state, &questions, 64, usize::MAX).is_none());
    let edge = isize::MAX as usize;
    assert!(try_encode_questions(&tok, &s, &state, &questions, 64, edge + 1).is_none());
    let p = try_encode_questions(&tok, &s, &state, &questions, 64, edge).unwrap().unwrap();
    assert_eq!(p.items.len(), 1);
}

#[test]
fn texts_are_handed_out_in_order() {
    let tok = usual();
    let s = special(&tok);
    let q = question(
        "{\"type\":\"choice\",\"instructions\":\"a[MASK]b\",\"criteria\":{\"x\":null,\"y\":\"[MASK]\"}}",
    );
    assert_eq!(
        question_texts(&s, &q).unwrap(),
        vec!["choice question: a b", " x", " y:  "]
    );
    assert_eq!(text_of_state(&s, &parse("\"a [MASK]\"")), "a  ");
    assert_eq!(text_of_state(&s, &parse("[1,\"[MASK]\"]")), "[1,\" \"]");
    let q = question("{\"type\":\"score\",\"instructions\":\"a\",\"criteria\":[],\"labels\":1}");
    assert_eq!(question_texts(&s, &q), Err(Error::LabelsUnsupported));
}

#[test]
fn given_outcomes_are_built_like_encoded_texts() {
    let tok = usual();
    let s = special(&tok);
    let state = parse("[\" a b c \"]");
    let questions = parse(
        "{\"x\":{\"type\":\"choice\",\"instructions\":\"it\",\"criteria\":[\"a\",\"b stranger\"]},\
          \"y\":{\"type\":\"noul\",\"instructions\":\"Is it\"}}",
    );
    let encode = |text: &str| -> Result<Vec<u32>, String> {
        match tok.tokenizer().encode(text, false) {
            Ok(encoding) => Ok(encoding.get_ids().to_vec()),
            Err(e) => Err(e.to_string()),
        }
    };
    for max_len in [14, 18, 64] {
        let state_ids = encode(&text_of_state(&s, &state)).unwrap();
        let p = encode_questions(tok.tokenizer(), &s, &state, &questions, max_len, 192);
        for (i, name) in ["x", "y"].iter().enumerate() {
            let q = match &p {
                Ok(p) => p.questions[i].1.clone(),
                Err(_) => continue,
            };
            let outcomes: Vec<Result<Vec<u32>, String>> =
                question_texts(&s, &q).unwrap().iter().map(|t| encode(t)).collect();
            let item =
                item_from_outcomes(&s, &state, name, &q, &outcomes, &state_ids, max_len, 192)
                    .unwrap();
            let wanted = &p.as_ref().unwrap().items[i];
            assert_eq!(
                (&item.ids, &item.markers, item.qtype),
                (&wanted.ids, &wanted.markers, wanted.qtype)
            );
        }
    }
}

#[test]
fn first_failed_outcome_counts() {
    let s = special(&usual());
    let q = question("{\"type\":\"choice\",\"instructions\":\"a\",\"criteria\":[\"b\",\"c\"]}");
    let failed = |words: &str| -> Result<Vec<u32>, String> { Err(words.to_string()) };
    let build = |outcomes: Vec<Result<Vec<u32>, String>>| {
        build_from_outcomes(&s, &q, &outcomes, &vec![30, 31], 64, 192, false)
    };
    assert_eq!(build(vec![failed("one")]), Err(Error::TokenizeFailed("one".to_string())));
    assert_eq!(
        build(vec![Ok(vec![10]), Ok(vec![11]), failed("two")]),
        Err(Error::TokenizeFailed("two".to_string()))
    );
    assert_eq!(
        build(vec![Ok(vec![10]), Ok(vec![11]), Ok(vec![12; 50])]).unwrap(),
        ([vec![1, 10, 2, 3, 11, 3], vec![12; 48], vec![2, 30, 31, 2]].concat(), vec![3, 5])
    );
    let e = item_from_outcomes(
        &s,
        &parse("\"\""),
        "q",
        &q,
        &vec![Ok(vec![10]), Ok(vec![11]), Ok(vec![12])],
        &vec![],
        5,
        192,
    )
    .unwrap_err();
    assert_eq!(e, Error::OptionsExceed { qid: "q".to_string(), head_max_len: 192 });
}

#[test]
fn encoding_twice_is_encoding_once() {
    let questions = "{\"x\":{\"type\":\"noul\",\"instructions\":\"Is it\"}}";
    let tok = usual();
    for state in ["\"a b stranger\"", "[1,2]"] {
        let one = encode(&tok, state, questions, 24).unwrap();
        let other = encode(&tok, state, questions, 24).unwrap();
        assert_eq!(one.items[0].ids, other.items[0].ids);
        assert_eq!(one.items[0].markers, other.items[0].markers);
    }
    let one = encode(&strict(), "\"stranger\"", questions, 24).unwrap_err();
    assert_eq!(one, encode(&strict(), "\"stranger\"", questions, 24).unwrap_err());
}

#[test]
fn smaller_lengths_only_cut_short() {
    let questions = "{\"x\":{\"type\":\"score\",\"instructions\":\"a\",\"criteria\":[\"b\"]}}";
    for state in ["\"a b c a b\"", "[\" a b c \"]"] {
        let long = encode(&usual(), state, questions, 64).unwrap();
        let long = &long.items[0];
        for max_len in 6..long.ids.len() {
            let short = encode(&usual(), state, questions, max_len).unwrap();
            let short = &short.items[0];
            assert_eq!(short.ids.len(), max_len);
            assert_eq!((&short.markers, short.qtype), (&long.markers, long.qtype));
            let front = max_len.min(10);
            assert_eq!(short.ids[..front], long.ids[..front]);
            if max_len > 10 && state.starts_with('[') {
                assert_eq!(short.ids[10..], long.ids[long.ids.len() - (max_len - 10)..]);
            } else {
                assert_eq!(short.ids[..max_len - 1], long.ids[..max_len - 1]);
            }
        }
    }
}

#[test]
fn masks_stand_only_where_marks_point() {
    let p = encode(
        &usual(),
        "\"[MASK] a [MASK][MASK] b\"",
        "{\"[MASK]\":{\"type\":\"choice\",\"instructions\":\"it [MASK]\",\
          \"criteria\":[\"a [MASK]\",\"[MASK]b\"]}}",
        64,
    )
    .unwrap();
    let item = &p.items[0];
    let masks: Vec<usize> = (0..item.ids.len()).filter(|i| item.ids[*i] == 3).collect();
    assert_eq!(masks, item.markers);
    assert_eq!(masks.len(), 2);
}

#[test]
fn states_with_one_text_are_encoded_alike() {
    let questions = "{\"x\":{\"type\":\"noul\",\"instructions\":\"Is it\"}}";
    let one = encode(&usual(), "\"7\"", questions, 64).unwrap();
    let other = encode(&usual(), "7", questions, 64).unwrap();
    assert_eq!(one.items[0].ids, other.items[0].ids);
    let blank = encode(&usual(), "\"a [MASK] b\"", questions, 64).unwrap();
    let plain = encode(&usual(), "\"a   b\"", questions, 64).unwrap();
    assert_eq!(blank.items[0].ids, plain.items[0].ids);
}

#[test]
fn states_with_one_kept_end_are_encoded_alike() {
    let questions = "{\"x\":{\"type\":\"score\",\"instructions\":\"a\",\"criteria\":[\"b\"]}}";
    let one = encode(&usual(), "[\" a b c \"]", questions, 13).unwrap();
    let other = encode(&usual(), "[\" c c c c a a c \"]", questions, 13).unwrap();
    assert_eq!(one.items[0].ids[10..], [23, 4, 2]);
    assert_eq!(one.items[0].ids, other.items[0].ids);
    let one = encode(&usual(), "\"a b c\"", questions, 13).unwrap();
    let other = encode(&usual(), "\"a b a a a\"", questions, 13).unwrap();
    assert_eq!(one.items[0].ids, other.items[0].ids);
}

#[test]
fn items_are_collated() {
    let items = vec![
        EncodedItem { ids: vec![1, 5, 2], markers: vec![1], qtype: 0 },
        EncodedItem { ids: vec![1, 2], markers: vec![], qtype: 2 },
        EncodedItem { ids: vec![1, 6, 7, 2], markers: vec![1, 3], qtype: 1 },
    ];
    let b = collate(&items, 9);
    assert_eq!((b.rows, b.width, b.options), (3, 4, 2));
    assert_eq!(b.input_ids, vec![1, 5, 2, 9, 1, 2, 9, 9, 1, 6, 7, 2]);
    assert_eq!(b.attention_mask, vec![1, 1, 1, 0, 1, 1, 0, 0, 1, 1, 1, 1]);
    assert_eq!(b.marker_pos, vec![1, 0, 0, 0, 1, 3]);
    assert_eq!(b.marker_mask, vec![1, 0, 0, 0, 1, 1]);
    assert_eq!(b.qtype, vec![0, 2, 1]);
    assert!(b.marker_pos.iter().all(|m| 0 <= *m && *m < 4));
}

#[test]
fn nothing_collates_to_nothing() {
    let b = collate(&vec![], 9);
    assert_eq!((b.rows, b.width, b.options), (0, 0, 0));
    assert!(b.input_ids.is_empty() && b.marker_pos.is_empty() && b.qtype.is_empty());
}

#[test]
fn copied_items_are_the_same() {
    let item = EncodedItem { ids: vec![1, 3, 2], markers: vec![1], qtype: 1 };
    let copy = item.clone();
    assert_eq!((copy.ids, copy.markers, copy.qtype), (item.ids, item.markers, item.qtype));
}

#[test]
fn roomy_questions_are_encoded() {
    let tok = usual();
    let state = parse("\"a b\"");
    let questions = parse(
        "{\"x\":{\"type\":\"choice\",\"instructions\":\"it\",\"criteria\":[\"a\",\"b\",\"c\"]}}",
    );
    let s = special(&tok);
    let p = encode_questions(tok.tokenizer(), &s, &state, &questions, 22, 20).unwrap();
    assert_eq!(p.items[0].markers.len(), 3);
}

#[test]
fn encoded_questions_are_answered() {
    let p = encode(
        &usual(),
        "\"a\"",
        "{\"y\":{\"type\":\"noul\",\"instructions\":\"Is it\"},\
          \"x\":{\"type\":\"choice\",\"instructions\":\"it\",\"criteria\":[\"a\",\"b\"]}}",
        64,
    )
    .unwrap();
    let scores: Vec<Scores> = p
        .items
        .iter()
        .map(|item| Scores {
            ranks: (0..item.markers.len() as u64).collect(),
            probabilities: item.markers.iter().map(|_| JsonValue::Null).collect(),
            expected: JsonValue::Null,
            confidence: JsonValue::Null,
            certainty: JsonValue::Null,
            answer_confidence: JsonValue::Null,
            act_probability: JsonValue::Null,
        })
        .collect();
    let answers = compact_text(&decode_answers(&p.questions, &scores).unwrap());
    assert!(answers.contains("\"choice\":\"b\""));
    assert!(answers.contains("\"noul\":null"));
}
