use laya_candle::agent::try_encode_questions;
use laya_candle::description::{check_description, ID_LIMIT, PADDING_LIMIT};
use laya_candle::json::parse_json;
use laya_candle::tokens::{LoadedTokenizer, SpecialIds};
use laya_candle::value::JsonValue;

const WORDS: &str = "{\"type\":\"WordLevel\",\"vocab\":{\"[PAD]\":0,\"[CLS]\":1,\"[SEP]\":2,\
    \"[MASK]\":3,\"[UNK]\":4,\"a\":5},\"unk_token\":\"[UNK]\"}";

/// A description with one of its parts set.
fn with(key: &str, value: &str) -> String {
    let part = |name: &str, usual: &str| -> String {
        let value = if name == key { value } else { usual };
        format!("\"{name}\":{value}", name = name, value = value)
    };
    format!(
        "{{\"version\":\"1.0\",{},{},{},{},{},{},\"decoder\":null,{}}}",
        part("truncation", "null"),
        part("padding", "null"),
        part("added_tokens", "[]"),
        part("normalizer", "null"),
        part("pre_tokenizer", "{\"type\":\"WhitespaceSplit\"}"),
        part("post_processor", "null"),
        part("model", WORDS)
    )
}

fn takes(key: &str, value: &str) -> bool {
    let text = with(key, value);
    let taken = check_description(&parse_json(&text).unwrap());
    assert_eq!(LoadedTokenizer::try_load(&text).is_some(), taken);
    taken
}

fn loads(text: &str) -> bool {
    matches!(LoadedTokenizer::try_load(text), Some(Ok(_)))
}

fn refusal(text: &str) -> String {
    match LoadedTokenizer::try_load(text) {
        Some(Err(e)) => e.message(),
        _ => panic!("not refused"),
    }
}

/// The ids that a tokenizer gives for a state.
fn state_ids(text: &str, state: &str) -> Vec<u32> {
    let tok = LoadedTokenizer::try_load(text).unwrap().unwrap();
    let special = SpecialIds::from_lookups(Some(1000), Some(1001), Some(1002), Some(1003)).unwrap();
    let state = JsonValue::String(state.to_string());
    let questions =
        parse_json("{\"x\":{\"type\":\"score\",\"instructions\":\"a\",\"criteria\":[]}}").unwrap();
    let p = try_encode_questions(&tok, &special, &state, &questions, 64, 32).unwrap().unwrap();
    let ids = &p.items[0].ids;
    let last = ids.len() - 1;
    let from = (0..last).rfind(|i| ids[*i] == 1001).unwrap() + 1;
    ids[from..last].to_vec()
}

fn token(content: &str, normalized: bool, lstrip: bool, rstrip: bool) -> String {
    format!(
        "{{\"id\":9,\"content\":\"{content}\",\"single_word\":false,\"lstrip\":{lstrip},\
         \"rstrip\":{rstrip},\"normalized\":{normalized},\"special\":false}}",
        content = content,
        lstrip = lstrip,
        rstrip = rstrip,
        normalized = normalized
    )
}

#[test]
fn plain_descriptions_are_taken() {
    assert!(loads(&with("", "")));
    assert!(takes("normalizer", "{\"type\":\"NFC\"}"));
    assert!(takes(
        "normalizer",
        "{\"type\":\"Sequence\",\"normalizers\":[{\"type\":\"NFD\"},{\"type\":\"StripAccents\"}]}"
    ));
    assert!(takes(
        "normalizer",
        "{\"type\":\"BertNormalizer\",\"clean_text\":true,\"handle_chinese_chars\":true,\
         \"strip_accents\":null,\"lowercase\":true}"
    ));
    assert!(takes("padding", "null"));
    assert!(takes("added_tokens", &format!("[{}]", token("x", false, true, false))));
}

#[test]
fn byte_level_tokenizer_is_used() {
    let text = "{\"version\":\"1.0\",\"truncation\":null,\"padding\":null,\"added_tokens\":[\
        {\"id\":0,\"content\":\"[PAD]\",\"single_word\":false,\"lstrip\":false,\"rstrip\":false,\
        \"normalized\":false,\"special\":true},\
        {\"id\":3,\"content\":\"[MASK]\",\"single_word\":false,\"lstrip\":true,\"rstrip\":false,\
        \"normalized\":false,\"special\":true},\
        {\"id\":4,\"content\":\"||\",\"single_word\":false,\"lstrip\":false,\"rstrip\":false,\
        \"normalized\":true,\"special\":false}],\
        \"normalizer\":{\"type\":\"NFC\"},\
        \"pre_tokenizer\":{\"type\":\"ByteLevel\",\"add_prefix_space\":false,\"trim_offsets\":true,\
        \"use_regex\":true},\
        \"post_processor\":{\"type\":\"TemplateProcessing\",\"single\":[\
        {\"SpecialToken\":{\"id\":\"[CLS]\",\"type_id\":0}},{\"Sequence\":{\"id\":\"A\",\"type_id\":0}},\
        {\"SpecialToken\":{\"id\":\"[SEP]\",\"type_id\":0}}],\"pair\":[\
        {\"Sequence\":{\"id\":\"A\",\"type_id\":0}},{\"Sequence\":{\"id\":\"B\",\"type_id\":0}}],\
        \"special_tokens\":{\"[CLS]\":{\"id\":\"[CLS]\",\"ids\":[1],\"tokens\":[\"[CLS]\"]},\
        \"[SEP]\":{\"id\":\"[SEP]\",\"ids\":[2],\"tokens\":[\"[SEP]\"]}}},\
        \"decoder\":{\"type\":\"ByteLevel\",\"add_prefix_space\":true,\"trim_offsets\":true,\
        \"use_regex\":true},\
        \"model\":{\"type\":\"BPE\",\"dropout\":null,\"unk_token\":\"[UNK]\",\
        \"continuing_subword_prefix\":\"\",\"end_of_word_suffix\":\"\",\"fuse_unk\":false,\
        \"byte_fallback\":false,\"ignore_merges\":false,\
        \"vocab\":{\"[PAD]\":0,\"[CLS]\":1,\"[SEP]\":2,\"[MASK]\":3,\"||\":4,\"[UNK]\":5,\
        \"a\":6,\"b\":7,\"ab\":8,\"\\u0120\":9},\"merges\":[\"a b\"]}}";
    let tok = LoadedTokenizer::try_load(text).unwrap().unwrap();
    let special = SpecialIds::from_tokenizer(tok.tokenizer()).unwrap();
    assert_eq!((special.cls, special.sep, special.mask, special.pad), (1, 2, 3, 0));
    let p = try_encode_questions(
        &tok,
        &special,
        &parse_json("\"ab ba||\"").unwrap(),
        &parse_json("{\"x\":{\"type\":\"choice\",\"instructions\":\"b\",\"criteria\":[\"a\"]}}")
            .unwrap(),
        64,
        32,
    )
    .unwrap()
    .unwrap();
    let ids = &p.items[0].ids;
    let mark = p.items[0].markers[0];
    assert_eq!(ids[mark..], [3, 9, 6, 2, 8, 9, 7, 6, 4, 2]);
}

#[test]
fn pieces_of_no_length_are_refused() {
    assert!(!takes("pre_tokenizer", "{\"type\":\"FixedLength\",\"length\":0}"));
    assert!(takes("pre_tokenizer", "{\"type\":\"FixedLength\",\"length\":1}"));
    assert!(takes("pre_tokenizer", "{\"type\":\"FixedLength\"}"));
    assert!(!takes(
        "pre_tokenizer",
        "{\"type\":\"Sequence\",\"pretokenizers\":[{\"type\":\"Whitespace\"},\
         {\"type\":\"FixedLength\",\"length\":0}]}"
    ));
}

#[test]
fn searches_by_expression_are_refused() {
    let split = |pattern: &str| -> String {
        format!(
            "{{\"type\":\"Split\",\"pattern\":{{{pattern}}},\"behavior\":\"Isolated\",\
             \"invert\":false}}",
            pattern = pattern
        )
    };
    assert!(!takes("pre_tokenizer", &split("\"Regex\":\"(a|a)*b\"")));
    assert!(takes("pre_tokenizer", &split("\"String\":\"a\"")));
    let replace = |pattern: &str, content: &str| -> String {
        format!(
            "{{\"type\":\"Replace\",\"pattern\":{{{pattern}}},\"content\":\"{content}\"}}",
            pattern = pattern,
            content = content
        )
    };
    assert!(!takes("normalizer", &replace("\"Regex\":\"a\"", "b")));
    assert!(!takes("normalizer", &replace("\"String\":\"\"", "b")));
    assert!(takes("normalizer", &replace("\"String\":\"a\"", "b")));
    assert!(takes("normalizer", &replace("\"String\":\"a\"", "")));
}

#[test]
fn broken_normalizers_are_refused() {
    assert!(!takes("normalizer", "{\"type\":\"Precompiled\",\"precompiled_charsmap\":\"AAAA\"}"));
    assert!(!takes("normalizer", "{\"type\":\"Prepend\",\"prepend\":\"\"}"));
    assert!(takes("normalizer", "{\"type\":\"Prepend\",\"prepend\":\"_\"}"));
    assert!(!takes("normalizer", "7"));
    assert!(!takes("normalizer", "{\"type\":\"Other\"}"));
    assert!(!takes(
        "normalizer",
        "{\"type\":\"Sequence\",\"normalizers\":[{\"type\":\"Sequence\",\"normalizers\":[\
         {\"type\":\"Prepend\",\"prepend\":\"\"}]}]}"
    ));
}

#[test]
fn templates_take_one_text_once() {
    let template = |single: &str| -> String {
        format!(
            "{{\"type\":\"TemplateProcessing\",\"single\":[{single}],\"pair\":[],\
             \"special_tokens\":{{\"s\":{{\"id\":\"s\",\"ids\":[1],\"tokens\":[\"s\"]}}}}}}",
            single = single
        )
    };
    let a = "{\"Sequence\":{\"id\":\"A\",\"type_id\":0}}";
    let b = "{\"Sequence\":{\"id\":\"B\",\"type_id\":0}}";
    let s = "{\"SpecialToken\":{\"id\":\"s\",\"type_id\":0}}";
    assert!(takes("post_processor", &template(a)));
    assert!(takes("post_processor", &template(&[s, a, s].join(","))));
    assert!(!takes("post_processor", &template(b)));
    assert!(!takes("post_processor", &template(&[a, b].join(","))));
    assert!(!takes("post_processor", &template(&[a, a].join(","))));
    assert!(!takes("post_processor", &template(s)));
    assert!(!takes("post_processor", &template("")));
    let listed = |first: &str| -> String {
        format!(
            "{{\"type\":\"Sequence\",\"processors\":[{first},{then}]}}",
            first = template(first),
            then = template(a)
        )
    };
    assert!(takes("post_processor", &listed(a)));
    assert!(!takes("post_processor", &listed("")));
}

#[test]
fn added_tokens_are_told_apart() {
    let tokens = |all: &[String]| -> String { format!("[{}]", all.join(",")) };
    let left = token("x", false, true, false);
    let right = token("y", false, false, true);
    let blank = token(" ", false, false, false);
    assert!(takes("added_tokens", &tokens(&[left.clone(), blank.clone()])));
    assert!(takes("added_tokens", &tokens(&[right.clone(), blank.clone()])));
    assert!(takes("added_tokens", &tokens(&[left.clone(), right.clone()])));
    assert!(takes("added_tokens", &tokens(&[token("x", false, true, true)])));
    assert!(!takes("added_tokens", &tokens(&[left.clone(), right.clone(), blank])));
    let text = with("added_tokens", &tokens(&[left, right, token("z", true, false, false)]));
    assert!(loads(&text));
    assert!(!loads(&text.replace("\"normalizer\":null", "\"normalizer\":{\"type\":\"NFC\"}")));
    let text = with("added_tokens", &tokens(&[token("x", true, false, false)]));
    let stripped = text.replace("\"normalizer\":null", "\"normalizer\":{\"type\":\"StripAccents\"}");
    assert!(loads(&text));
    assert!(!loads(&stripped));
    assert!(loads(&text.replace("\"normalizer\":null", "\"normalizer\":{\"type\":\"NFC\"}")));
    assert!(loads(&stripped.replace("\"normalized\":true", "\"normalized\":false")));
}

#[test]
fn tokens_that_strip_on_both_sides_are_used() {
    let text = with(
        "added_tokens",
        &format!("[{},{}]", token("xx", false, true, true), token("yy", false, true, false)),
    );
    assert_eq!(state_ids(&text, "a  xx   yy a xxyyxx  xx"), vec![5, 6, 7, 5, 6, 7, 6, 6]);
}

#[test]
fn padding_is_bounded() {
    let padding = |strategy: &str, multiple: &str| -> String {
        format!(
            "{{\"strategy\":{strategy},\"direction\":\"Right\",\"pad_to_multiple_of\":{multiple},\
             \"pad_id\":0,\"pad_type_id\":0,\"pad_token\":\"[PAD]\"}}",
            strategy = strategy,
            multiple = multiple
        )
    };
    let fixed = |n: u64| -> String { format!("{{\"Fixed\":{n}}}", n = n) };
    assert!(takes("padding", &padding("\"BatchLongest\"", "null")));
    assert!(takes("padding", &padding(&fixed(PADDING_LIMIT), "8")));
    assert!(!takes("padding", &padding(&fixed(PADDING_LIMIT + 1), "null")));
    assert!(!takes("padding", &padding("\"BatchLongest\"", "18446744073709551615")));
    assert!(!takes("padding", &padding("\"Other\"", "null")));
}

#[test]
fn truncation_is_above_the_stride() {
    let cut = |max_length: u64, stride: u64| -> String {
        format!(
            "{{\"direction\":\"Right\",\"max_length\":{m},\"strategy\":\"LongestFirst\",\
             \"stride\":{s}}}",
            m = max_length,
            s = stride
        )
    };
    assert!(takes("truncation", &cut(4, 0)));
    assert!(takes("truncation", &cut(4, 3)));
    assert!(takes("truncation", &cut(0, 5)));
    assert!(!takes("truncation", &cut(4, 4)));
    assert!(!takes("truncation", &cut(2, 9)));
    assert!(!takes("truncation", "{}"));
}

#[test]
fn vocabularies_are_bounded() {
    let words = |id: u64| -> String {
        format!(
            "{{\"type\":\"WordLevel\",\"vocab\":{{\"a\":{id}}},\"unk_token\":\"a\"}}",
            id = id
        )
    };
    assert!(takes("model", &words(ID_LIMIT)));
    assert!(!takes("model", &words(ID_LIMIT + 1)));
    assert!(!takes("model", &words(u64::MAX)));
    assert!(!takes("model", "null"));
    assert!(takes(
        "model",
        "{\"type\":\"WordPiece\",\"unk_token\":\"[UNK]\",\"continuing_subword_prefix\":\"##\",\
         \"max_input_chars_per_word\":100,\"vocab\":{\"[UNK]\":0}}"
    ));
    assert!(takes("model", "{\"type\":\"Unigram\",\"unk_id\":0,\"vocab\":[[\"a\",0.0]]}"));
}

#[test]
fn models_without_a_type_are_used() {
    let untyped = WORDS.replace("\"type\":\"WordLevel\",", "");
    assert!(loads(&with("model", &untyped)));
    assert_eq!(state_ids(&with("model", &untyped), "a b"), state_ids(&with("", ""), "a b"));
    let merged = "{\"vocab\":{\"a\":0,\"b\":1,\"ab\":2},\"merges\":[\"a b\"]}";
    assert_eq!(state_ids(&with("model", merged), "ab ba"), vec![2, 1, 0]);
    let other = with("model", "{\"type\":\"Other\",\"vocab\":{}}");
    assert!(refusal(&other).starts_with("load tokenizer: data did not match"));
}

#[test]
fn merges_go_with_the_prefix() {
    let model = |prefix: &str, merges: &str| -> String {
        format!(
            "{{\"type\":\"BPE\",\"continuing_subword_prefix\":{prefix},\"vocab\":{{\"a\":0,\
             \"##b\":1,\"ab\":2,\"b\":3}},\"merges\":{merges}}}",
            prefix = prefix,
            merges = merges
        )
    };
    assert!(takes("model", &model("null", "[\"a b\"]")));
    assert!(takes("model", &model("\"\"", "[[\"a\",\"b\"]]")));
    assert!(takes("model", &model("\"##\"", "[]")));
    assert!(takes("model", &model("\"##\"", "[\"a ##b\"]")));
    assert!(takes("model", &model("\"##\"", "[[\"a\",\"##b\"]]")));
    assert!(!takes("model", &model("\"##\"", "[\"a b\"]")));
    assert!(!takes("model", &model("\"##\"", "[[\"a\",\"b\"]]")));
    assert!(!takes("model", &model("\"#\"", "[[\"a\",\"\\u00e9\"]]")));
    assert!(takes("model", &model("\"\\u00e9\"", "[[\"a\",\"##\"]]")));
    let text = with("model", &model("\"##\"", "[\"a ##b\"]"));
    assert_eq!(state_ids(&text, "ab b"), vec![2, 3]);
}

#[test]
fn refusals_are_put_into_words() {
    assert_eq!(refusal("{"), "load tokenizer: EOF while parsing an object at line 1 column 1");
    let words = refusal(&with("padding", "{\"strategy\":\"BatchLongest\"}"));
    assert!(words.starts_with("load tokenizer: missing field"), "{words}", words = words);
}

#[test]
fn nothing_is_said_of_parts_that_can_panic() {
    assert!(LoadedTokenizer::try_load("{}").is_none());
    let text = with("pre_tokenizer", "{\"type\":\"FixedLength\",\"length\":0}");
    assert!(LoadedTokenizer::try_load(&text).is_none());
}

#[test]
fn checked_descriptions_are_loaded() {
    let description = parse_json(&with("", "")).unwrap();
    assert!(check_description(&description));
    assert!(LoadedTokenizer::load(&description).is_ok());
}
