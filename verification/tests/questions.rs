use laya_candle::agent::read_questions;
use laya_candle::error::Error;
use laya_candle::json::{compact_text, parse_json};
use laya_candle::question::{
    qtype_id, render_options, serialize_state, to_internal, InternalQuestion, QTYPE_CHOICE,
    QTYPE_NOUL, QTYPE_SCORE,
};
use laya_candle::value::JsonValue;

fn parse(text: &str) -> JsonValue {
    parse_json(text).unwrap()
}

fn read(text: &str) -> Result<InternalQuestion, Error<String>> {
    to_internal("q1", &parse(text))
}

fn options(text: &str) -> Vec<String> {
    render_options(&read(text).unwrap()).unwrap()
}

fn refusal(text: &str) -> Error<String> {
    render_options(&read(text).unwrap()).unwrap_err()
}

fn complaint(text: &str) -> Error<String> {
    read(text).unwrap_err()
}

#[test]
fn types_have_numbers() {
    assert_eq!(qtype_id("choice"), Ok(QTYPE_CHOICE));
    assert_eq!(qtype_id("score"), Ok(QTYPE_SCORE));
    assert_eq!(qtype_id("noul"), Ok(QTYPE_NOUL));
    assert_eq!((QTYPE_CHOICE, QTYPE_SCORE, QTYPE_NOUL), (0, 1, 2));
    assert_eq!(qtype_id("rank"), Err(Error::UnknownQuestionType("rank".to_string())));
}

#[test]
fn state_is_serialized() {
    assert_eq!(serialize_state(&parse("\"two\\nlines\"")), "two\nlines");
    assert_eq!(
        serialize_state(&parse("[{\"role\": \"user\", \"content\": \"hi\"}, 1.5]")),
        "[{\"content\":\"hi\",\"role\":\"user\"},1.5]"
    );
}

#[test]
fn choices_are_rendered_in_key_order() {
    assert_eq!(
        options(
            "{\"type\":\"choice\",\"instructions\":\"i\",\"criteria\":\
             {\"c\":\"see\",\"a\":null,\"b\":\"\",\"d\":{\"x\": 1}}}"
        ),
        vec!["a", "b", "c: see", "d: {\"x\":1}"]
    );
}

#[test]
fn listed_choices_are_rendered_once_each() {
    let q = read(
        "{\"type\":\"choice\",\"instructions\":\"i\",\"criteria\":[\"b\",\"a\",\"b\",3,[1, 2]]}",
    )
    .unwrap();
    assert_eq!(compact_text(&q.crit), "{\"3\":null,\"[1,2]\":null,\"a\":null,\"b\":null}");
    assert_eq!(render_options(&q).unwrap(), vec!["3", "[1,2]", "a", "b"]);
}

#[test]
fn levels_are_rendered_with_their_numbers() {
    assert_eq!(
        options("{\"type\":\"score\",\"instructions\":\"i\",\"criteria\":[\"low\",null,\"\",2]}"),
        vec!["level 0: low", "level 1: null", "level 2: ", "level 3: 2"]
    );
}

#[test]
fn noul_options_have_defaults() {
    let wanted = vec!["false: no, the statement does not hold", "true: yes, the statement holds"];
    assert_eq!(options("{\"type\":\"noul\",\"instructions\":\"i\"}"), wanted);
    assert_eq!(
        options(
            "{\"type\":\"noul\",\"instructions\":\"i\",\"criteria\":{\"false\":\"\",\"true\":null}}"
        ),
        wanted
    );
}

#[test]
fn noul_criteria_are_found_whatever_their_case() {
    assert_eq!(
        options(
            "{\"type\":\"noul\",\"instructions\":\"i\",\"criteria\":\
             {\"FALSE\":\"never\",\"True\":[1],\"true\":\"always\"}}"
        ),
        vec!["false: never", "true: always"]
    );
}

#[test]
fn noul_keys_are_put_into_lower_case() {
    let q = read(
        "{\"type\":\"noul\",\"instructions\":\"i\",\"criteria\":{\"\u{c9}T\u{c9}\":1,\"Other\":2}}",
    )
    .unwrap();
    assert_eq!(compact_text(&q.crit), "{\"other\":2,\"\u{e9}t\u{e9}\":1}");
}

#[test]
fn noul_labels_are_trimmed() {
    assert_eq!(
        options(
            "{\"type\":\"noul\",\"instructions\":\"i\",\"labels\":\
             {\"true\":\" yes \",\"false\":\"\\tno\\n\"}}"
        ),
        vec!["no: no, the statement does not hold", "yes: yes, the statement holds"]
    );
}

#[test]
fn unusable_labels_are_refused() {
    let with = |labels: &str| -> Error<String> {
        let text = format!(
            "{{\"type\":\"noul\",\"instructions\":\"i\",\"labels\":{labels}}}",
            labels = labels
        );
        refusal(&text)
    };
    assert_eq!(with("[]"), Error::LabelsNotObject);
    assert_eq!(with("null"), Error::LabelsNotObject);
    assert_eq!(with("{\"false\":\"a\"}"), Error::LabelsNotDistinct);
    assert_eq!(with("{\"false\":\"a\",\"yes\":\"b\"}"), Error::LabelsNotDistinct);
    assert_eq!(with("{\"no\":\"a\",\"true\":\"b\"}"), Error::LabelsNotDistinct);
    assert_eq!(with("{\"false\":\"a\",\"true\":\"b\",\"x\":\"c\"}"), Error::LabelsNotDistinct);
    assert_eq!(with("{\"false\":\"a\",\"true\":\" a\"}"), Error::LabelsNotDistinct);
    assert_eq!(with("{\"false\":\" \",\"true\":\"a\"}"), Error::LabelsNotDistinct);
    assert_eq!(with("{\"false\":\"a\",\"true\":\"\"}"), Error::LabelsNotDistinct);
    assert_eq!(with("{\"false\":1,\"true\":2}"), Error::FalseLabelNotString);
    assert_eq!(with("{\"false\":\"a\",\"true\":2}"), Error::TrueLabelNotString);
}

#[test]
fn labels_are_for_noul_questions_only() {
    assert_eq!(
        refusal("{\"type\":\"score\",\"instructions\":\"i\",\"criteria\":[],\"labels\":null}"),
        Error::LabelsUnsupported
    );
    assert_eq!(
        refusal("{\"type\":\"choice\",\"instructions\":\"i\",\"criteria\":{},\"labels\":{}}"),
        Error::LabelsUnsupported
    );
}

#[test]
fn questions_made_by_hand_are_checked() {
    let q = |t: &str, crit: &str| -> Result<Vec<String>, Error<String>> {
        render_options(&InternalQuestion {
            t: t.to_string(),
            ins: "i".to_string(),
            crit: parse(crit),
            labels: None,
        })
    };
    assert_eq!(q("choice", "[]"), Err(Error::ChoiceCriteriaNotObject));
    assert_eq!(q("score", "{}"), Err(Error::ScoreCriteriaNotList));
    assert_eq!(q("rank", "{}"), Err(Error::UnknownQuestionType("rank".to_string())));
    assert_eq!(
        q("noul", "7").unwrap(),
        vec!["false: no, the statement does not hold", "true: yes, the statement holds"]
    );
}

#[test]
fn definitions_are_checked() {
    let qid = "q1".to_string();
    assert_eq!(complaint("[]"), Error::DefinitionNotObject { qid: qid.clone() });
    assert_eq!(complaint("{}"), Error::TypeMissing { qid: qid.clone() });
    assert_eq!(complaint("{\"type\":1}"), Error::TypeMissing { qid: qid.clone() });
    assert_eq!(
        complaint("{\"type\":\"rank\"}"),
        Error::TypeUnknown { qid: qid.clone(), t: "rank".to_string() }
    );
    assert_eq!(complaint("{\"type\":\"noul\"}"), Error::InstructionsMissing { qid: qid.clone() });
    assert_eq!(
        complaint("{\"type\":\"choice\",\"instructions\":\"i\"}"),
        Error::ChoiceCriteriaInvalid { qid: qid.clone() }
    );
    assert_eq!(
        complaint("{\"type\":\"score\",\"instructions\":\"i\",\"criteria\":{}}"),
        Error::ScoreCriteriaInvalid { qid: qid.clone() }
    );
    assert_eq!(
        complaint("{\"type\":\"noul\",\"instructions\":\"i\",\"criteria\":[]}"),
        Error::NoulCriteriaInvalid { qid }
    );
}

#[test]
fn instructions_may_be_any_value() {
    let q = read("{\"type\":\"noul\",\"instructions\":{\"ask\": [1]}}").unwrap();
    assert_eq!(q.ins, "{\"ask\":[1]}");
    let q = read("{\"type\":\"noul\",\"instructions\":null}").unwrap();
    assert_eq!(q.ins, "null");
}

#[test]
fn questions_are_read_in_key_order() {
    let list = read_questions(&parse(
        "{\"z\":{\"type\":\"noul\",\"instructions\":\"1\"},\
          \"a\":{\"type\":\"score\",\"instructions\":\"2\",\"criteria\":[]}}",
    ))
    .unwrap();
    assert_eq!(list.len(), 2);
    assert_eq!((list[0].0.as_str(), list[0].1.ins.as_str()), ("a", "2"));
    assert_eq!((list[1].0.as_str(), list[1].1.ins.as_str()), ("z", "1"));
}

#[test]
fn first_complaint_is_reported() {
    let e = read_questions(&parse("{\"b\":1,\"a\":{\"type\":\"noul\"},\"c\":2}")).unwrap_err();
    assert_eq!(e, Error::InstructionsMissing { qid: "a".to_string() });
    assert_eq!(read_questions(&parse("[]")).unwrap_err(), Error::QuestionsNotObject);
}

#[test]
fn copied_questions_are_the_same() {
    let q = read("{\"type\":\"noul\",\"instructions\":\"i\",\"labels\":{}}").unwrap();
    let c = q.clone();
    assert_eq!((c.t, c.ins, c.crit, c.labels), (q.t, q.ins, q.crit, q.labels));
}
