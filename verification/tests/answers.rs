use laya_candle::agent::read_questions;
use laya_candle::decode::{
    best_option, decode_answer, decode_answers, decoding_qtype, temp_bucket, AgentConfig, Scores,
    Temperatures,
};
use laya_candle::error::Error;
use laya_candle::json::{compact_text, parse_json};
use laya_candle::question::{to_internal, InternalQuestion};
use laya_candle::value::JsonValue;

fn parse(text: &str) -> JsonValue {
    parse_json(text).unwrap()
}

fn float(x: f64) -> JsonValue {
    JsonValue::Number(serde_json::Number::from_f64(x).unwrap())
}

fn question(text: &str) -> InternalQuestion {
    to_internal("q", &parse(text)).unwrap()
}

fn scores(p: &[f64]) -> Scores {
    Scores {
        ranks: p.iter().map(|x| x.to_bits()).collect(),
        probabilities: p.iter().map(|x| float(*x)).collect(),
        expected: float(1.25),
        confidence: float(0.5),
        certainty: float(0.75),
        answer_confidence: float(0.625),
        act_probability: float(0.875),
    }
}

fn config(temperature: Vec<f64>, by_options: Vec<(&str, f64)>) -> AgentConfig<f64> {
    AgentConfig {
        encoder: "e".to_string(),
        head_layers: 2,
        max_len: 512,
        head_max_len: 192,
        act_costs: vec![],
        temperature,
        temperature_by_options: by_options.into_iter().map(|(k, v)| (k.to_string(), v)).collect(),
    }
}

fn clamp(t: f64) -> f64 {
    if t.is_finite() {
        t.clamp(0.5, 5.0)
    } else {
        1.0
    }
}

#[test]
fn buckets_are_named_by_type_and_size() {
    assert_eq!(temp_bucket(0, 0), "choice:2");
    assert_eq!(temp_bucket(0, 2), "choice:2");
    assert_eq!(temp_bucket(1, 3), "score:3-5");
    assert_eq!(temp_bucket(1, 5), "score:3-5");
    assert_eq!(temp_bucket(2, 6), "noul:6-10");
    assert_eq!(temp_bucket(2, 10), "noul:6-10");
    assert_eq!(temp_bucket(0, 11), "choice:11+");
    assert_eq!(temp_bucket(7, 4), "choice:3-5");
    assert_eq!(temp_bucket(-1, 4), "choice:3-5");
}

#[test]
fn temperatures_are_clamped() {
    let t = Temperatures::from_config(
        &config(vec![0.1, 2.0, 9.0], vec![("choice:2", 7.0), ("noul:2", f64::NAN)]),
        1.0,
        clamp,
    );
    assert_eq!(t.by_type, vec![0.5, 2.0, 5.0]);
    assert_eq!(t.by_options, vec![("choice:2".to_string(), 5.0), ("noul:2".to_string(), 1.0)]);
}

#[test]
fn other_than_three_temperatures_are_neutral() {
    let t = Temperatures::from_config(&config(vec![2.0, 3.0], vec![]), 1.0, clamp);
    assert_eq!(t.by_type, vec![1.0, 1.0, 1.0]);
    let t = Temperatures::from_config(&config(vec![], vec![]), 1.0, clamp);
    assert_eq!(t.by_type, vec![1.0, 1.0, 1.0]);
    let t = Temperatures::from_config(&config(vec![2.0, 2.0, 2.0, 2.0], vec![]), 1.0, clamp);
    assert_eq!(t.by_type, vec![1.0, 1.0, 1.0]);
}

#[test]
fn bucket_goes_before_type() {
    let t = Temperatures::from_config(
        &config(vec![2.0, 3.0, 4.0], vec![("score:3-5", 1.5), ("choice:2", 0.75)]),
        1.0,
        clamp,
    );
    assert_eq!(t.scale(1, 4, 1.0), 1.5);
    assert_eq!(t.scale(1, 6, 1.0), 3.0);
    assert_eq!(t.scale(0, 1, 1.0), 0.75);
    assert_eq!(t.scale(2, 2, 1.0), 4.0);
    assert_eq!(t.scale(3, 3, 1.0), 1.0);
    assert_eq!(t.scale(-1, 3, 1.0), 1.0);
    assert_eq!(t.scale(i64::MIN, 3, 1.25), 1.25);
}

#[test]
fn unknown_types_decode_as_choices() {
    assert_eq!(decoding_qtype("choice"), 0);
    assert_eq!(decoding_qtype("score"), 1);
    assert_eq!(decoding_qtype("noul"), 2);
    assert_eq!(decoding_qtype("rank"), 0);
}

#[test]
fn best_option_is_the_last_largest() {
    assert_eq!(best_option(&vec![]), 0);
    assert_eq!(best_option(&vec![4]), 0);
    assert_eq!(best_option(&vec![1, 5, 5, 2]), 2);
    assert_eq!(best_option(&vec![9, 5, 5, 2]), 0);
}

#[test]
fn choice_is_answered() {
    let q = question("{\"type\":\"choice\",\"instructions\":\"i\",\"criteria\":[\"b\",\"a\",\"c\"]}");
    let r = decode_answer(&q, &scores(&[0.25, 0.5, 0.25])).unwrap();
    assert_eq!(
        compact_text(&r),
        "{\"action\":{\"act_probability\":0.875},\"answer_confidence\":0.625,\"choice\":\"b\",\
         \"confidence\":0.5,\"probabilities\":{\"a\":0.25,\"b\":0.5,\"c\":0.25},\
         \"type\":\"choice\"}"
    );
}

#[test]
fn equal_choices_go_to_the_last() {
    let q = question("{\"type\":\"choice\",\"instructions\":\"i\",\"criteria\":[\"x\",\"y\"]}");
    let r = decode_answer(&q, &scores(&[0.5, 0.5])).unwrap();
    assert!(compact_text(&r).contains("\"choice\":\"y\""));
}

#[test]
fn score_is_answered() {
    let q = question("{\"type\":\"score\",\"instructions\":\"i\",\"criteria\":[\"low\",{\"k\":1}]}");
    let r = decode_answer(&q, &scores(&[0.25, 0.75])).unwrap();
    assert_eq!(
        compact_text(&r),
        "{\"action\":{\"act_probability\":0.875},\"answer_confidence\":0.625,\"confidence\":0.5,\
         \"legend\":{\"0\":\"low\",\"1\":{\"k\":1}},\"probabilities\":{\"0\":0.25,\"1\":0.75},\
         \"score\":1.25,\"type\":\"score\"}"
    );
}

#[test]
fn levels_stand_in_the_order_of_their_digits() {
    let q = question(
        "{\"type\":\"score\",\"instructions\":\"i\",\"criteria\":[0,1,2,3,4,5,6,7,8,9,10]}",
    );
    let r = decode_answer(&q, &scores(&[])).unwrap();
    assert!(compact_text(&r).contains("\"legend\":{\"0\":0,\"1\":1,\"10\":10,\"2\":2,"));
}

#[test]
fn noul_is_answered() {
    let q = question("{\"type\":\"noul\",\"instructions\":\"i\"}");
    let r = decode_answer(&q, &scores(&[0.25, 0.75])).unwrap();
    assert_eq!(
        compact_text(&r),
        "{\"action\":{\"act_probability\":0.875},\"answer_confidence\":0.625,\
         \"confidence\":0.75,\"noul\":0.75,\"type\":\"noul\"}"
    );
}

#[test]
fn unknown_type_is_not_answered() {
    let q = InternalQuestion {
        t: "rank".to_string(),
        ins: "i".to_string(),
        crit: JsonValue::Null,
        labels: None,
    };
    assert_eq!(
        decode_answer(&q, &scores(&[])),
        Err(Error::UnknownAnswerType("rank".to_string()))
    );
    let e = decode_answers(&vec![("q".to_string(), q)], &vec![scores(&[])]).unwrap_err();
    assert_eq!(e.message(), "unknown type rank");
}

#[test]
fn answers_stand_under_the_names_of_the_questions() {
    let list = read_questions(&parse(
        "{\"w\":{\"type\":\"noul\",\"instructions\":\"1\"},\
          \"v\":{\"type\":\"choice\",\"instructions\":\"2\",\"criteria\":[\"a\"]}}",
    ))
    .unwrap();
    let r = decode_answers(&list, &vec![scores(&[1.0]), scores(&[0.5, 0.5])]).unwrap();
    assert_eq!(
        compact_text(&r),
        "{\"v\":{\"action\":{\"act_probability\":0.875},\"answer_confidence\":0.625,\
         \"choice\":\"a\",\"confidence\":0.5,\"probabilities\":{\"a\":1.0},\"type\":\"choice\"},\
         \"w\":{\"action\":{\"act_probability\":0.875},\"answer_confidence\":0.625,\
         \"confidence\":0.75,\"noul\":0.5,\"type\":\"noul\"}}"
    );
}

#[test]
fn no_questions_have_no_answers() {
    let r = decode_answers(&vec![], &vec![]).unwrap();
    assert_eq!(compact_text(&r), "{}");
}
