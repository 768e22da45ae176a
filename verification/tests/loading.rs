use laya_candle::agent::read_questions;
use laya_candle::error::Error;
use laya_candle::json::{compact_text, parse_json};
use laya_candle::locate::{
    cache_aliases, cache_dir_name, hub_cache, pick_cached, pick_snapshot, resolve_model_dir,
    HubCache, ModelDir, Snapshot,
};
use laya_candle::model::{
    encoder_config, encoder_config_from_text, head_layer_name, head_sizes, weight_name,
    EncoderDefaults, ACT_UNITS, TYPE_ROWS,
};
use laya_candle::question::{qtype_id, render_options};
use laya_candle::session::{default_demo, input_source, questions_path, report, InputSource};
use laya_candle::value::JsonValue;

fn parse(text: &str) -> JsonValue {
    parse_json(text).unwrap()
}

fn float(x: f64) -> JsonValue {
    JsonValue::Number(serde_json::Number::from_f64(x).unwrap())
}

fn defaults() -> EncoderDefaults {
    EncoderDefaults {
        global_rope_theta: float(160000.0),
        local_rope_theta: float(10000.0),
        layer_norm_eps: float(1e-5),
    }
}

fn config(text: &str) -> String {
    compact_text(&encoder_config(&parse(text), &defaults()))
}

#[test]
fn encoder_weights_are_renamed() {
    assert_eq!(weight_name("encoder.layers.0.attn.Wqkv.weight"), "model.layers.0.attn.Wqkv.weight");
    assert_eq!(weight_name("encoder."), "model.");
    assert_eq!(weight_name("encoder"), "encoder");
    assert_eq!(weight_name("encoders.x"), "encoders.x");
    assert_eq!(weight_name("head.encoder.x"), "head.encoder.x");
    assert_eq!(weight_name("scorer.0.weight"), "scorer.0.weight");
}

#[test]
fn renaming_twice_is_renaming_once() {
    for name in ["encoder.encoder.x", "encoder.x", "x", ""] {
        let once = weight_name(name);
        assert_eq!(weight_name(&once), once);
    }
    assert_eq!(weight_name("encoder.encoder.x"), "model.encoder.x");
}

#[test]
fn one_name_for_two_weights_is_the_models_own() {
    assert_eq!(weight_name("encoder.x"), weight_name("model.x"));
    assert_ne!(weight_name("encoder.x"), weight_name("encoder.y"));
}

#[test]
fn head_layers_are_numbered() {
    assert_eq!(head_layer_name(0), "head.layers.0");
    assert_eq!(head_layer_name(12), "head.layers.12");
}

#[test]
fn heads_share_out_the_hidden_size() {
    let s = head_sizes(768, 2);
    assert_eq!((s.hidden, s.heads, s.head_dim), (768, 12, 64));
    assert_eq!((s.projected, s.feed_forward), (2304, 3072));
    assert_eq!((s.act_inputs, s.act_units, s.acts), (772, 256, 3));
    assert_eq!(s.type_rows, 3);
    assert_eq!((ACT_UNITS, TYPE_ROWS), (256, 3));
    let s = head_sizes(32, 0);
    assert_eq!((s.heads, s.head_dim, s.acts), (1, 32, 1));
    let s = head_sizes(130, 0);
    assert_eq!((s.heads, s.head_dim), (2, 65));
    let s = head_sizes(0, 0);
    assert_eq!((s.heads, s.head_dim), (1, 0));
}

#[test]
fn question_types_have_their_rows() {
    let rows: Vec<i64> =
        ["choice", "score", "noul"].iter().map(|t| qtype_id(t).unwrap()).collect();
    assert_eq!(rows, vec![0, 1, 2]);
    assert_eq!(rows.len(), TYPE_ROWS);
}

#[test]
fn encoder_settings_are_picked() {
    assert_eq!(
        config(
            "{\"vocab_size\":50368,\"hidden_size\":768,\"num_hidden_layers\":22,\
             \"num_attention_heads\":12,\"intermediate_size\":1152,\
             \"max_position_embeddings\":8192,\"norm_eps\":1e-6,\"pad_token_id\":50283,\
             \"global_attn_every_n_layers\":3,\"local_attention\":128,\"other\":1,\
             \"rope_parameters\":{\"full_attention\":{\"rope_theta\":80000},\
             \"sliding_attention\":{\"rope_theta\":5000.5}}}"
        ),
        "{\"global_attn_every_n_layers\":3,\"global_rope_theta\":80000.0,\"hidden_size\":768,\
         \"intermediate_size\":1152,\"layer_norm_eps\":1e-6,\"local_attention\":128,\
         \"local_rope_theta\":5000.5,\"max_position_embeddings\":8192,\
         \"num_attention_heads\":12,\"num_hidden_layers\":22,\"pad_token_id\":50283,\
         \"vocab_size\":50368}"
    );
}

#[test]
fn missing_settings_are_null_or_default() {
    let wanted = "{\"global_attn_every_n_layers\":null,\"global_rope_theta\":160000.0,\
         \"hidden_size\":null,\"intermediate_size\":null,\"layer_norm_eps\":0.00001,\
         \"local_attention\":null,\"local_rope_theta\":10000.0,\"max_position_embeddings\":null,\
         \"num_attention_heads\":null,\"num_hidden_layers\":null,\"pad_token_id\":null,\
         \"vocab_size\":null}";
    assert_eq!(config("{}"), wanted);
    assert_eq!(config("[1]"), wanted);
}

#[test]
fn older_rope_settings_are_a_fallback() {
    let c = config(
        "{\"global_rope_theta\":7,\"local_rope_theta\":\"8\",\"layer_norm_eps\":null,\
         \"norm_eps\":1,\"rope_parameters\":{\"full_attention\":{\"rope_theta\":\"x\"}}}",
    );
    assert!(c.contains("\"global_rope_theta\":7.0"));
    assert!(c.contains("\"local_rope_theta\":10000.0"));
    assert!(c.contains("\"layer_norm_eps\":null"));
}

#[test]
fn first_number_is_the_base() {
    let c = config(
        "{\"global_rope_theta\":7,\"local_rope_theta\":8,\"rope_parameters\":{\
         \"full_attention\":{\"rope_theta\":18446744073709551615},\
         \"sliding_attention\":{\"rope_theta\":-3}}}",
    );
    let rounded = compact_text(&float(18446744073709551616.0));
    assert!(c.contains(&format!("\"global_rope_theta\":{},", rounded)));
    assert!(c.contains("\"local_rope_theta\":-3.0"));
}

#[test]
fn encoder_settings_are_read_from_text() {
    let text = "{\"vocab_size\":5,\"norm_eps\":1e-6}";
    let read = encoder_config_from_text(text, &defaults()).unwrap();
    assert_eq!(compact_text(&read), config(text));
    assert_eq!(
        encoder_config_from_text("{", &defaults()),
        Err("EOF while parsing an object at line 1 column 1".to_string())
    );
}

#[test]
fn model_directory_is_chosen() {
    assert_eq!(resolve_model_dir("m", true, true, true), Ok(ModelDir::Given));
    assert_eq!(resolve_model_dir("m", true, false, false), Ok(ModelDir::Given));
    assert_eq!(
        resolve_model_dir("m", false, true, true),
        Err(Error::ConfigMissing("m".to_string()))
    );
    assert_eq!(resolve_model_dir("m", false, false, true), Ok(ModelDir::Cached));
    assert_eq!(
        resolve_model_dir("m", false, false, false),
        Err(Error::ModelNotFound("m".to_string()))
    );
}

#[test]
fn cache_is_searched_under_aliases() {
    assert_eq!(
        cache_aliases("me/mine"),
        vec!["me/mine", "convaiinnovations/laya", "laya", "english"]
    );
    assert_eq!(cache_dir_name("convaiinnovations/laya"), "models--convaiinnovations--laya");
    assert_eq!(cache_dir_name("laya"), "models--laya");
    assert_eq!(cache_dir_name("a/b/c"), "models--a--b--c");
}

#[test]
fn first_complete_snapshot_is_picked() {
    let s = |has_config: bool, has_weights: bool| Snapshot { has_config, has_weights };
    assert_eq!(pick_snapshot(&vec![]), None);
    assert_eq!(pick_snapshot(&vec![s(true, false), s(false, true)]), None);
    assert_eq!(
        pick_snapshot(&vec![s(false, false), s(true, true), s(true, true)]),
        Some(1)
    );
}

#[test]
fn first_name_with_a_complete_snapshot_is_picked() {
    let s = |has_config: bool, has_weights: bool| Snapshot { has_config, has_weights };
    assert_eq!(pick_cached(&vec![]), None);
    assert_eq!(pick_cached(&vec![vec![], vec![s(true, false)], vec![s(false, true)]]), None);
    assert_eq!(
        pick_cached(&vec![
            vec![],
            vec![s(true, false), s(true, true), s(true, true)],
            vec![s(true, true)],
        ]),
        Some((1, 1))
    );
}

#[test]
fn hub_cache_is_where_the_environment_says() {
    let a = || Some("a".to_string());
    let b = || Some("b".to_string());
    assert_eq!(hub_cache(a(), b(), true), Some(HubCache::Named("a".to_string())));
    assert_eq!(hub_cache(None, b(), false), Some(HubCache::Named("b".to_string())));
    assert_eq!(hub_cache(None, None, true), Some(HubCache::UnderHome));
    assert_eq!(hub_cache(None, None, false), None);
}

#[test]
fn input_comes_from_one_place() {
    assert_eq!(input_source(true, true, true), InputSource::Demo);
    assert_eq!(input_source(false, false, false), InputSource::Demo);
    assert_eq!(input_source(false, true, true), InputSource::StateFile);
    assert_eq!(input_source(false, false, true), InputSource::StateFile);
    assert_eq!(input_source(false, true, false), InputSource::StateText);
}

#[test]
fn state_needs_questions() {
    assert_eq!(questions_path(Some("q.json".to_string())), Ok("q.json".to_string()));
    assert_eq!(questions_path(None), Err(Error::QuestionsRequired));
}

#[test]
fn report_names_the_model() {
    assert_eq!(
        compact_text(&report(parse("{\"q\":1}"), "dir")),
        "{\"answers\":{\"q\":1},\"model\":\"dir\"}"
    );
}

#[test]
fn demo_can_be_asked() {
    let (state, questions) = default_demo();
    assert_eq!(
        compact_text(&state),
        "\"Hi, we were billed twice for March. Please refund the duplicate today or we will \
         cancel our plan.\""
    );
    let list = read_questions(&questions).unwrap();
    let names: Vec<&str> = list.iter().map(|e| e.0.as_str()).collect();
    assert_eq!(names, vec!["churn_risk", "department", "urgency"]);
    assert_eq!(list[0].1.ins, "Does the user threaten to cancel or leave?");
    assert_eq!(
        render_options(&list[1].1).unwrap(),
        vec![
            "billing: invoices, payments, refunds",
            "other: everything else",
            "technical: bugs, outages, system errors",
        ]
    );
    assert_eq!(
        render_options(&list[2].1).unwrap(),
        vec!["level 0: not urgent", "level 1: soon", "level 2: blocking"]
    );
}
