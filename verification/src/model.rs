//! What the model is loaded by: the names of its weights, the sizes of its
//! parts, and the configuration of its encoder.

use vstd::prelude::*;

use crate::json::{
    entries_are_well_formed, made_objects_are_well_formed, object, parse_json, parsed, push_pair,
    well_formed,
};
use crate::object::{
    get, get_or_null, last_pair_counts, lookup, lookup_is_an_entry, member, member_or_null,
    no_other_keys, object_of,
};
use crate::question::qtype_of;
use crate::text::{chars_of, decimal, decimal_text, joined, text_between};
use crate::value::{entries_view, Json, JsonValue};

verus! {

/// Whether a text begins with `encoder.`.
pub open spec fn names_encoder(name: Seq<char>) -> bool {
    name.len() >= 8 && name.take(8) == "encoder."@
}

/// The name under which the model looks for a weight: `encoder.` is called
/// `model.`.
pub open spec fn renamed(name: Seq<char>) -> Seq<char> {
    if names_encoder(name) {
        "model."@ + name.skip(8)
    } else {
        name
    }
}

/// Gives the name under which the model looks for a weight.
pub fn weight_name(name: &str) -> (r: String)
    ensures
        r@ == renamed(name@),
{
    let chars = chars_of(name);
    let prefix = chars_of("encoder.");
    proof {
        reveal_strlit("encoder.");
    }
    if chars.len() < 8 {
        return name.to_owned();
    }
    let mut i: usize = 0;
    while i < 8
        invariant
            i <= 8 <= chars@.len(),
            chars@ == name@,
            prefix@ == "encoder."@,
            prefix@.len() == 8,
            forall|j: int| 0 <= j < i ==> chars@[j] == prefix@[j],
        decreases 8 - i,
    {
        if chars[i] != prefix[i] {
            assert(name@.take(8)[i as int] != "encoder."@[i as int]);
            return name.to_owned();
        }
        i += 1;
    }
    assert(name@.take(8) =~= "encoder."@);
    let rest = text_between(&chars, 8, chars.len());
    assert(rest@ =~= name@.skip(8));
    joined("model.", &rest)
}

/// After renaming no weight is called `encoder.`, and renaming again changes
/// nothing.
pub proof fn renaming_is_final(name: Seq<char>)
    ensures
        !names_encoder(renamed(name)),
        renamed(renamed(name)) == renamed(name),
{
    reveal_strlit("encoder.");
    reveal_strlit("model.");
    if names_encoder(name) {
        assert(renamed(name)[0] == 'm');
        if names_encoder(renamed(name)) {
            assert(renamed(name).take(8)[0] == 'e');
        }
    }
}

/// Two weights are given one name only where the model's own name for a weight
/// of the encoder is taken already.
pub proof fn renaming_tells_apart(a: Seq<char>, b: Seq<char>)
    requires
        renamed(a) == renamed(b),
        a != b,
    ensures
        names_encoder(a) && b == "model."@ + a.skip(8) || names_encoder(b) && a == "model."@
            + b.skip(8),
{
    if names_encoder(a) && names_encoder(b) {
        assert(renamed(a).skip("model."@.len() as int) =~= a.skip(8));
        assert(renamed(b).skip("model."@.len() as int) =~= b.skip(8));
        assert(a =~= a.take(8) + a.skip(8));
        assert(b =~= b.take(8) + b.skip(8));
    }
}

/// Gives the name before the weights of a layer of the head.
pub fn head_layer_name(layer: usize) -> (r: String)
    ensures
        r@ == "head.layers."@ + decimal(layer as nat),
{
    joined("head.layers.", &decimal_text(layer))
}

/// The number of inner units of the part that decides on acting.
pub const ACT_UNITS: usize = 256;

/// The number of question types that the model has an embedding for.
pub const TYPE_ROWS: usize = 3;

/// Every known question type has its row among the embeddings of types.
pub proof fn types_have_rows(t: Seq<char>)
    ensures
        qtype_of(t) matches Some(id) ==> 0 <= id < TYPE_ROWS,
{
}

/// The sizes of the parts of the head.
#[derive(Debug)]
pub struct HeadSizes {
    /// The size of a hidden state.
    pub hidden: usize,
    /// The number of attention heads, and the size of each.
    pub heads: usize,
    pub head_dim: usize,
    /// The size of a query, a key and a value together.
    pub projected: usize,
    /// The inner size of the feed-forward parts.
    pub feed_forward: usize,
    /// The inputs, the inner units and the outputs of the part that decides on
    /// acting.
    pub act_inputs: usize,
    pub act_units: usize,
    pub acts: usize,
    /// The number of embeddings of question types.
    pub type_rows: usize,
}

/// The number of attention heads for a hidden size: one for each 64, at least
/// one.
pub open spec fn head_count(hidden: int) -> int {
    if hidden / 64 > 1 {
        hidden / 64
    } else {
        1
    }
}

/// Gives the sizes of the parts of the head for a hidden size and a number of
/// acts that cost.
pub fn head_sizes(hidden: usize, act_costs: usize) -> (r: HeadSizes)
    requires
        4 * hidden + 4 <= usize::MAX,
        act_costs < usize::MAX,
    ensures
        r.hidden == hidden,
        r.heads == head_count(hidden as int),
        r.head_dim == hidden as int / head_count(hidden as int),
        r.projected == 3 * hidden,
        r.feed_forward == 4 * hidden,
        r.act_inputs == hidden + 4,
        r.act_units == ACT_UNITS,
        r.acts == act_costs + 1,
        r.type_rows == TYPE_ROWS,
        hidden < 64 ==> r.heads == 1 && r.head_dim == hidden,
        hidden >= 64 ==> 64 * r.heads <= hidden < 64 * r.heads + 64,
        r.act_units == 256,
        r.type_rows == 3,
{
    let heads: usize = if hidden / 64 > 1 {
        hidden / 64
    } else {
        1
    };
    HeadSizes {
        hidden,
        heads,
        head_dim: hidden / heads,
        projected: 3 * hidden,
        feed_forward: 4 * hidden,
        act_inputs: hidden + 4,
        act_units: ACT_UNITS,
        acts: act_costs + 1,
        type_rows: TYPE_ROWS,
    }
}

/// Where the hidden size is a multiple of 64, the attention heads are of size
/// 64 and share it out without rest.
pub proof fn heads_share_out_hidden(hidden: nat)
    requires
        hidden > 0,
        hidden % 64 == 0,
    ensures
        hidden as int / head_count(hidden as int) == 64,
        head_count(hidden as int) * 64 == hidden,
{
    let n = hidden as int / 64;
    assert(hidden == n * 64);
    assert((n * 64) / n == 64) by (nonlinear_arith)
        requires
            n > 0,
    ;
}

/// A number in floating point.
pub uninterp spec fn floating(n: serde_json::Number) -> serde_json::Number;

/// `serde_json::Number::as_f64` gives every number in floating point, here turned
/// back into a number by `serde_json::Number::from_f64`, which takes every finite
/// one. What is rounded is left to the name.
#[verifier::external_body]
fn as_floating(n: &serde_json::Number) -> (r: Option<serde_json::Number>)
    ensures
        r == Some(floating(*n)),
{
    n.as_f64().and_then(serde_json::Number::from_f64)
}

/// The number in floating point that a value is, if it is one.
pub open spec fn real_of(value: Option<Json>) -> Option<serde_json::Number> {
    match value {
        Some(Json::Number(n)) => Some(floating(n)),
        _ => None,
    }
}

/// The base of the rotary positions for the given attention: that among the rope
/// parameters, else the one under the given key, else the default.
pub open spec fn rope_theta(
    raw: Json,
    attention: Seq<char>,
    key: Seq<char>,
    default: Json,
) -> Json {
    let among = match member(member_or_null(raw, "rope_parameters"@), attention) {
        Some(v) => real_of(member(v, "rope_theta"@)),
        None => None,
    };
    match among {
        Some(n) => Json::Number(n),
        None => match real_of(member(raw, key)) {
            Some(n) => Json::Number(n),
            None => default,
        },
    }
}

/// Finds the number in floating point under a key of an object.
fn get_real(value: &JsonValue, key: &str) -> (r: Option<serde_json::Number>)
    ensures
        r == real_of(member(value@, key@)),
{
    match get(value, key) {
        Some(JsonValue::Number(n)) => as_floating(n),
        _ => None,
    }
}

/// Finds the base of the rotary positions for the given attention.
fn find_theta(raw: &JsonValue, attention: &str, key: &str, default: &JsonValue) -> (r: JsonValue)
    ensures
        r@ == rope_theta(raw@, attention@, key@, default@),
{
    let rope = get_or_null(raw, "rope_parameters");
    let among = match get(&rope, attention) {
        Some(v) => get_real(v, "rope_theta"),
        None => None,
    };
    match among {
        Some(n) => JsonValue::Number(n),
        None => match get_real(raw, key) {
            Some(n) => JsonValue::Number(n),
            None => default.clone(),
        },
    }
}

/// The numbers that stand in for what a configuration leaves out.
#[derive(Debug)]
pub struct EncoderDefaults {
    pub global_rope_theta: JsonValue,
    pub local_rope_theta: JsonValue,
    pub layer_norm_eps: JsonValue,
}

impl EncoderDefaults {
    /// Whether the numbers are well formed.
    pub open spec fn wf(self) -> bool {
        &&& well_formed(self.global_rope_theta@)
        &&& well_formed(self.local_rope_theta@)
        &&& well_formed(self.layer_norm_eps@)
    }
}

/// The epsilon of the layer norms, under either of its two names.
pub open spec fn norm_eps(raw: Json, default: Json) -> Json {
    match member(raw, "layer_norm_eps"@) {
        Some(v) => v,
        None => match member(raw, "norm_eps"@) {
            Some(v) => v,
            None => default,
        },
    }
}

/// The pairs of the configuration that the encoder is loaded by.
pub open spec fn encoder_pairs(raw: Json, defaults: EncoderDefaults) -> Seq<(Seq<char>, Json)> {
    seq![
        ("vocab_size"@, member_or_null(raw, "vocab_size"@)),
        ("hidden_size"@, member_or_null(raw, "hidden_size"@)),
        ("num_hidden_layers"@, member_or_null(raw, "num_hidden_layers"@)),
        ("num_attention_heads"@, member_or_null(raw, "num_attention_heads"@)),
        ("intermediate_size"@, member_or_null(raw, "intermediate_size"@)),
        ("max_position_embeddings"@, member_or_null(raw, "max_position_embeddings"@)),
        ("layer_norm_eps"@, norm_eps(raw, defaults.layer_norm_eps@)),
        ("pad_token_id"@, member_or_null(raw, "pad_token_id"@)),
        ("global_attn_every_n_layers"@, member_or_null(raw, "global_attn_every_n_layers"@)),
        (
            "global_rope_theta"@,
            rope_theta(
                raw,
                "full_attention"@,
                "global_rope_theta"@,
                defaults.global_rope_theta@,
            ),
        ),
        ("local_attention"@, member_or_null(raw, "local_attention"@)),
        (
            "local_rope_theta"@,
            rope_theta(
                raw,
                "sliding_attention"@,
                "local_rope_theta"@,
                defaults.local_rope_theta@,
            ),
        ),
    ]
}

/// Makes the configuration that the encoder is loaded by, with the bases of its
/// rotary positions filled in.
pub fn encoder_config(raw: &JsonValue, defaults: &EncoderDefaults) -> (r: JsonValue)
    ensures
        r@ == Json::Object(object_of(encoder_pairs(raw@, *defaults))),
        well_formed(raw@) && defaults.wf() ==> well_formed(r@),
{
    let global = find_theta(
        raw,
        "full_attention",
        "global_rope_theta",
        &defaults.global_rope_theta,
    );
    let local = find_theta(
        raw,
        "sliding_attention",
        "local_rope_theta",
        &defaults.local_rope_theta,
    );
    let eps = match get(raw, "layer_norm_eps") {
        Some(v) => v.clone(),
        None => match get(raw, "norm_eps") {
            Some(v) => v.clone(),
            None => defaults.layer_norm_eps.clone(),
        },
    };
    let mut pairs: Vec<(String, JsonValue)> = Vec::new();
    push_pair(&mut pairs, "vocab_size", get_or_null(raw, "vocab_size"));
    push_pair(&mut pairs, "hidden_size", get_or_null(raw, "hidden_size"));
    push_pair(&mut pairs, "num_hidden_layers", get_or_null(raw, "num_hidden_layers"));
    push_pair(&mut pairs, "num_attention_heads", get_or_null(raw, "num_attention_heads"));
    push_pair(&mut pairs, "intermediate_size", get_or_null(raw, "intermediate_size"));
    push_pair(
        &mut pairs,
        "max_position_embeddings",
        get_or_null(raw, "max_position_embeddings"),
    );
    push_pair(&mut pairs, "layer_norm_eps", eps);
    push_pair(&mut pairs, "pad_token_id", get_or_null(raw, "pad_token_id"));
    push_pair(
        &mut pairs,
        "global_attn_every_n_layers",
        get_or_null(raw, "global_attn_every_n_layers"),
    );
    push_pair(&mut pairs, "global_rope_theta", global);
    push_pair(&mut pairs, "local_attention", get_or_null(raw, "local_attention"));
    push_pair(&mut pairs, "local_rope_theta", local);
    assert(entries_view(pairs@) =~= encoder_pairs(raw@, *defaults));
    proof {
        if well_formed(raw@) && defaults.wf() {
            encoder_settings_are_well_formed(raw@, *defaults);
        }
    }
    object(&pairs)
}

/// Makes the configuration that the encoder is loaded by from the text of the
/// given one, or says why that is no JSON text.
pub fn encoder_config_from_text(text: &str, defaults: &EncoderDefaults) -> (r: Result<
    JsonValue,
    String,
>)
    ensures
        match parsed(text@) {
            Ok(raw) => r matches Ok(config) && config@ == Json::Object(
                object_of(encoder_pairs(raw, *defaults)),
            ) && (defaults.wf() ==> well_formed(config@)),
            Err(words) => r matches Err(e) && e@ == words,
        },
{
    match parse_json(text) {
        Ok(raw) => Ok(encoder_config(&raw, defaults)),
        Err(e) => Err(e),
    }
}

/// The configuration that the encoder is loaded by holds each of its twelve
/// settings under the name of the setting.
pub proof fn encoder_settings_are_kept(raw: Json, defaults: EncoderDefaults, i: int)
    requires
        0 <= i < encoder_pairs(raw, defaults).len(),
    ensures
        encoder_pairs(raw, defaults).len() == 12,
        lookup(object_of(encoder_pairs(raw, defaults)), encoder_pairs(raw, defaults)[i].0)
            == Some(encoder_pairs(raw, defaults)[i].1),
{
    let pairs = encoder_pairs(raw, defaults);
    reveal_strlit("vocab_size");
    reveal_strlit("hidden_size");
    reveal_strlit("num_hidden_layers");
    reveal_strlit("num_attention_heads");
    reveal_strlit("intermediate_size");
    reveal_strlit("max_position_embeddings");
    reveal_strlit("layer_norm_eps");
    reveal_strlit("pad_token_id");
    reveal_strlit("global_attn_every_n_layers");
    reveal_strlit("global_rope_theta");
    reveal_strlit("local_attention");
    reveal_strlit("local_rope_theta");
    assert forall|j: int| i < j < pairs.len() implies (#[trigger] pairs[j]).0 != pairs[i].0 by {
        assert(pairs[i].0.len() != pairs[j].0.len() || pairs[i].0[0] != pairs[j].0[0]);
    }
    last_pair_counts(pairs, i);
}

/// A value under a key of a well-formed object is well formed.
proof fn members_are_well_formed(json: Json, key: Seq<char>)
    requires
        well_formed(json),
    ensures
        member(json, key) matches Some(v) ==> well_formed(v),
        well_formed(member_or_null(json, key)),
{
    if member(json, key) is Some {
        entries_are_well_formed(json);
        lookup_is_an_entry(json->Object_0, key);
    }
}

/// The configuration that the encoder is loaded by is well formed where the given
/// one and the defaults are.
pub proof fn encoder_settings_are_well_formed(raw: Json, defaults: EncoderDefaults)
    requires
        well_formed(raw),
        defaults.wf(),
    ensures
        well_formed(Json::Object(object_of(encoder_pairs(raw, defaults)))),
{
    let pairs = encoder_pairs(raw, defaults);
    members_are_well_formed(raw, "vocab_size"@);
    members_are_well_formed(raw, "hidden_size"@);
    members_are_well_formed(raw, "num_hidden_layers"@);
    members_are_well_formed(raw, "num_attention_heads"@);
    members_are_well_formed(raw, "intermediate_size"@);
    members_are_well_formed(raw, "max_position_embeddings"@);
    members_are_well_formed(raw, "layer_norm_eps"@);
    members_are_well_formed(raw, "norm_eps"@);
    members_are_well_formed(raw, "pad_token_id"@);
    members_are_well_formed(raw, "global_attn_every_n_layers"@);
    members_are_well_formed(raw, "local_attention"@);
    assert forall|i: int| 0 <= i < pairs.len() implies well_formed((#[trigger] pairs[i]).1) by {}
    made_objects_are_well_formed(pairs);
}

/// The bases of the rotary positions are always numbers.
pub proof fn rope_thetas_are_numbers(
    raw: Json,
    attention: Seq<char>,
    key: Seq<char>,
    default: Json,
)
    requires
        default is Number,
    ensures
        rope_theta(raw, attention, key, default) is Number,
{
}

/// The first number that is found is the base of the rotary positions, in floating
/// point: that among the rope parameters, before that under the older key, before
/// the default.
pub proof fn first_theta_counts(raw: Json, attention: Seq<char>, key: Seq<char>, default: Json)
    ensures
        ({
            let among = match member(member_or_null(raw, "rope_parameters"@), attention) {
                Some(v) => member(v, "rope_theta"@),
                None => None,
            };
            let older = member(raw, key);
            let theta = rope_theta(raw, attention, key, default);
            &&& among matches Some(Json::Number(n)) ==> theta == Json::Number(floating(n))
            &&& !(among matches Some(Json::Number(_))) ==> (older matches Some(Json::Number(n))
                ==> theta == Json::Number(floating(n)))
            &&& !(among matches Some(Json::Number(_))) && !(older matches Some(
                Json::Number(_),
            )) ==> theta == default
        }),
{
}

/// A weight of the encoder is looked for under `model.`, and any other weight under
/// its own name.
pub proof fn encoder_weights_are_renamed(rest: Seq<char>, name: Seq<char>)
    requires
        forall|r: Seq<char>| name != #[trigger] ("encoder."@ + r),
    ensures
        renamed("encoder."@ + rest) == "model."@ + rest,
        renamed(name) == name,
{
    reveal_strlit("encoder.");
    let whole = "encoder."@ + rest;
    assert(whole.take(8) =~= "encoder."@);
    assert(whole.skip(8) =~= rest);
    if names_encoder(name) {
        let r = name.skip(8);
        assert(name =~= "encoder."@ + r);
    }
}

/// There is one attention head for each sixty-four of the hidden size, and one for
/// a smaller size.
pub proof fn heads_go_by_sixty_four(hidden: nat)
    ensures
        hidden < 64 ==> head_count(hidden as int) == 1,
        hidden >= 64 ==> 64 * head_count(hidden as int) <= hidden < 64 * head_count(hidden as int)
            + 64,
        ACT_UNITS == 256,
        TYPE_ROWS == 3,
{
}

/// The epsilon of the layer norms is found under `layer_norm_eps`, else under
/// `norm_eps`, else it is the default.
pub proof fn first_epsilon_counts(raw: Json, default: Json)
    ensures
        member(raw, "layer_norm_eps"@) matches Some(v) ==> norm_eps(raw, default) == v,
        member(raw, "layer_norm_eps"@) is None ==> (member(raw, "norm_eps"@) matches Some(v)
            ==> norm_eps(raw, default) == v),
        member(raw, "layer_norm_eps"@) is None && member(raw, "norm_eps"@) is None ==> norm_eps(
            raw,
            default,
        ) == default,
{
}

/// What is found under a setting of the encoder.
proof fn setting_is_found(raw: Json, defaults: EncoderDefaults, i: int, key: Seq<char>, value: Json)
    requires
        0 <= i < 12,
        encoder_pairs(raw, defaults)[i] == (key, value),
    ensures
        lookup(object_of(encoder_pairs(raw, defaults)), key) == Some(value),
{
    encoder_settings_are_kept(raw, defaults, i);
}

/// The encoder is loaded by the sizes of the given configuration, or by null for one
/// that is left out, by the epsilon under either of its names, and by the bases of
/// the rotary positions for the two kinds of attention.
pub proof fn encoder_is_loaded_by(raw: Json, defaults: EncoderDefaults)
    ensures
        ({
            let config = object_of(encoder_pairs(raw, defaults));
            &&& lookup(config, "vocab_size"@) == Some(
                member_or_null(raw, "vocab_size"@),
            )
            &&& lookup(config, "hidden_size"@) == Some(
                member_or_null(raw, "hidden_size"@),
            )
            &&& lookup(config, "num_hidden_layers"@) == Some(
                member_or_null(raw, "num_hidden_layers"@),
            )
            &&& lookup(config, "num_attention_heads"@) == Some(
                member_or_null(raw, "num_attention_heads"@),
            )
            &&& lookup(config, "intermediate_size"@) == Some(
                member_or_null(raw, "intermediate_size"@),
            )
            &&& lookup(config, "max_position_embeddings"@) == Some(
                member_or_null(raw, "max_position_embeddings"@),
            )
            &&& lookup(config, "pad_token_id"@) == Some(
                member_or_null(raw, "pad_token_id"@),
            )
            &&& lookup(config, "global_attn_every_n_layers"@) == Some(
                member_or_null(raw, "global_attn_every_n_layers"@),
            )
            &&& lookup(config, "local_attention"@) == Some(
                member_or_null(raw, "local_attention"@),
            )
            &&& lookup(config, "layer_norm_eps"@) == Some(
                norm_eps(raw, defaults.layer_norm_eps@),
            )
            &&& lookup(config, "global_rope_theta"@) == Some(
                rope_theta(
                    raw,
                    "full_attention"@,
                    "global_rope_theta"@,
                    defaults.global_rope_theta@,
                ),
            )
            &&& lookup(config, "local_rope_theta"@) == Some(
                rope_theta(
                    raw,
                    "sliding_attention"@,
                    "local_rope_theta"@,
                    defaults.local_rope_theta@,
                ),
            )
        }),
{
    let pairs = encoder_pairs(raw, defaults);
    setting_is_found(raw, defaults, 0, "vocab_size"@, pairs[0].1);
    setting_is_found(raw, defaults, 1, "hidden_size"@, pairs[1].1);
    setting_is_found(raw, defaults, 2, "num_hidden_layers"@, pairs[2].1);
    setting_is_found(raw, defaults, 3, "num_attention_heads"@, pairs[3].1);
    setting_is_found(raw, defaults, 4, "intermediate_size"@, pairs[4].1);
    setting_is_found(raw, defaults, 5, "max_position_embeddings"@, pairs[5].1);
    setting_is_found(raw, defaults, 6, "layer_norm_eps"@, pairs[6].1);
    setting_is_found(raw, defaults, 7, "pad_token_id"@, pairs[7].1);
    setting_is_found(raw, defaults, 8, "global_attn_every_n_layers"@, pairs[8].1);
    setting_is_found(raw, defaults, 9, "global_rope_theta"@, pairs[9].1);
    setting_is_found(raw, defaults, 10, "local_attention"@, pairs[10].1);
    setting_is_found(raw, defaults, 11, "local_rope_theta"@, pairs[11].1);
}

/// The configuration that the encoder is loaded by has no other settings.
pub proof fn encoder_is_loaded_by_nothing_else(
    raw: Json,
    defaults: EncoderDefaults,
    key: Seq<char>,
)
    requires
        key != "vocab_size"@,
        key != "hidden_size"@,
        key != "num_hidden_layers"@,
        key != "num_attention_heads"@,
        key != "intermediate_size"@,
        key != "max_position_embeddings"@,
        key != "layer_norm_eps"@,
        key != "pad_token_id"@,
        key != "global_attn_every_n_layers"@,
        key != "global_rope_theta"@,
        key != "local_attention"@,
        key != "local_rope_theta"@,
    ensures
        lookup(object_of(encoder_pairs(raw, defaults)), key) is None,
{
    no_other_keys(encoder_pairs(raw, defaults), key);
}

} // verus!
