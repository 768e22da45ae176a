//! One run: where its input comes from, and what it reports.

use vstd::prelude::*;

use crate::error::Error;
use crate::json::{made_objects_are_well_formed, object, push_pair, well_formed};
use crate::object::{different_keys_all_stay, each_pair_is_found, lookup, object_of};
use crate::value::{entries_view, items_view, Json, JsonValue};

verus! {

/// Where the state and the questions of a run come from.
#[derive(Debug, PartialEq, Eq, Structural, Clone, Copy)]
pub enum InputSource {
    /// The sample.
    Demo,
    /// The state is read from a JSON file.
    StateFile,
    /// The state is the given text.
    StateText,
}

/// Decides where the input comes from: the sample if it is asked for or no state
/// is given, else the state file, if there is one, else the state text.
pub fn input_source(demo: bool, has_state: bool, has_state_json: bool) -> (r: InputSource)
    ensures
        r == if demo || (!has_state && !has_state_json) {
            InputSource::Demo
        } else if has_state_json {
            InputSource::StateFile
        } else {
            InputSource::StateText
        },
        r is Demo <==> demo || !(has_state || has_state_json),
        r is StateFile <==> !demo && has_state_json,
        r is StateText <==> !demo && has_state && !has_state_json,
{
    if demo || (!has_state && !has_state_json) {
        InputSource::Demo
    } else if has_state_json {
        InputSource::StateFile
    } else {
        InputSource::StateText
    }
}

/// Takes the path of the questions, which a state cannot go without.
pub fn questions_path(given: Option<String>) -> (r: Result<String, Error<String>>)
    ensures
        match given {
            Some(path) => r == Ok::<String, Error<String>>(path),
            None => r == Err::<String, Error<String>>(Error::QuestionsRequired),
        },
{
    match given {
        Some(path) => Ok(path),
        None => Err(Error::QuestionsRequired),
    }
}

/// What a run reports: the answers, and the model that gave them.
pub fn report(answers: JsonValue, model: &str) -> (r: JsonValue)
    ensures
        r@ == Json::Object(
            object_of(seq![("answers"@, answers@), ("model"@, Json::String(model@))]),
        ),
        well_formed(answers@) ==> well_formed(r@),
        r@->Object_0.len() == 2,
        lookup(r@->Object_0, "answers"@) == Some(answers@),
        lookup(r@->Object_0, "model"@) == Some(Json::String(model@)),
{
    let ghost said = answers@;
    let mut pairs: Vec<(String, JsonValue)> = Vec::new();
    push_pair(&mut pairs, "answers", answers);
    push_pair(&mut pairs, "model", JsonValue::String(model.to_owned()));
    proof {
        let wanted = seq![("answers"@, said), ("model"@, Json::String(model@))];
        assert(entries_view(pairs@) =~= wanted);
        if well_formed(said) {
            made_objects_are_well_formed(wanted);
        }
        reveal_strlit("answers");
        reveal_strlit("model");
        assert("answers"@.len() == 7 && "model"@.len() == 5);
        different_keys_all_stay(wanted);
        each_pair_is_found(wanted);
        assert(wanted[0].0 == "answers"@ && wanted[1].0 == "model"@);
    }
    object(&pairs)
}

/// The state of the sample.
pub open spec fn demo_state() -> Json {
    Json::String(
        "Hi, we were billed twice for March. Please refund the duplicate today or we will cancel our plan."@,
    )
}

/// The question of the sample that is a choice.
pub open spec fn demo_department() -> Json {
    Json::Object(
        object_of(
            seq![
                ("type"@, Json::String("choice"@)),
                ("instructions"@, Json::String("Which department should handle this?"@)),
                (
                    "criteria"@,
                    Json::Object(
                        object_of(
                            seq![
                                ("billing"@, Json::String("invoices, payments, refunds"@)),
                                ("technical"@, Json::String("bugs, outages, system errors"@)),
                                ("other"@, Json::String("everything else"@)),
                            ],
                        ),
                    ),
                ),
            ],
        ),
    )
}

/// The question of the sample that is a score.
pub open spec fn demo_urgency() -> Json {
    Json::Object(
        object_of(
            seq![
                ("type"@, Json::String("score"@)),
                ("instructions"@, Json::String("How urgent is this?"@)),
                (
                    "criteria"@,
                    Json::Array(
                        seq![
                            Json::String("not urgent"@),
                            Json::String("soon"@),
                            Json::String("blocking"@),
                        ],
                    ),
                ),
            ],
        ),
    )
}

/// The question of the sample that is a noul question.
pub open spec fn demo_churn_risk() -> Json {
    Json::Object(
        object_of(
            seq![
                ("type"@, Json::String("noul"@)),
                (
                    "instructions"@,
                    Json::String("Does the user threaten to cancel or leave?"@),
                ),
            ],
        ),
    )
}

/// The questions of the sample.
pub open spec fn demo_questions() -> Json {
    Json::Object(
        object_of(
            seq![
                ("department"@, demo_department()),
                ("urgency"@, demo_urgency()),
                ("churn_risk"@, demo_churn_risk()),
            ],
        ),
    )
}

/// The questions of the sample are well formed.
proof fn demo_is_well_formed()
    ensures
        well_formed(demo_questions()),
{
    made_objects_are_well_formed(
        seq![
            ("billing"@, Json::String("invoices, payments, refunds"@)),
            ("technical"@, Json::String("bugs, outages, system errors"@)),
            ("other"@, Json::String("everything else"@)),
        ],
    );
    made_objects_are_well_formed(
        seq![
            ("type"@, Json::String("choice"@)),
            ("instructions"@, Json::String("Which department should handle this?"@)),
            (
                "criteria"@,
                Json::Object(
                    object_of(
                        seq![
                            ("billing"@, Json::String("invoices, payments, refunds"@)),
                            ("technical"@, Json::String("bugs, outages, system errors"@)),
                            ("other"@, Json::String("everything else"@)),
                        ],
                    ),
                ),
            ),
        ],
    );
    let levels = Json::Array(
        seq![Json::String("not urgent"@), Json::String("soon"@), Json::String("blocking"@)],
    );
    assert(well_formed(levels)) by {
        assert forall|i: int| 0 <= i < levels->Array_0.len() implies well_formed(
            #[trigger] levels->Array_0[i],
        ) by {
            assert(levels->Array_0[i] is String);
        }
    }
    made_objects_are_well_formed(
        seq![
            ("type"@, Json::String("score"@)),
            ("instructions"@, Json::String("How urgent is this?"@)),
            ("criteria"@, levels),
        ],
    );
    made_objects_are_well_formed(
        seq![
            ("type"@, Json::String("noul"@)),
            ("instructions"@, Json::String("Does the user threaten to cancel or leave?"@)),
        ],
    );
    made_objects_are_well_formed(
        seq![
            ("department"@, demo_department()),
            ("urgency"@, demo_urgency()),
            ("churn_risk"@, demo_churn_risk()),
        ],
    );
}

/// A string as a JSON value.
fn string(s: &str) -> (r: JsonValue)
    ensures
        r@ == Json::String(s@),
{
    JsonValue::String(s.to_owned())
}

/// Begins the definition of a question.
fn definition(t: &str, instructions: &str) -> (r: Vec<(String, JsonValue)>)
    ensures
        entries_view(r@) == seq![
            ("type"@, Json::String(t@)),
            ("instructions"@, Json::String(instructions@)),
        ],
{
    let mut pairs: Vec<(String, JsonValue)> = Vec::new();
    push_pair(&mut pairs, "type", string(t));
    push_pair(&mut pairs, "instructions", string(instructions));
    assert(entries_view(pairs@) =~= seq![
        ("type"@, Json::String(t@)),
        ("instructions"@, Json::String(instructions@)),
    ]);
    pairs
}

/// Gives the state and the questions of the sample.
pub fn default_demo() -> (r: (JsonValue, JsonValue))
    ensures
        r.0@ == demo_state(),
        r.1@ == demo_questions(),
        well_formed(r.0@),
        well_formed(r.1@),
{
    proof {
        demo_is_well_formed();
    }
    let mut choices: Vec<(String, JsonValue)> = Vec::new();
    push_pair(&mut choices, "billing", string("invoices, payments, refunds"));
    push_pair(&mut choices, "technical", string("bugs, outages, system errors"));
    push_pair(&mut choices, "other", string("everything else"));
    assert(entries_view(choices@) =~= seq![
        ("billing"@, Json::String("invoices, payments, refunds"@)),
        ("technical"@, Json::String("bugs, outages, system errors"@)),
        ("other"@, Json::String("everything else"@)),
    ]);
    let mut department = definition("choice", "Which department should handle this?");
    push_pair(&mut department, "criteria", object(&choices));
    assert(Json::Object(object_of(entries_view(department@))) == demo_department()) by {
        assert(entries_view(department@) =~= seq![
            ("type"@, Json::String("choice"@)),
            ("instructions"@, Json::String("Which department should handle this?"@)),
            ("criteria"@, Json::Object(object_of(entries_view(choices@)))),
        ]);
    }
    let mut levels: Vec<JsonValue> = Vec::new();
    levels.push(string("not urgent"));
    levels.push(string("soon"));
    levels.push(string("blocking"));
    assert(items_view(levels@) =~= seq![
        Json::String("not urgent"@),
        Json::String("soon"@),
        Json::String("blocking"@),
    ]);
    let mut urgency = definition("score", "How urgent is this?");
    let ghost listed = Json::Array(items_view(levels@));
    push_pair(&mut urgency, "criteria", JsonValue::Array(levels));
    assert(Json::Object(object_of(entries_view(urgency@))) == demo_urgency()) by {
        assert(entries_view(urgency@) =~= seq![
            ("type"@, Json::String("score"@)),
            ("instructions"@, Json::String("How urgent is this?"@)),
            ("criteria"@, listed),
        ]);
    }
    let churn_risk = definition("noul", "Does the user threaten to cancel or leave?");
    let mut questions: Vec<(String, JsonValue)> = Vec::new();
    push_pair(&mut questions, "department", object(&department));
    push_pair(&mut questions, "urgency", object(&urgency));
    push_pair(&mut questions, "churn_risk", object(&churn_risk));
    assert(entries_view(questions@) =~= seq![
        ("department"@, demo_department()),
        ("urgency"@, demo_urgency()),
        ("churn_risk"@, demo_churn_risk()),
    ]);
    let state = string(
        "Hi, we were billed twice for March. Please refund the duplicate today or we will cancel our plan.",
    );
    (state, object(&questions))
}

/// The keys of the sample differ where they stand together.
proof fn sample_keys_differ()
    ensures
        "type"@ != "instructions"@,
        "type"@ != "criteria"@,
        "instructions"@ != "criteria"@,
        "billing"@ != "technical"@,
        "billing"@ != "other"@,
        "technical"@ != "other"@,
        "department"@ != "urgency"@,
        "department"@ != "churn_risk"@,
        "urgency"@ != "churn_risk"@,
{
    reveal_strlit("type");
    reveal_strlit("instructions");
    reveal_strlit("criteria");
    reveal_strlit("billing");
    reveal_strlit("technical");
    reveal_strlit("other");
    reveal_strlit("department");
    reveal_strlit("urgency");
    reveal_strlit("churn_risk");
    assert("type"@.len() == 4 && "instructions"@.len() == 12 && "criteria"@.len() == 8);
    assert("billing"@.len() == 7 && "technical"@.len() == 9 && "other"@.len() == 5);
    assert("department"@[0] == 'd' && "urgency"@[0] == 'u' && "churn_risk"@[0] == 'c');
}

/// The sample asks which department should handle a message, how urgent it is, and
/// whether the user threatens to leave.
pub proof fn sample_asks_three_questions()
    ensures
        demo_questions() is Object,
        demo_questions()->Object_0.len() == 3,
        ({
            let all = demo_questions()->Object_0;
            let one = lookup(all, "department"@)->Some_0->Object_0;
            let two = lookup(all, "urgency"@)->Some_0->Object_0;
            let three = lookup(all, "churn_risk"@)->Some_0->Object_0;
            let choices = lookup(one, "criteria"@)->Some_0->Object_0;
            &&& lookup(one, "type"@) == Some(Json::String("choice"@))
            &&& lookup(one, "instructions"@) == Some(
                Json::String("Which department should handle this?"@),
            )
            &&& choices.len() == 3
            &&& lookup(choices, "billing"@) == Some(Json::String("invoices, payments, refunds"@))
            &&& lookup(choices, "technical"@) == Some(Json::String("bugs, outages, system errors"@))
            &&& lookup(choices, "other"@) == Some(Json::String("everything else"@))
            &&& lookup(two, "type"@) == Some(Json::String("score"@))
            &&& lookup(two, "instructions"@) == Some(Json::String("How urgent is this?"@))
            &&& lookup(two, "criteria"@) == Some(
                Json::Array(
                    seq![
                        Json::String("not urgent"@),
                        Json::String("soon"@),
                        Json::String("blocking"@),
                    ],
                ),
            )
            &&& lookup(three, "type"@) == Some(Json::String("noul"@))
            &&& lookup(three, "instructions"@) == Some(
                Json::String("Does the user threaten to cancel or leave?"@),
            )
        }),
{
    sample_keys_differ();
    let choices = seq![
        ("billing"@, Json::String("invoices, payments, refunds"@)),
        ("technical"@, Json::String("bugs, outages, system errors"@)),
        ("other"@, Json::String("everything else"@)),
    ];
    let one = seq![
        ("type"@, Json::String("choice"@)),
        ("instructions"@, Json::String("Which department should handle this?"@)),
        ("criteria"@, Json::Object(object_of(choices))),
    ];
    let levels = Json::Array(
        seq![Json::String("not urgent"@), Json::String("soon"@), Json::String("blocking"@)],
    );
    let two = seq![
        ("type"@, Json::String("score"@)),
        ("instructions"@, Json::String("How urgent is this?"@)),
        ("criteria"@, levels),
    ];
    let three = seq![
        ("type"@, Json::String("noul"@)),
        ("instructions"@, Json::String("Does the user threaten to cancel or leave?"@)),
    ];
    let all = seq![
        ("department"@, demo_department()),
        ("urgency"@, demo_urgency()),
        ("churn_risk"@, demo_churn_risk()),
    ];
    different_keys_all_stay(all);
    different_keys_all_stay(choices);
    each_pair_is_found(all);
    each_pair_is_found(one);
    each_pair_is_found(two);
    each_pair_is_found(three);
    each_pair_is_found(choices);
    assert(all[0].0 == "department"@ && all[1].0 == "urgency"@ && all[2].0 == "churn_risk"@);
    assert(one[0].0 == "type"@ && one[1].0 == "instructions"@ && one[2].0 == "criteria"@);
    assert(two[0].0 == "type"@ && two[1].0 == "instructions"@ && two[2].0 == "criteria"@);
    assert(three[0].0 == "type"@ && three[1].0 == "instructions"@);
    assert(choices[0].0 == "billing"@ && choices[1].0 == "technical"@ && choices[2].0
        == "other"@);
}

} // verus!
