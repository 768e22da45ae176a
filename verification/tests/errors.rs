use laya_candle::error::Error;

fn s(text: &str) -> String {
    text.to_string()
}

#[test]
fn failures_have_words() {
    let cases: Vec<(Error<String>, &str)> = vec![
        (Error::MissingSpecialToken(s("[CLS]")), "tokenizer missing special token [CLS]"),
        (
            Error::TokenizerNotLoaded("why".to_string()),
            "load tokenizer: why",
        ),
        (Error::LabelsNotObject, "noul labels must be an object with false/true"),
        (
            Error::LabelsNotDistinct,
            "noul labels must map exactly 'false' and 'true' to distinct non-empty strings",
        ),
        (Error::FalseLabelNotString, "noul false label must be a string"),
        (Error::TrueLabelNotString, "noul true label must be a string"),
        (Error::LabelsUnsupported, "labels is only supported for noul questions"),
        (Error::ChoiceCriteriaNotObject, "choice criteria must be an object"),
        (Error::ScoreCriteriaNotList, "score criteria must be a list"),
        (Error::UnknownQuestionType(s("x")), "unknown question type x"),
        (Error::TokenizeFailed(s("why")), "tokenize failed: why"),
        (Error::TokenizeStateFailed(s("why")), "tokenize state: why"),
        (Error::DefinitionNotObject { qid: s("q") }, "question q: definition must be an object"),
        (Error::TypeMissing { qid: s("q") }, "question q: missing type"),
        (Error::TypeUnknown { qid: s("q"), t: s("x") }, "question q: unknown type x"),
        (Error::InstructionsMissing { qid: s("q") }, "question q: no 'instructions'"),
        (
            Error::ChoiceCriteriaInvalid { qid: s("q") },
            "question q: choice criteria must be object or list",
        ),
        (Error::ScoreCriteriaInvalid { qid: s("q") }, "question q: score criteria must be a list"),
        (
            Error::NoulCriteriaInvalid { qid: s("q") },
            "question q: noul criteria must be an object or omitted",
        ),
        (Error::QuestionsNotObject, "questions must be a JSON object"),
        (
            Error::OptionsExceed { qid: s("q"), head_max_len: 192 },
            "question q options exceed head_max_len=192",
        ),
        (Error::UnknownAnswerType(s("x")), "unknown type x"),
        (Error::ConfigMissing(s("dir")), "directory dir exists but has no rl_agent_config.json"),
        (Error::QuestionsRequired, "--questions PATH is required unless --demo"),
    ];
    for (e, words) in cases {
        assert_eq!(e.message(), words);
    }
}

#[test]
fn missing_model_is_quoted() {
    assert_eq!(
        Error::ModelNotFound(s("a\"b")).message(),
        "model \"a\\\"b\" not found locally. Pass a directory with rl_agent_config.json / \
         model.safetensors / tokenizer / encoder, or download convaiinnovations/laya into the \
         Hugging Face hub cache first (e.g. `huggingface-cli download convaiinnovations/laya`)."
    );
}
