//! What can go wrong, and how it is put into words.

use vstd::prelude::*;

use crate::text::{debug_quoted, debug_text, decimal, decimal_text, joined, joined3};

verus! {

/// A failure of the library. `S` is the type of the texts that it quotes.
#[derive(Debug, PartialEq)]
pub enum Error<S> {
    /// The tokenizer has no id for a special token.
    MissingSpecialToken(S),
    /// A tokenizer was not loaded from its description; the words say why.
    TokenizerNotLoaded(S),
    /// The labels of a noul question are no object.
    LabelsNotObject,
    /// The labels of a noul question are not two distinct non-empty strings
    /// under the keys `false` and `true`.
    LabelsNotDistinct,
    /// The false label of a noul question is no string.
    FalseLabelNotString,
    /// The true label of a noul question is no string.
    TrueLabelNotString,
    /// A question other than a noul question has labels.
    LabelsUnsupported,
    /// The criteria of a choice question are no object.
    ChoiceCriteriaNotObject,
    /// The criteria of a score question are no list.
    ScoreCriteriaNotList,
    /// A question is of no known type.
    UnknownQuestionType(S),
    /// The tokenizer failed on a text; it said why.
    TokenizeFailed(S),
    /// The tokenizer failed on the state; it said why.
    TokenizeStateFailed(S),
    /// The definition of a question is no object.
    DefinitionNotObject { qid: S },
    /// The definition of a question has no type.
    TypeMissing { qid: S },
    /// The definition of a question has an unknown type.
    TypeUnknown { qid: S, t: S },
    /// The definition of a question has no instructions.
    InstructionsMissing { qid: S },
    /// The criteria of a choice question are neither an object nor a list.
    ChoiceCriteriaInvalid { qid: S },
    /// The criteria of a score question are no list.
    ScoreCriteriaInvalid { qid: S },
    /// The criteria of a noul question are no object.
    NoulCriteriaInvalid { qid: S },
    /// The questions are no object.
    QuestionsNotObject,
    /// The options of a question do not all fit.
    OptionsExceed { qid: S, head_max_len: usize },
    /// An answer was asked for a question of no known type.
    UnknownAnswerType(S),
    /// A model directory has no agent configuration.
    ConfigMissing(S),
    /// No model was found.
    ModelNotFound(S),
    /// A state was given without questions.
    QuestionsRequired,
}

impl View for Error<String> {
    type V = Error<Seq<char>>;

    open spec fn view(&self) -> Error<Seq<char>> {
        match self {
            Error::MissingSpecialToken(s) => Error::MissingSpecialToken(s@),
            Error::TokenizerNotLoaded(s) => Error::TokenizerNotLoaded(s@),
            Error::LabelsNotObject => Error::LabelsNotObject,
            Error::LabelsNotDistinct => Error::LabelsNotDistinct,
            Error::FalseLabelNotString => Error::FalseLabelNotString,
            Error::TrueLabelNotString => Error::TrueLabelNotString,
            Error::LabelsUnsupported => Error::LabelsUnsupported,
            Error::ChoiceCriteriaNotObject => Error::ChoiceCriteriaNotObject,
            Error::ScoreCriteriaNotList => Error::ScoreCriteriaNotList,
            Error::UnknownQuestionType(s) => Error::UnknownQuestionType(s@),
            Error::TokenizeFailed(s) => Error::TokenizeFailed(s@),
            Error::TokenizeStateFailed(s) => Error::TokenizeStateFailed(s@),
            Error::DefinitionNotObject { qid } => Error::DefinitionNotObject { qid: qid@ },
            Error::TypeMissing { qid } => Error::TypeMissing { qid: qid@ },
            Error::TypeUnknown { qid, t } => Error::TypeUnknown { qid: qid@, t: t@ },
            Error::InstructionsMissing { qid } => Error::InstructionsMissing { qid: qid@ },
            Error::ChoiceCriteriaInvalid { qid } => Error::ChoiceCriteriaInvalid { qid: qid@ },
            Error::ScoreCriteriaInvalid { qid } => Error::ScoreCriteriaInvalid { qid: qid@ },
            Error::NoulCriteriaInvalid { qid } => Error::NoulCriteriaInvalid { qid: qid@ },
            Error::QuestionsNotObject => Error::QuestionsNotObject,
            Error::OptionsExceed { qid, head_max_len } => Error::OptionsExceed {
                qid: qid@,
                head_max_len: *head_max_len,
            },
            Error::UnknownAnswerType(s) => Error::UnknownAnswerType(s@),
            Error::ConfigMissing(s) => Error::ConfigMissing(s@),
            Error::ModelNotFound(s) => Error::ModelNotFound(s@),
            Error::QuestionsRequired => Error::QuestionsRequired,
        }
    }
}

/// What the result of a fallible function says.
pub open spec fn said<T: View>(r: Result<T, Error<String>>) -> Result<T::V, Error<Seq<char>>> {
    match r {
        Ok(value) => Ok(value@),
        Err(e) => Err(e@),
    }
}

/// The words for what is wrong with one question.
pub open spec fn question_message(qid: Seq<char>, complaint: Seq<char>) -> Seq<char> {
    "question "@ + qid + complaint
}

/// The words for a failure.
pub open spec fn message_of(e: Error<Seq<char>>) -> Seq<char> {
    match e {
        Error::MissingSpecialToken(name) => "tokenizer missing special token "@ + name,
        Error::TokenizerNotLoaded(reason) => "load tokenizer: "@ + reason,
        Error::LabelsNotObject => "noul labels must be an object with false/true"@,
        Error::LabelsNotDistinct =>
            "noul labels must map exactly 'false' and 'true' to distinct non-empty strings"@,
        Error::FalseLabelNotString => "noul false label must be a string"@,
        Error::TrueLabelNotString => "noul true label must be a string"@,
        Error::LabelsUnsupported => "labels is only supported for noul questions"@,
        Error::ChoiceCriteriaNotObject => "choice criteria must be an object"@,
        Error::ScoreCriteriaNotList => "score criteria must be a list"@,
        Error::UnknownQuestionType(t) => "unknown question type "@ + t,
        Error::TokenizeFailed(reason) => "tokenize failed: "@ + reason,
        Error::TokenizeStateFailed(reason) => "tokenize state: "@ + reason,
        Error::DefinitionNotObject { qid } => question_message(
            qid,
            ": definition must be an object"@,
        ),
        Error::TypeMissing { qid } => question_message(qid, ": missing type"@),
        Error::TypeUnknown { qid, t } => question_message(qid, ": unknown type "@) + t,
        Error::InstructionsMissing { qid } => question_message(qid, ": no 'instructions'"@),
        Error::ChoiceCriteriaInvalid { qid } => question_message(
            qid,
            ": choice criteria must be object or list"@,
        ),
        Error::ScoreCriteriaInvalid { qid } => question_message(
            qid,
            ": score criteria must be a list"@,
        ),
        Error::NoulCriteriaInvalid { qid } => question_message(
            qid,
            ": noul criteria must be an object or omitted"@,
        ),
        Error::QuestionsNotObject => "questions must be a JSON object"@,
        Error::OptionsExceed { qid, head_max_len } => question_message(
            qid,
            " options exceed head_max_len="@,
        ) + decimal(head_max_len as nat),
        Error::UnknownAnswerType(t) => "unknown type "@ + t,
        Error::ConfigMissing(dir) => "directory "@ + dir
            + " exists but has no rl_agent_config.json"@,
        Error::ModelNotFound(model) => "model "@ + debug_text(model)
            + " not found locally. Pass a directory with rl_agent_config.json / model.safetensors / tokenizer / encoder, or download convaiinnovations/laya into the Hugging Face hub cache first (e.g. `huggingface-cli download convaiinnovations/laya`)."@,
        Error::QuestionsRequired => "--questions PATH is required unless --demo"@,
    }
}

impl Error<String> {
    /// Puts the failure into words.
    pub fn message(&self) -> (r: String)
        ensures
            r@ == message_of(self@),
    {
        match self {
            Error::MissingSpecialToken(name) => joined("tokenizer missing special token ", name),
            Error::TokenizerNotLoaded(reason) => joined("load tokenizer: ", reason),
            Error::LabelsNotObject => "noul labels must be an object with false/true".to_owned(),
            Error::LabelsNotDistinct =>
                "noul labels must map exactly 'false' and 'true' to distinct non-empty strings".to_owned(),
            Error::FalseLabelNotString => "noul false label must be a string".to_owned(),
            Error::TrueLabelNotString => "noul true label must be a string".to_owned(),
            Error::LabelsUnsupported => "labels is only supported for noul questions".to_owned(),
            Error::ChoiceCriteriaNotObject => "choice criteria must be an object".to_owned(),
            Error::ScoreCriteriaNotList => "score criteria must be a list".to_owned(),
            Error::UnknownQuestionType(t) => joined("unknown question type ", t),
            Error::TokenizeFailed(reason) => joined("tokenize failed: ", reason),
            Error::TokenizeStateFailed(reason) => joined("tokenize state: ", reason),
            Error::DefinitionNotObject { qid } => joined3(
                "question ",
                qid,
                ": definition must be an object",
            ),
            Error::TypeMissing { qid } => joined3("question ", qid, ": missing type"),
            Error::TypeUnknown { qid, t } => joined(
                &joined3("question ", qid, ": unknown type "),
                t,
            ),
            Error::InstructionsMissing { qid } => joined3("question ", qid, ": no 'instructions'"),
            Error::ChoiceCriteriaInvalid { qid } => joined3(
                "question ",
                qid,
                ": choice criteria must be object or list",
            ),
            Error::ScoreCriteriaInvalid { qid } => joined3(
                "question ",
                qid,
                ": score criteria must be a list",
            ),
            Error::NoulCriteriaInvalid { qid } => joined3(
                "question ",
                qid,
                ": noul criteria must be an object or omitted",
            ),
            Error::QuestionsNotObject => "questions must be a JSON object".to_owned(),
            Error::OptionsExceed { qid, head_max_len } => joined(
                &joined3("question ", qid, " options exceed head_max_len="),
                &decimal_text(*head_max_len),
            ),
            Error::UnknownAnswerType(t) => joined("unknown type ", t),
            Error::ConfigMissing(dir) => joined3(
                "directory ",
                dir,
                " exists but has no rl_agent_config.json",
            ),
            Error::ModelNotFound(model) => joined3(
                "model ",
                &debug_quoted(model),
                " not found locally. Pass a directory with rl_agent_config.json / model.safetensors / tokenizer / encoder, or download convaiinnovations/laya into the Hugging Face hub cache first (e.g. `huggingface-cli download convaiinnovations/laya`).",
            ),
            Error::QuestionsRequired => "--questions PATH is required unless --demo".to_owned(),
        }
    }
}

/// A failure over a text quotes that text.
pub proof fn words_quote_texts(s: Seq<char>)
    ensures
        message_of(Error::<Seq<char>>::MissingSpecialToken(s)) == "tokenizer missing special token "@ + s,
        message_of(Error::<Seq<char>>::TokenizerNotLoaded(s)) == "load tokenizer: "@ + s,
        message_of(Error::<Seq<char>>::UnknownQuestionType(s)) == "unknown question type "@ + s,
        message_of(Error::<Seq<char>>::TokenizeFailed(s)) == "tokenize failed: "@ + s,
        message_of(Error::<Seq<char>>::TokenizeStateFailed(s)) == "tokenize state: "@ + s,
        message_of(Error::<Seq<char>>::UnknownAnswerType(s)) == "unknown type "@ + s,
        message_of(Error::<Seq<char>>::ConfigMissing(s)) == "directory "@ + s
            + " exists but has no rl_agent_config.json"@,
        message_of(Error::<Seq<char>>::ModelNotFound(s)) == "model "@ + debug_text(s)
            + " not found locally. Pass a directory with rl_agent_config.json / model.safetensors / tokenizer / encoder, or download convaiinnovations/laya into the Hugging Face hub cache first (e.g. `huggingface-cli download convaiinnovations/laya`)."@,
{
}

/// A failure over a question names the question and what is wrong with it.
pub proof fn words_name_questions(qid: Seq<char>, t: Seq<char>, head_max_len: usize)
    ensures
        message_of(Error::<Seq<char>>::DefinitionNotObject { qid }) == "question "@ + qid + ": definition must be an object"@,
        message_of(Error::<Seq<char>>::TypeMissing { qid }) == "question "@ + qid + ": missing type"@,
        message_of(Error::<Seq<char>>::InstructionsMissing { qid }) == "question "@ + qid + ": no 'instructions'"@,
        message_of(Error::<Seq<char>>::ChoiceCriteriaInvalid { qid }) == "question "@ + qid + ": choice criteria must be object or list"@,
        message_of(Error::<Seq<char>>::ScoreCriteriaInvalid { qid }) == "question "@ + qid + ": score criteria must be a list"@,
        message_of(Error::<Seq<char>>::NoulCriteriaInvalid { qid }) == "question "@ + qid + ": noul criteria must be an object or omitted"@,
        message_of(Error::<Seq<char>>::TypeUnknown { qid, t }) == "question "@ + qid
            + ": unknown type "@ + t,
        message_of(Error::<Seq<char>>::OptionsExceed { qid, head_max_len }) == "question "@ + qid
            + " options exceed head_max_len="@ + decimal(head_max_len as nat),
{
}

/// The words for each of the other failures.
pub proof fn words_tell_failures()
    ensures
        message_of(Error::<Seq<char>>::LabelsNotObject) == "noul labels must be an object with false/true"@,
        message_of(Error::<Seq<char>>::LabelsNotDistinct) == "noul labels must map exactly 'false' and 'true' to distinct non-empty strings"@,
        message_of(Error::<Seq<char>>::FalseLabelNotString) == "noul false label must be a string"@,
        message_of(Error::<Seq<char>>::TrueLabelNotString) == "noul true label must be a string"@,
        message_of(Error::<Seq<char>>::LabelsUnsupported) == "labels is only supported for noul questions"@,
        message_of(Error::<Seq<char>>::ChoiceCriteriaNotObject) == "choice criteria must be an object"@,
        message_of(Error::<Seq<char>>::ScoreCriteriaNotList) == "score criteria must be a list"@,
        message_of(Error::<Seq<char>>::QuestionsNotObject) == "questions must be a JSON object"@,
        message_of(Error::<Seq<char>>::QuestionsRequired) == "--questions PATH is required unless --demo"@,
{
}

/// A failure says what it holds, and so does the result of a function that can fail.
pub proof fn failures_say_what_they_hold(a: String, b: String, head_max_len: usize)
    ensures
        Error::MissingSpecialToken(a)@ == Error::<Seq<char>>::MissingSpecialToken(a@),
        Error::TokenizerNotLoaded(a)@ == Error::<Seq<char>>::TokenizerNotLoaded(a@),
        Error::UnknownQuestionType(a)@ == Error::<Seq<char>>::UnknownQuestionType(a@),
        Error::TokenizeFailed(a)@ == Error::<Seq<char>>::TokenizeFailed(a@),
        Error::TokenizeStateFailed(a)@ == Error::<Seq<char>>::TokenizeStateFailed(a@),
        Error::UnknownAnswerType(a)@ == Error::<Seq<char>>::UnknownAnswerType(a@),
        Error::ConfigMissing(a)@ == Error::<Seq<char>>::ConfigMissing(a@),
        Error::ModelNotFound(a)@ == Error::<Seq<char>>::ModelNotFound(a@),
        (Error::DefinitionNotObject { qid: a })@ == (Error::<Seq<char>>::DefinitionNotObject { qid: a@ }),
        (Error::TypeMissing { qid: a })@ == (Error::<Seq<char>>::TypeMissing { qid: a@ }),
        (Error::InstructionsMissing { qid: a })@ == (Error::<Seq<char>>::InstructionsMissing { qid: a@ }),
        (Error::ChoiceCriteriaInvalid { qid: a })@ == (Error::<Seq<char>>::ChoiceCriteriaInvalid { qid: a@ }),
        (Error::ScoreCriteriaInvalid { qid: a })@ == (Error::<Seq<char>>::ScoreCriteriaInvalid { qid: a@ }),
        (Error::NoulCriteriaInvalid { qid: a })@ == (Error::<Seq<char>>::NoulCriteriaInvalid { qid: a@ }),
        (Error::TypeUnknown { qid: a, t: b })@ == (Error::<Seq<char>>::TypeUnknown {
            qid: a@,
            t: b@,
        }),
        (Error::OptionsExceed { qid: a, head_max_len })@ == (Error::<Seq<char>>::OptionsExceed {
            qid: a@,
            head_max_len,
        }),
        Error::<String>::LabelsNotObject@ == Error::<Seq<char>>::LabelsNotObject,
        Error::<String>::LabelsNotDistinct@ == Error::<Seq<char>>::LabelsNotDistinct,
        Error::<String>::FalseLabelNotString@ == Error::<Seq<char>>::FalseLabelNotString,
        Error::<String>::TrueLabelNotString@ == Error::<Seq<char>>::TrueLabelNotString,
        Error::<String>::LabelsUnsupported@ == Error::<Seq<char>>::LabelsUnsupported,
        Error::<String>::ChoiceCriteriaNotObject@ == Error::<Seq<char>>::ChoiceCriteriaNotObject,
        Error::<String>::ScoreCriteriaNotList@ == Error::<Seq<char>>::ScoreCriteriaNotList,
        Error::<String>::QuestionsNotObject@ == Error::<Seq<char>>::QuestionsNotObject,
        Error::<String>::QuestionsRequired@ == Error::<Seq<char>>::QuestionsRequired,
        said(Ok::<String, Error<String>>(a)) == Ok::<Seq<char>, Error<Seq<char>>>(a@),
        said(Err::<String, Error<String>>(Error::TokenizeFailed(a))) == Err::<Seq<char>, _>(
            Error::<Seq<char>>::TokenizeFailed(a@),
        ),
{
}

} // verus!
