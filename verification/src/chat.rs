//! The backend-independent chat vocabulary: roles, messages, what a backend
//! reports about itself, the errors it can give, and the events of a
//! streamed generation.

use vstd::prelude::*;
use crate::text::push_str;

verus! {

#[derive(Debug, Clone, Copy, PartialEq, Eq, Structural)]
pub enum Role {
    System,
    User,
    Assistant,
}

#[derive(Debug, Clone, PartialEq, Eq)]
pub struct ChatMessage {
    pub role: Role,
    pub content: String,
}

impl ChatMessage {
    /// A message from the user.
    pub fn user(content: String) -> (m: Self)
        ensures
            m.role == Role::User,
            m.content@ == content@,
    {
        ChatMessage { role: Role::User, content }
    }
}

/// The default of options that are on unless turned off (per-token
/// log-probabilities).
pub fn default_true() -> (r: bool)
    ensures
        r,
{
    true
}

/// What a backend reports about itself.
#[derive(Debug, Clone, PartialEq, Eq)]
pub struct ModelInfo {
    pub backend: String,
    pub model_id: String,
    pub endpoint: Option<String>,
}

/// The name the embedded engine reports for itself.
pub open spec fn embedded_backend_name() -> Seq<char> {
    "mistral.rs (embedded)"@
}

/// What the embedded, in-process engine reports: its name, the model label,
/// and no endpoint (there is no server).
pub fn embedded_model_info(model_id: &String) -> (r: ModelInfo)
    ensures
        r.backend@ == embedded_backend_name(),
        r.model_id@ == model_id@,
        r.endpoint is None,
{
    ModelInfo { backend: String::from_str("mistral.rs (embedded)"), model_id: model_id.clone(), endpoint: None }
}

/// Why a generation could not be served.
#[derive(Debug, Clone, PartialEq, Eq)]
pub enum InferenceError {
    InvalidRequest(String),
    Unavailable(String),
    Backend(String),
    InvalidResponse(String),
}

/// How an error reads.
pub open spec fn error_message(e: InferenceError) -> Seq<char> {
    match e {
        InferenceError::InvalidRequest(m) => "invalid request: "@ + m@,
        InferenceError::Unavailable(m) => "backend unavailable: "@ + m@,
        InferenceError::Backend(m) => "backend request failed: "@ + m@,
        InferenceError::InvalidResponse(m) => "backend returned an invalid response: "@ + m@,
    }
}

impl InferenceError {
    /// How the error reads (what `to_string` gives).
    pub fn message(&self) -> (r: String)
        ensures
            r@ == error_message(*self),
    {
        match self {
            InferenceError::InvalidRequest(m) => {
                let mut r = String::from_str("invalid request: ");
                push_str(&mut r, m.as_str());
                r
            },
            InferenceError::Unavailable(m) => {
                let mut r = String::from_str("backend unavailable: ");
                push_str(&mut r, m.as_str());
                r
            },
            InferenceError::Backend(m) => {
                let mut r = String::from_str("backend request failed: ");
                push_str(&mut r, m.as_str());
                r
            },
            InferenceError::InvalidResponse(m) => {
                let mut r = String::from_str("backend returned an invalid response: ");
                push_str(&mut r, m.as_str());
                r
            },
        }
    }
}

/// A generation needs at least one message.
pub fn check_messages(messages: &Vec<ChatMessage>) -> (r: Result<(), InferenceError>)
    ensures
        r is Ok <==> messages.len() > 0,
        r matches Err(e) ==> e matches InferenceError::InvalidRequest(m) && m@
            == "at least one message is required"@,
{
    if messages.len() == 0 {
        return Err(InferenceError::InvalidRequest(String::from_str("at least one message is required")));
    }
    Ok(())
}

/// The text and finish reason of the first choice of a complete response;
/// a response without choices, or whose first choice has no text, is invalid.
pub fn first_choice_text(choices: Vec<crate::stream::FinalChoice>) -> (r: Result<(String, String), InferenceError>)
    ensures
        choices.len() == 0 ==> (r matches Err(InferenceError::InvalidResponse(m)) && m@ == "missing choice"@),
        choices.len() > 0 && choices@[0].text is None ==> (r matches Err(InferenceError::InvalidResponse(m))
            && m@ == "choice has no text"@),
        choices.len() > 0 && choices@[0].text is Some ==> (r matches Ok((t, f)) && t@ == choices@[0].text->0@
            && f@ == choices@[0].finish_reason@),
{
    let mut choices = choices;
    if choices.len() == 0 {
        return Err(InferenceError::InvalidResponse(String::from_str("missing choice")));
    }
    let first = choices.remove(0);
    match first.text {
        Some(t) => Ok((t, first.finish_reason)),
        None => Err(InferenceError::InvalidResponse(String::from_str("choice has no text"))),
    }
}

/// One event of a streamed generation: `Done` and `Error` are terminal,
/// no further events follow either. `L` is a token's log-probability
/// report, `R` the finished generation's result.
pub enum GenerationEvent<L, R> {
    Token { delta: String, logprob: Option<L> },
    Done { result: R },
    Error { message: String },
}

} // verus!
