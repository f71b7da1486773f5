//! The UI-facing layer: prompt validation and the wire shape of streamed
//! events.

use vstd::prelude::*;
use crate::chat::{ChatMessage, GenerationEvent, InferenceError, Role};
use crate::text::chars_of;

verus! {

/// Unicode `White_Space` characters: what `char::is_whitespace` accepts and
/// `str::trim` removes.
pub open spec fn is_white_space(c: char) -> bool {
    let v = c as u32;
    (0x09 <= v <= 0x0D) || v == 0x20 || v == 0x85 || v == 0xA0 || v == 0x1680 || (0x2000 <= v
        <= 0x200A) || v == 0x2028 || v == 0x2029 || v == 0x202F || v == 0x205F || v == 0x3000
}

/// `char::is_whitespace`, written out.
pub fn is_whitespace(c: char) -> (r: bool)
    ensures
        r == is_white_space(c),
{
    let v = c as u32;
    (0x09 <= v && v <= 0x0D) || v == 0x20 || v == 0x85 || v == 0xA0 || v == 0x1680 || (0x2000 <= v
        && v <= 0x200A) || v == 0x2028 || v == 0x2029 || v == 0x202F || v == 0x205F || v == 0x3000
}

/// A prompt is blank when trimming leaves nothing: every character is white space.
pub open spec fn is_blank(text: Seq<char>) -> bool {
    forall|i: int| 0 <= i < text.len() ==> is_white_space(#[trigger] text[i])
}

/// Whether `text.trim().is_empty()`.
pub fn blank(text: &str) -> (r: bool)
    ensures
        r == is_blank(text@),
{
    let cs = chars_of(text);
    let mut i: usize = 0;
    while i < cs.len()
        invariant
            cs@ == text@,
            i <= cs.len(),
            forall|k: int| 0 <= k < i ==> is_white_space(#[trigger] cs@[k]),
        decreases cs.len() - i,
    {
        if !is_whitespace(cs[i]) {
            return false;
        }
        i = i + 1;
    }
    true
}

/// The conversation for a single prompt: one user message. A blank prompt
/// is refused with an invalid-request message.
pub fn prompt_messages(prompt: String) -> (r: Result<Vec<ChatMessage>, String>)
    ensures
        r is Err <==> is_blank(prompt@),
        r matches Err(m) ==> m@ == "invalid request: "@ + "prompt cannot be empty"@,
        r matches Ok(v) ==> v.len() == 1 && v@[0].role == Role::User && v@[0].content@ == prompt@,
{
    if blank(prompt.as_str()) {
        let e = InferenceError::InvalidRequest(String::from_str("prompt cannot be empty"));
        return Err(e.message());
    }
    let mut v: Vec<ChatMessage> = Vec::new();
    v.push(ChatMessage::user(prompt));
    Ok(v)
}

/// A streamed event as the frontend receives it; `Done` carries the same
/// view as a non-streamed generation.
pub enum GenerateStreamEvent<L, V> {
    Token { delta: String, logprob: Option<L> },
    Done { view: V },
    Error { message: String },
}

/// Maps one generation event to its wire shape (`to_view` makes the view of
/// a finished result), and says whether it was terminal: after a terminal
/// event the forwarding stops.
pub fn forward_event<L, R, V, F: FnOnce(R) -> V>(event: GenerationEvent<L, R>, to_view: F) -> (r: (GenerateStreamEvent<L, V>, bool))
    requires
        forall|x: R| #[trigger] to_view.requires((x,)),
    ensures
        match event {
            GenerationEvent::Token { delta, logprob } => r.0 == GenerateStreamEvent::<L, V>::Token { delta, logprob } && !r.1,
            GenerationEvent::Done { result } => (r.0 matches GenerateStreamEvent::Done { view } && to_view.ensures((result,), view)) && r.1,
            GenerationEvent::Error { message } => r.0 == GenerateStreamEvent::<L, V>::Error { message } && r.1,
        },
{
    match event {
        GenerationEvent::Token { delta, logprob } => (GenerateStreamEvent::Token { delta, logprob }, false),
        GenerationEvent::Done { result } => (GenerateStreamEvent::Done { view: to_view(result) }, true),
        GenerationEvent::Error { message } => (GenerateStreamEvent::Error { message }, true),
    }
}

} // verus!
