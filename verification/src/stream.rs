//! The decisions of a streamed generation, as a state machine.
//!
//! The engine's stream delivers chunks (each with an optional text delta,
//! the chosen token's log-probability, a finish reason and usage figures),
//! possibly a final response, errors, and finally runs dry. The consumer
//! turns that into the library's event protocol: `Token` events as text
//! arrives, then exactly one terminal `Done` or `Error`. Not every engine
//! path sends a final response, so running dry is itself the end of the
//! generation, and the result is made from the text accumulated so far.

use vstd::prelude::*;
use crate::text::push_str;

verus! {

/// The first choice of one streamed chunk. `L` is the log-probability
/// report of the chosen token, `None` when the engine gave none or it was
/// not a valid log-probability.
pub struct ChunkChoice<L> {
    pub delta: Option<String>,
    pub logprob: Option<L>,
    pub finish_reason: Option<String>,
}

/// The first choice of a final response: its text, if any, and why it finished.
pub struct FinalChoice {
    pub text: Option<String>,
    pub finish_reason: String,
}

/// What the engine's stream hands the consumer next. `U` is the engine's
/// usage report.
#[allow(inconsistent_fields)]
pub enum StreamInput<L, U> {
    /// A streamed chunk, with its usage figures (set on the final chunk) and
    /// its first choice, if any.
    Chunk { usage: Option<U>, choice: Option<ChunkChoice<L>> },
    /// A complete final response.
    Final { choice: Option<FinalChoice>, usage: U },
    /// An error reported by the model, or the stream failing to start or
    /// validate, with its message.
    Failure { message: String },
    /// A kind of response that does not apply to text chat.
    Unrelated,
    /// The stream has run dry.
    End,
}

/// What to emit for one input.
pub enum StreamAction<L, U> {
    /// Nothing.
    Continue,
    /// A `Token` event.
    Token { delta: String, logprob: Option<L> },
    /// The terminal `Done` event, with the generation's text, finish reason
    /// and usage report (`None`: no usage was reported).
    Finish { text: String, finish_reason: Option<String>, usage: Option<U> },
    /// The terminal `Error` event.
    Fail { message: String },
}

/// What the consumer has tracked so far.
pub struct StreamState<U> {
    /// Every delta emitted so far, in order.
    pub accumulated: String,
    pub finish_reason: Option<String>,
    pub usage: Option<U>,
    /// Whether the engine's greedy path is in use: its log-probabilities
    /// are known to be wrong, so none are reported.
    pub greedy: bool,
    /// Whether a terminal event has been emitted.
    pub finished: bool,
}

/// The state as values.
pub struct StreamModel<U> {
    pub accumulated: Seq<char>,
    pub finish_reason: Option<Seq<char>>,
    pub usage: Option<U>,
    pub greedy: bool,
    pub finished: bool,
}

/// An action as values.
pub enum ActionModel<L, U> {
    Continue,
    Token { delta: Seq<char>, logprob: Option<L> },
    Finish { text: Seq<char>, finish_reason: Option<Seq<char>>, usage: Option<U> },
    Fail { message: Seq<char> },
}

/// The characters of an optional string.
pub open spec fn opt_chars(s: Option<String>) -> Option<Seq<char>> {
    match s {
        Some(t) => Some(t@),
        None => None,
    }
}

impl<U> StreamState<U> {
    pub open spec fn model(&self) -> StreamModel<U> {
        StreamModel {
            accumulated: self.accumulated@,
            finish_reason: opt_chars(self.finish_reason),
            usage: self.usage,
            greedy: self.greedy,
            finished: self.finished,
        }
    }
}

impl<L, U> StreamAction<L, U> {
    pub open spec fn model(&self) -> ActionModel<L, U> {
        match *self {
            StreamAction::Continue => ActionModel::Continue,
            StreamAction::Token { delta, logprob } => ActionModel::Token { delta: delta@, logprob },
            StreamAction::Finish { text, finish_reason, usage } => ActionModel::Finish {
                text: text@,
                finish_reason: opt_chars(finish_reason),
                usage,
            },
            StreamAction::Fail { message } => ActionModel::Fail { message: message@ },
        }
    }
}

/// The state before the first input.
pub open spec fn initial_model<U>(greedy: bool) -> StreamModel<U> {
    StreamModel { accumulated: seq![], finish_reason: None, usage: None, greedy, finished: false }
}

/// One step of the protocol.
///
/// Once a terminal event is out, nothing else is emitted. A chunk records
/// its usage and finish reason when it carries them, and emits a `Token`
/// for a non-empty delta (with no log-probability on the greedy path). A
/// final response ends the generation with its own text (or, lacking any,
/// the text accumulated) and usage. An error ends it with its message. The
/// stream running dry ends it with the accumulated text, the last finish
/// reason and usage seen.
pub open spec fn spec_step<L, U>(s: StreamModel<U>, input: StreamInput<L, U>) -> (StreamModel<U>, ActionModel<L, U>) {
    if s.finished {
        (s, ActionModel::Continue)
    } else {
        match input {
            StreamInput::Chunk { usage, choice } => {
                let s1 = if usage is Some {
                    StreamModel { usage, ..s }
                } else {
                    s
                };
                match choice {
                    None => (s1, ActionModel::Continue),
                    Some(c) => {
                        let logprob = if s.greedy {
                            None
                        } else {
                            c.logprob
                        };
                        let s2 = if c.finish_reason is Some {
                            StreamModel { finish_reason: opt_chars(c.finish_reason), ..s1 }
                        } else {
                            s1
                        };
                        match c.delta {
                            Some(d) => if d@.len() > 0 {
                                (
                                    StreamModel { accumulated: s2.accumulated + d@, ..s2 },
                                    ActionModel::Token { delta: d@, logprob },
                                )
                            } else {
                                (s2, ActionModel::Continue)
                            },
                            None => (s2, ActionModel::Continue),
                        }
                    },
                }
            },
            StreamInput::Final { choice, usage } => (
                StreamModel { finished: true, ..s },
                ActionModel::Finish {
                    text: match choice {
                        Some(c) => match c.text {
                            Some(t) => t@,
                            None => s.accumulated,
                        },
                        None => s.accumulated,
                    },
                    finish_reason: match choice {
                        Some(c) => Some(c.finish_reason@),
                        None => None,
                    },
                    usage: Some(usage),
                },
            ),
            StreamInput::Failure { message } => (
                StreamModel { finished: true, ..s },
                ActionModel::Fail { message: message@ },
            ),
            StreamInput::Unrelated => (s, ActionModel::Continue),
            StreamInput::End => (
                StreamModel { finished: true, finish_reason: None, usage: None, ..s },
                ActionModel::Finish { text: s.accumulated, finish_reason: s.finish_reason, usage: s.usage },
            ),
        }
    }
}

impl<U> StreamState<U> {
    /// The state before the first input.
    pub fn new(greedy: bool) -> (r: Self)
        ensures
            r.model() == initial_model::<U>(greedy),
    {
        StreamState { accumulated: String::new(), finish_reason: None, usage: None, greedy, finished: false }
    }

    /// Consumes one input: the next state, and what to emit.
    pub fn step<L>(self, input: StreamInput<L, U>) -> (r: (Self, StreamAction<L, U>))
        ensures
            (r.0.model(), r.1.model()) == spec_step(self.model(), input),
    {
        if self.finished {
            return (self, StreamAction::Continue);
        }
        let mut s = self;
        match input {
            StreamInput::Chunk { usage, choice } => {
                if usage.is_some() {
                    s.usage = usage;
                }
                match choice {
                    None => (s, StreamAction::Continue),
                    Some(c) => {
                        let logprob = if s.greedy {
                            None
                        } else {
                            c.logprob
                        };
                        if c.finish_reason.is_some() {
                            s.finish_reason = c.finish_reason;
                        }
                        match c.delta {
                            Some(d) => {
                                if !d.as_str().is_empty() {
                                    push_str(&mut s.accumulated, d.as_str());
                                    (s, StreamAction::Token { delta: d, logprob })
                                } else {
                                    (s, StreamAction::Continue)
                                }
                            },
                            None => (s, StreamAction::Continue),
                        }
                    },
                }
            },
            StreamInput::Final { choice, usage } => {
                let (text, finish_reason) = match choice {
                    Some(c) => {
                        let text = match c.text {
                            Some(t) => t,
                            None => s.accumulated.clone(),
                        };
                        (text, Some(c.finish_reason))
                    },
                    None => (s.accumulated.clone(), None),
                };
                s.finished = true;
                (s, StreamAction::Finish { text, finish_reason, usage: Some(usage) })
            },
            StreamInput::Failure { message } => {
                s.finished = true;
                (s, StreamAction::Fail { message })
            },
            StreamInput::Unrelated => (s, StreamAction::Continue),
            StreamInput::End => {
                let text = s.accumulated.clone();
                let StreamState { accumulated, finish_reason, usage, greedy, finished: _ } = s;
                (
                    StreamState { accumulated, finish_reason: None, usage: None, greedy, finished: true },
                    StreamAction::Finish { text, finish_reason, usage },
                )
            },
        }
    }
}


/// The state and the actions after consuming `inputs` in order.
pub open spec fn run<L, U>(s: StreamModel<U>, inputs: Seq<StreamInput<L, U>>) -> (StreamModel<U>, Seq<ActionModel<L, U>>)
    decreases inputs.len(),
{
    if inputs.len() == 0 {
        (s, seq![])
    } else {
        let (s1, actions) = run(s, inputs.drop_last());
        let (s2, a) = spec_step(s1, inputs.last());
        (s2, actions.push(a))
    }
}

/// `Done` and `Error` are terminal.
pub open spec fn is_terminal<L, U>(a: ActionModel<L, U>) -> bool {
    a is Finish || a is Fail
}

/// The text of all `Token` actions, in order.
pub open spec fn token_text<L, U>(actions: Seq<ActionModel<L, U>>) -> Seq<char>
    decreases actions.len(),
{
    if actions.len() == 0 {
        seq![]
    } else {
        token_text(actions.drop_last()) + match actions.last() {
            ActionModel::Token { delta, logprob: _ } => delta,
            _ => seq![],
        }
    }
}

/// What holds after any prefix of a stream.
pub open spec fn protocol_holds<L, U>(
    greedy: bool,
    inputs: Seq<StreamInput<L, U>>,
    s: StreamModel<U>,
    actions: Seq<ActionModel<L, U>>,
) -> bool {
    &&& actions.len() == inputs.len()
    &&& s.greedy == greedy
    &&& !s.finished ==> s.accumulated == token_text(actions)
    &&& !s.finished ==> forall|i: int| 0 <= i < actions.len() ==> !is_terminal(#[trigger] actions[i])
    &&& s.finished ==> exists|i: int| 0 <= i < actions.len() && is_terminal(#[trigger] actions[i])
    &&& forall|i: int, j: int|
        0 <= i < j < actions.len() && is_terminal(#[trigger] actions[i]) ==> #[trigger] actions[j] is Continue
    &&& forall|i: int|
        0 <= i < actions.len() && inputs[i] is End && !(exists|k: int| 0 <= k < i && is_terminal(#[trigger] actions[k]))
            ==> #[trigger] actions[i] == ActionModel::<L, U>::Finish {
            text: token_text(actions.take(i)),
            finish_reason: actions[i]->Finish_finish_reason,
            usage: actions[i]->Finish_usage,
        }
    &&& greedy ==> forall|i: int| 0 <= i < actions.len() && (#[trigger] actions[i]) is Token ==> actions[i]->Token_logprob is None
}

proof fn lemma_protocol<L, U>(greedy: bool, inputs: Seq<StreamInput<L, U>>)
    ensures
        protocol_holds(greedy, inputs, run(initial_model::<U>(greedy), inputs).0, run(initial_model::<U>(greedy), inputs).1),
    decreases inputs.len(),
{
    if inputs.len() > 0 {
        let prev = inputs.drop_last();
        lemma_protocol(greedy, prev);
        let (s1, acts1) = run(initial_model::<U>(greedy), prev);
        let (s2, a) = spec_step(s1, inputs.last());
        let acts = acts1.push(a);
        assert(acts.drop_last() =~= acts1);
        assert(acts.take(acts1.len() as int) =~= acts1);
        assert forall|i: int| 0 <= i < acts1.len() implies acts[i] == acts1[i] && inputs[i] == prev[i] by {}
        if s1.finished {
            assert(a is Continue);
        }
        assert forall|i: int|
            0 <= i < acts.len() && inputs[i] is End && !(exists|k: int| 0 <= k < i && is_terminal(#[trigger] acts[k]))
            implies #[trigger] acts[i] == ActionModel::<L, U>::Finish {
            text: token_text(acts.take(i)),
            finish_reason: acts[i]->Finish_finish_reason,
            usage: acts[i]->Finish_usage,
        } by {
            if i < acts1.len() {
                assert(acts.take(i) =~= acts1.take(i));
                if exists|k: int| 0 <= k < i && is_terminal(#[trigger] acts1[k]) {
                    let k = choose|k: int| 0 <= k < i && is_terminal(#[trigger] acts1[k]);
                    assert(acts[k] == acts1[k]);
                }
            } else {
                if s1.finished {
                    let k = choose|k: int| 0 <= k < acts1.len() && is_terminal(#[trigger] acts1[k]);
                    assert(acts[k] == acts1[k]);
                }
            }
        }
        if s2.finished && !s1.finished {
            assert(is_terminal(acts[acts.len() - 1]));
        }
        if s2.finished && s1.finished {
            let k = choose|k: int| 0 <= k < acts1.len() && is_terminal(#[trigger] acts1[k]);
            assert(acts[k] == acts1[k]);
        }
    }
}

/// The event protocol of a streamed generation, for any sequence of engine
/// inputs: one action per input; nothing but `Continue` after the first
/// terminal `Done`/`Error`; when the stream has run dry (an `End` input) a
/// terminal event has been emitted, so there is exactly one; a `Done` made
/// because the stream ran dry carries exactly the text of all `Token`
/// events before it; and on the greedy path no token reports a
/// log-probability.
pub proof fn law_stream_protocol<L, U>(greedy: bool, inputs: Seq<StreamInput<L, U>>)
    ensures
        ({
            let (s, actions) = run(initial_model::<U>(greedy), inputs);
            &&& actions.len() == inputs.len()
            &&& forall|i: int, j: int|
                0 <= i < j < actions.len() && is_terminal(#[trigger] actions[i]) ==> #[trigger] actions[j] is Continue
            &&& (exists|e: int| 0 <= e < inputs.len() && #[trigger] inputs[e] is End) ==> exists|i: int|
                0 <= i < actions.len() && is_terminal(#[trigger] actions[i])
            &&& forall|i: int|
                0 <= i < actions.len() && inputs[i] is End && !(exists|k: int| 0 <= k < i && is_terminal(#[trigger] actions[k]))
                    ==> (#[trigger] actions[i]) is Finish && actions[i]->Finish_text == token_text(actions.take(i))
            &&& !s.finished ==> s.accumulated == token_text(actions)
            &&& greedy ==> forall|i: int|
                0 <= i < actions.len() && (#[trigger] actions[i]) is Token ==> actions[i]->Token_logprob is None
        }),
{
    lemma_protocol(greedy, inputs);
    let (s, actions) = run(initial_model::<U>(greedy), inputs);
    assert forall|i: int|
        0 <= i < actions.len() && inputs[i] is End && !(exists|k: int| 0 <= k < i && is_terminal(#[trigger] actions[k]))
        implies (#[trigger] actions[i]) is Finish && actions[i]->Finish_text == token_text(actions.take(i)) by {}
    if exists|e: int| 0 <= e < inputs.len() && #[trigger] inputs[e] is End {
        let e = choose|e: int| 0 <= e < inputs.len() && #[trigger] inputs[e] is End;
        if !(exists|k: int| 0 <= k < e && is_terminal(#[trigger] actions[k])) {
            assert(is_terminal(actions[e]));
        }
    }
}

/// The text an input carries: a chunk's delta (empty when it has none),
/// nothing for any other input.
pub open spec fn input_delta<L, U>(input: StreamInput<L, U>) -> Seq<char> {
    match input {
        StreamInput::Chunk { usage: _, choice: Some(c) } => match c.delta {
            Some(d) => d@,
            None => seq![],
        },
        _ => seq![],
    }
}

/// The text the chunks among `inputs` carry, in order.
pub open spec fn input_text<L, U>(inputs: Seq<StreamInput<L, U>>) -> Seq<char>
    decreases inputs.len(),
{
    if inputs.len() == 0 {
        seq![]
    } else {
        input_text(inputs.drop_last()) + input_delta(inputs.last())
    }
}

/// Whether an input ends the generation: a final response, an error, or the
/// stream running dry.
pub open spec fn ends_generation<L, U>(input: StreamInput<L, U>) -> bool {
    input is Final || input is Failure || input is End
}

/// A chunk with a non-empty delta, before the generation has ended, emits a
/// `Token` carrying exactly that delta (with the chunk's log-probability,
/// none on the greedy path), and the delta is appended to the text
/// accumulated so far.
pub proof fn law_chunk_emits_its_delta<L, U>(s: StreamModel<U>, usage: Option<U>, c: ChunkChoice<L>)
    requires
        !s.finished,
        c.delta matches Some(d) && d@.len() > 0,
    ensures
        ({
            let (s2, a) = spec_step(s, StreamInput::Chunk { usage, choice: Some(c) });
            &&& a == ActionModel::<L, U>::Token {
                delta: c.delta->0@,
                logprob: if s.greedy {
                    None
                } else {
                    c.logprob
                },
            }
            &&& s2.accumulated == s.accumulated + c.delta->0@
            &&& !s2.finished
        }),
{
}

proof fn lemma_text_before_end<L, U>(greedy: bool, inputs: Seq<StreamInput<L, U>>)
    requires
        forall|k: int| 0 <= k < inputs.len() ==> !ends_generation(#[trigger] inputs[k]),
    ensures
        !run(initial_model::<U>(greedy), inputs).0.finished,
        run(initial_model::<U>(greedy), inputs).0.accumulated == input_text(inputs),
    decreases inputs.len(),
{
    if inputs.len() > 0 {
        let prev = inputs.drop_last();
        assert forall|k: int| 0 <= k < prev.len() implies !ends_generation(#[trigger] prev[k]) by {
            assert(prev[k] == inputs[k]);
        }
        lemma_text_before_end(greedy, prev);
        assert(!ends_generation(inputs[inputs.len() - 1]));
    }
}

/// When the stream runs dry before anything else ended the generation, the
/// `Done` emitted carries exactly the text of the chunks received before
/// it, their deltas concatenated in order.
pub proof fn law_done_text_is_the_chunks<L, U>(greedy: bool, inputs: Seq<StreamInput<L, U>>, i: int)
    requires
        0 <= i < inputs.len(),
        inputs[i] is End,
        forall|k: int| 0 <= k < i ==> !ends_generation(#[trigger] inputs[k]),
    ensures
        run(initial_model::<U>(greedy), inputs).1[i] matches ActionModel::Finish { text, .. } && text == input_text(
            inputs.take(i),
        ),
{
    let before = inputs.take(i);
    assert forall|k: int| 0 <= k < before.len() implies !ends_generation(#[trigger] before[k]) by {
        assert(before[k] == inputs[k]);
    }
    lemma_text_before_end(greedy, before);
    lemma_run_prefix(initial_model::<U>(greedy), inputs, i + 1);
    assert(inputs.take(i + 1).drop_last() =~= before);
    assert(inputs.take(i + 1).last() == inputs[i]);
}

proof fn lemma_run_prefix<L, U>(s: StreamModel<U>, inputs: Seq<StreamInput<L, U>>, n: int)
    requires
        0 <= n <= inputs.len(),
    ensures
        run(s, inputs).1.len() == inputs.len(),
        forall|k: int| 0 <= k < n ==> #[trigger] run(s, inputs).1[k] == run(s, inputs.take(n)).1[k],
        run(s, inputs.take(n)).1.len() == n,
    decreases inputs.len(),
{
    if inputs.len() > 0 {
        let prev = inputs.drop_last();
        if n == inputs.len() {
            assert(inputs.take(n) =~= inputs);
            lemma_run_prefix(s, prev, n - 1);
        } else {
            lemma_run_prefix(s, prev, n);
            assert(prev.take(n) =~= inputs.take(n));
            assert forall|k: int| 0 <= k < n implies #[trigger] run(s, inputs).1[k] == run(s, inputs.take(n)).1[k] by {
                assert(run(s, inputs).1[k] == run(s, prev).1[k]);
            }
        }
    } else {
        assert(inputs.take(n) =~= inputs);
    }
}

} // verus!
