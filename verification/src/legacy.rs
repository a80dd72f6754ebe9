//! The first version of the server: a plain HTTP front end to Ollama's generate API,
//! kept beside the WebSocket server.
use vstd::prelude::*;

use crate::tools::{tool_views, Tool};

verus! {

/// A chat message whose role is free text.
#[derive(Debug)]
pub struct OllamaMessage {
    pub role: String,
    pub content: String,
}

/// The body of a `generate` request from an HTTP client.
#[derive(Debug)]
pub struct GenerateRequest {
    pub prompt: String,
}

/// A request to Ollama's `/api/generate`.
#[derive(Debug)]
pub struct GenRequest {
    pub model: String,
    pub stream: bool,
    pub prompt: String,
    pub tools: Vec<Tool>,
}

/// A request to Ollama's `/api/chat`.
#[derive(Debug)]
pub struct ChatRequest {
    pub model: String,
    pub stream: bool,
    pub messages: Vec<OllamaMessage>,
    pub tools: Vec<Tool>,
}

/// The model that the generate endpoint asks for.
pub open spec fn generate_model_name() -> Seq<char> {
    "qwen3.5:9b"@
}

/// The non-streamed generate request for a client's prompt.
pub fn gen_request(payload: GenerateRequest, tools: Vec<Tool>) -> (r: GenRequest)
    ensures
        r.model@ == generate_model_name(),
        !r.stream,
        r.prompt@ == payload.prompt@,
        tool_views(r.tools@) == tool_views(tools@),
{
    GenRequest {
        model: String::from_str("qwen3.5:9b"),
        stream: false,
        prompt: payload.prompt,
        tools,
    }
}

/// Estimated tokens of one message: a quarter of its characters, rounded down.
pub open spec fn message_tokens(m: OllamaMessage) -> nat {
    m.content@.len() / 4
}

/// Estimated tokens of a history.
pub open spec fn history_tokens(h: Seq<OllamaMessage>) -> nat
    decreases h.len(),
{
    if h.len() == 0 {
        0
    } else {
        history_tokens(h.drop_last()) + message_tokens(h.last())
    }
}

/// The sliding window of this version: while over budget with more than one message,
/// the oldest message goes.
pub open spec fn windowed(h: Seq<OllamaMessage>, max_tokens: nat) -> Seq<OllamaMessage>
    decreases h.len(),
{
    if history_tokens(h) >= max_tokens && h.len() > 1 {
        windowed(h.drop_first(), max_tokens)
    } else {
        h
    }
}

/// A chat history with a token budget.
pub struct Conversation {
    history: Vec<OllamaMessage>,
    max_tokens: usize,
}

impl View for Conversation {
    type V = Seq<OllamaMessage>;

    closed spec fn view(&self) -> Seq<OllamaMessage> {
        self.history@
    }
}

impl Conversation {
    /// The token budget.
    pub closed spec fn max_tokens(&self) -> nat {
        self.max_tokens as nat
    }

    /// An empty history with a budget of `max_tokens`.
    pub fn new(max_tokens: usize) -> (c: Self)
        ensures
            c@ == Seq::<OllamaMessage>::empty(),
            c.max_tokens() == max_tokens,
    {
        Conversation { history: Vec::new(), max_tokens }
    }

    fn estimate_tokens(&self) -> (r: usize)
        ensures
            r as int == if history_tokens(self@) > usize::MAX {
                usize::MAX as int
            } else {
                history_tokens(self@) as int
            },
    {
        let mut sum: usize = 0;
        let mut i: usize = 0;
        while i < self.history.len()
            invariant
                i <= self.history@.len(),
                sum as int == if history_tokens(self.history@.take(i as int)) > usize::MAX {
                    usize::MAX as int
                } else {
                    history_tokens(self.history@.take(i as int)) as int
                },
            decreases self.history.len() - i,
        {
            let t = self.history[i].content.as_str().unicode_len() / 4;
            assert(self.history@.take(i + 1).drop_last() =~= self.history@.take(i as int));
            sum = sum.saturating_add(t);
            i = i + 1;
        }
        assert(self.history@.take(i as int) =~= self.history@);
        sum
    }

    fn enforce_window(&mut self)
        ensures
            final(self)@ == windowed(old(self)@, old(self).max_tokens()),
            final(self).max_tokens() == old(self).max_tokens(),
    {
        loop
            invariant
                self.max_tokens == old(self).max_tokens,
                windowed(old(self)@, old(self).max_tokens()) == windowed(
                    self.history@,
                    self.max_tokens as nat,
                ),
            ensures
                self.max_tokens == old(self).max_tokens,
                windowed(old(self)@, old(self).max_tokens()) == self.history@,
            decreases self.history@.len(),
        {
            let est = self.estimate_tokens();
            if est >= self.max_tokens && self.history.len() > 1 {
                self.history.remove(0);
            } else {
                break;
            }
        }
    }
}

} // verus!
