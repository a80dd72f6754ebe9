use vstd::prelude::*;

use crate::json::JsonValue;
use crate::ollama::{OllamaMessage, Role};

verus! {

/// Size of the model's context window, in tokens.
pub const CONTEXT_WINDOW: usize = 4096;

/// Tokens kept free for the model's reply.
pub const RESPONSE_BUFFER: usize = 512;

/// Estimated tokens of one message: a quarter of its characters, rounded down.
pub open spec fn message_tokens(m: OllamaMessage) -> nat {
    m.content@.len() / 4
}

/// Estimated tokens of a history.
pub open spec fn history_tokens(h: Seq<OllamaMessage>) -> nat
    decreases h.len(),
{
    if h.len() == 0 {
        0
    } else {
        history_tokens(h.drop_last()) + message_tokens(h.last())
    }
}

/// The sliding window: while the history is over budget and holds more than the
/// system prompt, the oldest message after the system prompt is dropped.
pub open spec fn windowed(h: Seq<OllamaMessage>, max_tokens: nat) -> Seq<OllamaMessage>
    decreases h.len(),
{
    if history_tokens(h) >= max_tokens && h.len() > 1 {
        windowed(h.remove(1), max_tokens)
    } else {
        h
    }
}

/// The token budget of every conversation.
pub open spec fn budget() -> nat {
    (CONTEXT_WINDOW - RESPONSE_BUFFER) as nat
}

/// One connection's chat history, opened by the system prompt and held within the
/// context window by a sliding window.
pub struct Conversation {
    history: Vec<OllamaMessage>,
    max_tokens: usize,
}

/// `m` is a message from `role` with text `content` and no tool calls.
pub open spec fn is_plain_message(m: OllamaMessage, role: Role, content: Seq<char>) -> bool {
    m.role == role && m.content@ == content && m.tool_calls is None
}

impl View for Conversation {
    type V = Seq<OllamaMessage>;

    closed spec fn view(&self) -> Seq<OllamaMessage> {
        self.history@
    }
}

impl Conversation {
    /// The history opens with the system prompt, and the budget is fixed.
    pub closed spec fn well_formed(&self) -> bool {
        &&& self.history@.len() >= 1
        &&& self.history@[0].role == Role::System
        &&& self.max_tokens == budget()
    }

    /// The token budget that the sliding window keeps the history within.
    pub closed spec fn max_tokens(&self) -> nat {
        self.max_tokens as nat
    }

    /// A conversation holding only the system prompt.
    pub fn new(system_prompt: &str) -> (c: Self)
        ensures
            c@.len() == 1,
            is_plain_message(c@[0], Role::System, system_prompt@),
            c.max_tokens() == budget(),
            c.well_formed(),
    {
        let mut history: Vec<OllamaMessage> = Vec::new();
        history.push(
            OllamaMessage {
                role: Role::System,
                content: String::from_str(system_prompt),
                tool_calls: None,
            },
        );
        Conversation { history, max_tokens: CONTEXT_WINDOW - RESPONSE_BUFFER }
    }

    /// Records the assistant's tool calls. The window is not enforced here.
    pub fn add_astra_tool_call(&mut self, tool_calls: Vec<JsonValue>)
        requires
            old(self).well_formed(),
        ensures
            final(self).well_formed(),
            final(self)@[0] == old(self)@[0],
            final(self)@.len() == old(self)@.len() + 1,
            final(self)@.take(old(self)@.len() as int) == old(self)@,
            final(self)@.last().role == Role::Assistant,
            final(self)@.last().content@ == Seq::<char>::empty(),
            final(self)@.last().tool_calls == Some(tool_calls),
            final(self).max_tokens() == old(self).max_tokens(),
    {
        let msg = OllamaMessage {
            role: Role::Assistant,
            content: String::new(),
            tool_calls: Some(tool_calls),
        };
        self.history.push(msg);
        assert(self.history@.take(self.history@.len() - 1) =~= old(self)@);
    }

    /// Records a tool's result. The window is not enforced here.
    pub fn add_tool_result(&mut self, content: &str)
        requires
            old(self).well_formed(),
        ensures
            final(self).well_formed(),
            final(self)@[0] == old(self)@[0],
            final(self)@.len() == old(self)@.len() + 1,
            final(self)@.take(old(self)@.len() as int) == old(self)@,
            is_plain_message(final(self)@.last(), Role::Tool, content@),
            final(self).max_tokens() == old(self).max_tokens(),
    {
        let msg = OllamaMessage {
            role: Role::Tool,
            content: String::from_str(content),
            tool_calls: None,
        };
        self.history.push(msg);
        assert(self.history@.take(self.history@.len() - 1) =~= old(self)@);
    }

    /// Records the user's turn, then enforces the sliding window.
    pub fn add_user_turn(&mut self, content: &str)
        requires
            old(self).well_formed(),
        ensures
            final(self).well_formed(),
            final(self)@[0] == old(self)@[0],
            exists|m: OllamaMessage|
                is_plain_message(m, Role::User, content@) && final(self)@ == windowed(
                    old(self)@.push(m),
                    budget(),
                ),
            final(self).max_tokens() == old(self).max_tokens(),
    {
        let msg = OllamaMessage {
            role: Role::User,
            content: String::from_str(content),
            tool_calls: None,
        };
        let ghost m = msg;
        self.history.push(msg);
        self.enforce_window();
        assert(is_plain_message(m, Role::User, content@));
    }

    /// Records the assistant's reply, then enforces the sliding window.
    pub fn add_astra_turn(&mut self, content: &str)
        requires
            old(self).well_formed(),
        ensures
            final(self).well_formed(),
            final(self)@[0] == old(self)@[0],
            exists|m: OllamaMessage|
                is_plain_message(m, Role::Assistant, content@) && final(self)@ == windowed(
                    old(self)@.push(m),
                    budget(),
                ),
            final(self).max_tokens() == old(self).max_tokens(),
    {
        let msg = OllamaMessage {
            role: Role::Assistant,
            content: String::from_str(content),
            tool_calls: None,
        };
        let ghost m = msg;
        self.history.push(msg);
        self.enforce_window();
        assert(is_plain_message(m, Role::Assistant, content@));
    }

    /// The whole history, system prompt first.
    pub fn messages(&self) -> (r: &[OllamaMessage])
        ensures
            r@ == self@,
    {
        self.history.as_slice()
    }

    /// The estimated token count of the history, saturated at `usize::MAX`.
    fn estimate_tokens(&self) -> (r: usize)
        ensures
            r as int == if history_tokens(self@) > usize::MAX {
                usize::MAX as int
            } else {
                history_tokens(self@) as int
            },
    {
        let mut sum: usize = 0;
        let mut i: usize = 0;
        while i < self.history.len()
            invariant
                i <= self.history@.len(),
                sum as int == if history_tokens(self.history@.take(i as int)) > usize::MAX {
                    usize::MAX as int
                } else {
                    history_tokens(self.history@.take(i as int)) as int
                },
            decreases self.history.len() - i,
        {
            let t = char_count(&self.history[i].content) / 4;
            assert(self.history@.take(i + 1).drop_last() =~= self.history@.take(i as int));
            sum = sum.saturating_add(t);
            i = i + 1;
        }
        assert(self.history@.take(i as int) =~= self.history@);
        sum
    }

    fn enforce_window(&mut self)
        requires
            old(self).well_formed(),
        ensures
            final(self).well_formed(),
            final(self)@ == windowed(old(self)@, budget()),
            final(self)@[0] == old(self)@[0],
    {
        loop
            invariant
                self.history@.len() >= 1,
                self.history@[0].role == Role::System,
                self.max_tokens == budget(),
                windowed(old(self)@, budget()) == windowed(self.history@, budget()),
                self.history@[0] == old(self)@[0],
            ensures
                self.history@.len() >= 1,
                self.history@[0].role == Role::System,
                self.max_tokens == budget(),
                self.history@[0] == old(self)@[0],
                windowed(old(self)@, budget()) == self.history@,
            decreases self.history@.len(),
        {
            let est = self.estimate_tokens();
            if est >= self.max_tokens && self.history.len() > 1 {
                self.history.remove(1);
            } else {
                break;
            }
        }
    }
}

/// Number of characters of `s` (`s.chars().count()`).
fn char_count(s: &String) -> (n: usize)
    ensures
        n == s@.len(),
{
    s.as_str().unicode_len()
}

} // verus!

verus! {

proof fn lemma_tokens_first(h: Seq<OllamaMessage>)
    requires
        h.len() >= 1,
    ensures
        history_tokens(h) >= message_tokens(h[0]),
    decreases h.len(),
{
    if h.len() > 1 {
        lemma_tokens_first(h.drop_last());
    }
}

proof fn lemma_tokens_first_last(h: Seq<OllamaMessage>)
    requires
        h.len() >= 2,
    ensures
        history_tokens(h) >= message_tokens(h[0]) + message_tokens(h.last()),
{
    lemma_tokens_first(h.drop_last());
}

/// The sliding window never drops the system prompt.
pub proof fn law_window_keeps_system_prompt(h: Seq<OllamaMessage>, max_tokens: nat)
    requires
        h.len() >= 1,
    ensures
        windowed(h, max_tokens).len() >= 1,
        windowed(h, max_tokens)[0] == h[0],
    decreases h.len(),
{
    if history_tokens(h) >= max_tokens && h.len() > 1 {
        law_window_keeps_system_prompt(h.remove(1), max_tokens);
    }
}

/// After the window is enforced the history fits the budget, unless only the system
/// prompt is left.
pub proof fn law_window_within_budget(h: Seq<OllamaMessage>, max_tokens: nat)
    ensures
        history_tokens(windowed(h, max_tokens)) < max_tokens || windowed(h, max_tokens).len()
            <= 1,
    decreases h.len(),
{
    if history_tokens(h) >= max_tokens && h.len() > 1 {
        law_window_within_budget(h.remove(1), max_tokens);
    }
}

/// The window only drops the oldest messages after the system prompt: what is kept is
/// the system prompt followed by the newest messages, in order.
pub proof fn law_window_drops_oldest(h: Seq<OllamaMessage>, max_tokens: nat)
    requires
        h.len() >= 1,
    ensures
        windowed(h, max_tokens).len() <= h.len(),
        windowed(h, max_tokens) == seq![h[0]] + h.subrange(
            h.len() - windowed(h, max_tokens).len() + 1,
            h.len() as int,
        ),
    decreases h.len(),
{
    if history_tokens(h) >= max_tokens && h.len() > 1 {
        let g = h.remove(1);
        law_window_drops_oldest(g, max_tokens);
        let w = windowed(g, max_tokens);
        assert(g.subrange(g.len() - w.len() + 1, g.len() as int) =~= h.subrange(
            h.len() - w.len() + 1,
            h.len() as int,
        ));
    } else {
        assert(h =~= seq![h[0]] + h.subrange(1, h.len() as int));
    }
}

/// A history within its budget is left as it is.
pub proof fn law_window_keeps_history_within_budget(h: Seq<OllamaMessage>, max_tokens: nat)
    requires
        history_tokens(h) < max_tokens,
    ensures
        windowed(h, max_tokens) == h,
{
}

/// The newest message survives the window whenever it fits beside the system prompt.
pub proof fn law_window_keeps_latest(h: Seq<OllamaMessage>, max_tokens: nat)
    requires
        h.len() >= 2,
        message_tokens(h[0]) + message_tokens(h.last()) < max_tokens,
    ensures
        windowed(h, max_tokens).len() >= 2,
        windowed(h, max_tokens).last() == h.last(),
    decreases h.len(),
{
    if history_tokens(h) >= max_tokens && h.len() > 1 {
        lemma_tokens_first_last(h);
        if h.len() == 2 {
            assert(history_tokens(h) == history_tokens(h.drop_last()) + message_tokens(h.last()));
            assert(h.drop_last().drop_last().len() == 0);
            assert(history_tokens(h.drop_last().drop_last()) == 0);
            assert(h.drop_last().last() == h[0]);
            assert(history_tokens(h.drop_last()) == message_tokens(h[0]));
        }
        let g = h.remove(1);
        assert(g[0] == h[0]);
        assert(g.last() == h.last());
        law_window_keeps_latest(g, max_tokens);
    }
}

} // verus!
