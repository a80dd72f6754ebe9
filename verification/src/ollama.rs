use vstd::prelude::*;

use crate::json::JsonValue;

verus! {

/// Who wrote a chat message.
#[derive(Clone, Copy, Debug, PartialEq, Eq)]
pub enum Role {
    System,
    User,
    Assistant,
    Tool,
}

/// One message of a chat as Ollama's `/api/chat` takes it.
#[derive(Debug)]
pub struct OllamaMessage {
    pub role: Role,
    pub content: String,
    pub tool_calls: Option<Vec<JsonValue>>,
}

} // verus!

verus! {

/// A request to Ollama's `/api/chat`: the whole conversation so far and the tools the
/// model may call.
#[derive(Debug)]
pub struct ChatRequest<'a> {
    pub model: String,
    pub stream: bool,
    pub messages: &'a [OllamaMessage],
    pub tools: &'a [crate::tools::Tool],
}

/// The streamed chat request for one round of a turn.
pub fn chat_request<'a>(
    model: &str,
    conversation: &'a crate::conversation::Conversation,
    tools: &'a [crate::tools::Tool],
) -> (r: ChatRequest<'a>)
    ensures
        r.model@ == model@,
        r.stream,
        r.messages@ == conversation@,
        r.tools@ == tools@,
{
    ChatRequest {
        model: String::from_str(model),
        stream: true,
        messages: conversation.messages(),
        tools,
    }
}

} // verus!
