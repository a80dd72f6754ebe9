use vstd::prelude::*;

use crate::json::JsonValue;

verus! {

/// Sample rate of synthesized speech, in Hz.
pub const TTS_SAMPLE_RATE: u32 = 24000;

/// A chat message from the client; `voice_response` asks for a spoken reply.
#[derive(Debug)]
pub struct TextMessagePayload {
    pub content: String,
    pub voice_response: bool,
}

/// A piece of the model's streamed reply; `done` marks the last one.
#[derive(Debug)]
pub struct TextChunkPayload {
    pub content: String,
    pub done: bool,
}

/// A tool call that the model made.
#[derive(Debug)]
pub struct ToolCallPayload {
    pub name: String,
    pub args: JsonValue,
}

/// What a tool call returned.
#[derive(Debug)]
pub struct ToolResultPayload {
    pub name: String,
    pub result: String,
}

/// An error, with a machine-readable code.
#[derive(Debug)]
pub struct ErrorPayload {
    pub message: String,
    pub code: String,
}

/// The text that speech recognition heard.
#[derive(Debug)]
pub struct TranscriptPayload {
    pub text: String,
}

/// The format of the speech audio that follows.
#[derive(Debug)]
pub struct TtsStartPayload {
    pub sample_rate: u32,
    pub channels: u16,
    pub format: String,
}

/// The sentence whose audio follows.
#[derive(Debug)]
pub struct TtsSentencePayload {
    pub text: String,
}

/// The end of the speech audio, with its format.
#[derive(Debug)]
pub struct TtsEndPayload {
    pub sample_rate: u32,
    pub channels: u16,
    pub format: String,
}

/// A WebSocket message, by type.
#[derive(Debug)]
pub enum Message {
    TextMessage(TextMessagePayload),
    AudioEnd,
    Transcript(TranscriptPayload),
    TtsStart(TtsStartPayload),
    TtsSentence(TtsSentencePayload),
    TtsEnd(TtsEndPayload),
    TextChunk(TextChunkPayload),
    ToolCall(ToolCallPayload),
    ToolResult(ToolResultPayload),
    Error(ErrorPayload),
}

/// A message with the id of the request that it belongs to.
#[derive(Debug)]
pub struct Envelope {
    pub request_id: Option<String>,
    pub message: Message,
}

/// Views of an optional string.
pub open spec fn opt_view(s: Option<String>) -> Option<Seq<char>> {
    match s {
        Some(x) => Some(x@),
        None => None,
    }
}

/// A copy of an optional request id.
pub fn copy_request_id(id: &Option<String>) -> (r: Option<String>)
    ensures
        opt_view(r) == opt_view(*id),
{
    match id {
        Some(s) => Some(s.clone()),
        None => None,
    }
}

/// `e` is an error for `request_id` with this code and message.
pub open spec fn is_error(e: Envelope, request_id: Option<Seq<char>>, code: Seq<char>, message: Seq<
    char,
>) -> bool {
    &&& opt_view(e.request_id) == request_id
    &&& e.message matches Message::Error(p) && p.code@ == code && p.message@ == message
}

/// An error envelope.
pub fn error_envelope(request_id: &Option<String>, code: &str, message: &str) -> (e: Envelope)
    ensures
        is_error(e, opt_view(*request_id), code@, message@),
{
    Envelope {
        request_id: copy_request_id(request_id),
        message: Message::Error(
            ErrorPayload { message: String::from_str(message), code: String::from_str(code) },
        ),
    }
}

/// A piece of the streamed reply to `request_id`.
pub fn text_chunk_envelope(request_id: &Option<String>, token: &str, done: bool) -> (e: Envelope)
    ensures
        opt_view(e.request_id) == opt_view(*request_id),
        e.message matches Message::TextChunk(p) && p.content@ == token@ && p.done == done,
{
    Envelope {
        request_id: copy_request_id(request_id),
        message: Message::TextChunk(TextChunkPayload { content: String::from_str(token), done }),
    }
}

/// The start of the speech audio for `request_id`: mono 32-bit float samples,
/// little-endian, at the synthesis rate.
pub fn tts_start_envelope(request_id: &Option<String>) -> (e: Envelope)
    ensures
        opt_view(e.request_id) == opt_view(*request_id),
        e.message matches Message::TtsStart(p) && p.sample_rate == TTS_SAMPLE_RATE && p.channels
            == 1 && p.format@ == "f32le"@,
{
    Envelope {
        request_id: copy_request_id(request_id),
        message: Message::TtsStart(
            TtsStartPayload {
                sample_rate: TTS_SAMPLE_RATE,
                channels: 1,
                format: String::from_str("f32le"),
            },
        ),
    }
}

/// The sentence of `request_id` whose audio follows.
pub fn tts_sentence_envelope(request_id: &Option<String>, text: &str) -> (e: Envelope)
    ensures
        opt_view(e.request_id) == opt_view(*request_id),
        e.message matches Message::TtsSentence(p) && p.text@ == text@,
{
    Envelope {
        request_id: copy_request_id(request_id),
        message: Message::TtsSentence(TtsSentencePayload { text: String::from_str(text) }),
    }
}

/// The end of the speech audio for `request_id`.
pub fn tts_end_envelope(request_id: &Option<String>) -> (e: Envelope)
    ensures
        opt_view(e.request_id) == opt_view(*request_id),
        e.message matches Message::TtsEnd(p) && p.sample_rate == TTS_SAMPLE_RATE && p.channels
            == 1 && p.format@ == "f32le"@,
{
    Envelope {
        request_id: copy_request_id(request_id),
        message: Message::TtsEnd(
            TtsEndPayload {
                sample_rate: TTS_SAMPLE_RATE,
                channels: 1,
                format: String::from_str("f32le"),
            },
        ),
    }
}

/// What speech recognition heard, for `request_id`.
pub fn transcript_envelope(request_id: &Option<String>, text: &str) -> (e: Envelope)
    ensures
        opt_view(e.request_id) == opt_view(*request_id),
        e.message matches Message::Transcript(p) && p.text@ == text@,
{
    Envelope {
        request_id: copy_request_id(request_id),
        message: Message::Transcript(TranscriptPayload { text: String::from_str(text) }),
    }
}

} // verus!
