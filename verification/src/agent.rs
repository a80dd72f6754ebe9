use vstd::prelude::*;

use crate::chars::{chars_of, find_char, find_from, lemma_find_from, string_of, trim, trim_range};
use crate::conversation::{budget, is_plain_message, windowed, Conversation};
use crate::json::{
    array_of, as_bool, as_text, bool_of, field_of, field_of_opt, field_opt, text_of, JsonValue,
};
use crate::ollama::{OllamaMessage, Role};
use crate::protocol::{
    error_envelope, is_error, opt_view, transcript_envelope, Envelope, Message,
};
use crate::tools::{plan_tool_call, planned, ToolAction};
use crate::tts::{split_sentences, spoken_text, string_views, strip_markdown, take_sentences};

verus! {

// ---------------------------------------------------------------------------
// The model's streamed reply
// ---------------------------------------------------------------------------

/// Reassembles the model's streamed reply: bytes arrive in chunks, each complete line
/// is one JSON object carrying a token of text, tool calls, or the end of the reply.
pub struct StreamDecoder {
    line_buf: String,
    full_content: String,
    tool_calls: Vec<JsonValue>,
}

/// What one line of the stream carried.
#[derive(Debug)]
pub struct StreamEvent {
    /// The token of text (empty when the line had none).
    pub token: String,
    /// The line ends the reply.
    pub done: bool,
    /// The line is worth a `text_chunk` to the client: it has text or ends the reply.
    pub send_chunk: bool,
}

/// `message.content` of a stream line, or nothing.
pub open spec fn line_token(line: JsonValue) -> Seq<char> {
    match text_of(field_opt(field_of(line, "message"@), "content"@)) {
        Some(t) => t,
        None => Seq::empty(),
    }
}

/// `done` of a stream line, `false` when absent.
pub open spec fn line_done(line: JsonValue) -> bool {
    match bool_of(field_of(line, "done"@)) {
        Some(b) => b,
        None => false,
    }
}

/// `message.tool_calls` of a stream line, or none.
pub open spec fn line_tool_calls(line: JsonValue) -> Seq<JsonValue> {
    match array_of(field_opt(field_of(line, "message"@), "tool_calls"@)) {
        Some(items) => items,
        None => Seq::empty(),
    }
}

/// Moves the member `key` out of an object.
fn take_field(v: JsonValue, key: &str) -> (r: Option<JsonValue>)
    ensures
        r == field_of(v, key@),
{
    match v {
        JsonValue::Object(mut ms) => {
            let ghost orig = ms@;
            let mut i: usize = 0;
            assert(ms@.skip(0) =~= ms@);
            while i < ms.len()
                invariant
                    i <= ms.len(),
                    ms@ == orig,
                    field_of(v, key@) == crate::json::member_lookup(orig, key@),
                    crate::json::member_lookup(orig, key@) == crate::json::member_lookup(
                        orig.skip(i as int),
                        key@,
                    ),
                decreases ms.len() - i,
            {
                assert(orig.skip(i as int).drop_first() =~= orig.skip(i + 1));
                assert(orig.skip(i as int)[0] == orig[i as int]);
                let same = {
                    let k = String::from_str(key);
                    ms[i].key == k
                };
                if same {
                    let m = ms.remove(i);
                    return Some(m.value);
                }
                i = i + 1;
            }
            None
        },
        _ => None,
    }
}

impl StreamDecoder {
    /// The text received but not yet taken as lines.
    pub closed spec fn pending(&self) -> Seq<char> {
        self.line_buf@
    }

    /// The reply's text so far.
    pub closed spec fn content(&self) -> Seq<char> {
        self.full_content@
    }

    /// The reply's tool calls so far.
    pub closed spec fn calls(&self) -> Seq<JsonValue> {
        self.tool_calls@
    }

    /// Nothing received yet.
    pub fn new() -> (d: Self)
        ensures
            d.pending() == Seq::<char>::empty(),
            d.content() == Seq::<char>::empty(),
            d.calls() == Seq::<JsonValue>::empty(),
    {
        StreamDecoder { line_buf: String::new(), full_content: String::new(), tool_calls: Vec::new() }
    }

    /// Adds received text.
    pub fn push_text(&mut self, text: &str)
        ensures
            final(self).pending() == old(self).pending() + text@,
            final(self).content() == old(self).content(),
            final(self).calls() == old(self).calls(),
    {
        self.line_buf.append(text);
    }

    /// Takes the next complete line, trimmed, if a line break has arrived.
    pub fn next_line(&mut self) -> (r: Option<String>)
        ensures
            match find_from(old(self).pending(), '\n', 0) {
                None => r is None && final(self).pending() == old(self).pending(),
                Some(pos) => r matches Some(l) && l@ == trim(old(self).pending().take(pos + 1 as int))
                    && final(self).pending() == old(self).pending().skip(pos + 1 as int),
            },
            final(self).content() == old(self).content(),
            final(self).calls() == old(self).calls(),
    {
        let v = chars_of(self.line_buf.as_str());
        assert(v@.subrange(0, v.len() as int) =~= v@);
        match find_char(&v, 0, v.len(), '\n') {
            None => None,
            Some(pos) => {
                let (a, b) = trim_range(&v, 0, pos + 1);
                let line = string_of(&v, a, b);
                let rest = string_of(&v, pos + 1, v.len());
                assert(v@.subrange(0, pos + 1) =~= v@.take(pos + 1));
                assert(v@.subrange(pos + 1, v.len() as int) =~= v@.skip(pos + 1));
                self.line_buf = rest;
                Some(line)
            },
        }
    }

    /// Takes in one parsed line: its token joins the reply's text and its tool calls
    /// join the reply's tool calls.
    pub fn apply_line(&mut self, line: JsonValue) -> (e: StreamEvent)
        ensures
            e.token@ == line_token(line),
            e.done == line_done(line),
            e.send_chunk == (line_token(line).len() > 0 || line_done(line)),
            final(self).content() == old(self).content() + line_token(line),
            final(self).calls() == old(self).calls() + line_tool_calls(line),
            final(self).pending() == old(self).pending(),
    {
        let ghost l = line;
        let token = match as_text(field_of_opt(line.field("message"), "content")) {
            Some(t) => t.clone(),
            None => String::new(),
        };
        let done = match as_bool(line.field("done")) {
            Some(b) => b,
            None => false,
        };
        self.full_content.append(token.as_str());
        let ghost before = self.tool_calls@;
        match take_field(line, "message") {
            Some(msg) => match take_field(msg, "tool_calls") {
                Some(JsonValue::Array(mut items)) => {
                    self.tool_calls.append(&mut items);
                },
                _ => {
                    assert(self.tool_calls@ =~= before + Seq::<JsonValue>::empty());
                },
            },
            None => {
                assert(self.tool_calls@ =~= before + Seq::<JsonValue>::empty());
            },
        }
        let send_chunk = token.as_str().unicode_len() > 0 || done;
        StreamEvent { token, done, send_chunk }
    }
}

/// Every tool call of a stream line is collected: when the line's `message.tool_calls`
/// is an array, all of its items, in order and none twice, are what the line adds to
/// the calls; otherwise it adds none.
pub proof fn law_all_tool_calls_collected(line: JsonValue)
    ensures
        match field_opt(field_of(line, "message"@), "tool_calls"@) {
            Some(JsonValue::Array(items)) => line_tool_calls(line) == items@
                && line_tool_calls(line).len() == items@.len(),
            _ => line_tool_calls(line).len() == 0,
        },
{
}

/// `function.name` of a tool call, or nothing.
pub open spec fn call_name(call: JsonValue) -> Seq<char> {
    match text_of(field_opt(field_of(call, "function"@), "name"@)) {
        Some(n) => n,
        None => Seq::empty(),
    }
}

/// `function.arguments` of a tool call; `null` when absent.
pub open spec fn call_args(call: JsonValue) -> JsonValue {
    match field_opt(field_of(call, "function"@), "arguments"@) {
        Some(a) => a,
        None => JsonValue::Null,
    }
}

/// The actions that the tool calls ask for, in order.
pub fn plan_tool_calls(calls: &Vec<JsonValue>) -> (actions: Vec<ToolAction>)
    ensures
        actions@.len() == calls@.len(),
        forall|i: int|
            0 <= i < calls@.len() ==> planned(
                #[trigger] actions@[i],
                call_name(calls@[i]),
                call_args(calls@[i]),
            ),
{
    let mut actions: Vec<ToolAction> = Vec::new();
    let mut i: usize = 0;
    while i < calls.len()
        invariant
            i <= calls@.len(),
            actions@.len() == i,
            forall|j: int|
                0 <= j < i ==> planned(
                    #[trigger] actions@[j],
                    call_name(calls@[j]),
                    call_args(calls@[j]),
                ),
        decreases calls.len() - i,
    {
        let call = &calls[i];
        let function = call.field("function");
        let name = match as_text(field_of_opt(function, "name")) {
            Some(n) => n.clone(),
            None => String::new(),
        };
        let null = JsonValue::Null;
        let args = match field_of_opt(function, "arguments") {
            Some(a) => a,
            None => &null,
        };
        let action = plan_tool_call(name.as_str(), args);
        actions.push(action);
        i = i + 1;
    }
    actions
}

/// Ends one round of the reply. Without tool calls the reply's text becomes the
/// assistant's turn and the turn is over (`None`). Otherwise the tool calls are recorded
/// and the actions they ask for are returned, to be run and answered before the model is
/// asked again.
pub fn conclude_reply(conversation: &mut Conversation, decoder: StreamDecoder) -> (r: Option<
    Vec<ToolAction>,
>)
    requires
        old(conversation).well_formed(),
    ensures
        final(conversation).well_formed(),
        decoder.calls().len() == 0 ==> r is None && exists|m: OllamaMessage|
            is_plain_message(m, Role::Assistant, decoder.content()) && final(conversation)@
                == windowed(old(conversation)@.push(m), budget()),
        decoder.calls().len() > 0 ==> r is Some,
        r matches Some(actions) ==> actions@.len() == decoder.calls().len() && (forall|i: int|
            0 <= i < actions@.len() ==> planned(
                #[trigger] actions@[i],
                call_name(decoder.calls()[i]),
                call_args(decoder.calls()[i]),
            )),
        decoder.calls().len() > 0 ==> final(conversation)@.len() == old(conversation)@.len() + 1
            && final(conversation)@.take(old(conversation)@.len() as int) == old(conversation)@
            && final(conversation)@.last().role == Role::Assistant
            && final(conversation)@.last().content@ == Seq::<char>::empty(),
        decoder.calls().len() > 0 ==> (final(conversation)@.last().tool_calls matches Some(tc)
            && tc@ == decoder.calls()),
{
    let StreamDecoder { line_buf: _, full_content, tool_calls } = decoder;
    assert(full_content@ == decoder.content());
    assert(tool_calls@ == decoder.calls());
    if tool_calls.len() == 0 {
        conversation.add_astra_turn(full_content.as_str());
        None
    } else {
        let actions = plan_tool_calls(&tool_calls);
        conversation.add_astra_tool_call(tool_calls);
        Some(actions)
    }
}

// ---------------------------------------------------------------------------
// Speaking the reply
// ---------------------------------------------------------------------------

/// Speech for one turn: tokens are buffered into sentences, and each sentence is
/// spoken as soon as it completes. The audio stream is opened before the first
/// sentence that has something to say.
pub struct TtsStream {
    unspoken: String,
    started: bool,
}

/// A sentence ready to be synthesized.
#[derive(Debug)]
pub struct SpeechPlan {
    /// The sentence as it should be spoken.
    pub text: String,
    /// The audio stream must be opened first (`tts_start`).
    pub send_start: bool,
}

impl TtsStream {
    /// Text received but not yet spoken.
    pub closed spec fn unspoken(&self) -> Seq<char> {
        self.unspoken@
    }

    /// The audio stream has been opened.
    pub closed spec fn is_started(&self) -> bool {
        self.started
    }

    /// Nothing heard, nothing spoken.
    pub fn new() -> (s: Self)
        ensures
            s.unspoken() == Seq::<char>::empty(),
            !s.is_started(),
    {
        TtsStream { unspoken: String::new(), started: false }
    }

    /// Adds a token of the reply and returns the sentences it completes.
    pub fn feed(&mut self, token: &str) -> (sentences: Vec<String>)
        ensures
            string_views(sentences@) == split_sentences(old(self).unspoken() + token@).0,
            final(self).unspoken() == split_sentences(old(self).unspoken() + token@).1,
            final(self).is_started() == old(self).is_started(),
    {
        self.unspoken.append(token);
        take_sentences(&mut self.unspoken)
    }

    /// Prepares a sentence for speech: `None` when nothing of it is pronounceable;
    /// otherwise the text to speak, and whether the audio stream must be opened first,
    /// which is so until the stream has been opened.
    pub fn prepare(&self, sentence: &str) -> (r: Option<SpeechPlan>)
        ensures
            match r {
                None => speech_plan(self.is_started(), sentence@) is None,
                Some(p) => speech_plan(self.is_started(), sentence@) == Some(
                    (p.text@, p.send_start),
                ),
            },
    {
        let text = strip_markdown(sentence);
        if text.as_str().unicode_len() == 0 {
            return None;
        }
        Some(SpeechPlan { text, send_start: !self.started })
    }

    /// Records that the audio stream has been opened (`tts_start` went out).
    pub fn opened(&mut self)
        ensures
            final(self).is_started(),
            final(self).unspoken() == old(self).unspoken(),
    {
        self.started = true;
    }

    /// The trailing partial sentence, trimmed, if there is one; the buffer is emptied.
    pub fn take_tail(&mut self) -> (r: Option<String>)
        ensures
            trim(old(self).unspoken()).len() > 0 ==> (r matches Some(t) && t@ == trim(
                old(self).unspoken(),
            )),
            trim(old(self).unspoken()).len() == 0 ==> r is None,
            final(self).unspoken() == Seq::<char>::empty(),
            final(self).is_started() == old(self).is_started(),
    {
        let v = chars_of(self.unspoken.as_str());
        let (a, b) = trim_range(&v, 0, v.len());
        assert(v@.subrange(0, v.len() as int) =~= v@);
        self.unspoken = String::new();
        if a < b {
            Some(string_of(&v, a, b))
        } else {
            None
        }
    }

    /// The audio stream was opened, so it must be closed (`tts_end`).
    pub fn started(&self) -> (r: bool)
        ensures
            r == self.is_started(),
    {
        self.started
    }
}

/// How a sentence is to be spoken on a stream that is (`started`) or is not yet open:
/// nothing when no part of it is pronounceable, else its spoken text, and whether the
/// stream must be opened before it.
pub open spec fn speech_plan(started: bool, sentence: Seq<char>) -> Option<(Seq<char>, bool)> {
    if spoken_text(sentence).len() == 0 {
        None
    } else {
        Some((spoken_text(sentence), !started))
    }
}

/// The audio stream of a turn is opened at most once, by the first sentence that has
/// something to say: before the stream is open every such sentence asks to open it,
/// and once it is open no sentence asks again.
pub proof fn law_audio_stream_opened_once(sentence: Seq<char>)
    ensures
        speech_plan(false, sentence) matches Some(plan) ==> plan.1,
        speech_plan(true, sentence) matches Some(plan) ==> !plan.1,
{
}

// ---------------------------------------------------------------------------
// One client connection
// ---------------------------------------------------------------------------

/// What the connection does next.
#[derive(Debug)]
pub enum SessionAction {
    /// Nothing.
    Idle,
    /// Answer the conversation's latest user turn, spoken when `voice` is set.
    RunAgent { request_id: Option<String>, voice: bool },
    /// Transcribe the audio received (16 kHz mono 16-bit little-endian PCM).
    Transcribe { request_id: Option<String>, audio: Vec<u8> },
}

/// Audio from the client: raw PCM appended to what has been received.
pub fn on_audio(audio: &mut Vec<u8>, bytes: &[u8])
    ensures
        final(audio)@ == old(audio)@ + bytes@,
{
    audio.extend_from_slice(bytes);
}

/// A message from the client. A chat message joins the conversation as the user's
/// turn and asks for a reply; the end of push-to-talk hands the audio received so far
/// to speech recognition and starts a new recording; anything else is ignored.
pub fn on_envelope(conversation: &mut Conversation, audio: &mut Vec<u8>, envelope: Envelope) -> (r:
    SessionAction)
    requires
        old(conversation).well_formed(),
    ensures
        final(conversation).well_formed(),
        match envelope.message {
            Message::TextMessage(p) => {
                &&& r matches SessionAction::RunAgent { request_id, voice } && opt_view(request_id)
                    == opt_view(envelope.request_id) && voice == p.voice_response
                &&& exists|m: OllamaMessage|
                    is_plain_message(m, Role::User, p.content@) && final(conversation)@
                        == windowed(old(conversation)@.push(m), budget())
                &&& final(audio)@ == old(audio)@
            },
            Message::AudioEnd => {
                &&& r matches SessionAction::Transcribe { request_id, audio: a } && opt_view(
                    request_id,
                ) == opt_view(envelope.request_id) && a@ == old(audio)@
                &&& final(audio)@ == Seq::<u8>::empty()
                &&& final(conversation)@ == old(conversation)@
            },
            _ => {
                &&& r is Idle
                &&& final(audio)@ == old(audio)@
                &&& final(conversation)@ == old(conversation)@
            },
        },
{
    let Envelope { request_id, message } = envelope;
    match message {
        Message::TextMessage(p) => {
            conversation.add_user_turn(p.content.as_str());
            SessionAction::RunAgent { request_id, voice: p.voice_response }
        },
        Message::AudioEnd => {
            let mut taken: Vec<u8> = Vec::new();
            std::mem::swap(&mut taken, audio);
            SessionAction::Transcribe { request_id, audio: taken }
        },
        _ => SessionAction::Idle,
    }
}

/// The reply to a message that could not be parsed.
pub fn parse_error_reply(error: &str) -> (e: Envelope)
    ensures
        is_error(e, None, "PARSE_ERROR"@, "invalid message format: "@ + error@),
{
    let mut message = String::from_str("invalid message format: ");
    message.append(error);
    error_envelope(&None, "PARSE_ERROR", message.as_str())
}

/// What speech recognition's outcome leads to: the reply to send, and whether the model
/// is to answer.
#[derive(Debug)]
pub struct TranscriptOutcome {
    pub reply: Envelope,
    pub run_agent: bool,
}

/// Speech recognition finished for `request_id`. What was heard is echoed to the
/// client and joins the conversation as the user's turn, to be answered by voice; a
/// failure is reported as `STT_ERROR`.
pub fn on_transcript(
    conversation: &mut Conversation,
    request_id: &Option<String>,
    result: Result<String, String>,
) -> (r: TranscriptOutcome)
    requires
        old(conversation).well_formed(),
    ensures
        final(conversation).well_formed(),
        match result {
            Ok(text) => {
                &&& r.run_agent
                &&& opt_view(r.reply.request_id) == opt_view(*request_id)
                &&& r.reply.message matches Message::Transcript(p) && p.text@ == text@
                &&& exists|m: OllamaMessage|
                    is_plain_message(m, Role::User, text@) && final(conversation)@ == windowed(
                        old(conversation)@.push(m),
                        budget(),
                    )
            },
            Err(e) => {
                &&& !r.run_agent
                &&& is_error(
                    r.reply,
                    opt_view(*request_id),
                    "STT_ERROR"@,
                    "transcription failed: "@ + e@,
                )
                &&& final(conversation)@ == old(conversation)@
            },
        },
{
    match result {
        Ok(text) => {
            let reply = transcript_envelope(request_id, text.as_str());
            conversation.add_user_turn(text.as_str());
            TranscriptOutcome { reply, run_agent: true }
        },
        Err(e) => {
            let mut message = String::from_str("transcription failed: ");
            message.append(e.as_str());
            TranscriptOutcome {
                reply: error_envelope(request_id, "STT_ERROR", message.as_str()),
                run_agent: false,
            }
        },
    }
}

} // verus!
