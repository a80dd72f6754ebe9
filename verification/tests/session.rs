use astra::agent::{
    conclude_reply, on_audio, on_envelope, on_transcript, parse_error_reply, plan_tool_calls,
    SessionAction, StreamDecoder, TtsStream,
};
use astra::conversation::Conversation;
use astra::json::{JsonMember, JsonValue};
use astra::legacy::{gen_request, GenerateRequest};
use astra::ollama::{chat_request, Role};
use astra::protocol::{
    error_envelope, text_chunk_envelope, tts_end_envelope, tts_sentence_envelope,
    tts_start_envelope, Envelope, Message, TextMessagePayload, TTS_SAMPLE_RATE,
};
use astra::stt::{join_transcript, pcm16le_samples};
use astra::tools::{register_tools, ToolAction};

fn s(x: &str) -> JsonValue {
    JsonValue::Text(x.to_string())
}

fn obj(members: Vec<(&str, JsonValue)>) -> JsonValue {
    JsonValue::Object(
        members
            .into_iter()
            .map(|(k, v)| JsonMember { key: k.to_string(), value: v })
            .collect(),
    )
}

fn tool_call(name: &str, args: JsonValue) -> JsonValue {
    obj(vec![("function", obj(vec![("name", s(name)), ("arguments", args)]))])
}

#[test]
fn stream_decoder_splits_lines() {
    let mut d = StreamDecoder::new();
    d.push_text("{\"a\":1}\n{\"b\"");
    assert_eq!(d.next_line(), Some("{\"a\":1}".to_string()));
    assert_eq!(d.next_line(), None);
    d.push_text(":2}\r\n");
    assert_eq!(d.next_line(), Some("{\"b\":2}".to_string()));
    assert_eq!(d.next_line(), None);
}

#[test]
fn stream_decoder_collects_tokens_and_tool_calls() {
    let mut d = StreamDecoder::new();
    let e1 = d.apply_line(obj(vec![
        ("message", obj(vec![("content", s("Hel"))])),
        ("done", JsonValue::Bool(false)),
    ]));
    assert_eq!(e1.token, "Hel");
    assert!(!e1.done);
    assert!(e1.send_chunk);
    let e2 = d.apply_line(obj(vec![(
        "message",
        obj(vec![
            ("content", s("")),
            ("tool_calls", JsonValue::Array(vec![tool_call("list_contents", obj(vec![]))])),
        ]),
    )]));
    assert!(!e2.send_chunk);
    let e3 = d.apply_line(obj(vec![
        ("message", obj(vec![("content", s("lo"))])),
        ("done", JsonValue::Bool(true)),
    ]));
    assert!(e3.done && e3.send_chunk);
    let e4 = d.apply_line(obj(vec![("done", JsonValue::Bool(true))]));
    assert_eq!(e4.token, "");
    assert!(e4.send_chunk);

    let mut c = Conversation::new("sys");
    let actions = conclude_reply(&mut c, d).expect("tool calls pending");
    assert_eq!(actions.len(), 1);
    assert!(matches!(actions[0], ToolAction::ListContents));
    let m = c.messages();
    assert_eq!(m.len(), 2);
    assert_eq!(m[1].role, Role::Assistant);
    assert_eq!(m[1].tool_calls.as_ref().map(|v| v.len()), Some(1));
}

#[test]
fn conclude_reply_without_tool_calls_records_the_text() {
    let mut d = StreamDecoder::new();
    d.apply_line(obj(vec![("message", obj(vec![("content", s("All done."))]))]));
    let mut c = Conversation::new("sys");
    assert!(conclude_reply(&mut c, d).is_none());
    let m = c.messages();
    assert_eq!(m.len(), 2);
    assert_eq!(m[1].content, "All done.");
    assert!(m[1].tool_calls.is_none());
}

#[test]
fn plan_tool_calls_reads_name_and_arguments() {
    let calls = vec![
        tool_call("spotify_search", obj(vec![("query", s("daft punk"))])),
        obj(vec![]),
    ];
    let actions = plan_tool_calls(&calls);
    assert!(matches!(&actions[0], ToolAction::SpotifySearch { query } if query == "daft punk"));
    assert!(matches!(actions[1], ToolAction::Unknown));
}

#[test]
fn tts_stream_speaks_sentences_once_started() {
    let mut t = TtsStream::new();
    assert!(t.feed("Hello **world**").is_empty());
    let sentences = t.feed(". Next");
    assert_eq!(sentences, vec!["Hello **world**.".to_string()]);
    let first = t.prepare(&sentences[0]).expect("speakable");
    assert_eq!(first.text, "Hello world.");
    assert!(first.send_start);
    assert!(!t.started());
    let again = t.prepare("Again.").expect("speakable");
    assert!(again.send_start);
    t.opened();
    assert!(t.prepare("```").is_none());
    let second = t.prepare("Again.").expect("speakable");
    assert!(!second.send_start);
    assert!(t.started());
    assert_eq!(t.take_tail(), Some("Next".to_string()));
    assert_eq!(t.take_tail(), None);
}

#[test]
fn tts_stream_without_speech_never_starts() {
    let t = TtsStream::new();
    assert!(t.prepare("🎉").is_none());
    assert!(!t.started());
}

#[test]
fn text_message_starts_the_agent() {
    let mut c = Conversation::new("sys");
    let mut audio = vec![1u8, 2];
    let env = Envelope {
        request_id: Some("r1".to_string()),
        message: Message::TextMessage(TextMessagePayload { content: "hi".to_string(), voice_response: true }),
    };
    match on_envelope(&mut c, &mut audio, env) {
        SessionAction::RunAgent { request_id, voice } => {
            assert_eq!(request_id, Some("r1".to_string()));
            assert!(voice);
        }
        other => panic!("unexpected {:?}", other),
    }
    assert_eq!(c.messages().len(), 2);
    assert_eq!(c.messages()[1].content, "hi");
    assert_eq!(audio, vec![1, 2]);
}

#[test]
fn audio_end_hands_over_the_recording() {
    let mut c = Conversation::new("sys");
    let mut audio = Vec::new();
    on_audio(&mut audio, &[1, 2, 3]);
    on_audio(&mut audio, &[4]);
    let env = Envelope { request_id: None, message: Message::AudioEnd };
    match on_envelope(&mut c, &mut audio, env) {
        SessionAction::Transcribe { request_id, audio: a } => {
            assert_eq!(request_id, None);
            assert_eq!(a, vec![1, 2, 3, 4]);
        }
        other => panic!("unexpected {:?}", other),
    }
    assert!(audio.is_empty());
    assert_eq!(c.messages().len(), 1);
}

#[test]
fn other_messages_are_ignored() {
    let mut c = Conversation::new("sys");
    let mut audio = vec![9];
    let env = tts_end_envelope(&None);
    assert!(matches!(on_envelope(&mut c, &mut audio, env), SessionAction::Idle));
    assert_eq!(audio, vec![9]);
}

#[test]
fn transcripts_are_echoed_and_answered() {
    let mut c = Conversation::new("sys");
    let out = on_transcript(&mut c, &Some("r2".to_string()), Ok("turn on the lights".to_string()));
    assert!(out.run_agent);
    assert_eq!(out.reply.request_id, Some("r2".to_string()));
    assert!(matches!(&out.reply.message, Message::Transcript(p) if p.text == "turn on the lights"));
    assert_eq!(c.messages()[1].content, "turn on the lights");
}

#[test]
fn failed_transcription_is_an_error() {
    let mut c = Conversation::new("sys");
    let out = on_transcript(&mut c, &Some("r3".to_string()), Err("no model".to_string()));
    assert!(!out.run_agent);
    assert_eq!(out.reply.request_id, Some("r3".to_string()));
    assert!(matches!(&out.reply.message, Message::Error(p) if p.code == "STT_ERROR" && p.message == "transcription failed: no model"));
    assert_eq!(c.messages().len(), 1);
}

#[test]
fn parse_errors_are_reported_without_request_id() {
    let e = parse_error_reply("expected value at line 1 column 1");
    assert_eq!(e.request_id, None);
    assert!(matches!(&e.message, Message::Error(p) if p.code == "PARSE_ERROR" && p.message == "invalid message format: expected value at line 1 column 1"));
}

#[test]
fn envelopes_carry_the_request_id() {
    let id = Some("abc".to_string());
    let chunk = text_chunk_envelope(&id, "tok", false);
    assert_eq!(chunk.request_id, id);
    assert!(matches!(&chunk.message, Message::TextChunk(p) if p.content == "tok" && !p.done));
    let start = tts_start_envelope(&id);
    assert!(matches!(&start.message, Message::TtsStart(p) if p.sample_rate == TTS_SAMPLE_RATE && p.channels == 1 && p.format == "f32le"));
    assert_eq!(TTS_SAMPLE_RATE, 24000);
    let sentence = tts_sentence_envelope(&id, "Hi.");
    assert!(matches!(&sentence.message, Message::TtsSentence(p) if p.text == "Hi."));
    let err = error_envelope(&id, "LLM_ERROR", "Ollama request failed: timeout");
    assert_eq!(err.request_id, id);
    assert!(matches!(&err.message, Message::Error(p) if p.code == "LLM_ERROR"));
}

#[test]
fn chat_request_carries_the_conversation() {
    let mut c = Conversation::new("sys");
    c.add_user_turn("hello");
    let tools = register_tools();
    let req = chat_request("qwen3.5:9b", &c, &tools);
    assert!(req.stream);
    assert_eq!(req.model, "qwen3.5:9b");
    assert_eq!(req.messages.len(), 2);
    assert_eq!(req.tools.len(), 10);
}

#[test]
fn pcm_samples_are_little_endian_signed() {
    let samples = pcm16le_samples(&[0x01, 0x00, 0xff, 0xff, 0x00, 0x80, 0xff, 0x7f, 0x42]);
    assert_eq!(samples, vec![1, -1, -32768, 32767]);
    assert!(pcm16le_samples(&[]).is_empty());
}

#[test]
fn transcript_segments_are_joined_and_trimmed() {
    let segs = vec![" Turn on".to_string(), " the lights. ".to_string()];
    assert_eq!(join_transcript(&segs), "Turn on the lights.");
    assert_eq!(join_transcript(&vec![]), "");
}

#[test]
fn generate_requests_use_the_fixed_model() {
    let req = gen_request(GenerateRequest { prompt: "why?".to_string() }, register_tools());
    assert_eq!(req.model, "qwen3.5:9b");
    assert!(!req.stream);
    assert_eq!(req.prompt, "why?");
    assert_eq!(req.tools.len(), 10);
}
