use astra::tts::{parse_tts_dtype, strip_markdown, take_sentences, TtsDType};

#[test]
fn take_sentences_drains_complete_sentences() {
    let mut buf = String::from("Hello world. How are");
    let out = take_sentences(&mut buf);
    assert_eq!(out, vec!["Hello world.".to_string()]);
    assert_eq!(buf, "How are");
}

#[test]
fn take_sentences_needs_whitespace_after_the_mark() {
    let mut buf = String::from("Version 1.5 is out.");
    let out = take_sentences(&mut buf);
    assert!(out.is_empty());
    assert_eq!(buf, "Version 1.5 is out.");
}

#[test]
fn take_sentences_splits_several() {
    let mut buf = String::from("  Wait! Really?\tYes.\nAnd then");
    let out = take_sentences(&mut buf);
    assert_eq!(out, vec!["Wait!".to_string(), "Really?".to_string(), "Yes.".to_string()]);
    assert_eq!(buf, "And then");
}

#[test]
fn take_sentences_keeps_multibyte_text() {
    let mut buf = String::from("Café au lait. Très bien. ");
    let out = take_sentences(&mut buf);
    assert_eq!(out, vec!["Café au lait.".to_string(), "Très bien.".to_string()]);
    assert_eq!(buf, "");
}

#[test]
fn take_sentences_is_idempotent() {
    let mut buf = String::from("One. Two. Thr");
    let first = take_sentences(&mut buf);
    assert_eq!(first.len(), 2);
    let again = take_sentences(&mut buf);
    assert!(again.is_empty());
    assert_eq!(buf, "Thr");
}

#[test]
fn take_sentences_ignores_other_whitespace_kinds() {
    // A non-breaking space is whitespace for `trim` but not a sentence boundary.
    let mut buf = String::from("Hi.\u{a0}there");
    assert!(take_sentences(&mut buf).is_empty());
    assert_eq!(buf, "Hi.\u{a0}there");
}

#[test]
fn strip_markdown_plain_text_is_unchanged() {
    assert_eq!(strip_markdown("Just a sentence."), "Just a sentence.");
}

#[test]
fn strip_markdown_removes_headings_and_joins_lines() {
    assert_eq!(strip_markdown("# Title\n\nSome text\nmore"), "Title Some text more");
}

#[test]
fn strip_markdown_removes_bullets_quotes_and_numbers() {
    let text = "- first\n* second\n+ third\n> quoted\n12. twelfth";
    assert_eq!(strip_markdown(text), "first second third quoted twelfth");
}

#[test]
fn strip_markdown_drops_code_fences() {
    let text = "Before\n```rust\nlet x = 1;\n```\nAfter";
    assert_eq!(strip_markdown(text), "Before After");
}

#[test]
fn strip_markdown_unwraps_links_and_emphasis() {
    let text = "See **the [docs](https://example.com/a_(b))** and `code` now";
    assert_eq!(strip_markdown(text), "See the docs and code now");
}

#[test]
fn strip_markdown_keeps_unclosed_brackets() {
    assert_eq!(strip_markdown("a [b] c"), "a [b] c");
    assert_eq!(strip_markdown("a [b c"), "a [b c");
}

#[test]
fn strip_markdown_replaces_unpronounceable_characters() {
    assert_eq!(strip_markdown("Hi 👋🏽 there — ok"), "Hi  there  ok");
    assert_eq!(strip_markdown("a→b"), "a b");
    assert_eq!(strip_markdown("✓done"), "done");
}

#[test]
fn strip_markdown_handles_crlf_and_underscores() {
    assert_eq!(strip_markdown("_one_\r\n__two__\r\n"), "one two");
}

#[test]
fn strip_markdown_of_only_markup_is_empty() {
    assert_eq!(strip_markdown("```\ncode\n```\n---\n***"), "---");
    assert_eq!(strip_markdown("   \n\n"), "");
}

#[test]
fn strip_markdown_output_is_printable_ascii() {
    let out = strip_markdown("## Ünïcödé — text ✨\n> 1. quote");
    assert!(out.chars().all(|c| (' '..='~').contains(&c)));
    assert_eq!(out, out.trim());
}

#[test]
fn parse_tts_dtype_accepts_known_names() {
    assert_eq!(parse_tts_dtype("bf16"), Ok(TtsDType::BF16));
    assert_eq!(parse_tts_dtype("FP16"), Ok(TtsDType::F16));
    assert_eq!(parse_tts_dtype("f16"), Ok(TtsDType::F16));
    assert_eq!(parse_tts_dtype("F32"), Ok(TtsDType::F32));
    assert_eq!(parse_tts_dtype("fp32"), Ok(TtsDType::F32));
}

#[test]
fn parse_tts_dtype_refuses_others() {
    assert_eq!(
        parse_tts_dtype("Int8"),
        Err("unknown TTS_DTYPE 'int8' (expected bf16, f16, or f32)".to_string())
    );
}

#[test]
fn draining_while_streaming_matches_draining_once() {
    let pieces = ["Hi. ", "  Yes", "! Ok", "ay? Done", ". tail"];
    let mut streamed = Vec::new();
    let mut buf = String::new();
    for p in pieces {
        buf.push_str(p);
        streamed.extend(take_sentences(&mut buf));
    }
    let mut whole = pieces.concat();
    let once = take_sentences(&mut whole);
    assert_eq!(streamed, once);
    assert_eq!(streamed, vec!["Hi.", "Yes!", "Okay?", "Done."]);
    assert_eq!(buf.trim_start(), whole.trim_start());
}
