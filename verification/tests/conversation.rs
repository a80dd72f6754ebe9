use astra::conversation::{Conversation, CONTEXT_WINDOW, RESPONSE_BUFFER};
use astra::json::JsonValue;
use astra::ollama::Role;

fn contents(c: &Conversation) -> Vec<String> {
    c.messages().iter().map(|m| m.content.clone()).collect()
}

#[test]
fn new_conversation_holds_the_system_prompt() {
    let c = Conversation::new("You are Astra.");
    let m = c.messages();
    assert_eq!(m.len(), 1);
    assert_eq!(m[0].role, Role::System);
    assert_eq!(m[0].content, "You are Astra.");
    assert!(m[0].tool_calls.is_none());
}

#[test]
fn turns_are_appended_in_order() {
    let mut c = Conversation::new("sys");
    c.add_user_turn("hello");
    c.add_astra_turn("hi there");
    c.add_tool_result("{\"Output\":\"x\"}");
    let m = c.messages();
    assert_eq!(m.len(), 4);
    assert_eq!(m[1].role, Role::User);
    assert_eq!(m[2].role, Role::Assistant);
    assert_eq!(m[3].role, Role::Tool);
    assert_eq!(contents(&c), vec!["sys", "hello", "hi there", "{\"Output\":\"x\"}"]);
}

#[test]
fn tool_calls_are_recorded_with_empty_content() {
    let mut c = Conversation::new("sys");
    c.add_astra_tool_call(vec![JsonValue::Null, JsonValue::Bool(true)]);
    let m = c.messages();
    assert_eq!(m.len(), 2);
    assert_eq!(m[1].role, Role::Assistant);
    assert_eq!(m[1].content, "");
    assert_eq!(m[1].tool_calls.as_ref().map(|v| v.len()), Some(2));
}

#[test]
fn budget_is_context_window_minus_response_buffer() {
    assert_eq!(CONTEXT_WINDOW - RESPONSE_BUFFER, 3584);
}

#[test]
fn window_drops_oldest_turns_but_keeps_system_prompt() {
    let mut c = Conversation::new("system prompt");
    // 5000 characters is 1250 estimated tokens each.
    let big = "x".repeat(5000);
    c.add_user_turn(&big);
    c.add_astra_turn(&big);
    assert_eq!(c.messages().len(), 3); // 3 + 1250 + 1250 < 3584
    c.add_user_turn(&big); // 3753 >= 3584: the oldest turn goes
    let m = c.messages();
    assert_eq!(m.len(), 3);
    assert_eq!(m[0].content, "system prompt");
    assert_eq!(m[1].role, Role::Assistant);
    assert_eq!(m[2].role, Role::User);
}

#[test]
fn window_keeps_only_system_prompt_when_a_turn_is_too_big() {
    let mut c = Conversation::new("sys");
    let huge = "y".repeat(4 * 3584);
    c.add_user_turn(&huge);
    let m = c.messages();
    assert_eq!(m.len(), 1);
    assert_eq!(m[0].content, "sys");
}

#[test]
fn window_counts_characters_not_bytes() {
    let mut c = Conversation::new("");
    // 3584 * 4 - 1 two-byte characters: 3583 tokens, within budget.
    let text = "é".repeat(4 * 3584 - 1);
    c.add_user_turn(&text);
    assert_eq!(c.messages().len(), 2);
}

#[test]
fn tool_results_do_not_enforce_the_window() {
    let mut c = Conversation::new("sys");
    let huge = "z".repeat(4 * 4000);
    c.add_tool_result(&huge);
    assert_eq!(c.messages().len(), 2);
}
