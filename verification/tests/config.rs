use astra::config::{
    load_ollama_url, load_system_prompt, load_tts_max_tokens, load_tts_quant, load_tts_voice,
    load_whisper_model_path, ollama_model_setting, parse_conf, select_prompt_files,
    tts_max_tokens_setting, tts_voice_setting,
};
use astra::home_assistant::{ha_token, ha_url};
use astra::string_map::StringMap;

const CONF: &str = "OLLAMA_ENDPOINT= http://10.0.0.2:11434 \r\nWHISPER_MODEL=.astra/models/stt/ggml-base.en.bin\nTTS_VOICE=ryan\nTTS_MAX_TOKENS=512\nTTS_QUANT=\nTTS_QUANT=q5_k_m\n";

#[test]
fn load_ollama_url_reads_the_trimmed_value() {
    assert_eq!(load_ollama_url(CONF), Ok("http://10.0.0.2:11434".to_string()));
}

#[test]
fn load_ollama_url_reports_a_missing_key() {
    assert_eq!(
        load_ollama_url("WHISPER_MODEL=x\n"),
        Err("OLLAMA_ENDPOINT key not found in .astra/astra.conf".to_string())
    );
}

#[test]
fn load_whisper_model_path_and_voice() {
    assert_eq!(
        load_whisper_model_path(CONF),
        Ok(".astra/models/stt/ggml-base.en.bin".to_string())
    );
    assert_eq!(load_tts_voice(CONF), Ok("ryan".to_string()));
    assert_eq!(
        load_tts_voice(""),
        Err("TTS_VOICE key not found in .astra/astra.conf".to_string())
    );
    assert_eq!(
        load_whisper_model_path("# nothing"),
        Err("WHISPER_MODEL key not found in .astra/astra.conf".to_string())
    );
}

#[test]
fn first_matching_line_wins() {
    assert_eq!(load_tts_voice("TTS_VOICE=a\nTTS_VOICE=b"), Ok("a".to_string()));
    // The key must start the line.
    assert_eq!(load_tts_voice(" TTS_VOICE=a\nTTS_VOICE=b"), Ok("b".to_string()));
}

#[test]
fn load_tts_max_tokens_parses_usize() {
    assert_eq!(load_tts_max_tokens(CONF), Some(512));
    assert_eq!(load_tts_max_tokens("TTS_MAX_TOKENS=+7"), Some(7));
    assert_eq!(load_tts_max_tokens("TTS_MAX_TOKENS= 0042 "), Some(42));
    assert_eq!(load_tts_max_tokens("TTS_MAX_TOKENS=abc"), None);
    assert_eq!(load_tts_max_tokens("TTS_MAX_TOKENS=-1"), None);
    assert_eq!(load_tts_max_tokens("TTS_MAX_TOKENS=+"), None);
    assert_eq!(load_tts_max_tokens("TTS_MAX_TOKENS="), None);
    assert_eq!(load_tts_max_tokens("TTS_MAX_TOKENS=99999999999999999999999"), None);
    assert_eq!(load_tts_max_tokens("OTHER=1"), None);
    // The first line decides, even when it does not parse.
    assert_eq!(load_tts_max_tokens("TTS_MAX_TOKENS=x\nTTS_MAX_TOKENS=3"), None);
}

#[test]
fn load_tts_max_tokens_at_the_limit() {
    let max = format!("TTS_MAX_TOKENS={}", usize::MAX);
    assert_eq!(load_tts_max_tokens(&max), Some(usize::MAX));
    let over = format!("TTS_MAX_TOKENS={}0", usize::MAX);
    assert_eq!(load_tts_max_tokens(&over), None);
}

#[test]
fn load_tts_quant_skips_blank_values() {
    assert_eq!(load_tts_quant(CONF), Some("q5_k_m".to_string()));
    assert_eq!(load_tts_quant("TTS_QUANT=  \n"), None);
    assert_eq!(load_tts_quant(""), None);
}

#[test]
fn select_prompt_files_keeps_markdown_in_name_order() {
    let names: Vec<String> = ["tools.md", "behavior.md", "notes.txt", ".md", "identity.md", "a.MD", "z..md"]
        .iter()
        .map(|s| s.to_string())
        .collect();
    assert_eq!(
        select_prompt_files(&names),
        vec!["behavior.md", "identity.md", "tools.md", "z..md"]
    );
}

#[test]
fn select_prompt_files_orders_by_code_point() {
    let names: Vec<String> = ["b.md", "B.md", "a.md", "é.md", "ab.md"].iter().map(|s| s.to_string()).collect();
    assert_eq!(select_prompt_files(&names), vec!["B.md", "a.md", "ab.md", "b.md", "é.md"]);
}

#[test]
fn load_system_prompt_joins_core_then_user() {
    let core = vec!["core one".to_string(), "core two\n".to_string()];
    let user = vec!["user".to_string()];
    assert_eq!(load_system_prompt(&core, &user), "core one\ncore two\n\nuser\n");
    assert_eq!(load_system_prompt(&vec![], &vec![]), "");
}

#[test]
fn string_map_replaces_values_and_lists_keys_once() {
    let mut m = StringMap::new();
    m.insert("a".to_string(), "1".to_string());
    m.insert("b".to_string(), "2".to_string());
    m.insert("a".to_string(), "3".to_string());
    assert_eq!(m.get("a"), Some("3"));
    assert_eq!(m.get("b"), Some("2"));
    assert_eq!(m.get("c"), None);
    let mut keys = m.keys();
    keys.sort();
    assert_eq!(keys, vec!["a", "b"]);
}

#[test]
fn parse_conf_reads_key_value_lines() {
    let conf = parse_conf("HOME_ASSISTANT_ENDPOINT=ws://ha.local:8123/api/websocket\nHOME_ASSISTANT_TOKEN= abc \nnot a setting\nHOME_ASSISTANT_TOKEN=later\n");
    assert_eq!(ha_url(&conf), Some("ws://ha.local:8123/api/websocket"));
    assert_eq!(ha_token(&conf), Some("abc"));
}

#[test]
fn ha_settings_missing() {
    let conf = parse_conf("OLLAMA_ENDPOINT=x\n");
    assert_eq!(ha_url(&conf), None);
    assert_eq!(ha_token(&conf), None);
}

const README_CONF: &str = "OLLAMA_ENDPOINT=http://ollama.local:11434\nWHISPER_MODEL=.astra/models/stt/ggml-base.en.bin\nTTS_VOICE=ryan                                          # speaker: .astra/models/tts/speakers/<name>.json\nTTS_MAX_TOKENS=512                                      # cap on generation steps (codec frames) per sentence\nTTS_QUANT=none                                          # GGUF quant: none | q5_k_m | q8_0 (q5_k_m saves ~1.7GB VRAM)\n";

#[test]
fn inline_comments_end_the_value() {
    assert_eq!(load_tts_voice(README_CONF), Ok("ryan".to_string()));
    assert_eq!(load_tts_quant(README_CONF), Some("none".to_string()));
    assert_eq!(load_tts_max_tokens(README_CONF), Some(512));
    assert_eq!(load_tts_max_tokens("TTS_MAX_TOKENS=300 # short\n"), Some(300));
    assert_eq!(load_ollama_url(README_CONF), Ok("http://ollama.local:11434".to_string()));
    assert_eq!(load_tts_quant("TTS_QUANT=   # none given\nTTS_QUANT=q8_0\n"), Some("q8_0".to_string()));
    let conf = parse_conf(README_CONF);
    assert_eq!(conf.get("TTS_QUANT"), Some("none"));
    assert_eq!(conf.get("TTS_VOICE"), Some("ryan"));
}

#[test]
fn settings_fall_back_to_their_defaults() {
    assert_eq!(tts_voice_setting(""), "ryan");
    assert_eq!(tts_voice_setting(README_CONF), "ryan");
    assert_eq!(tts_voice_setting("TTS_VOICE=vivian\n"), "vivian");
    assert_eq!(tts_max_tokens_setting(""), 512);
    assert_eq!(tts_max_tokens_setting("TTS_MAX_TOKENS=lots\n"), 512);
    assert_eq!(tts_max_tokens_setting("TTS_MAX_TOKENS=64\n"), 64);
    assert_eq!(ollama_model_setting(""), "qwen3.5:9b");
    assert_eq!(ollama_model_setting("OLLAMA_MODEL=llama3\n"), "llama3");
}
