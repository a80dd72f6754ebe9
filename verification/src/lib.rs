use vstd::prelude::*;

pub mod chars;
pub mod json;
pub mod ollama;
pub mod conversation;
pub mod config;
pub mod string_map;
pub mod home_assistant;
pub mod tools;
pub mod spotify;
pub mod protocol;
pub mod agent;
pub mod stt;
pub mod legacy;
pub mod tts;

verus! {

} // verus!
