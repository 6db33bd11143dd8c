//! Resumable streaming of chat completions: incremental frame parsing of
//! server-sent events and newline-delimited JSON, and the durable stream
//! state machine that replays recorded events before resuming a live call.

pub mod chat_stream;
pub mod durability;
pub mod error;
pub mod event_source;
pub mod event_stream;
pub mod json;
pub mod llm;
pub mod message_event;
pub mod ndjson_stream;
pub mod ollama;
pub mod parser;
pub mod stream;
pub mod text;
pub mod utf8_stream;
