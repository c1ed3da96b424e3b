//! Residency scheduling, chat rendering and tool-call formats for local language models.

pub mod args;
pub mod call_laws;
pub mod chat_template;
pub mod client;
pub mod connection;
pub mod conversation;
pub mod conversation_template;
pub mod daemon;
pub mod exchange_laws;
pub mod generation;
pub mod json;
pub mod ledger;
pub mod memory;
pub mod model_settings;
pub mod one_shot;
pub mod probe_laws;
pub mod protocol;
pub mod registry;
pub mod residency_laws;
pub mod scripted;
pub mod session;
pub mod text;
pub mod tool_format;
pub mod tool_probe;
pub mod transcript;
pub mod turn;
