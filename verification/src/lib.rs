//! A coding agent's logic: the chat protocol, the tools, the agent loop and the
//! terminal interface's state, each stated and proved apart from any input or output.

pub mod text;
pub mod text_laws;
pub mod number;
pub mod json;
pub mod api;
pub mod stream;
pub mod stream_laws;
pub mod response_laws;
pub mod anchor;
pub mod anchor_laws;
pub mod listing;
pub mod edit;
pub mod edit_laws;
pub mod tools;
pub mod tools_laws;
pub mod plugins;
pub mod agent;
pub mod agent_laws;
pub mod session_laws;
pub mod config;
pub mod ngram;
pub mod tokens;
pub mod wrap;
pub mod base64;
pub mod image;
pub mod conversation;
pub mod ui;
pub mod ui_laws;
pub mod input_laws;
pub mod conversation_laws;
pub mod render_laws;
