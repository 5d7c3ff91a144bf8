//! The logic of an HTTP gateway for chat models: messages, rewriting, routes,
//! failover and completions, without I/O.
pub mod bytes;
pub mod chunked;
pub mod completion;
pub mod config;
pub mod error;
pub mod http;
pub mod ids;
pub mod laws_answers;
pub mod laws_candidates;
pub mod laws_chat;
pub mod laws_decisions;
pub mod laws_efforts;
pub mod laws_heads;
pub mod laws_http;
pub mod laws_names;
pub mod laws_omniroute;
pub mod laws_primitives;
pub mod laws_prism;
pub mod laws_reading;
pub mod laws_relay;
pub mod laws_rewrite;
pub mod laws_settings;
pub mod laws_text;
pub mod laws_views;
pub mod numbers;
pub mod omniroute;
pub mod prism;
pub mod prism_reply;
pub mod reader;
pub mod relay;
pub mod rewrite;
pub mod routes;
pub mod routing;
pub mod text;
