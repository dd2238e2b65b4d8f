//! The logic of a coding agent, its wire clients and its remote bridge: text
//! editing, searching and reading, tool decisions, chat streaming, session state
//! and the bridge protocol, each with its behaviour stated and proved.
pub mod chat;
pub mod client;
pub mod config;
pub mod edit;
pub mod environment;
pub mod flow;
pub mod grep;
pub mod headers;
pub mod hub;
pub mod json;
pub mod kaos;
pub mod launch;
pub mod listing;
pub mod metadata;
pub mod openai;
pub mod order;
pub mod pattern;
pub mod prompt;
pub mod proto;
pub mod read;
pub mod remote;
pub mod render;
pub mod salvage;
pub mod search;
pub mod session;
pub mod shell;
pub mod soul;
pub mod subagent;
pub mod tasks;
pub mod text;
pub mod theme;
pub mod tool;
pub mod transcript;
pub mod tui;
pub mod wire;
pub mod write;
