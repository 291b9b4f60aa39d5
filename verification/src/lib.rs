//! Reconstruction and search of conversation logs.
//!
//! A log is a directory per project with one file per session; a file holds
//! one JSON record per line. This library decodes the records, folds them into
//! the messages of a conversation, derives the sessions and projects that are
//! listed, and searches the raw lines. Every function takes the lines it works
//! on as plain values and states its result over the mathematical content of
//! its arguments; reading the files is left to the caller.
//!
//! - `text`: character-level search, trimming, lines and ordering
//! - `json`: the boundary with `serde_json`
//! - `types`: the data and its views; message text and session titles
//! - `chat_service`: the service value and the files handed to it
//! - `records`: from a line to a record, from a record to a message
//! - `reconstruct`: the merge rules and the conversation of a file
//! - `order`: listing newest first
//! - `sessions`: summary index, sessions, projects, session lookup
//! - `search`: snippets, matches and their ranking

pub mod chat_service;
pub mod json;
pub mod order;
pub mod reconstruct;
pub mod records;
pub mod search;
pub mod sessions;
pub mod text;
pub mod types;
