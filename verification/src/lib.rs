//! Verified core of the Prooflane desktop back end: Codex transcript
//! interpretation, restricted Codex session rules, release signature checks
//! and data-directory path rules.
pub mod text;
pub mod json;
pub mod transcript;
pub mod usage;
pub mod exec_output;
pub mod blob;
pub mod outcome;
pub mod paths;
pub mod pattern;
pub mod title;
pub mod user_input;
pub mod timestamp;
pub mod codex;
pub mod restricted;
pub mod signature;
pub mod params;
pub mod ledger;
pub mod tool_io;
pub mod collab;
pub mod shell;
pub mod views;
pub mod fold;
pub mod detail;
pub mod subagent;
pub mod reader;
pub mod calls;
