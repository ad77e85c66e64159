//! Detects "sync conflict" file duplicates left behind by cloud-sync tools
//! and decides how each group of duplicates is resolved.
//!
//! The heart of the crate is a backtracking character parser (`stream`,
//! `parser`), on which two vendor-specific file-name grammars
//! (`file_conflict::dropbox`, `file_conflict::wuala`) and the interactive
//! command grammar (`user_reply`) are built. Candidate paths are grouped
//! into conflicts by inferred original name (`file_conflict::find`), and
//! each decoded command becomes a list of file operations (`resolve`) that
//! the surrounding program carries out.

pub mod text;
pub mod digits;
pub mod stream;
pub mod parser;
pub mod paths;
pub mod file_conflict;
pub mod user_reply;
pub mod args;
pub mod app_result;
pub mod appdirs;
pub mod resolve;
