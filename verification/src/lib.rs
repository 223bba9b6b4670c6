//! Core of a branching conversation client.
//!
//! The library owns the tree of sessions, branches and messages, the
//! single streaming cursor that routes incremental assistant output, the
//! agent loop's decisions, the tool-call grammar, and the persistence
//! format. Everything here is verified; the thin front end around it
//! (terminal, HTTP, files, clock) lives outside and exchanges plain
//! values with these modules.

pub mod agent;
pub mod branches;
pub mod commands;
pub mod fname;
pub mod host;
pub mod loader;
pub mod memory;
pub mod persist;
pub mod store;
pub mod streamer;
pub mod strutil;
pub mod toolparse;
pub mod tools;
