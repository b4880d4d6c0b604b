//! Core of a workspace launcher: supervision of project dev-server
//! processes, per-project terminal sessions with a concurrency cap,
//! deterministic port-conflict resolution across workspaces, and the
//! ordering rules for whole-process-tree termination.
//!
//! Everything here is ordinary data and decision logic; spawning
//! processes, probing ports and reading configuration files is left to
//! the embedding application, which hands the results in as plain values.

pub mod config;
pub mod errors;
pub mod git;
pub mod killtree;
pub mod models;
pub mod ports;
pub mod process;
pub mod shims;
pub mod terminal;
pub mod text;
pub mod user_path;
pub mod workspace;
