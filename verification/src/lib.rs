//! A personal backup manager library: named profiles of filesystem paths,
//! mirrored into a local Git-backed repository directory by a path
//! synchronization engine with a last-component flattening rule.
//!
//! The modules here hold the verified logic: configuration state and its
//! operations, path-segment handling, the synchronization engine over a
//! filesystem model, and the planning of git and shell invocations. All
//! process, file and terminal I/O lives outside this crate.

pub mod commands;
pub mod config;
pub mod escalate;
pub mod errors;
pub mod fstree;
pub mod gitplan;
pub mod pathname;
pub mod prompt;
pub mod sync;
