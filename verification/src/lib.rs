//! Analysis and repair engine for the two Windows `PATH` registry values.
//!
//! The library is the pure core of a PATH hygiene tool: it classifies
//! entries, detects quoting and duplication problems, generates hijack
//! candidates for unquoted paths, plans cross-store migrations, and
//! validates everything that is about to be written back.  All I/O
//! (registry, filesystem, clock) is injected by the caller as plain data.

pub mod analyzer;
pub mod backup;
pub mod constants;
pub mod context;
pub mod error;
pub mod exploit;
pub mod fixer;
pub mod migrator;
pub mod models;
pub mod registry;
pub mod scanner;
pub mod text;
pub mod utils;
