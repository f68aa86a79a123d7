//! Compiler from a declarative installation description to a shell script.
//!
//! The library validates a raw configuration into an [`data::InstallOptions`]
//! plan, resolves per-disk partition numbers and device paths, and assembles
//! the ordered two-stage installation script as text. It executes nothing.

pub mod data;
pub mod install;
pub mod laws;
pub mod pattern;
pub mod text;
