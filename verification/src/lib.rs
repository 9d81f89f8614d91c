//! Dependency resolution and synchronisation for project-local Python packages.
//!
//! Versions, constraints and requirements are read and written by `version`,
//! `version_text`, `constraint` and `req`. `resolve` is the resolver, `resolution` runs it
//! against an index, and `resolve_laws` states what holds of every resolution. `release`
//! chooses the file to install, `sync` and `engine` reconcile the library directory with a
//! resolution, and `lock` records it. `config`, `changes` and `alias` look after the
//! manifest, the requirements the user adds or removes, and the interpreter.

pub mod alias;
pub mod changes;
pub mod config;
pub mod constraint;
pub mod engine;
pub mod error;
pub mod lock;
pub mod names;
pub mod os;
pub mod package;
pub mod pattern;
pub mod release;
pub mod req;
pub mod resolution;
pub mod resolve;
pub mod resolve_laws;
pub mod sync;
pub mod text;
pub mod version;
pub mod version_text;
