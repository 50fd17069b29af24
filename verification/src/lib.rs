//! Decision core of a cloud-media-library synchronization tool.
//!
//! Given a configuration and a batch of remote file entries, the library
//! classifies every entry into one of four dispositions: create a playable
//! stream reference, fetch extended media metadata, fail (needs attention),
//! or skip (not applicable).  The classification is a pure function over
//! in-memory values; all I/O, serialization and host bindings live outside
//! this crate.

pub mod config;
pub mod item;
pub mod laws;
pub mod process;
pub mod result;
pub mod text;
pub mod utils;
