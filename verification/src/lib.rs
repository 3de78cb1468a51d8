//! Supervises locally installed node binaries: lifecycle state for each named
//! node, size-capped log buffers, listen-address port rewriting, and the
//! persisted run-on-startup policy.

pub mod errors;
pub mod strutil;
pub mod ansi;
pub mod address;
pub mod logbuf;
pub mod types;
pub mod policy;
pub mod supervisor;
pub mod configfile;
pub mod procscan;
pub mod platform;
