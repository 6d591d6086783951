//! A local build/command cache: a shell command, its declared input files and
//! its filtered environment are fingerprinted; the command's standard output
//! and declared output files are memoized under content hashes in an
//! immutable, compressed blob store, and replayed verbatim when the same
//! invocation comes again.

pub mod blob;
pub mod bytes;
pub mod compression;
pub mod config;
pub mod destinations;
pub mod error;
pub mod fingerprint;
pub mod folder;
pub mod gather;
pub mod hash;
pub mod hex;
pub mod json;
pub mod orchestrator;
pub mod record;
