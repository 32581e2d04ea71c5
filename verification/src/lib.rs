//! A versioned backup catalog: which paths are tracked, which numbered
//! snapshots each of them has, and what has to happen on disk for a backup,
//! a restore or a clean-up to take effect.
//!
//! The library never touches the file system. Every operation works on the
//! in-memory catalog and answers with the list of storage actions that the
//! caller has to carry out before it persists the catalog.

pub mod action;
pub mod backup;
pub mod clean;
pub mod command;
pub mod disk;
pub mod errors;
pub mod filetype;
pub mod metadata;
pub mod query;
pub mod rand;
pub mod restore;
pub mod version;
