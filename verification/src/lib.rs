//! Centralized log ingestion: a verified core for a per-daemon log collector.
//!
//! The crate models one log record (`LogEntry`), its wire format (one JSON
//! object per line), the per-daemon storage engine that appends rendered
//! records to files, and the rotation policy that archives and prunes those
//! files.  Everything that decides or computes is verified here; the
//! surrounding process (sockets, file descriptors, timers) drives these
//! functions and carries out the actions they return.

use vstd::prelude::*;

pub mod config;
pub mod entry;
pub mod fields;
pub mod json;
pub mod level;
pub mod rotation;
pub mod server;
pub mod storage;
pub mod wire;
pub mod wire_laws;

verus! {

/// Error taxonomy shared by the whole crate.
///
/// `Config` is fatal at startup; `Connection` and `Server` are fatal to one
/// listener; `Serde` marks a malformed record (recoverable, the line is
/// dropped); `Io` marks a failed append or rotation (recoverable per call).
#[derive(Debug, Clone, PartialEq, Eq)]
pub enum LogStreamError {
    /// I/O operation failed
    Io(String),
    /// Serialization or parsing failed
    Serde(String),
    /// Configuration error
    Config(String),
    /// Server error
    Server(String),
    /// Client error
    Client(String),
    /// Connection error
    Connection(String),
}

} // verus!
