//! The ingestion coordinator: configuration validation and the storage
//! engine behind one server.
//!
//! The coordinator validates the configuration before any resource is
//! opened and owns the storage backend.  The listener's accept loop, the
//! per-connection readers and the shutdown broadcast are asynchronous I/O
//! that runs outside; each connection task feeds the lines it reads to
//! `StorageBackend::process_line` under the per-key serialization the
//! storage contracts assume.

use vstd::prelude::*;

verus! {

use crate::LogStreamError;
use crate::config::ServerConfig;
use crate::storage::FileView;
use crate::storage::StorageBackend;

/// Main server state: the validated configuration and the storage engine.
pub struct LogServer {
    /// The validated configuration.
    pub config: ServerConfig,
    /// The storage engine, empty until the first record arrives.
    pub storage: StorageBackend,
}

impl LogServer {
    /// Create a new server with the given configuration.  The configuration
    /// is validated first: a server is returned exactly when the socket path
    /// is non-empty, and no storage exists for any daemon yet.
    pub fn new(config: ServerConfig) -> (r: Result<LogServer, LogStreamError>)
        ensures
            config.server.socket_path@.len() > 0 ==> (r matches Ok(s) && s.config == config
                && s.storage.config == config && s.storage@ == Seq::<(
                Seq<char>,
                FileView,
            )>::empty() && s.storage.wf()),
            config.server.socket_path@.len() == 0 ==> (r matches Err(e) && e is Config),
    {
        match config.validate() {
            Err(e) => Err(e),
            Ok(()) => {
                match StorageBackend::new(&config) {
                    Ok(storage) => Ok(LogServer { config, storage }),
                    Err(_) => {
                        proof {
                            assert(false);
                        }
                        Err(LogStreamError::Server(String::new()))
                    },
                }
            },
        }
    }
}

} // verus!
