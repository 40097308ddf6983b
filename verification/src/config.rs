//! Configuration read at startup and never re-read at runtime.

use vstd::prelude::*;

verus! {

use crate::LogStreamError;
use crate::level::LogLevel;

/// Server configuration.
#[derive(Debug, Clone, PartialEq, Eq)]
pub struct ServerConfig {
    /// Server settings
    pub server: ServerSettings,
    /// Storage configuration
    pub storage: StorageSettings,
    /// Backend configurations
    pub backends: BackendSettings,
    /// Metrics configuration
    pub metrics: MetricsSettings,
}

/// Core server settings.
#[derive(Debug, Clone, PartialEq, Eq)]
pub struct ServerSettings {
    /// Socket path to bind to
    pub socket_path: String,
    /// Maximum concurrent connections
    pub max_connections: usize,
    /// Buffer size for reading data
    pub buffer_size: usize,
}

/// Storage configuration.
#[derive(Debug, Clone, PartialEq, Eq)]
pub struct StorageSettings {
    /// Directory to store log files
    pub output_directory: String,
    /// Maximum file size before rotation (bytes)
    pub max_file_size: u64,
    /// Log rotation settings
    pub rotation: RotationSettings,
}

/// Log rotation configuration.
#[derive(Debug, Clone, PartialEq, Eq)]
pub struct RotationSettings {
    /// Enable log rotation
    pub enabled: bool,
    /// Maximum age of log files in hours
    pub max_age_hours: u32,
    /// Number of rotated files to keep
    pub keep_files: u32,
}

/// Backend configuration.
#[derive(Debug, Clone, PartialEq, Eq)]
pub struct BackendSettings {
    /// File storage backend
    pub file: FileBackendSettings,
    /// Journald backend
    pub journald: JournaldBackendSettings,
    /// Syslog backend
    pub syslog: SyslogBackendSettings,
}

/// File backend settings.
#[derive(Debug, Clone, PartialEq, Eq)]
pub struct FileBackendSettings {
    /// Enable file backend
    pub enabled: bool,
    /// File format (json, human, syslog)
    pub format: String,
    /// Enable compression
    pub compression: bool,
    /// Compression algorithm (gzip, lz4)
    pub compression_algorithm: String,
}

/// Journald backend settings.
#[derive(Debug, Clone, PartialEq, Eq)]
pub struct JournaldBackendSettings {
    /// Enable journald backend
    pub enabled: bool,
    /// Syslog identifier for journald
    pub syslog_identifier: String,
}

/// Syslog backend settings.
#[derive(Debug, Clone, PartialEq, Eq)]
pub struct SyslogBackendSettings {
    /// Enable syslog backend
    pub enabled: bool,
    /// Syslog facility
    pub facility: String,
    /// Syslog server address (for remote syslog)
    pub server: Option<String>,
}

/// Metrics configuration.
#[derive(Debug, Clone, PartialEq, Eq)]
pub struct MetricsSettings {
    /// Enable metrics endpoint
    pub enabled: bool,
    /// Metrics server port
    pub port: u16,
    /// Metrics endpoint path
    pub path: String,
}

/// Client configuration.
#[derive(Debug, Clone, PartialEq, Eq)]
pub struct ClientConfig {
    /// Server socket path to connect to
    pub socket_path: String,
    /// Client daemon name
    pub daemon_name: String,
    /// Minimum log level to send
    pub min_level: LogLevel,
    /// Connection timeout in seconds
    pub timeout_seconds: u64,
    /// Enable automatic reconnection
    pub auto_reconnect: bool,
    /// Buffer size for outgoing messages
    pub buffer_size: usize,
}

impl Default for ServerConfig {
    /// The built-in server configuration: local socket, file backend on in
    /// JSON format, hourly-scanned daily rotation keeping seven archives.
    fn default() -> (r: Self)
        ensures
            r.server.socket_path@ == "/tmp/logstream.sock"@,
            r.server.max_connections == 1000,
            r.server.buffer_size == 8192,
            r.storage.output_directory@ == "/var/log/logstream"@,
            r.storage.max_file_size == 104857600,
            r.storage.rotation.enabled,
            r.storage.rotation.max_age_hours == 24,
            r.storage.rotation.keep_files == 7,
            r.backends.file.enabled,
            r.backends.file.format@ == "json"@,
            !r.backends.file.compression,
            r.backends.file.compression_algorithm@ == "gzip"@,
            !r.backends.journald.enabled,
            !r.backends.syslog.enabled,
            !r.metrics.enabled,
            r.metrics.port == 0,
    {
        ServerConfig {
            server: ServerSettings {
                socket_path: String::from_str("/tmp/logstream.sock"),
                max_connections: 1000,
                buffer_size: 8192,
            },
            storage: StorageSettings {
                output_directory: String::from_str("/var/log/logstream"),
                max_file_size: 104857600,
                rotation: RotationSettings { enabled: true, max_age_hours: 24, keep_files: 7 },
            },
            backends: BackendSettings::default(),
            metrics: MetricsSettings::default(),
        }
    }
}

impl Default for BackendSettings {
    /// The built-in backend set: the file backend on, journald and syslog
    /// off.
    fn default() -> (r: Self)
        ensures
            r.file.enabled,
            r.file.format@ == "json"@,
            !r.file.compression,
            r.file.compression_algorithm@ == "gzip"@,
            !r.journald.enabled,
            r.journald.syslog_identifier@ == Seq::<char>::empty(),
            !r.syslog.enabled,
            r.syslog.facility@ == Seq::<char>::empty(),
            r.syslog.server is None,
    {
        BackendSettings {
            file: FileBackendSettings::default(),
            journald: JournaldBackendSettings::default(),
            syslog: SyslogBackendSettings::default(),
        }
    }
}

impl Default for FileBackendSettings {
    /// The built-in file backend: enabled, JSON format, no compression.
    fn default() -> (r: Self)
        ensures
            r.enabled,
            r.format@ == "json"@,
            !r.compression,
            r.compression_algorithm@ == "gzip"@,
    {
        FileBackendSettings {
            enabled: true,
            format: String::from_str("json"),
            compression: false,
            compression_algorithm: String::from_str("gzip"),
        }
    }
}

impl Default for JournaldBackendSettings {
    /// Journald off, no identifier.
    fn default() -> (r: Self)
        ensures
            !r.enabled,
            r.syslog_identifier@ == Seq::<char>::empty(),
    {
        JournaldBackendSettings { enabled: false, syslog_identifier: String::new() }
    }
}

impl Default for SyslogBackendSettings {
    /// Syslog off, no facility, no remote server.
    fn default() -> (r: Self)
        ensures
            !r.enabled,
            r.facility@ == Seq::<char>::empty(),
            r.server is None,
    {
        SyslogBackendSettings { enabled: false, facility: String::new(), server: None }
    }
}

impl Default for MetricsSettings {
    /// Metrics off.
    fn default() -> (r: Self)
        ensures
            !r.enabled,
            r.port == 0,
            r.path@ == Seq::<char>::empty(),
    {
        MetricsSettings { enabled: false, port: 0, path: String::new() }
    }
}

impl Default for ClientConfig {
    /// The built-in client configuration.
    fn default() -> (r: Self)
        ensures
            r.socket_path@ == "/tmp/logstream.sock"@,
            r.daemon_name@ == "unknown"@,
            r.min_level == LogLevel::Info,
            r.timeout_seconds == 5,
            r.auto_reconnect,
            r.buffer_size == 4096,
    {
        ClientConfig {
            socket_path: String::from_str("/tmp/logstream.sock"),
            daemon_name: String::from_str("unknown"),
            min_level: LogLevel::Info,
            timeout_seconds: 5,
            auto_reconnect: true,
            buffer_size: 4096,
        }
    }
}

impl ServerConfig {
    /// Validate the configuration: the socket path must be non-empty.
    /// Returns `Ok` exactly when it is; otherwise the configuration-class
    /// error with its exact message.
    pub fn validate(&self) -> (r: Result<(), LogStreamError>)
        ensures
            r is Ok <==> self.server.socket_path@.len() > 0,
            r is Err ==> (r matches Err(LogStreamError::Config(m)) && m@
                == "Socket path cannot be empty"@),
    {
        if self.server.socket_path.as_str().is_empty() {
            Err(LogStreamError::Config(String::from_str("Socket path cannot be empty")))
        } else {
            Ok(())
        }
    }

    /// An exact copy of this configuration.
    pub fn duplicate(&self) -> (r: ServerConfig)
        ensures
            r == *self,
    {
        ServerConfig {
            server: ServerSettings {
                socket_path: self.server.socket_path.clone(),
                max_connections: self.server.max_connections,
                buffer_size: self.server.buffer_size,
            },
            storage: StorageSettings {
                output_directory: self.storage.output_directory.clone(),
                max_file_size: self.storage.max_file_size,
                rotation: RotationSettings {
                    enabled: self.storage.rotation.enabled,
                    max_age_hours: self.storage.rotation.max_age_hours,
                    keep_files: self.storage.rotation.keep_files,
                },
            },
            backends: BackendSettings {
                file: FileBackendSettings {
                    enabled: self.backends.file.enabled,
                    format: self.backends.file.format.clone(),
                    compression: self.backends.file.compression,
                    compression_algorithm: self.backends.file.compression_algorithm.clone(),
                },
                journald: JournaldBackendSettings {
                    enabled: self.backends.journald.enabled,
                    syslog_identifier: self.backends.journald.syslog_identifier.clone(),
                },
                syslog: SyslogBackendSettings {
                    enabled: self.backends.syslog.enabled,
                    facility: self.backends.syslog.facility.clone(),
                    server: match &self.backends.syslog.server {
                        Some(s) => Some(s.clone()),
                        None => None,
                    },
                },
            },
            metrics: MetricsSettings {
                enabled: self.metrics.enabled,
                port: self.metrics.port,
                path: self.metrics.path.clone(),
            },
        }
    }
}

impl ClientConfig {
    /// Validate the configuration: socket path and daemon name must both be
    /// non-empty.  Returns `Ok` exactly when they are; otherwise the
    /// configuration-class error with its exact message, the socket path
    /// checked first.
    pub fn validate(&self) -> (r: Result<(), LogStreamError>)
        ensures
            r is Ok <==> (self.socket_path@.len() > 0 && self.daemon_name@.len() > 0),
            self.socket_path@.len() == 0 ==> (r matches Err(LogStreamError::Config(m)) && m@
                == "Socket path cannot be empty"@),
            self.socket_path@.len() > 0 && self.daemon_name@.len() == 0 ==> (r matches Err(
                LogStreamError::Config(m),
            ) && m@ == "Daemon name cannot be empty"@),
    {
        if self.socket_path.as_str().is_empty() {
            Err(LogStreamError::Config(String::from_str("Socket path cannot be empty")))
        } else if self.daemon_name.as_str().is_empty() {
            Err(LogStreamError::Config(String::from_str("Daemon name cannot be empty")))
        } else {
            Ok(())
        }
    }
}

} // verus!
