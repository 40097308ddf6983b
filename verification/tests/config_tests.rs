//! Tests for configuration defaults and validation.

use logstream::config::ClientConfig;
use logstream::config::ServerConfig;
use logstream::level::LogLevel;
use logstream::rotation::LogRotator;
use logstream::server::LogServer;
use logstream::storage::StorageBackend;
use logstream::LogStreamError;

fn create_test_config(enabled: bool) -> ServerConfig {
    let mut config = ServerConfig::default();
    config.storage.output_directory = "/tmp/logstream-test".to_string();
    config.storage.rotation.enabled = enabled;
    config.storage.rotation.max_age_hours = 24 * 7; // 7 days
    config.storage.rotation.keep_files = 10;
    config
}

#[test]
fn test_server_config_defaults() {
    let config = ServerConfig::default();
    assert_eq!(config.server.socket_path, "/tmp/logstream.sock");
    assert_eq!(config.server.max_connections, 1000);
    assert_eq!(config.server.buffer_size, 8192);
    assert_eq!(config.storage.output_directory, "/var/log/logstream");
    assert_eq!(config.storage.max_file_size, 100 * 1024 * 1024);
    assert!(config.storage.rotation.enabled);
    assert_eq!(config.storage.rotation.max_age_hours, 24);
    assert_eq!(config.storage.rotation.keep_files, 7);
    assert!(config.backends.file.enabled);
    assert_eq!(config.backends.file.format, "json");
    assert!(!config.backends.journald.enabled);
    assert!(!config.backends.syslog.enabled);
    assert!(!config.metrics.enabled);
    assert!(config.validate().is_ok());
}

#[test]
fn test_server_config_validation() {
    let mut config = ServerConfig::default();
    config.server.socket_path = String::new();
    assert!(matches!(config.validate(), Err(LogStreamError::Config(_))));
}

#[test]
fn test_client_config_defaults() {
    let config = ClientConfig {
        socket_path: "/tmp/test.sock".to_string(),
        daemon_name: "test-daemon".to_string(),
        ..Default::default()
    };

    assert_eq!(config.socket_path, "/tmp/test.sock");
    assert_eq!(config.daemon_name, "test-daemon");
    assert_eq!(config.timeout_seconds, 5);
    assert!(config.auto_reconnect);
    assert_eq!(config.buffer_size, 4096);
    assert_eq!(config.min_level, LogLevel::Info);
    assert!(config.validate().is_ok());
}

#[test]
fn test_client_config_validation() {
    let invalid_config = ClientConfig {
        socket_path: "".to_string(),
        daemon_name: "test".to_string(),
        ..Default::default()
    };
    assert!(invalid_config.validate().is_err());

    let invalid_config2 = ClientConfig {
        socket_path: "/tmp/test.sock".to_string(),
        daemon_name: "".to_string(),
        ..Default::default()
    };
    assert!(invalid_config2.validate().is_err());
}

#[test]
fn test_log_rotator_creation() {
    let config = create_test_config(true);
    let rotator = LogRotator::new(&config);
    assert!(rotator.config.storage.rotation.enabled);
    assert_eq!(rotator.config.storage.rotation.max_age_hours, 24 * 7);
    assert_eq!(rotator.config.storage.rotation.keep_files, 10);
}

#[test]
fn test_multiple_rotators() {
    let config = create_test_config(true);
    let rotator1 = LogRotator::new(&config);
    let rotator2 = LogRotator::new(&config);
    assert_eq!(rotator1.config.server.socket_path, rotator2.config.server.socket_path);
}

#[test]
fn test_rotation_config_values() {
    let mut config = create_test_config(true);
    config.storage.rotation.max_age_hours = 24 * 30; // 30 days
    config.storage.rotation.keep_files = 30;

    let rotator = LogRotator::new(&config);
    assert_eq!(rotator.config.storage.rotation.max_age_hours, 24 * 30);
    assert_eq!(rotator.config.storage.rotation.keep_files, 30);
}

#[test]
fn test_rotation_with_different_intervals() {
    // Rotators can be created for a range of configurations.
    let configs = vec![
        (true, 24, 10),      // 1 day
        (true, 24 * 7, 20),  // 7 days
        (true, 24 * 30, 30), // 30 days
        (false, 0, 0),
    ];

    for (enabled, hours, keep_files) in configs {
        let mut config = create_test_config(enabled);
        config.storage.rotation.max_age_hours = hours;
        config.storage.rotation.keep_files = keep_files;

        let rotator = LogRotator::new(&config);
        assert_eq!(rotator.config.storage.rotation.enabled, enabled);
        assert_eq!(rotator.config.storage.rotation.max_age_hours, hours);
        assert_eq!(rotator.config.storage.rotation.keep_files, keep_files);
    }
}

#[test]
fn test_rotation_disabled_never_due() {
    let config = create_test_config(false);
    let rotator = LogRotator::new(&config);
    assert!(!rotator.should_rotate(u64::MAX, u64::MAX));
}

#[test]
fn test_rotation_trigger_thresholds() {
    let mut config = create_test_config(true);
    config.storage.max_file_size = 1000;
    config.storage.rotation.max_age_hours = 24;
    let rotator = LogRotator::new(&config);
    assert!(!rotator.should_rotate(1000, 24));
    assert!(rotator.should_rotate(1001, 0));
    assert!(rotator.should_rotate(0, 25));
}

#[test]
fn test_log_server_creation() {
    let config = create_test_config(true);
    let server = LogServer::new(config).unwrap();
    assert!(server.storage.files.is_empty());
}

#[test]
fn test_log_server_rejects_empty_socket_path() {
    let mut config = create_test_config(true);
    config.server.socket_path = String::new();
    assert!(matches!(LogServer::new(config), Err(LogStreamError::Config(_))));
}

#[test]
fn test_storage_backend_creation() {
    let config = create_test_config(true);
    let backend = StorageBackend::new(&config);
    assert!(backend.is_ok());

    let backend = backend.unwrap();
    assert_eq!(backend.config.storage.output_directory, config.storage.output_directory);
    assert!(backend.files.is_empty());
}
