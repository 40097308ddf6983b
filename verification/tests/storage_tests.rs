//! Tests for the storage engine and the rotation manager, run against the
//! engine's own model of the per-daemon files.

use logstream::config::ServerConfig;
use logstream::entry::LogEntry;
use logstream::level::LogLevel;
use logstream::rotation::LogRotator;
use logstream::storage::LineOutcome;
use logstream::storage::StorageBackend;
use logstream::storage::StoreAction;

fn create_test_config(dir: &str) -> ServerConfig {
    let mut config = ServerConfig::default();
    config.storage.output_directory = dir.to_string();
    config.backends.file.enabled = true;
    config.backends.file.format = "json".to_string();
    config
}

fn active_lines<'a>(backend: &'a StorageBackend, daemon: &str) -> Vec<&'a String> {
    for (key, file) in &backend.files {
        if key == daemon {
            return file.active.iter().collect();
        }
    }
    Vec::new()
}

fn archives(backend: &StorageBackend, daemon: &str) -> Vec<(String, usize)> {
    for (key, file) in &backend.files {
        if key == daemon {
            return file.archived.iter().map(|a| (a.name.clone(), a.lines.len())).collect();
        }
    }
    Vec::new()
}

#[test]
fn test_store_entry_creates_file() {
    let config = create_test_config("/var/log/test");
    let mut backend = StorageBackend::new(&config).unwrap();

    let entry = LogEntry::new(
        LogLevel::Info,
        "test-daemon".to_string(),
        "Test message".to_string(),
    );

    let result = backend.store_entry(&entry);
    assert!(result.is_ok());
    match result.unwrap() {
        StoreAction::Appended { path, line } => {
            assert_eq!(path, "/var/log/test/test-daemon.log");
            assert!(line.contains("Test message"));
            assert!(line.contains("test-daemon"));
            assert!(line.contains("Info"));
        }
        StoreAction::Skipped => panic!("expected an append"),
    }
    assert_eq!(active_lines(&backend, "test-daemon").len(), 1);
}

#[test]
fn test_store_multiple_entries() {
    let config = create_test_config("/var/log/test");
    let mut backend = StorageBackend::new(&config).unwrap();

    for i in 0..5 {
        let entry = LogEntry::new(
            LogLevel::Info,
            "multi-daemon".to_string(),
            format!("Message {}", i),
        );
        backend.store_entry(&entry).unwrap();
    }

    let lines = active_lines(&backend, "multi-daemon");
    assert_eq!(lines.len(), 5);
    for i in 0..5 {
        assert!(lines[i].contains(&format!("Message {}", i)));
    }
}

#[test]
fn test_multiple_daemons() {
    let config = create_test_config("/var/log/test");
    let mut backend = StorageBackend::new(&config).unwrap();

    let daemons = vec!["daemon1", "daemon2", "daemon3"];
    for daemon in &daemons {
        let entry = LogEntry::new(
            LogLevel::Info,
            daemon.to_string(),
            format!("Message from {}", daemon),
        );
        backend.store_entry(&entry).unwrap();
    }

    for daemon in &daemons {
        let lines = active_lines(&backend, daemon);
        assert_eq!(lines.len(), 1);
        assert!(lines[0].contains(&format!("Message from {}", daemon)));
    }
    assert_eq!(backend.files.len(), 3);
}

#[test]
fn test_json_format() {
    let mut config = create_test_config("/var/log/test");
    config.backends.file.format = "json".to_string();
    let mut backend = StorageBackend::new(&config).unwrap();

    let mut entry = LogEntry::new(
        LogLevel::Error,
        "json-test".to_string(),
        "JSON formatted message".to_string(),
    );
    entry.fields.insert("error_code".to_string(), "E001".to_string());

    backend.store_entry(&entry).unwrap();

    let lines = active_lines(&backend, "json-test");
    let parsed: serde_json::Value = serde_json::from_str(lines[0].trim()).unwrap();
    assert_eq!(parsed["level"], "Error");
    assert_eq!(parsed["daemon"], "json-test");
    assert_eq!(parsed["message"], "JSON formatted message");
    assert_eq!(parsed["fields"]["error_code"], "E001");
}

#[test]
fn test_human_readable_format() {
    let mut config = create_test_config("/var/log/test");
    config.backends.file.format = "human".to_string();
    let mut backend = StorageBackend::new(&config).unwrap();

    let entry = LogEntry::new(
        LogLevel::Warning,
        "human-test".to_string(),
        "Human readable message".to_string(),
    );

    backend.store_entry(&entry).unwrap();

    let lines = active_lines(&backend, "human-test");
    assert!(lines[0].contains("WARN"));
    assert!(lines[0].contains("human-test"));
    assert!(lines[0].contains("Human readable message"));
    // Should not be JSON
    assert!(serde_json::from_str::<serde_json::Value>(lines[0].trim()).is_err());
}

#[test]
fn test_disabled_file_backend() {
    let mut config = create_test_config("/var/log/test");
    config.backends.file.enabled = false;
    let mut backend = StorageBackend::new(&config).unwrap();

    let entry = LogEntry::new(
        LogLevel::Info,
        "disabled-test".to_string(),
        "Should not be written".to_string(),
    );

    let result = backend.store_entry(&entry);
    assert!(result.is_ok());
    assert!(matches!(result.unwrap(), StoreAction::Skipped));
    // No file state is created when the backend is disabled.
    assert!(backend.files.is_empty());
}

#[test]
fn test_get_log_file_path() {
    let config = create_test_config("/var/log/test");
    let backend = StorageBackend::new(&config).unwrap();

    let path = backend.get_log_file_path("test-daemon");
    assert_eq!(path, "/var/log/test/test-daemon.log");

    let path2 = backend.get_log_file_path("another-daemon");
    assert_eq!(path2, "/var/log/test/another-daemon.log");
}

#[test]
fn test_handle_connection() {
    // One well-formed line arriving on a connection is stored whole.
    let config = create_test_config("/var/log/test");
    let mut backend = StorageBackend::new(&config).unwrap();

    let entry = LogEntry::new(
        LogLevel::Info,
        "test-daemon".to_string(),
        "Test message from handle_connection".to_string(),
    );
    let outcome = backend.process_line(&entry.wire_line());
    assert!(matches!(outcome, LineOutcome::Stored(_)));

    let lines = active_lines(&backend, "test-daemon");
    assert_eq!(lines.len(), 1);
    assert!(lines[0].contains("Test message from handle_connection"));
}

#[test]
fn test_server_handles_invalid_json() {
    // A malformed line is dropped; the connection's later lines still land.
    let config = create_test_config("/var/log/test");
    let mut backend = StorageBackend::new(&config).unwrap();

    let valid = LogEntry::new(
        LogLevel::Info,
        "valid-daemon".to_string(),
        "Valid message after invalid".to_string(),
    );
    let received = vec![
        "invalid json\n".to_string(),
        "{broken: json\n".to_string(),
        valid.wire_line(),
    ];
    let stored = backend.ingest_lines(&received);

    assert_eq!(stored, 1);
    let lines = active_lines(&backend, "valid-daemon");
    assert_eq!(lines.len(), 1);
    assert!(lines[0].contains("Valid message after invalid"));
}

#[test]
fn test_single_connection_preserves_order() {
    // N well-formed records on one connection: exactly N lines, in order.
    let config = create_test_config("/var/log/test");
    let mut backend = StorageBackend::new(&config).unwrap();

    let n = 50;
    let mut received = Vec::new();
    for i in 0..n {
        let entry = LogEntry::new(
            LogLevel::Info,
            "ordered".to_string(),
            format!("record number {}", i),
        );
        received.push(entry.wire_line());
    }
    let stored = backend.ingest_lines(&received);
    assert_eq!(stored, n);

    let lines = active_lines(&backend, "ordered");
    assert_eq!(lines.len(), n);
    for i in 0..n {
        assert!(lines[i].contains(&format!("\"record number {}\"", i)));
    }
}

#[test]
fn test_concurrent_writes() {
    // Ten producers, 200 records each, interleaved round-robin onto the same
    // daemon key: exactly 2000 whole lines, every producer's records present.
    let config = create_test_config("/var/log/test");
    let mut backend = StorageBackend::new(&config).unwrap();

    for j in 0..200 {
        for producer in 0..10 {
            let entry = LogEntry::new(
                LogLevel::Info,
                "concurrent-test".to_string(),
                format!("producer {} message {}", producer, j),
            );
            let outcome = backend.process_line(&entry.wire_line());
            assert!(matches!(outcome, LineOutcome::Stored(_)));
        }
    }

    let lines = active_lines(&backend, "concurrent-test");
    assert_eq!(lines.len(), 2000);
    for producer in 0..10 {
        for j in 0..200 {
            let needle = format!("\"producer {} message {}\"", producer, j);
            assert!(lines.iter().any(|l| l.contains(&needle)));
        }
    }
    // every stored line is intact: it parses back as one record
    for line in lines {
        assert!(LogEntry::from_json(line).is_ok());
    }
}

#[test]
fn test_rotation_swaps_active_file() {
    let config = create_test_config("/var/log/test");
    let mut backend = StorageBackend::new(&config).unwrap();

    for i in 0..3 {
        let entry = LogEntry::new(
            LogLevel::Info,
            "rotated".to_string(),
            format!("before rotation {}", i),
        );
        backend.store_entry(&entry).unwrap();
    }

    let plan = backend.rotate_daemon("rotated", "20240126-183009").unwrap();
    assert_eq!(plan.from_path, "/var/log/test/rotated.log");
    assert_eq!(plan.to_path, "/var/log/test/rotated.log.20240126-183009");

    assert_eq!(active_lines(&backend, "rotated").len(), 0);
    let archived = archives(&backend, "rotated");
    assert_eq!(archived.len(), 1);
    assert_eq!(archived[0].0, "rotated.log.20240126-183009");
    assert_eq!(archived[0].1, 3);

    // a daemon with no file is left untouched
    assert!(backend.rotate_daemon("absent", "x").is_none());
}

#[test]
fn test_no_message_loss_during_rotation() {
    // A rotation in the middle of a write burst: the total record count
    // across the active file plus all archives equals the records sent.
    let config = create_test_config("/var/log/test");
    let mut backend = StorageBackend::new(&config).unwrap();

    let mut sent = 0;
    for round in 0..4 {
        for i in 0..7 {
            let entry = LogEntry::new(
                LogLevel::Info,
                "burst".to_string(),
                format!("round {} record {}", round, i),
            );
            backend.store_entry(&entry).unwrap();
            sent += 1;
        }
        backend.rotate_daemon("burst", &format!("archive-{}", round)).unwrap();
    }
    for i in 0..5 {
        let entry = LogEntry::new(LogLevel::Info, "burst".to_string(), format!("tail {}", i));
        backend.store_entry(&entry).unwrap();
        sent += 1;
    }

    let total: usize = active_lines(&backend, "burst").len()
        + archives(&backend, "burst").iter().map(|a| a.1).sum::<usize>();
    assert_eq!(total, sent);
}

#[test]
fn test_retention_limit() {
    // After more rotations than keep_files, pruning caps the archives.
    let config = create_test_config("/var/log/test");
    let mut backend = StorageBackend::new(&config).unwrap();
    let keep = 3;

    for round in 0..10 {
        let entry = LogEntry::new(
            LogLevel::Info,
            "retained".to_string(),
            format!("round {}", round),
        );
        backend.store_entry(&entry).unwrap();
        backend.rotate_daemon("retained", &format!("suffix-{}", round)).unwrap();
        backend.prune_archives("retained", keep);
        assert!(archives(&backend, "retained").len() <= keep);
    }

    // the newest archives survive
    let kept = archives(&backend, "retained");
    assert_eq!(kept.len(), keep);
    assert_eq!(kept[0].0, "retained.log.suffix-7");
    assert_eq!(kept[2].0, "retained.log.suffix-9");
}

#[test]
fn test_prune_reports_deleted_paths() {
    let config = create_test_config("/var/log/test");
    let mut backend = StorageBackend::new(&config).unwrap();

    for round in 0..5 {
        let entry = LogEntry::new(LogLevel::Info, "pruned".to_string(), "x".to_string());
        backend.store_entry(&entry).unwrap();
        backend.rotate_daemon("pruned", &format!("s{}", round)).unwrap();
    }
    let deleted = backend.prune_archives("pruned", 2);
    assert_eq!(deleted.len(), 3);
    assert_eq!(deleted[0], "/var/log/test/pruned.log.s0");
    assert_eq!(deleted[2], "/var/log/test/pruned.log.s2");
    // pruning a daemon with no file deletes nothing
    assert!(backend.prune_archives("absent", 2).is_empty());
}

#[test]
fn test_scan_daemon_rotates_when_due() {
    let mut config = create_test_config("/var/log/test");
    config.storage.max_file_size = 10;
    config.storage.rotation.keep_files = 2;
    let rotator = LogRotator::new(&config);
    let mut backend = StorageBackend::new(&config).unwrap();

    let entry = LogEntry::new(LogLevel::Info, "scanned".to_string(), "payload".to_string());
    backend.store_entry(&entry).unwrap();

    // not due: small and young
    assert!(rotator.scan_daemon(&mut backend, "scanned", 5, 1, "t0").is_none());
    assert_eq!(archives(&backend, "scanned").len(), 0);

    // due by size
    let (plan, deleted) = rotator.scan_daemon(&mut backend, "scanned", 11, 1, "t1").unwrap();
    assert_eq!(plan.to_path, "/var/log/test/scanned.log.t1");
    assert!(deleted.is_empty());
    assert_eq!(archives(&backend, "scanned").len(), 1);
    assert_eq!(active_lines(&backend, "scanned").len(), 0);
}
