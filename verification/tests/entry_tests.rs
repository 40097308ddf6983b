//! Tests for the entry model: levels, fields, construction, serialization.

use logstream::entry::LogEntry;
use logstream::fields::LogFields;
use logstream::level::LogLevel;

#[test]
fn test_log_level_ordering() {
    assert!(LogLevel::Emergency < LogLevel::Alert);
    assert!(LogLevel::Alert < LogLevel::Critical);
    assert!(LogLevel::Critical < LogLevel::Error);
    assert!(LogLevel::Error < LogLevel::Warning);
    assert!(LogLevel::Warning < LogLevel::Notice);
    assert!(LogLevel::Notice < LogLevel::Info);
    assert!(LogLevel::Info < LogLevel::Debug);
}

#[test]
fn test_log_level_values() {
    assert_eq!(LogLevel::Emergency as u8, 0);
    assert_eq!(LogLevel::Alert as u8, 1);
    assert_eq!(LogLevel::Critical as u8, 2);
    assert_eq!(LogLevel::Error as u8, 3);
    assert_eq!(LogLevel::Warning as u8, 4);
    assert_eq!(LogLevel::Notice as u8, 5);
    assert_eq!(LogLevel::Info as u8, 6);
    assert_eq!(LogLevel::Debug as u8, 7);
}

#[test]
fn test_log_level_display() {
    assert_eq!(LogLevel::Emergency.label(), "EMERG");
    assert_eq!(LogLevel::Alert.label(), "ALERT");
    assert_eq!(LogLevel::Critical.label(), "CRIT");
    assert_eq!(LogLevel::Error.label(), "ERROR");
    assert_eq!(LogLevel::Warning.label(), "WARN");
    assert_eq!(LogLevel::Notice.label(), "NOTICE");
    assert_eq!(LogLevel::Info.label(), "INFO");
    assert_eq!(LogLevel::Debug.label(), "DEBUG");
}

#[test]
fn test_log_level_rank() {
    assert_eq!(LogLevel::Emergency.rank(), 0);
    assert_eq!(LogLevel::Debug.rank(), 7);
    assert!(LogLevel::Emergency.rank() < LogLevel::Alert.rank());
}

#[test]
fn test_log_level_wire_names() {
    assert_eq!(LogLevel::Warning.name(), "Warning");
    for level in [
        LogLevel::Emergency,
        LogLevel::Alert,
        LogLevel::Critical,
        LogLevel::Error,
        LogLevel::Warning,
        LogLevel::Notice,
        LogLevel::Info,
        LogLevel::Debug,
    ] {
        assert_eq!(LogLevel::of_name(level.name()), Some(level));
    }
    assert_eq!(LogLevel::of_name("warning"), None);
    assert_eq!(LogLevel::of_name(""), None);
}

#[test]
fn test_log_entry_creation() {
    let entry = LogEntry::new(
        LogLevel::Info,
        "test-daemon".to_string(),
        "Test message".to_string(),
    );

    assert_eq!(entry.level, LogLevel::Info);
    assert_eq!(entry.daemon, "test-daemon");
    assert_eq!(entry.message, "Test message");
    assert!(entry.fields.is_empty());
    assert!(entry.pid.is_none());
    assert!(entry.hostname.is_none());
    let parsed = chrono::DateTime::parse_from_rfc3339(&entry.timestamp).unwrap();
    assert!(parsed.with_timezone(&chrono::Utc) <= chrono::Utc::now());
}

#[test]
fn test_log_entry_with_fields() {
    let mut entry = LogEntry::new(
        LogLevel::Error,
        "app-daemon".to_string(),
        "Database connection failed".to_string(),
    );

    entry.fields.insert("error_code".to_string(), "DB001".to_string());
    entry.fields.insert("retry_count".to_string(), "3".to_string());
    entry.pid = Some(12345);
    entry.hostname = Some("server01".to_string());

    assert_eq!(entry.fields.len(), 2);
    assert_eq!(entry.fields.get("error_code"), Some(&"DB001".to_string()));
    assert_eq!(entry.fields.get("retry_count"), Some(&"3".to_string()));
    assert_eq!(entry.pid, Some(12345));
    assert_eq!(entry.hostname, Some("server01".to_string()));
}

#[test]
fn test_log_entry_serialization() {
    let mut entry = LogEntry::new(
        LogLevel::Warning,
        "test-service".to_string(),
        "Memory usage high".to_string(),
    );
    entry.fields.insert("memory_percent".to_string(), "85".to_string());

    let json = entry.to_json().unwrap();
    assert!(json.contains("\"level\":\"Warning\""));
    assert!(json.contains("\"daemon\":\"test-service\""));
    assert!(json.contains("\"message\":\"Memory usage high\""));
    assert!(json.contains("\"memory_percent\":\"85\""));
}

#[test]
fn test_log_entry_deserialization() {
    let mut original = LogEntry::new(
        LogLevel::Critical,
        "auth-daemon".to_string(),
        "Authentication failed".to_string(),
    );
    original.fields.insert("user".to_string(), "admin".to_string());
    original.pid = Some(5678);

    let json = original.to_json().unwrap();
    let deserialized = LogEntry::from_json(&json).unwrap();

    assert_eq!(deserialized.id, original.id);
    assert_eq!(deserialized.level, LogLevel::Critical);
    assert_eq!(deserialized.daemon, "auth-daemon");
    assert_eq!(deserialized.message, "Authentication failed");
    assert_eq!(deserialized.fields.get("user"), Some(&"admin".to_string()));
    assert_eq!(deserialized.pid, Some(5678));
}

#[test]
fn test_log_entry_human_readable() {
    let entry = LogEntry::new(
        LogLevel::Info,
        "web-server".to_string(),
        "Request processed successfully".to_string(),
    );

    let readable = entry.to_human_readable();
    assert!(readable.contains("INFO"));
    assert!(readable.contains("web-server"));
    assert!(readable.contains("Request processed successfully"));
    // Check for timestamp format (YYYY-MM-DD HH:MM:SS.SSS)
    assert!(readable.chars().filter(|&c| c == '-').count() >= 2);
    assert!(readable.chars().filter(|&c| c == ':').count() >= 3);
}

#[test]
fn test_multiple_log_entries_unique_ids() {
    let entry1 = LogEntry::new(LogLevel::Info, "daemon1".to_string(), "msg1".to_string());
    let entry2 = LogEntry::new(LogLevel::Info, "daemon1".to_string(), "msg1".to_string());

    assert_ne!(entry1.id, entry2.id);
}

#[test]
fn test_log_fields_type_alias() {
    let mut fields = LogFields::new();
    fields.insert("key1".to_string(), "value1".to_string());
    fields.insert("key2".to_string(), "value2".to_string());

    assert_eq!(fields.len(), 2);
    assert_eq!(fields.get("key1"), Some(&"value1".to_string()));
}

#[test]
fn test_serialization_round_trip() {
    let mut original = LogEntry::new(
        LogLevel::Debug,
        "test-daemon".to_string(),
        "Debug message with special chars: \"quotes\", 'apostrophes', \\backslash".to_string(),
    );
    original.fields.insert("field_with_newline".to_string(), "line1\nline2".to_string());
    original.fields.insert("field_with_tab".to_string(), "col1\tcol2".to_string());
    original.pid = Some(99999);
    original.hostname = Some("test-host.example.com".to_string());

    let json = original.to_json().unwrap();
    let deserialized = LogEntry::from_json(&json).unwrap();

    assert_eq!(deserialized.id, original.id);
    assert_eq!(deserialized.timestamp, original.timestamp);
    assert_eq!(deserialized.level, original.level);
    assert_eq!(deserialized.daemon, original.daemon);
    assert_eq!(deserialized.message, original.message);
    assert_eq!(deserialized.fields, original.fields);
    assert_eq!(deserialized.pid, original.pid);
    assert_eq!(deserialized.hostname, original.hostname);
}

#[test]
fn test_round_trip_control_characters() {
    let mut original = LogEntry::new(
        LogLevel::Notice,
        "ctl-daemon".to_string(),
        "bell \u{7} and escape \u{1b} and unit sep \u{1f}".to_string(),
    );
    original.fields.insert("k".to_string(), "\u{0}\u{1}\u{2}".to_string());

    let json = original.to_json().unwrap();
    let back = LogEntry::from_json(&json).unwrap();
    assert_eq!(back.message, original.message);
    assert_eq!(back.fields, original.fields);
}

#[test]
fn test_last_write_wins_fields() {
    let mut fields = LogFields::new();
    fields.insert("k".to_string(), "first".to_string());
    fields.insert("k".to_string(), "second".to_string());
    assert_eq!(fields.len(), 1);
    assert_eq!(fields.get("k"), Some(&"second".to_string()));
}

#[test]
fn test_rendered_json_is_valid_json() {
    let mut entry = LogEntry::new(
        LogLevel::Error,
        "cross-check".to_string(),
        "tricky \"content\"\nwith newline".to_string(),
    );
    entry.fields.insert("a".to_string(), "b".to_string());
    entry.pid = Some(42);
    entry.hostname = Some("h".to_string());

    let json = entry.to_json().unwrap();
    let value: serde_json::Value = serde_json::from_str(&json).unwrap();
    assert_eq!(value["level"], "Error");
    assert_eq!(value["daemon"], "cross-check");
    assert_eq!(value["message"], "tricky \"content\"\nwith newline");
    assert_eq!(value["fields"]["a"], "b");
    assert_eq!(value["pid"], 42);
    assert_eq!(value["hostname"], "h");
    assert_eq!(value["id"].as_str().unwrap(), entry.id);
}

#[test]
fn test_parse_accepts_serde_rendering() {
    // A record serialized by a conventional JSON library, members reordered
    // and an unknown member added, still parses to the same values.
    let line = "{ \"hostname\": null, \"pid\": null, \"fields\": {}, \"message\": \"hello\", \"daemon\": \"d1\", \"level\": \"Info\", \"timestamp\": \"2024-01-26T18:30:09.453Z\", \"id\": \"00000000-0000-4000-8000-000000000000\", \"extra\": [1, 2.5e3, true, {\"deep\": \"x\"}] }";
    let entry = LogEntry::from_json(line).unwrap();
    assert_eq!(entry.level, LogLevel::Info);
    assert_eq!(entry.daemon, "d1");
    assert_eq!(entry.message, "hello");
    assert!(entry.pid.is_none());
    assert!(entry.hostname.is_none());
    assert!(entry.fields.is_empty());
}

#[test]
fn test_parse_rejects_malformed() {
    // not JSON at all: the failure is serialization-class
    assert!(matches!(
        LogEntry::from_json("invalid json"),
        Err(logstream::LogStreamError::Serde(_))
    ));
    assert!(LogEntry::from_json("{broken: json").is_err());
    assert!(LogEntry::from_json("").is_err());
    // missing required members
    assert!(LogEntry::from_json("{\"daemon\":\"d\",\"message\":\"m\"}").is_err());
    // duplicate member
    let dup = "{\"id\":\"77e17b85-1f52-4a0e-8f26-6c7a89f6347b\",\"id\":\"77e17b85-1f52-4a0e-8f26-6c7a89f6347b\",\"timestamp\":\"2024-01-26T18:30:09Z\",\"level\":\"Info\",\"daemon\":\"d\",\"message\":\"m\",\"fields\":{},\"pid\":null,\"hostname\":null}";
    assert!(LogEntry::from_json(dup).is_err());
    // unknown level name
    let badlevel = "{\"id\":\"77e17b85-1f52-4a0e-8f26-6c7a89f6347b\",\"timestamp\":\"2024-01-26T18:30:09Z\",\"level\":\"Loud\",\"daemon\":\"d\",\"message\":\"m\",\"fields\":{},\"pid\":null,\"hostname\":null}";
    assert!(LogEntry::from_json(badlevel).is_err());
    // empty daemon name
    let nodaemon = "{\"id\":\"77e17b85-1f52-4a0e-8f26-6c7a89f6347b\",\"timestamp\":\"2024-01-26T18:30:09Z\",\"level\":\"Info\",\"daemon\":\"\",\"message\":\"m\",\"fields\":{},\"pid\":null,\"hostname\":null}";
    assert!(LogEntry::from_json(nodaemon).is_err());
    // pid out of range
    let bigpid = "{\"id\":\"77e17b85-1f52-4a0e-8f26-6c7a89f6347b\",\"timestamp\":\"2024-01-26T18:30:09Z\",\"level\":\"Info\",\"daemon\":\"d\",\"message\":\"m\",\"fields\":{},\"pid\":4294967296,\"hostname\":null}";
    assert!(LogEntry::from_json(bigpid).is_err());
    // trailing garbage
    let trailing = "{\"id\":\"77e17b85-1f52-4a0e-8f26-6c7a89f6347b\",\"timestamp\":\"2024-01-26T18:30:09Z\",\"level\":\"Info\",\"daemon\":\"d\",\"message\":\"m\",\"fields\":{},\"pid\":null,\"hostname\":null} x";
    assert!(LogEntry::from_json(trailing).is_err());
}

#[test]
fn test_parse_tolerates_surrounding_whitespace() {
    let entry = LogEntry::new(LogLevel::Info, "ws".to_string(), "m".to_string());
    let json = entry.to_json().unwrap();
    let framed = format!("  {}\n", json);
    let back = LogEntry::from_json(&framed).unwrap();
    assert_eq!(back.id, entry.id);
}

#[test]
fn test_wire_line_is_newline_framed() {
    let entry = LogEntry::new(LogLevel::Info, "frame".to_string(), "m".to_string());
    let line = entry.wire_line();
    assert!(line.ends_with('\n'));
    assert_eq!(line.trim_end_matches('\n'), entry.to_json().unwrap());
}

#[test]
fn test_canonical_rendering_exact() {
    // Parsing a canonical line and re-rendering it reproduces it byte for
    // byte: the renderer emits exactly this shape.
    let line = "{\"id\":\"00000000-0000-4000-8000-000000000000\",\"timestamp\":\"2024-01-26T18:30:09.453Z\",\"level\":\"Warning\",\"daemon\":\"d\",\"message\":\"m\",\"fields\":{\"a\":\"b\"},\"pid\":7,\"hostname\":\"h\"}";
    let entry = LogEntry::from_json(line).unwrap();
    assert_eq!(entry.to_json().unwrap(), line);

    let nulls = "{\"id\":\"77e17b85-1f52-4a0e-8f26-6c7a89f6347b\",\"timestamp\":\"2024-01-26T18:30:09Z\",\"level\":\"Info\",\"daemon\":\"d\",\"message\":\"\",\"fields\":{},\"pid\":null,\"hostname\":null}";
    let entry = LogEntry::from_json(nulls).unwrap();
    assert_eq!(entry.to_json().unwrap(), nulls);
}

#[test]
fn test_human_readable_exact() {
    let line = "{\"id\":\"77e17b85-1f52-4a0e-8f26-6c7a89f6347b\",\"timestamp\":\"2024-01-26T18:30:09.453Z\",\"level\":\"Warning\",\"daemon\":\"web\",\"message\":\"slow request\",\"fields\":{},\"pid\":null,\"hostname\":null}";
    let entry = LogEntry::from_json(line).unwrap();
    assert_eq!(
        entry.to_human_readable(),
        "2024-01-26 18:30:09.453 WARN web: slow request"
    );
}

fn with_members(id: &str, timestamp: &str, tail: &str) -> String {
    format!(
        "{{\"id\":\"{}\",\"timestamp\":\"{}\",\"level\":\"Info\",\"daemon\":\"d\",\"message\":\"m\",\"fields\":{{}}{}}}",
        id, timestamp, tail
    )
}

#[test]
fn test_optional_members_absent() {
    // A record without pid and hostname members parses with both unknown.
    let line = with_members(
        "77e17b85-1f52-4a0e-8f26-6c7a89f6347b",
        "2024-01-26T18:30:09.453Z",
        "",
    );
    let entry = LogEntry::from_json(&line).unwrap();
    assert!(entry.pid.is_none());
    assert!(entry.hostname.is_none());
    // only one of the two absent
    let line = with_members(
        "77e17b85-1f52-4a0e-8f26-6c7a89f6347b",
        "2024-01-26T18:30:09.453Z",
        ",\"pid\":42",
    );
    let entry = LogEntry::from_json(&line).unwrap();
    assert_eq!(entry.pid, Some(42));
    assert!(entry.hostname.is_none());
}

#[test]
fn test_id_formats_accepted() {
    let ts = "2024-01-26T18:30:09Z";
    for id in [
        "77e17b85-1f52-4a0e-8f26-6c7a89f6347b",         // hyphenated
        "77E17B85-1F52-4A0E-8F26-6C7A89F6347B",         // upper-case hex
        "77e17b851f524a0e8f266c7a89f6347b",             // simple
        "{77e17b85-1f52-4a0e-8f26-6c7a89f6347b}",       // braced
        "urn:uuid:77e17b85-1f52-4a0e-8f26-6c7a89f6347b",// URN
        "URN:UUID:77e17b85-1f52-4a0e-8f26-6c7a89f6347b",// URN, upper case
    ] {
        let line = with_members(id, ts, "");
        assert!(LogEntry::from_json(&line).is_ok(), "rejected id {}", id);
    }
}

#[test]
fn test_rejects_invalid_id() {
    let ts = "2024-01-26T18:30:09Z";
    for id in [
        "x",
        "",
        "77e17b85-1f52-4a0e-8f26-6c7a89f6347",   // 35 chars
        "77e17b85-1f52-4a0e-8f26-6c7a89f6347bb", // 37 chars
        "77e17b85x1f52-4a0e-8f26-6c7a89f6347b",  // wrong separator
        "77g17b85-1f52-4a0e-8f26-6c7a89f6347b",  // non-hex digit
        "(77e17b85-1f52-4a0e-8f26-6c7a89f6347b)",// wrong braces
    ] {
        let line = with_members(id, ts, "");
        assert!(LogEntry::from_json(&line).is_err(), "accepted id {}", id);
    }
}

#[test]
fn test_timestamp_variants_accepted() {
    let id = "77e17b85-1f52-4a0e-8f26-6c7a89f6347b";
    for ts in [
        "2024-01-26T18:30:09Z",
        "2024-01-26t18:30:09z",           // lower-case markers
        "2024-01-26 18:30:09Z",           // space separator
        "2024-01-26T18:30:09.1Z",         // short fraction
        "2024-01-26T18:30:09.123456789Z", // long fraction
        "2024-01-26T18:30:09+05:30",      // numeric offset
        "2024-01-26T18:30:09-23:59",      // extreme offset
        "2024-02-29T00:00:00Z",           // leap day
        "2024-06-30T23:59:60Z",           // leap second
        "0000-01-01T00:00:00Z",           // earliest shape
    ] {
        let line = with_members(id, ts, "");
        assert!(LogEntry::from_json(&line).is_ok(), "rejected timestamp {}", ts);
    }
}

#[test]
fn test_rejects_invalid_timestamp() {
    let id = "77e17b85-1f52-4a0e-8f26-6c7a89f6347b";
    for ts in [
        "t",
        "",
        "2024-13-01T00:00:00Z",      // month 13
        "2024-00-01T00:00:00Z",      // month 0
        "2023-02-29T00:00:00Z",      // not a leap year
        "2100-02-29T00:00:00Z",      // century, not a leap year
        "2024-04-31T00:00:00Z",      // April has 30 days
        "2024-01-00T00:00:00Z",      // day 0
        "2024-01-26T24:00:00Z",      // hour 24
        "2024-01-26T18:60:00Z",      // minute 60
        "2024-01-26T18:30:61Z",      // second 61
        "2024-01-26T18:30:09",       // missing offset
        "2024-01-26T18:30:09.Z",     // empty fraction
        "2024-01-26T18:30:09+24:00", // offset hour out of range
        "2024-01-26T18:30:09+0530",  // offset missing colon
        "24-01-26T18:30:09Z",        // two-digit year
        "2024-1-26T18:30:09Z",       // one-digit month
    ] {
        let line = with_members(id, ts, "");
        assert!(LogEntry::from_json(&line).is_err(), "accepted timestamp {}", ts);
    }
}
