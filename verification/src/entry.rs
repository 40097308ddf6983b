//! One structured log record.

use vstd::prelude::*;

verus! {

use crate::fields::LogFields;
use crate::level::LogLevel;
use crate::wire::EntryView;
use crate::wire::human_timestamp;
use crate::wire::render_human;

/// A structured log entry: immutable once handed to storage.
#[derive(Debug, Clone, PartialEq, Eq)]
pub struct LogEntry {
    /// Unique identifier for this log entry
    pub id: String,
    /// Timestamp when the log was created (ISO-8601, UTC)
    pub timestamp: String,
    /// Log severity level
    pub level: LogLevel,
    /// Name of the daemon/service that generated this log
    pub daemon: String,
    /// Primary log message
    pub message: String,
    /// Additional structured fields
    pub fields: LogFields,
    /// Process ID that generated the log
    pub pid: Option<u32>,
    /// Hostname where the log was generated
    pub hostname: Option<String>,
}

impl View for LogEntry {
    type V = EntryView;

    open spec fn view(&self) -> EntryView {
        EntryView {
            id: self.id@,
            timestamp: self.timestamp@,
            level: self.level,
            daemon: self.daemon@,
            message: self.message@,
            fields: self.fields@,
            pid: self.pid,
            hostname: match self.hostname {
                Some(h) => Some(h@),
                None => None,
            },
        }
    }
}

/// Relies on uuid's `Uuid::new_v4` and its hyphenated formatter: a fresh
/// random 128-bit identifier rendered in the hyphenated form, 8-4-4-4-12
/// hexadecimal digits.
#[verifier::external_body]
fn fresh_entry_id() -> (r: String)
    ensures
        crate::wire::is_hyphenated_uuid(r@),
{
    uuid::Uuid::new_v4().hyphenated().to_string()
}

/// Relies on chrono's `Utc::now` and `to_rfc3339_opts`: the current UTC
/// wall-clock instant as an RFC 3339 string with millisecond precision and a
/// trailing `Z` — 24 characters, `YYYY-MM-DDTHH:MM:SS.mmmZ`, a real calendar
/// date and clock time.
#[verifier::external_body]
fn current_timestamp() -> (r: String)
    ensures
        crate::wire::is_valid_timestamp(r@),
        r@.len() == 24,
        r@[10] == 'T',
{
    chrono::Utc::now().to_rfc3339_opts(chrono::SecondsFormat::Millis, true)
}

impl LogEntry {
    /// A well-formed entry: unique field keys and a non-empty daemon name.
    pub open spec fn wf(&self) -> bool {
        self@.wf() && self.fields.wf()
    }

    /// Create a new log entry with a fresh id and the current timestamp;
    /// fields, pid and hostname start empty and may be filled in afterwards.
    pub fn new(level: LogLevel, daemon: String, message: String) -> (r: LogEntry)
        requires
            daemon@.len() > 0,
        ensures
            r.level == level,
            r@.daemon == daemon@,
            r@.message == message@,
            r@.fields == Seq::<(Seq<char>, Seq<char>)>::empty(),
            r.pid is None,
            r.hostname is None,
            r@.id.len() == 36,
            r@.timestamp.len() == 24,
            r@.timestamp[10] == 'T',
            r.wf(),
    {
        LogEntry {
            id: fresh_entry_id(),
            timestamp: current_timestamp(),
            level,
            daemon,
            message,
            fields: LogFields::new(),
            pid: None,
            hostname: None,
        }
    }

    /// Format as a human-readable line: reshaped timestamp, level label,
    /// daemon name, then the message.
    pub fn to_human_readable(&self) -> (r: String)
        ensures
            r@ == render_human(self@),
    {
        let mut out = String::new();
        let ts = self.timestamp.as_str();
        let n = ts.unicode_len();
        if n >= 23 && ts.get_char(10) == 'T' {
            out.append(ts.substring_char(0, 10));
            push_char(&mut out, ' ');
            out.append(ts.substring_char(11, 23));
            proof {
                assert(out@ =~= human_timestamp(self@.timestamp));
            }
        } else {
            out.append(ts);
        }
        push_char(&mut out, ' ');
        out.append(self.level.label());
        push_char(&mut out, ' ');
        out.append(self.daemon.as_str());
        push_char(&mut out, ':');
        push_char(&mut out, ' ');
        out.append(self.message.as_str());
        proof {
            assert(out@ =~= render_human(self@));
        }
        out
    }
}

/// Build the entry one client `log` call sends: the daemon name from the
/// client configuration, the given level, message and fields, and the
/// producer's own pid and hostname.
pub fn client_entry(
    config: &crate::config::ClientConfig,
    level: LogLevel,
    message: &str,
    fields: LogFields,
    pid: u32,
    hostname: &str,
) -> (r: LogEntry)
    requires
        config.daemon_name@.len() > 0,
        fields.wf(),
    ensures
        r.level == level,
        r@.daemon == config.daemon_name@,
        r@.message == message@,
        r@.fields == fields@,
        r.pid == Some(pid),
        r@.hostname matches Some(h) && h == hostname@,
        r@.id.len() == 36,
        r.wf(),
{
    let mut e = LogEntry::new(level, config.daemon_name.clone(), String::from_str(message));
    e.fields = fields;
    e.pid = Some(pid);
    e.hostname = Some(String::from_str(hostname));
    e
}

/// Append one character to a string.
pub fn push_char(s: &mut String, c: char)
    ensures
        final(s)@ == old(s)@.push(c),
{
    s.push(c);
}

pub assume_specification[ String::push ](s: &mut String, c: char)
    ensures
        final(s)@ == old(s)@.push(c),
;

} // verus!
