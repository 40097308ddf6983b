//! Severity levels, ordered from most severe (rank 0) to least severe (rank 7).

use vstd::prelude::*;

verus! {

use vstd::std_specs::cmp::PartialOrdSpec;

/// Log severity levels compatible with syslog and journald.
///
/// Ordering is by numeric rank: `Emergency` (0) is the most severe and
/// compares smallest, `Debug` (7) the least severe and largest.
#[derive(Debug, Clone, Copy, PartialEq, Eq, Structural, Hash)]
pub enum LogLevel {
    /// Emergency: system is unusable
    Emergency,
    /// Alert: action must be taken immediately
    Alert,
    /// Critical: critical conditions
    Critical,
    /// Error: error conditions
    Error,
    /// Warning: warning conditions
    Warning,
    /// Notice: normal but significant condition
    Notice,
    /// Info: informational messages
    Info,
    /// Debug: debug-level messages
    Debug,
}

impl LogLevel {
    /// The fixed numeric rank of a level.
    pub open spec fn rank_spec(self) -> int {
        match self {
            LogLevel::Emergency => 0,
            LogLevel::Alert => 1,
            LogLevel::Critical => 2,
            LogLevel::Error => 3,
            LogLevel::Warning => 4,
            LogLevel::Notice => 5,
            LogLevel::Info => 6,
            LogLevel::Debug => 7,
        }
    }

    /// Numeric rank, 0 (most severe) through 7 (least severe).
    pub fn rank(self) -> (r: u8)
        ensures
            r as int == self.rank_spec(),
    {
        match self {
            LogLevel::Emergency => 0,
            LogLevel::Alert => 1,
            LogLevel::Critical => 2,
            LogLevel::Error => 3,
            LogLevel::Warning => 4,
            LogLevel::Notice => 5,
            LogLevel::Info => 6,
            LogLevel::Debug => 7,
        }
    }

    /// The short upper-case label used in human-readable output.
    pub open spec fn label_spec(self) -> Seq<char> {
        match self {
            LogLevel::Emergency => "EMERG"@,
            LogLevel::Alert => "ALERT"@,
            LogLevel::Critical => "CRIT"@,
            LogLevel::Error => "ERROR"@,
            LogLevel::Warning => "WARN"@,
            LogLevel::Notice => "NOTICE"@,
            LogLevel::Info => "INFO"@,
            LogLevel::Debug => "DEBUG"@,
        }
    }

    /// Short upper-case label for human-readable lines (`EMERG`, `WARN`, ...).
    pub fn label(self) -> (r: &'static str)
        ensures
            r@ == self.label_spec(),
    {
        match self {
            LogLevel::Emergency => "EMERG",
            LogLevel::Alert => "ALERT",
            LogLevel::Critical => "CRIT",
            LogLevel::Error => "ERROR",
            LogLevel::Warning => "WARN",
            LogLevel::Notice => "NOTICE",
            LogLevel::Info => "INFO",
            LogLevel::Debug => "DEBUG",
        }
    }

    /// The level's name as it appears in the JSON wire format.
    pub open spec fn name_spec(self) -> Seq<char> {
        match self {
            LogLevel::Emergency => "Emergency"@,
            LogLevel::Alert => "Alert"@,
            LogLevel::Critical => "Critical"@,
            LogLevel::Error => "Error"@,
            LogLevel::Warning => "Warning"@,
            LogLevel::Notice => "Notice"@,
            LogLevel::Info => "Info"@,
            LogLevel::Debug => "Debug"@,
        }
    }

    /// Wire-format name (`"Emergency"`, `"Warning"`, ...).
    pub fn name(self) -> (r: &'static str)
        ensures
            r@ == self.name_spec(),
    {
        match self {
            LogLevel::Emergency => "Emergency",
            LogLevel::Alert => "Alert",
            LogLevel::Critical => "Critical",
            LogLevel::Error => "Error",
            LogLevel::Warning => "Warning",
            LogLevel::Notice => "Notice",
            LogLevel::Info => "Info",
            LogLevel::Debug => "Debug",
        }
    }

    /// Which level, if any, a wire-format name denotes.
    pub open spec fn of_name_spec(s: Seq<char>) -> Option<LogLevel> {
        if s == LogLevel::Emergency.name_spec() {
            Some(LogLevel::Emergency)
        } else if s == LogLevel::Alert.name_spec() {
            Some(LogLevel::Alert)
        } else if s == LogLevel::Critical.name_spec() {
            Some(LogLevel::Critical)
        } else if s == LogLevel::Error.name_spec() {
            Some(LogLevel::Error)
        } else if s == LogLevel::Warning.name_spec() {
            Some(LogLevel::Warning)
        } else if s == LogLevel::Notice.name_spec() {
            Some(LogLevel::Notice)
        } else if s == LogLevel::Info.name_spec() {
            Some(LogLevel::Info)
        } else if s == LogLevel::Debug.name_spec() {
            Some(LogLevel::Debug)
        } else {
            None
        }
    }

    /// Parse a wire-format name back into a level.
    pub fn of_name(s: &str) -> (r: Option<LogLevel>)
        ensures
            r == Self::of_name_spec(s@),
    {
        if crate::level::str_eq(s, "Emergency") {
            Some(LogLevel::Emergency)
        } else if crate::level::str_eq(s, "Alert") {
            Some(LogLevel::Alert)
        } else if crate::level::str_eq(s, "Critical") {
            Some(LogLevel::Critical)
        } else if crate::level::str_eq(s, "Error") {
            Some(LogLevel::Error)
        } else if crate::level::str_eq(s, "Warning") {
            Some(LogLevel::Warning)
        } else if crate::level::str_eq(s, "Notice") {
            Some(LogLevel::Notice)
        } else if crate::level::str_eq(s, "Info") {
            Some(LogLevel::Info)
        } else if crate::level::str_eq(s, "Debug") {
            Some(LogLevel::Debug)
        } else {
            None
        }
    }
}

/// Character-for-character equality of two string slices.
pub fn str_eq(a: &str, b: &str) -> (r: bool)
    ensures
        r == (a@ == b@),
{
    let an = a.unicode_len();
    let bn = b.unicode_len();
    if an != bn {
        proof {
            assert(a@ != b@) by {
                assert(a@.len() != b@.len());
            }
        }
        return false;
    }
    let mut i: usize = 0;
    while i < an
        invariant
            an == a@.len(),
            an == b@.len(),
            i <= an,
            forall|j: int| 0 <= j < i ==> a@[j] == b@[j],
        decreases an - i,
    {
        if a.get_char(i) != b.get_char(i) {
            return false;
        }
        i += 1;
    }
    proof {
        assert(a@ =~= b@);
    }
    true
}

impl PartialOrd for LogLevel {
    fn partial_cmp(&self, other: &LogLevel) -> (r: Option<core::cmp::Ordering>) {
        let a = self.rank();
        let b = other.rank();
        if a < b {
            Some(core::cmp::Ordering::Less)
        } else if a == b {
            Some(core::cmp::Ordering::Equal)
        } else {
            Some(core::cmp::Ordering::Greater)
        }
    }
}

impl vstd::std_specs::cmp::PartialOrdSpecImpl for LogLevel {
    open spec fn obeys_partial_cmp_spec() -> bool {
        true
    }

    open spec fn partial_cmp_spec(&self, other: &LogLevel) -> Option<core::cmp::Ordering> {
        if self.rank_spec() < other.rank_spec() {
            Some(core::cmp::Ordering::Less)
        } else if self.rank_spec() == other.rank_spec() {
            Some(core::cmp::Ordering::Equal)
        } else {
            Some(core::cmp::Ordering::Greater)
        }
    }
}

/// Comparing two levels agrees with their fixed numeric rank: a level is
/// strictly smaller than another exactly when its rank is strictly smaller,
/// and two levels compare equal exactly when they are the same level.
pub proof fn lemma_level_order_is_rank_order(a: LogLevel, b: LogLevel)
    ensures
        a.partial_cmp_spec(&b) == Some(core::cmp::Ordering::Less) <==> a.rank_spec()
            < b.rank_spec(),
        a.partial_cmp_spec(&b) == Some(core::cmp::Ordering::Equal) <==> a == b,
        a.partial_cmp_spec(&b) == Some(core::cmp::Ordering::Greater) <==> a.rank_spec()
            > b.rank_spec(),
{
}

} // verus!
