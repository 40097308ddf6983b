//! The wire and storage format of a log record, as a mathematical grammar.
//!
//! One record is one JSON object on one line.  `render_entry` gives the exact
//! character sequence the collector writes and the client sends; the `sp_*`
//! functions form a parser over character sequences that accepts that shape,
//! tolerates whitespace between tokens, ignores unknown members, and rejects
//! everything malformed.  The executable renderer and parser are proved
//! against these functions, and the round-trip law is proved about them.

use vstd::prelude::*;

verus! {

use crate::fields::{lww_insert, unique_keys};
use crate::level::LogLevel;

// ---------------------------------------------------------------------------
// The abstract value of one log entry.
// ---------------------------------------------------------------------------

/// The mathematical value of a log entry: every field as a plain sequence.
#[verifier::ext_equal]
pub struct EntryView {
    /// Process-unique identifier, as its hyphenated string.
    pub id: Seq<char>,
    /// Creation instant, as an ISO-8601 string.
    pub timestamp: Seq<char>,
    /// Severity level.
    pub level: LogLevel,
    /// Partition key: the producing daemon's name.
    pub daemon: Seq<char>,
    /// Free-form message text.
    pub message: Seq<char>,
    /// Extra fields, in insertion order, keys unique.
    pub fields: Seq<(Seq<char>, Seq<char>)>,
    /// Producer process id, if known.
    pub pid: Option<u32>,
    /// Producer hostname, if known.
    pub hostname: Option<Seq<char>>,
}

impl EntryView {
    /// A well-formed entry: a UUID-shaped id, an RFC 3339 timestamp, unique
    /// field keys and a non-empty daemon name.
    pub open spec fn wf(self) -> bool {
        is_valid_id(self.id) && is_valid_timestamp(self.timestamp) && unique_keys(self.fields)
            && self.daemon.len() > 0
    }
}

// ---------------------------------------------------------------------------
// Characters and small sequences.
// ---------------------------------------------------------------------------

/// All characters after the first `n`.
pub open spec fn tail_at(s: Seq<char>, n: int) -> Seq<char> {
    s.subrange(n, s.len() as int)
}

/// JSON whitespace.
pub open spec fn is_ws(c: char) -> bool {
    c == ' ' || c == '\t' || c == '\n' || c == '\r'
}

/// Decimal digit.
pub open spec fn is_digit(c: char) -> bool {
    0x30 <= c as u32 <= 0x39
}

/// Numeric value of a decimal digit.
pub open spec fn digit_val(c: char) -> int {
    c as u32 - 0x30
}

/// The decimal digit character for a value below ten.
pub open spec fn digit_char(n: int) -> char {
    if n == 0 {
        '0'
    } else if n == 1 {
        '1'
    } else if n == 2 {
        '2'
    } else if n == 3 {
        '3'
    } else if n == 4 {
        '4'
    } else if n == 5 {
        '5'
    } else if n == 6 {
        '6'
    } else if n == 7 {
        '7'
    } else if n == 8 {
        '8'
    } else {
        '9'
    }
}

/// The lower-case hexadecimal digit character for a value below sixteen.
pub open spec fn hex_char(n: int) -> char {
    if n < 10 {
        digit_char(n)
    } else if n == 10 {
        'a'
    } else if n == 11 {
        'b'
    } else if n == 12 {
        'c'
    } else if n == 13 {
        'd'
    } else if n == 14 {
        'e'
    } else {
        'f'
    }
}

/// Numeric value of a hexadecimal digit character, either case.
pub open spec fn hex_val(c: char) -> Option<int> {
    if is_digit(c) {
        Some(digit_val(c))
    } else if 0x61 <= c as u32 <= 0x66 {
        Some(c as u32 - 0x61 + 10)
    } else if 0x41 <= c as u32 <= 0x46 {
        Some(c as u32 - 0x41 + 10)
    } else {
        None
    }
}

// ---------------------------------------------------------------------------
// Rendering.
// ---------------------------------------------------------------------------

/// How one character appears inside a JSON string literal: quote and
/// backslash get a backslash escape, the common control characters get their
/// short escapes, the remaining control characters a `\u00XX` escape, and
/// everything else stands as itself.
pub open spec fn esc_char(c: char) -> Seq<char> {
    if c == '"' {
        seq!['\\', '"']
    } else if c == '\\' {
        seq!['\\', '\\']
    } else if c == '\n' {
        seq!['\\', 'n']
    } else if c == '\r' {
        seq!['\\', 'r']
    } else if c == '\t' {
        seq!['\\', 't']
    } else if (c as u32) < 0x20 {
        seq!['\\', 'u', '0', '0', hex_char(((c as u32) / 16) as int), hex_char(
            ((c as u32) % 16) as int,
        )]
    } else {
        seq![c]
    }
}

/// The body of a JSON string literal for `s`.
pub open spec fn escape(s: Seq<char>) -> Seq<char>
    decreases s.len(),
{
    if s.len() == 0 {
        Seq::empty()
    } else {
        esc_char(s[0]) + escape(tail_at(s, 1))
    }
}

/// A complete JSON string literal for `s`, quotes included.
pub open spec fn render_string(s: Seq<char>) -> Seq<char> {
    seq!['"'] + escape(s) + seq!['"']
}

/// Decimal digits of `n`, most significant first, no leading zeros.
pub open spec fn dec_seq(n: nat) -> Seq<char>
    decreases n,
{
    if n < 10 {
        seq![digit_char(n as int)]
    } else {
        dec_seq(n / 10) + seq![digit_char((n % 10) as int)]
    }
}

/// Value of a digit sequence, most significant first.
pub open spec fn dec_val(ds: Seq<char>) -> int
    decreases ds.len(),
{
    if ds.len() == 0 {
        0
    } else {
        dec_val(ds.drop_last()) * 10 + digit_val(ds.last())
    }
}

/// The literal `null`.
pub open spec fn lit_null() -> Seq<char> {
    seq!['n', 'u', 'l', 'l']
}

/// The rendering of one field pair: `"key":"value"`.
pub open spec fn render_pair(p: (Seq<char>, Seq<char>)) -> Seq<char> {
    render_string(p.0) + seq![':'] + render_string(p.1)
}

/// The comma-separated renderings of a pair sequence.
pub open spec fn render_pairs(ps: Seq<(Seq<char>, Seq<char>)>) -> Seq<char>
    decreases ps.len(),
{
    if ps.len() == 0 {
        Seq::empty()
    } else if ps.len() == 1 {
        render_pair(ps[0])
    } else {
        render_pair(ps[0]) + seq![','] + render_pairs(ps.subrange(1, ps.len() as int))
    }
}

/// The fields object: `{}` or `{"k":"v",...}` in insertion order.
pub open spec fn render_fields(ps: Seq<(Seq<char>, Seq<char>)>) -> Seq<char> {
    seq!['{'] + render_pairs(ps) + seq!['}']
}

/// An optional number: decimal digits, or `null`.
pub open spec fn render_opt_u32(p: Option<u32>) -> Seq<char> {
    match p {
        Some(n) => dec_seq(n as nat),
        None => lit_null(),
    }
}

/// An optional string: a string literal, or `null`.
pub open spec fn render_opt_string(h: Option<Seq<char>>) -> Seq<char> {
    match h {
        Some(s) => render_string(s),
        None => lit_null(),
    }
}

/// The fixed member keys of the wire object.
pub open spec fn key_id() -> Seq<char> {
    seq!['i', 'd']
}

/// Key of the timestamp member.
pub open spec fn key_timestamp() -> Seq<char> {
    seq!['t', 'i', 'm', 'e', 's', 't', 'a', 'm', 'p']
}

/// Key of the level member.
pub open spec fn key_level() -> Seq<char> {
    seq!['l', 'e', 'v', 'e', 'l']
}

/// Key of the daemon member.
pub open spec fn key_daemon() -> Seq<char> {
    seq!['d', 'a', 'e', 'm', 'o', 'n']
}

/// Key of the message member.
pub open spec fn key_message() -> Seq<char> {
    seq!['m', 'e', 's', 's', 'a', 'g', 'e']
}

/// Key of the fields member.
pub open spec fn key_fields() -> Seq<char> {
    seq!['f', 'i', 'e', 'l', 'd', 's']
}

/// Key of the pid member.
pub open spec fn key_pid() -> Seq<char> {
    seq!['p', 'i', 'd']
}

/// Key of the hostname member.
pub open spec fn key_hostname() -> Seq<char> {
    seq!['h', 'o', 's', 't', 'n', 'a', 'm', 'e']
}

/// One rendered member: `"key":value`.
pub open spec fn render_member(key: Seq<char>, value: Seq<char>) -> Seq<char> {
    render_string(key) + seq![':'] + value
}

/// The exact line written for an entry: a compact JSON object with the eight
/// members in fixed order.
pub open spec fn render_entry(e: EntryView) -> Seq<char> {
    seq!['{'] + (render_member(key_id(), render_string(e.id)) + (seq![','] + (render_member(
        key_timestamp(),
        render_string(e.timestamp),
    ) + (seq![','] + (render_member(key_level(), render_string(e.level.name_spec())) + (seq![',']
        + (render_member(key_daemon(), render_string(e.daemon)) + (seq![','] + (render_member(
        key_message(),
        render_string(e.message),
    ) + (seq![','] + (render_member(key_fields(), render_fields(e.fields)) + (seq![',']
        + (render_member(key_pid(), render_opt_u32(e.pid)) + (seq![','] + (render_member(
        key_hostname(),
        render_opt_string(e.hostname),
    ) + seq!['}'])))))))))))))))
}

// ---------------------------------------------------------------------------
// Validity of the id and timestamp members.
// ---------------------------------------------------------------------------

/// The lower-case form of an ASCII letter; any other character unchanged.
pub open spec fn lower_ascii(c: char) -> char {
    if 'A' <= c && c <= 'Z' {
        ((c as u32) + 32) as char
    } else {
        c
    }
}

/// A hyphenated UUID: 8-4-4-4-12 hexadecimal digits, either case.
pub open spec fn is_hyphenated_uuid(s: Seq<char>) -> bool {
    s.len() == 36 && forall|i: int|
        0 <= i < 36 ==> (if i == 8 || i == 13 || i == 18 || i == 23 {
            s[i] == '-'
        } else {
            hex_val(#[trigger] s[i]) is Some
        })
}

/// A simple UUID: 32 hexadecimal digits, either case.
pub open spec fn is_simple_uuid(s: Seq<char>) -> bool {
    s.len() == 32 && forall|i: int| 0 <= i < 32 ==> hex_val(#[trigger] s[i]) is Some
}

/// A braced UUID: a hyphenated UUID in curly braces.
pub open spec fn is_braced_uuid(s: Seq<char>) -> bool {
    s.len() == 38 && s[0] == '{' && s[37] == '}' && is_hyphenated_uuid(s.subrange(1, 37))
}

/// A URN UUID: the prefix `urn:uuid:` (letters in either case) then a
/// hyphenated UUID.
pub open spec fn is_urn_uuid(s: Seq<char>) -> bool {
    s.len() == 45 && lower_ascii(s[0]) == 'u' && lower_ascii(s[1]) == 'r' && lower_ascii(s[2])
        == 'n' && s[3] == ':' && lower_ascii(s[4]) == 'u' && lower_ascii(s[5]) == 'u'
        && lower_ascii(s[6]) == 'i' && lower_ascii(s[7]) == 'd' && s[8] == ':'
        && is_hyphenated_uuid(s.subrange(9, 45))
}

/// A valid id member: one of the four UUID string forms (simple, hyphenated,
/// braced, URN) — exactly the shapes uuid's string parser accepts.
pub open spec fn is_valid_id(s: Seq<char>) -> bool {
    is_simple_uuid(s) || is_hyphenated_uuid(s) || is_braced_uuid(s) || is_urn_uuid(s)
}

/// Whether a year is a leap year of the Gregorian calendar.
pub open spec fn is_leap_year(y: int) -> bool {
    y % 4 == 0 && (y % 100 != 0 || y % 400 == 0)
}

/// Days in a month of a year.
pub open spec fn days_in_month(y: int, m: int) -> int {
    if m == 1 || m == 3 || m == 5 || m == 7 || m == 8 || m == 10 || m == 12 {
        31
    } else if m == 4 || m == 6 || m == 9 || m == 11 {
        30
    } else if is_leap_year(y) {
        29
    } else {
        28
    }
}

/// Value of the two digit characters at `i` and `i + 1`.
pub open spec fn two_digits(s: Seq<char>, i: int) -> int {
    digit_val(s[i]) * 10 + digit_val(s[i + 1])
}

/// A valid numeric offset or `Z` after the clock time.
pub open spec fn is_valid_offset(s: Seq<char>) -> bool {
    (s.len() == 1 && (s[0] == 'Z' || s[0] == 'z')) || (s.len() == 6 && (s[0] == '+' || s[0] == '-')
        && is_digit(s[1]) && is_digit(s[2]) && s[3] == ':' && is_digit(s[4]) && is_digit(s[5])
        && two_digits(s, 1) <= 23 && two_digits(s, 4) <= 59)
}

/// A valid timestamp member: an RFC 3339 date-time.  Four-digit year, a real
/// calendar date, `T`, `t` or a space as the separator, a clock time with at
/// most a leap second, an optional fraction of at least one digit, and a `Z`,
/// `z` or `±HH:MM` offset.  This is the wire contract's own definition of
/// "ISO-8601 string": chrono's string parser additionally tolerates ISO 8601
/// extensions (signed years outside 0000-9999); those are deliberately not
/// part of the wire format.
pub open spec fn is_valid_timestamp(s: Seq<char>) -> bool {
    s.len() >= 20 && is_digit(s[0]) && is_digit(s[1]) && is_digit(s[2]) && is_digit(s[3]) && s[4]
        == '-' && is_digit(s[5]) && is_digit(s[6]) && s[7] == '-' && is_digit(s[8]) && is_digit(
        s[9],
    ) && (s[10] == 'T' || s[10] == 't' || s[10] == ' ') && is_digit(s[11]) && is_digit(s[12])
        && s[13] == ':' && is_digit(s[14]) && is_digit(s[15]) && s[16] == ':' && is_digit(s[17])
        && is_digit(s[18]) && 1 <= two_digits(s, 5) && two_digits(s, 5) <= 12 && 1 <= two_digits(
        s,
        8,
    ) && two_digits(s, 8) <= days_in_month(
        digit_val(s[0]) * 1000 + digit_val(s[1]) * 100 + digit_val(s[2]) * 10 + digit_val(s[3]),
        two_digits(s, 5),
    ) && two_digits(s, 11) <= 23 && two_digits(s, 14) <= 59 && two_digits(s, 17) <= 60 && (if s[19]
        == '.' {
        sp_digits(tail_at(s, 20)).0.len() > 0 && is_valid_offset(sp_digits(tail_at(s, 20)).1)
    } else {
        is_valid_offset(tail_at(s, 19))
    })
}

/// The timestamp as shown on a human-readable line: for the expected RFC 3339
/// shape, the date, a space, and the clock time down to milliseconds; any
/// other string stands as it is.
pub open spec fn human_timestamp(ts: Seq<char>) -> Seq<char> {
    if ts.len() >= 23 && ts[10] == 'T' {
        ts.subrange(0, 10) + seq![' '] + ts.subrange(11, 23)
    } else {
        ts
    }
}

/// The human-readable line for an entry: timestamp, level label, daemon name,
/// then the message.
pub open spec fn render_human(e: EntryView) -> Seq<char> {
    human_timestamp(e.timestamp) + seq![' '] + e.level.label_spec() + seq![' '] + e.daemon + seq![
        ':',
        ' ',
    ] + e.message
}

// ---------------------------------------------------------------------------
// Parsing: each `sp_` function consumes a prefix and yields the rest.
// ---------------------------------------------------------------------------

/// Skip whitespace.
pub open spec fn sp_ws(s: Seq<char>) -> Seq<char>
    decreases s.len(),
{
    if s.len() > 0 && is_ws(s[0]) {
        sp_ws(tail_at(s, 1))
    } else {
        s
    }
}

/// Decoded character of a single-character escape code, if valid.
pub open spec fn esc_code(c: char) -> Option<char> {
    if c == '"' {
        Some('"')
    } else if c == '\\' {
        Some('\\')
    } else if c == '/' {
        Some('/')
    } else if c == 'b' {
        Some(8 as char)
    } else if c == 'f' {
        Some(12 as char)
    } else if c == 'n' {
        Some('\n')
    } else if c == 'r' {
        Some('\r')
    } else if c == 't' {
        Some('\t')
    } else {
        None
    }
}

/// Parse the body of a string literal after its opening quote, up to and
/// including the closing quote.  Unescaped control characters are rejected;
/// `\uXXXX` escapes are accepted for non-surrogate values.
pub open spec fn sp_str_body(s: Seq<char>) -> Option<(Seq<char>, Seq<char>)>
    decreases s.len(),
{
    if s.len() == 0 {
        None
    } else if s[0] == '"' {
        Some((Seq::empty(), tail_at(s, 1)))
    } else if s[0] == '\\' {
        if s.len() < 2 {
            None
        } else if s[1] == 'u' {
            if s.len() < 6 {
                None
            } else {
                match (hex_val(s[2]), hex_val(s[3]), hex_val(s[4]), hex_val(s[5])) {
                    (Some(h0), Some(h1), Some(h2), Some(h3)) => {
                        let n = h0 * 4096 + h1 * 256 + h2 * 16 + h3;
                        if 0xD800 <= n < 0xE000 {
                            None
                        } else {
                            match sp_str_body(tail_at(s, 6)) {
                                Some((v, rest)) => Some((seq![n as char] + v, rest)),
                                None => None,
                            }
                        }
                    },
                    _ => None,
                }
            }
        } else {
            match esc_code(s[1]) {
                Some(d) => match sp_str_body(tail_at(s, 2)) {
                    Some((v, rest)) => Some((seq![d] + v, rest)),
                    None => None,
                },
                None => None,
            }
        }
    } else if (s[0] as u32) < 0x20 {
        None
    } else {
        match sp_str_body(tail_at(s, 1)) {
            Some((v, rest)) => Some((seq![s[0]] + v, rest)),
            None => None,
        }
    }
}

/// Parse a complete string literal, opening quote included.
pub open spec fn sp_string(s: Seq<char>) -> Option<(Seq<char>, Seq<char>)> {
    if s.len() > 0 && s[0] == '"' {
        sp_str_body(tail_at(s, 1))
    } else {
        None
    }
}

/// Split a maximal run of decimal digits off the front.
pub open spec fn sp_digits(s: Seq<char>) -> (Seq<char>, Seq<char>)
    decreases s.len(),
{
    if s.len() > 0 && is_digit(s[0]) {
        let (d, r) = sp_digits(tail_at(s, 1));
        (seq![s[0]] + d, r)
    } else {
        (Seq::empty(), s)
    }
}

/// Parse a non-negative JSON integer: at least one digit, no leading zeros,
/// and no fraction or exponent following.
pub open spec fn sp_number(s: Seq<char>) -> Option<(int, Seq<char>)> {
    let (ds, r) = sp_digits(s);
    if ds.len() == 0 {
        None
    } else if ds.len() > 1 && ds[0] == '0' {
        None
    } else if r.len() > 0 && (r[0] == '.' || r[0] == 'e' || r[0] == 'E') {
        None
    } else {
        Some((dec_val(ds), r))
    }
}

/// Expect an exact literal at the front.
pub open spec fn sp_lit(s: Seq<char>, lit: Seq<char>) -> Option<Seq<char>> {
    if s.len() >= lit.len() && s.subrange(0, lit.len() as int) == lit {
        Some(tail_at(s, lit.len() as int))
    } else {
        None
    }
}

// ---------------------------------------------------------------------------
// What each parser leaves behind is never longer than what it was given.
// ---------------------------------------------------------------------------

/// Skipping whitespace only shortens the input.
pub proof fn lemma_ws_len(s: Seq<char>)
    ensures
        sp_ws(s).len() <= s.len(),
    decreases s.len(),
{
    if s.len() > 0 && is_ws(s[0]) {
        lemma_ws_len(tail_at(s, 1));
    }
}

/// A parsed string literal consumes at least its closing quote.
pub proof fn lemma_str_body_len(s: Seq<char>)
    ensures
        sp_str_body(s) matches Some((v, r)) ==> r.len() < s.len(),
    decreases s.len(),
{
    if s.len() == 0 {
    } else if s[0] == '"' {
    } else if s[0] == '\\' {
        if s.len() >= 6 {
            lemma_str_body_len(tail_at(s, 6));
        }
        if s.len() >= 2 {
            lemma_str_body_len(tail_at(s, 2));
        }
    } else {
        lemma_str_body_len(tail_at(s, 1));
    }
}

/// A digit run splits the input exactly.
pub proof fn lemma_digits_len(s: Seq<char>)
    ensures
        sp_digits(s).0.len() + sp_digits(s).1.len() == s.len(),
    decreases s.len(),
{
    if s.len() > 0 && is_digit(s[0]) {
        lemma_digits_len(tail_at(s, 1));
    }
}

// ---------------------------------------------------------------------------
// The fields object.
// ---------------------------------------------------------------------------

/// Parse `"key":"value"` members of the fields object, starting at a key,
/// accumulating with last-write-wins, up to and including the closing brace.
pub open spec fn sp_fields_members(
    s: Seq<char>,
    acc: Seq<(Seq<char>, Seq<char>)>,
) -> Option<(Seq<(Seq<char>, Seq<char>)>, Seq<char>)>
    decreases s.len(),
{
    match sp_string(s) {
        Some((k, s1)) => {
            let s2 = sp_ws(s1);
            if s2.len() == 0 || s2[0] != ':' {
                None
            } else {
                let s3 = sp_ws(tail_at(s2, 1));
                match sp_string(s3) {
                    Some((v, s4)) => {
                        let acc2 = lww_insert(acc, k, v);
                        let s5 = sp_ws(s4);
                        if s5.len() == 0 {
                            None
                        } else if s5[0] == ',' {
                            proof {
                                lemma_str_body_len(tail_at(s, 1));
                                lemma_ws_len(s1);
                                lemma_str_body_len(tail_at(s3, 1));
                                lemma_ws_len(tail_at(s2, 1));
                                lemma_ws_len(s4);
                                lemma_ws_len(tail_at(s5, 1));
                            }
                            sp_fields_members(sp_ws(tail_at(s5, 1)), acc2)
                        } else if s5[0] == '}' {
                            Some((acc2, tail_at(s5, 1)))
                        } else {
                            None
                        }
                    },
                    None => None,
                }
            }
        },
        None => None,
    }
}

/// Parse the complete fields object, opening brace included.
pub open spec fn sp_fields(s: Seq<char>) -> Option<(Seq<(Seq<char>, Seq<char>)>, Seq<char>)> {
    if s.len() > 0 && s[0] == '{' {
        let s1 = sp_ws(tail_at(s, 1));
        if s1.len() > 0 && s1[0] == '}' {
            Some((Seq::empty(), tail_at(s1, 1)))
        } else {
            sp_fields_members(s1, Seq::empty())
        }
    } else {
        None
    }
}

/// Parsing fields members consumes at least one character.
pub proof fn lemma_fields_members_len(s: Seq<char>, acc: Seq<(Seq<char>, Seq<char>)>)
    ensures
        sp_fields_members(s, acc) matches Some((ps, r)) ==> r.len() < s.len(),
    decreases s.len(),
{
    match sp_string(s) {
        Some((k, s1)) => {
            let s2 = sp_ws(s1);
            if s2.len() == 0 || s2[0] != ':' {
            } else {
                let s3 = sp_ws(tail_at(s2, 1));
                match sp_string(s3) {
                    Some((v, s4)) => {
                        let acc2 = lww_insert(acc, k, v);
                        let s5 = sp_ws(s4);
                        lemma_str_body_len(tail_at(s, 1));
                        lemma_ws_len(s1);
                        lemma_str_body_len(tail_at(s3, 1));
                        lemma_ws_len(tail_at(s2, 1));
                        lemma_ws_len(s4);
                        if s5.len() == 0 {
                        } else if s5[0] == ',' {
                            lemma_ws_len(tail_at(s5, 1));
                            lemma_fields_members_len(sp_ws(tail_at(s5, 1)), acc2);
                        }
                    },
                    None => {},
                }
            }
        },
        None => {},
    }
}

/// Parsing a fields object consumes at least one character.
pub proof fn lemma_fields_len(s: Seq<char>)
    ensures
        sp_fields(s) matches Some((ps, r)) ==> r.len() < s.len(),
{
    if s.len() > 0 && s[0] == '{' {
        let s1 = sp_ws(tail_at(s, 1));
        lemma_ws_len(tail_at(s, 1));
        if s1.len() > 0 && s1[0] == '}' {
        } else {
            lemma_fields_members_len(s1, Seq::empty());
        }
    }
}

// ---------------------------------------------------------------------------
// Skipping a value of an unknown member.
// ---------------------------------------------------------------------------

/// Consume an optional fraction and exponent after the integer digits of a
/// number.  Deliberately lenient: the value is ignored anyway.
pub open spec fn sp_num_rest(s: Seq<char>) -> Seq<char> {
    let s1 = if s.len() > 0 && s[0] == '.' {
        sp_digits(tail_at(s, 1)).1
    } else {
        s
    };
    if s1.len() > 0 && (s1[0] == 'e' || s1[0] == 'E') {
        let sa = tail_at(s1, 1);
        let sb = if sa.len() > 0 && (sa[0] == '+' || sa[0] == '-') {
            tail_at(sa, 1)
        } else {
            sa
        };
        sp_digits(sb).1
    } else {
        s1
    }
}

/// Skip one JSON value of any shape.  `fuel` bounds the nesting depth; the
/// callers pass the input length, which no well-formed nesting can exceed.
pub open spec fn sp_skip_value(s: Seq<char>, fuel: nat) -> Option<Seq<char>>
    decreases fuel,
{
    if fuel == 0 {
        None
    } else if s.len() == 0 {
        None
    } else if s[0] == '"' {
        match sp_str_body(tail_at(s, 1)) {
            Some((v, r)) => Some(r),
            None => None,
        }
    } else if s[0] == 't' {
        sp_lit(s, seq!['t', 'r', 'u', 'e'])
    } else if s[0] == 'f' {
        sp_lit(s, seq!['f', 'a', 'l', 's', 'e'])
    } else if s[0] == 'n' {
        sp_lit(s, lit_null())
    } else if s[0] == '{' {
        let s1 = sp_ws(tail_at(s, 1));
        if s1.len() > 0 && s1[0] == '}' {
            Some(tail_at(s1, 1))
        } else {
            sp_skip_members(s1, (fuel - 1) as nat)
        }
    } else if s[0] == '[' {
        let s1 = sp_ws(tail_at(s, 1));
        if s1.len() > 0 && s1[0] == ']' {
            Some(tail_at(s1, 1))
        } else {
            sp_skip_elements(s1, (fuel - 1) as nat)
        }
    } else if s[0] == '-' || is_digit(s[0]) {
        let s0 = if s[0] == '-' {
            tail_at(s, 1)
        } else {
            s
        };
        let (ds, r) = sp_digits(s0);
        if ds.len() == 0 {
            None
        } else {
            Some(sp_num_rest(r))
        }
    } else {
        None
    }
}

/// Skip `"key": value` members of an unknown object, starting at a key, up to
/// and including the closing brace.
pub open spec fn sp_skip_members(s: Seq<char>, fuel: nat) -> Option<Seq<char>>
    decreases fuel,
{
    if fuel == 0 {
        None
    } else {
        match sp_string(s) {
            Some((k, s1)) => {
                let s2 = sp_ws(s1);
                if s2.len() == 0 || s2[0] != ':' {
                    None
                } else {
                    let s3 = sp_ws(tail_at(s2, 1));
                    match sp_skip_value(s3, (fuel - 1) as nat) {
                        Some(s4) => {
                            let s5 = sp_ws(s4);
                            if s5.len() == 0 {
                                None
                            } else if s5[0] == ',' {
                                sp_skip_members(sp_ws(tail_at(s5, 1)), (fuel - 1) as nat)
                            } else if s5[0] == '}' {
                                Some(tail_at(s5, 1))
                            } else {
                                None
                            }
                        },
                        None => None,
                    }
                }
            },
            None => None,
        }
    }
}

/// Skip elements of an unknown array, starting at an element, up to and
/// including the closing bracket.
pub open spec fn sp_skip_elements(s: Seq<char>, fuel: nat) -> Option<Seq<char>>
    decreases fuel,
{
    if fuel == 0 {
        None
    } else {
        match sp_skip_value(s, (fuel - 1) as nat) {
            Some(s1) => {
                let s2 = sp_ws(s1);
                if s2.len() == 0 {
                    None
                } else if s2[0] == ',' {
                    sp_skip_elements(sp_ws(tail_at(s2, 1)), (fuel - 1) as nat)
                } else if s2[0] == ']' {
                    Some(tail_at(s2, 1))
                } else {
                    None
                }
            },
            None => None,
        }
    }
}

// ---------------------------------------------------------------------------
// The entry object.
// ---------------------------------------------------------------------------

/// A partially assembled entry: which members have been seen, and their
/// values.  `pid` and `hostname` distinguish "absent" from "present as null".
pub struct PartialEntry {
    /// Value of the id member, if seen.
    pub id: Option<Seq<char>>,
    /// Value of the timestamp member, if seen.
    pub timestamp: Option<Seq<char>>,
    /// Value of the level member, if seen.
    pub level: Option<LogLevel>,
    /// Value of the daemon member, if seen.
    pub daemon: Option<Seq<char>>,
    /// Value of the message member, if seen.
    pub message: Option<Seq<char>>,
    /// Pairs of the fields member, if seen.
    pub fields: Option<Seq<(Seq<char>, Seq<char>)>>,
    /// Value of the pid member, if seen.
    pub pid: Option<Option<u32>>,
    /// Value of the hostname member, if seen.
    pub hostname: Option<Option<Seq<char>>>,
}

/// The state before any member has been seen.
pub open spec fn empty_partial() -> PartialEntry {
    PartialEntry {
        id: None,
        timestamp: None,
        level: None,
        daemon: None,
        message: None,
        fields: None,
        pid: None,
        hostname: None,
    }
}

/// Parse the value of the member named `k` and record it.  A known member
/// seen twice is an error; an unknown member's value is skipped.
pub open spec fn sp_member_value(k: Seq<char>, s: Seq<char>, acc: PartialEntry) -> Option<
    (PartialEntry, Seq<char>),
> {
    if k == key_id() {
        if acc.id is Some {
            None
        } else {
            match sp_string(s) {
                Some((v, r)) => Some((PartialEntry { id: Some(v), ..acc }, r)),
                None => None,
            }
        }
    } else if k == key_timestamp() {
        if acc.timestamp is Some {
            None
        } else {
            match sp_string(s) {
                Some((v, r)) => Some((PartialEntry { timestamp: Some(v), ..acc }, r)),
                None => None,
            }
        }
    } else if k == key_level() {
        if acc.level is Some {
            None
        } else {
            match sp_string(s) {
                Some((v, r)) => match LogLevel::of_name_spec(v) {
                    Some(l) => Some((PartialEntry { level: Some(l), ..acc }, r)),
                    None => None,
                },
                None => None,
            }
        }
    } else if k == key_daemon() {
        if acc.daemon is Some {
            None
        } else {
            match sp_string(s) {
                Some((v, r)) => Some((PartialEntry { daemon: Some(v), ..acc }, r)),
                None => None,
            }
        }
    } else if k == key_message() {
        if acc.message is Some {
            None
        } else {
            match sp_string(s) {
                Some((v, r)) => Some((PartialEntry { message: Some(v), ..acc }, r)),
                None => None,
            }
        }
    } else if k == key_fields() {
        if acc.fields is Some {
            None
        } else {
            match sp_fields(s) {
                Some((ps, r)) => Some((PartialEntry { fields: Some(ps), ..acc }, r)),
                None => None,
            }
        }
    } else if k == key_pid() {
        if acc.pid is Some {
            None
        } else if s.len() > 0 && s[0] == 'n' {
            match sp_lit(s, lit_null()) {
                Some(r) => Some((PartialEntry { pid: Some(None), ..acc }, r)),
                None => None,
            }
        } else {
            match sp_number(s) {
                Some((n, r)) => if n <= u32::MAX as int {
                    Some((PartialEntry { pid: Some(Some(n as u32)), ..acc }, r))
                } else {
                    None
                },
                None => None,
            }
        }
    } else if k == key_hostname() {
        if acc.hostname is Some {
            None
        } else if s.len() > 0 && s[0] == 'n' {
            match sp_lit(s, lit_null()) {
                Some(r) => Some((PartialEntry { hostname: Some(None), ..acc }, r)),
                None => None,
            }
        } else {
            match sp_string(s) {
                Some((v, r)) => Some((PartialEntry { hostname: Some(Some(v)), ..acc }, r)),
                None => None,
            }
        }
    } else {
        match sp_skip_value(s, s.len()) {
            Some(r) => Some((acc, r)),
            None => None,
        }
    }
}

/// Skipping a value only shortens the input.
pub proof fn lemma_skip_value_len(s: Seq<char>, fuel: nat)
    ensures
        sp_skip_value(s, fuel) matches Some(r) ==> r.len() <= s.len(),
    decreases fuel,
{
    if fuel == 0 || s.len() == 0 {
    } else if s[0] == '"' {
        lemma_str_body_len(tail_at(s, 1));
    } else if s[0] == 't' || s[0] == 'f' || s[0] == 'n' {
    } else if s[0] == '{' {
        let s1 = sp_ws(tail_at(s, 1));
        lemma_ws_len(tail_at(s, 1));
        if s1.len() > 0 && s1[0] == '}' {
        } else {
            lemma_skip_members_len(s1, (fuel - 1) as nat);
        }
    } else if s[0] == '[' {
        let s1 = sp_ws(tail_at(s, 1));
        lemma_ws_len(tail_at(s, 1));
        if s1.len() > 0 && s1[0] == ']' {
        } else {
            lemma_skip_elements_len(s1, (fuel - 1) as nat);
        }
    } else if s[0] == '-' || is_digit(s[0]) {
        let s0 = if s[0] == '-' {
            tail_at(s, 1)
        } else {
            s
        };
        let (ds, r) = sp_digits(s0);
        lemma_digits_len(s0);
        if ds.len() > 0 {
            lemma_num_rest_len(r);
        }
    }
}

/// Skipping object members only shortens the input.
pub proof fn lemma_skip_members_len(s: Seq<char>, fuel: nat)
    ensures
        sp_skip_members(s, fuel) matches Some(r) ==> r.len() <= s.len(),
    decreases fuel,
{
    if fuel == 0 {
    } else {
        match sp_string(s) {
            Some((k, s1)) => {
                lemma_str_body_len(tail_at(s, 1));
                let s2 = sp_ws(s1);
                lemma_ws_len(s1);
                if s2.len() == 0 || s2[0] != ':' {
                } else {
                    let s3 = sp_ws(tail_at(s2, 1));
                    lemma_ws_len(tail_at(s2, 1));
                    match sp_skip_value(s3, (fuel - 1) as nat) {
                        Some(s4) => {
                            lemma_skip_value_len(s3, (fuel - 1) as nat);
                            let s5 = sp_ws(s4);
                            lemma_ws_len(s4);
                            if s5.len() == 0 {
                            } else if s5[0] == ',' {
                                lemma_ws_len(tail_at(s5, 1));
                                lemma_skip_members_len(sp_ws(tail_at(s5, 1)), (fuel - 1) as nat);
                            }
                        },
                        None => {},
                    }
                }
            },
            None => {},
        }
    }
}

/// Skipping array elements only shortens the input.
pub proof fn lemma_skip_elements_len(s: Seq<char>, fuel: nat)
    ensures
        sp_skip_elements(s, fuel) matches Some(r) ==> r.len() <= s.len(),
    decreases fuel,
{
    if fuel == 0 {
    } else {
        match sp_skip_value(s, (fuel - 1) as nat) {
            Some(s1) => {
                lemma_skip_value_len(s, (fuel - 1) as nat);
                let s2 = sp_ws(s1);
                lemma_ws_len(s1);
                if s2.len() == 0 {
                } else if s2[0] == ',' {
                    lemma_ws_len(tail_at(s2, 1));
                    lemma_skip_elements_len(sp_ws(tail_at(s2, 1)), (fuel - 1) as nat);
                }
            },
            None => {},
        }
    }
}

/// The tail of a number only shortens the input.
pub proof fn lemma_num_rest_len(s: Seq<char>)
    ensures
        sp_num_rest(s).len() <= s.len(),
{
    let s1 = if s.len() > 0 && s[0] == '.' {
        sp_digits(tail_at(s, 1)).1
    } else {
        s
    };
    if s.len() > 0 && s[0] == '.' {
        lemma_digits_len(tail_at(s, 1));
    }
    if s1.len() > 0 && (s1[0] == 'e' || s1[0] == 'E') {
        let sa = tail_at(s1, 1);
        let sb = if sa.len() > 0 && (sa[0] == '+' || sa[0] == '-') {
            tail_at(sa, 1)
        } else {
            sa
        };
        lemma_digits_len(sb);
    }
}

/// A member value only shortens the input.
pub proof fn lemma_member_value_len(k: Seq<char>, s: Seq<char>, acc: PartialEntry)
    ensures
        sp_member_value(k, s, acc) matches Some((acc2, r)) ==> r.len() <= s.len(),
{
    if s.len() > 0 && s[0] == '"' {
        lemma_str_body_len(tail_at(s, 1));
    }
    lemma_fields_len(s);
    lemma_digits_len(s);
    lemma_skip_value_len(s, s.len());
}

/// Parse the members of the entry object, starting at a key, up to and
/// including the closing brace.
pub open spec fn sp_members(s: Seq<char>, acc: PartialEntry) -> Option<(PartialEntry, Seq<char>)>
    decreases s.len(),
{
    match sp_string(s) {
        Some((k, s1)) => {
            let s2 = sp_ws(s1);
            if s2.len() == 0 || s2[0] != ':' {
                None
            } else {
                let s3 = sp_ws(tail_at(s2, 1));
                match sp_member_value(k, s3, acc) {
                    Some((acc2, s4)) => {
                        let s5 = sp_ws(s4);
                        if s5.len() == 0 {
                            None
                        } else if s5[0] == ',' {
                            proof {
                                lemma_str_body_len(tail_at(s, 1));
                                lemma_ws_len(s1);
                                lemma_ws_len(tail_at(s2, 1));
                                lemma_member_value_len(k, s3, acc);
                                lemma_ws_len(s4);
                                lemma_ws_len(tail_at(s5, 1));
                            }
                            sp_members(sp_ws(tail_at(s5, 1)), acc2)
                        } else if s5[0] == '}' {
                            Some((acc2, tail_at(s5, 1)))
                        } else {
                            None
                        }
                    },
                    None => None,
                }
            }
        },
        None => None,
    }
}

/// Parse a complete wire line into an entry.  `Some` exactly when the line is
/// one JSON object, carrying the six required members exactly once (each with
/// a value of the right shape: a UUID-form id, an RFC 3339 timestamp, a known
/// level name, a non-empty daemon name, a string message and a string-valued
/// fields object), with nothing but whitespace around it.  A `pid` member
/// may be a number within `u32` range or `null`, a `hostname` member a
/// string or `null`, and either member may be absent altogether; `null` and
/// absent both read as unknown.  Unknown extra members are ignored.
pub open spec fn sp_entry(s: Seq<char>) -> Option<EntryView> {
    let s0 = sp_ws(s);
    if s0.len() == 0 || s0[0] != '{' {
        None
    } else {
        let s1 = sp_ws(tail_at(s0, 1));
        if s1.len() > 0 && s1[0] == '}' {
            None
        } else {
            match sp_members(s1, empty_partial()) {
                Some((acc, s2)) => {
                    if sp_ws(s2).len() != 0 {
                        None
                    } else {
                        match (acc.id, acc.timestamp, acc.level, acc.daemon, acc.message,
                        acc.fields) {
                            (Some(id), Some(ts), Some(lv), Some(d), Some(m), Some(fs)) => {
                                if d.len() > 0 && is_valid_id(id) && is_valid_timestamp(ts) {
                                    Some(
                                        EntryView {
                                            id: id,
                                            timestamp: ts,
                                            level: lv,
                                            daemon: d,
                                            message: m,
                                            fields: fs,
                                            pid: match acc.pid {
                                                Some(p) => p,
                                                None => None,
                                            },
                                            hostname: match acc.hostname {
                                                Some(h) => h,
                                                None => None,
                                            },
                                        },
                                    )
                                } else {
                                    None
                                }
                            },
                            _ => None,
                        }
                    }
                },
                None => None,
            }
        }
    }
}

} // verus!
