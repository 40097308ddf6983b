//! Executable rendering and parsing of the wire format, proved against the
//! grammar in `wire`.

use vstd::prelude::*;

verus! {

use crate::LogStreamError;
use crate::entry::LogEntry;
use crate::entry::push_char;
use crate::fields::LogFields;
use crate::level::LogLevel;
use crate::wire::dec_seq;
use crate::wire::dec_val;
use crate::wire::digit_char;
use crate::wire::esc_code;
use crate::wire::hex_val;
use crate::wire::days_in_month;
use crate::wire::is_digit;
use crate::wire::is_hyphenated_uuid;
use crate::wire::is_valid_id;
use crate::wire::is_valid_offset;
use crate::wire::is_valid_timestamp;
use crate::wire::is_ws;
use crate::wire::lower_ascii;
use crate::wire::two_digits;
use crate::wire::PartialEntry;
use crate::wire::empty_partial;
use crate::wire::sp_digits;
use crate::wire::sp_entry;
use crate::wire::sp_fields;
use crate::wire::sp_fields_members;
use crate::wire::sp_lit;
use crate::wire::sp_member_value;
use crate::wire::sp_members;
use crate::wire::sp_num_rest;
use crate::wire::sp_number;
use crate::wire::sp_skip_elements;
use crate::wire::sp_skip_members;
use crate::wire::sp_skip_value;
use crate::wire::sp_str_body;
use crate::wire::sp_string;
use crate::wire::sp_ws;
use crate::wire::esc_char;
use crate::wire::escape;
use crate::wire::hex_char;
use crate::wire::key_daemon;
use crate::wire::key_fields;
use crate::wire::key_hostname;
use crate::wire::key_id;
use crate::wire::key_level;
use crate::wire::key_message;
use crate::wire::key_pid;
use crate::wire::key_timestamp;
use crate::wire::lit_null;
use crate::wire::render_entry;
use crate::wire::render_fields;
use crate::wire::render_member;
use crate::wire::render_opt_string;
use crate::wire::render_opt_u32;
use crate::wire::render_pair;
use crate::wire::render_pairs;
use crate::wire::render_string;
use crate::wire::tail_at;

// ---------------------------------------------------------------------------
// Sequence glue.
// ---------------------------------------------------------------------------

/// Taking a tail of a tail is taking one longer tail.
pub broadcast proof fn lemma_tail_tail(s: Seq<char>, i: int, k: int)
    requires
        0 <= i,
        0 <= k,
        i + k <= s.len(),
    ensures
        #[trigger] tail_at(tail_at(s, i), k) == tail_at(s, i + k),
{
    assert(tail_at(tail_at(s, i), k) =~= tail_at(s, i + k));
}

/// Escaping distributes over concatenation.
pub proof fn lemma_escape_append(a: Seq<char>, b: Seq<char>)
    ensures
        escape(a + b) == escape(a) + escape(b),
    decreases a.len(),
{
    if a.len() == 0 {
        assert(a + b =~= b);
        assert(escape(a) + escape(b) =~= escape(b));
    } else {
        assert(tail_at(a + b, 1) =~= tail_at(a, 1) + b);
        lemma_escape_append(tail_at(a, 1), b);
        assert((a + b)[0] == a[0]);
        assert(escape(a + b) =~= escape(a) + escape(b));
    }
}

/// Escaping one character is its escape sequence.
pub proof fn lemma_escape_one(c: char)
    ensures
        escape(seq![c]) == esc_char(c),
{
    assert(seq![c].len() == 1);
    assert(seq![c][0] == c);
    assert(tail_at(seq![c], 1) =~= Seq::<char>::empty());
    assert(escape(tail_at(seq![c], 1)) == Seq::<char>::empty());
    assert(escape(seq![c]) == esc_char(c) + Seq::<char>::empty());
    assert(esc_char(c) + Seq::<char>::empty() =~= esc_char(c));
}

/// Appending one rendered pair to a non-empty pair list.
pub proof fn lemma_render_pairs_snoc(ps: Seq<(Seq<char>, Seq<char>)>, p: (Seq<char>, Seq<char>))
    requires
        ps.len() >= 1,
    ensures
        render_pairs(ps.push(p)) == render_pairs(ps) + seq![','] + render_pair(p),
    decreases ps.len(),
{
    if ps.len() == 1 {
        let q = ps.push(p);
        assert(q.subrange(1, q.len() as int) =~= seq![p]);
        assert(render_pairs(seq![p]) == render_pair(p));
        assert(render_pairs(ps.push(p)) =~= render_pairs(ps) + seq![','] + render_pair(p));
    } else {
        let t = ps.subrange(1, ps.len() as int);
        lemma_render_pairs_snoc(t, p);
        let q = ps.push(p);
        assert(q.subrange(1, q.len() as int) =~= t.push(p));
        assert(render_pairs(ps.push(p)) =~= render_pairs(ps) + seq![','] + render_pair(p));
    }
}

// ---------------------------------------------------------------------------
// Rendering.
// ---------------------------------------------------------------------------

/// The decimal digit character for a value below ten.
fn digit_char_x(n: u32) -> (r: char)
    requires
        n < 10,
    ensures
        r == digit_char(n as int),
{
    match n {
        0 => '0',
        1 => '1',
        2 => '2',
        3 => '3',
        4 => '4',
        5 => '5',
        6 => '6',
        7 => '7',
        8 => '8',
        _ => '9',
    }
}

/// The lower-case hexadecimal digit character for a value below sixteen.
fn hex_char_x(n: u32) -> (r: char)
    requires
        n < 16,
    ensures
        r == hex_char(n as int),
{
    if n < 10 {
        digit_char_x(n)
    } else {
        match n {
            10 => 'a',
            11 => 'b',
            12 => 'c',
            13 => 'd',
            14 => 'e',
            _ => 'f',
        }
    }
}

/// Append the escape sequence of one character.
fn push_esc_char(out: &mut String, c: char)
    ensures
        final(out)@ == old(out)@ + esc_char(c),
{
    if c == '"' {
        push_char(out, '\\');
        push_char(out, '"');
        proof {
            assert(out@ =~= old(out)@ + esc_char(c));
        }
    } else if c == '\\' {
        push_char(out, '\\');
        push_char(out, '\\');
        proof {
            assert(out@ =~= old(out)@ + esc_char(c));
        }
    } else if c == '\n' {
        push_char(out, '\\');
        push_char(out, 'n');
        proof {
            assert(out@ =~= old(out)@ + esc_char(c));
        }
    } else if c == '\r' {
        push_char(out, '\\');
        push_char(out, 'r');
        proof {
            assert(out@ =~= old(out)@ + esc_char(c));
        }
    } else if c == '\t' {
        push_char(out, '\\');
        push_char(out, 't');
        proof {
            assert(out@ =~= old(out)@ + esc_char(c));
        }
    } else if (c as u32) < 0x20 {
        let cu = c as u32;
        push_char(out, '\\');
        push_char(out, 'u');
        push_char(out, '0');
        push_char(out, '0');
        push_char(out, hex_char_x(cu / 16));
        push_char(out, hex_char_x(cu % 16));
        proof {
            assert(out@ =~= old(out)@ + esc_char(c));
        }
    } else {
        push_char(out, c);
        proof {
            assert(out@ =~= old(out)@ + esc_char(c));
        }
    }
}

/// Append the escaped body of a string.
fn push_escaped(out: &mut String, s: &str)
    ensures
        final(out)@ == old(out)@ + escape(s@),
{
    let n = s.unicode_len();
    let mut i: usize = 0;
    proof {
        assert(s@.subrange(0, 0) =~= Seq::<char>::empty());
        assert(escape(Seq::<char>::empty()) =~= Seq::<char>::empty());
        assert(out@ =~= old(out)@ + escape(s@.subrange(0, 0)));
    }
    while i < n
        invariant
            n == s@.len(),
            i <= n,
            out@ == old(out)@ + escape(s@.subrange(0, i as int)),
        decreases n - i,
    {
        let c = s.get_char(i);
        push_esc_char(out, c);
        proof {
            assert(s@.subrange(0, i + 1) =~= s@.subrange(0, i as int) + seq![c]);
            lemma_escape_append(s@.subrange(0, i as int), seq![c]);
            lemma_escape_one(c);
            assert(out@ =~= old(out)@ + escape(s@.subrange(0, i + 1)));
        }
        i += 1;
    }
    proof {
        assert(s@.subrange(0, n as int) =~= s@);
    }
}

/// Append a complete string literal, quotes included.
fn push_quoted(out: &mut String, s: &str)
    ensures
        final(out)@ == old(out)@ + render_string(s@),
{
    push_char(out, '"');
    push_escaped(out, s);
    push_char(out, '"');
    proof {
        assert(out@ =~= old(out)@ + render_string(s@));
    }
}

/// Append the decimal rendering of a number.
fn push_u32(out: &mut String, n: u32)
    ensures
        final(out)@ == old(out)@ + dec_seq(n as nat),
    decreases n,
{
    if n < 10 {
        push_char(out, digit_char_x(n));
        proof {
            assert(out@ =~= old(out)@ + dec_seq(n as nat));
        }
    } else {
        push_u32(out, n / 10);
        push_char(out, digit_char_x(n % 10));
        proof {
            assert((n as nat) / 10 == (n / 10) as nat);
            assert((n as nat) % 10 == (n % 10) as nat);
            assert(out@ =~= old(out)@ + dec_seq(n as nat));
        }
    }
}

/// Append the fields object.
fn push_fields(out: &mut String, fs: &LogFields)
    ensures
        final(out)@ == old(out)@ + render_fields(fs@),
{
    push_char(out, '{');
    let n = fs.len();
    let mut i: usize = 0;
    proof {
        assert(render_pairs(fs@.subrange(0, 0)) =~= Seq::<char>::empty());
        assert(out@ =~= old(out)@ + seq!['{'] + render_pairs(fs@.subrange(0, 0)));
    }
    while i < n
        invariant
            n == fs@.len(),
            i <= n,
            out@ == old(out)@ + seq!['{'] + render_pairs(fs@.subrange(0, i as int)),
        decreases n - i,
    {
        if i > 0 {
            push_char(out, ',');
        }
        let (k, v) = fs.pair_at(i);
        let ghost mid = out@;
        push_quoted(out, k.as_str());
        push_char(out, ':');
        push_quoted(out, v.as_str());
        proof {
            let ps1 = fs@.subrange(0, i + 1);
            let ps0 = fs@.subrange(0, i as int);
            assert(ps1 =~= ps0.push(fs@[i as int]));
            assert(out@ =~= mid + render_pair(fs@[i as int]));
            if i == 0 {
                assert(render_pairs(ps1) =~= render_pair(fs@[0]));
                assert(out@ =~= old(out)@ + seq!['{'] + render_pairs(ps1));
            } else {
                lemma_render_pairs_snoc(ps0, fs@[i as int]);
                assert(out@ =~= old(out)@ + seq!['{'] + render_pairs(ps1));
            }
        }
        i += 1;
    }
    push_char(out, '}');
    proof {
        assert(fs@.subrange(0, n as int) =~= fs@);
        assert(out@ =~= old(out)@ + render_fields(fs@));
    }
}

impl LogEntry {
    /// Serialize to the wire line: the exact compact JSON object of
    /// `render_entry`.  Total: rendering never fails on any field content.
    #[verifier::rlimit(100)]
    pub fn to_json(&self) -> (r: Result<String, LogStreamError>)
        ensures
            r matches Ok(s) && s@ == render_entry(self@),
    {
        let mut out = String::new();
        push_char(&mut out, '{');
        push_quoted(&mut out, "id");
        push_char(&mut out, ':');
        push_quoted(&mut out, self.id.as_str());
        push_char(&mut out, ',');
        push_quoted(&mut out, "timestamp");
        push_char(&mut out, ':');
        push_quoted(&mut out, self.timestamp.as_str());
        push_char(&mut out, ',');
        push_quoted(&mut out, "level");
        push_char(&mut out, ':');
        push_quoted(&mut out, self.level.name());
        push_char(&mut out, ',');
        push_quoted(&mut out, "daemon");
        push_char(&mut out, ':');
        push_quoted(&mut out, self.daemon.as_str());
        push_char(&mut out, ',');
        let ghost mid = out@;
        proof {
            reveal_strlit("id");
            reveal_strlit("timestamp");
            reveal_strlit("level");
            reveal_strlit("daemon");
            assert("id"@ =~= key_id());
            assert("timestamp"@ =~= key_timestamp());
            assert("level"@ =~= key_level());
            assert("daemon"@ =~= key_daemon());
            assert(mid =~= seq!['{'] + render_member(key_id(), render_string(self@.id)) + seq![',']
                + render_member(key_timestamp(), render_string(self@.timestamp)) + seq![',']
                + render_member(key_level(), render_string(self@.level.name_spec())) + seq![',']
                + render_member(key_daemon(), render_string(self@.daemon)) + seq![',']);
        }
        push_quoted(&mut out, "message");
        push_char(&mut out, ':');
        push_quoted(&mut out, self.message.as_str());
        push_char(&mut out, ',');
        push_quoted(&mut out, "fields");
        push_char(&mut out, ':');
        push_fields(&mut out, &self.fields);
        push_char(&mut out, ',');
        push_quoted(&mut out, "pid");
        push_char(&mut out, ':');
        match self.pid {
            Some(n) => push_u32(&mut out, n),
            None => {
                push_null(&mut out);
            },
        }
        push_char(&mut out, ',');
        push_quoted(&mut out, "hostname");
        push_char(&mut out, ':');
        match &self.hostname {
            Some(h) => push_quoted(&mut out, h.as_str()),
            None => {
                push_null(&mut out);
            },
        }
        push_char(&mut out, '}');
        proof {
            reveal_strlit("message");
            reveal_strlit("fields");
            reveal_strlit("pid");
            reveal_strlit("hostname");
            assert("message"@ =~= key_message());
            assert("fields"@ =~= key_fields());
            assert("pid"@ =~= key_pid());
            assert("hostname"@ =~= key_hostname());
            assert(out@ =~= mid + render_member(key_message(), render_string(self@.message))
                + seq![','] + render_member(key_fields(), render_fields(self@.fields)) + seq![',']
                + render_member(key_pid(), render_opt_u32(self@.pid)) + seq![','] + render_member(
                key_hostname(),
                render_opt_string(self@.hostname),
            ) + seq!['}']);
            crate::wire_laws::lemma_render_entry_left(self@);
            assert(out@ == render_entry(self@));
        }
        Ok(out)
    }

    /// The framed form sent over a connection: the wire line plus a newline.
    pub fn wire_line(&self) -> (r: String)
        ensures
            r@ == render_entry(self@) + seq!['\n'],
    {
        let mut out = match self.to_json() {
            Ok(s) => s,
            Err(_) => String::new(),
        };
        push_char(&mut out, '\n');
        out
    }
}

/// Append the literal `null`.
fn push_null(out: &mut String)
    ensures
        final(out)@ == old(out)@ + lit_null(),
{
    push_char(out, 'n');
    push_char(out, 'u');
    push_char(out, 'l');
    push_char(out, 'l');
    proof {
        assert(out@ =~= old(out)@ + lit_null());
    }
}

// ---------------------------------------------------------------------------
// Parsing.
// ---------------------------------------------------------------------------

pub assume_specification[ char::from_u32 ](n: u32) -> (r: Option<char>)
    ensures
        (n < 0xD800 || (0xE000 <= n && n <= 0x10FFFF)) ==> r == Some(n as char),
        !(n < 0xD800 || (0xE000 <= n && n <= 0x10FFFF)) ==> r is None,
;

/// The characters of a string slice, as a vector.
pub fn str_chars(s: &str) -> (r: Vec<char>)
    ensures
        r@ == s@,
{
    let n = s.unicode_len();
    let mut out: Vec<char> = Vec::new();
    let mut i: usize = 0;
    while i < n
        invariant
            n == s@.len(),
            i <= n,
            out@ == s@.subrange(0, i as int),
        decreases n - i,
    {
        out.push(s.get_char(i));
        proof {
            assert(out@ =~= s@.subrange(0, i + 1));
        }
        i += 1;
    }
    proof {
        assert(s@.subrange(0, n as int) =~= s@);
    }
    out
}

/// Whether a character is JSON whitespace.
fn is_ws_x(c: char) -> (r: bool)
    ensures
        r == is_ws(c),
{
    c == ' ' || c == '\t' || c == '\n' || c == '\r'
}

/// Whether a character is a decimal digit.
fn is_digit_x(c: char) -> (r: bool)
    ensures
        r == is_digit(c),
{
    let u = c as u32;
    0x30 <= u && u <= 0x39
}

/// Hexadecimal value of a digit character, if any.
fn hex_val_x(c: char) -> (r: Option<u32>)
    ensures
        match r {
            Some(x) => hex_val(c) == Some(x as int) && x < 16,
            None => hex_val(c) is None,
        },
{
    let u = c as u32;
    if 0x30 <= u && u <= 0x39 {
        Some(u - 0x30)
    } else if 0x61 <= u && u <= 0x66 {
        Some(u - 0x61 + 10)
    } else if 0x41 <= u && u <= 0x46 {
        Some(u - 0x41 + 10)
    } else {
        None
    }
}

/// Decoded character of a single-character escape code, if valid.
fn esc_code_x(c: char) -> (r: Option<char>)
    ensures
        r == esc_code(c),
{
    if c == '"' {
        Some('"')
    } else if c == '\\' {
        Some('\\')
    } else if c == '/' {
        Some('/')
    } else if c == 'b' {
        Some('\u{8}')
    } else if c == 'f' {
        Some('\u{c}')
    } else if c == 'n' {
        Some('\n')
    } else if c == 'r' {
        Some('\r')
    } else if c == 't' {
        Some('\t')
    } else {
        None
    }
}

/// A new string holding `c` followed by `t`.
fn prepend_char(c: char, t: &String) -> (r: String)
    ensures
        r@ == seq![c] + t@,
{
    let mut out = String::new();
    push_char(&mut out, c);
    out.append(t.as_str());
    proof {
        assert(out@ =~= seq![c] + t@);
    }
    out
}

/// Skip whitespace from position `i`.
fn p_ws(v: &Vec<char>, i: usize) -> (j: usize)
    requires
        i <= v@.len(),
    ensures
        i <= j <= v@.len(),
        tail_at(v@, j as int) == sp_ws(tail_at(v@, i as int)),
    decreases v@.len() - i,
{
    broadcast use lemma_tail_tail;

    if i < v.len() && is_ws_x(v[i]) {
        p_ws(v, i + 1)
    } else {
        i
    }
}

/// Parse a string literal body from position `i` (just after the opening
/// quote), up to and including the closing quote.
#[verifier::rlimit(100)]
fn p_str_body(v: &Vec<char>, i: usize) -> (r: Option<(String, usize)>)
    requires
        i <= v@.len(),
    ensures
        match r {
            Some((val, j)) => i < j <= v@.len() && sp_str_body(tail_at(v@, i as int)) == Some(
                (val@, tail_at(v@, j as int)),
            ),
            None => sp_str_body(tail_at(v@, i as int)) is None,
        },
    decreases v@.len() - i,
{
    broadcast use lemma_tail_tail;

    let ghost s = tail_at(v@, i as int);
    if i == v.len() {
        return None;
    }
    let c = v[i];
    if c == '"' {
        let out = String::new();
        proof {
            assert(out@ =~= Seq::<char>::empty());
        }
        return Some((out, i + 1));
    }
    if c == '\\' {
        if i + 1 == v.len() {
            return None;
        }
        let e = v[i + 1];
        if e == 'u' {
            if v.len() - i < 6 {
                return None;
            }
            let h0 = hex_val_x(v[i + 2]);
            let h1 = hex_val_x(v[i + 3]);
            let h2 = hex_val_x(v[i + 4]);
            let h3 = hex_val_x(v[i + 5]);
            match (h0, h1, h2, h3) {
                (Some(a), Some(b), Some(cc), Some(d)) => {
                    let n: u32 = a * 4096 + b * 256 + cc * 16 + d;
                    if 0xD800 <= n && n < 0xE000 {
                        return None;
                    }
                    let dc = char::from_u32(n).unwrap();
                    match p_str_body(v, i + 6) {
                        Some((t, j)) => Some((prepend_char(dc, &t), j)),
                        None => None,
                    }
                },
                _ => None,
            }
        } else {
            match esc_code_x(e) {
                Some(d) => match p_str_body(v, i + 2) {
                    Some((t, j)) => Some((prepend_char(d, &t), j)),
                    None => None,
                },
                None => None,
            }
        }
    } else if (c as u32) < 0x20 {
        None
    } else {
        match p_str_body(v, i + 1) {
            Some((t, j)) => Some((prepend_char(c, &t), j)),
            None => None,
        }
    }
}

/// Parse a complete string literal from position `i`, opening quote included.
fn p_string(v: &Vec<char>, i: usize) -> (r: Option<(String, usize)>)
    requires
        i <= v@.len(),
    ensures
        match r {
            Some((val, j)) => i < j <= v@.len() && sp_string(tail_at(v@, i as int)) == Some(
                (val@, tail_at(v@, j as int)),
            ),
            None => sp_string(tail_at(v@, i as int)) is None,
        },
{
    broadcast use lemma_tail_tail;

    if i < v.len() && v[i] == '"' {
        p_str_body(v, i + 1)
    } else {
        None
    }
}

/// Consume a maximal digit run from position `i`.
fn p_digits(v: &Vec<char>, i: usize) -> (j: usize)
    requires
        i <= v@.len(),
    ensures
        i <= j <= v@.len(),
        sp_digits(tail_at(v@, i as int)) == (
            v@.subrange(i as int, j as int),
            tail_at(v@, j as int),
        ),
        forall|k: int| i <= k < j ==> is_digit(v@[k]),
    decreases v@.len() - i,
{
    broadcast use lemma_tail_tail;

    if i < v.len() && is_digit_x(v[i]) {
        let j = p_digits(v, i + 1);
        proof {
            assert(v@.subrange(i as int, j as int) =~= seq![v@[i as int]] + v@.subrange(
                i + 1,
                j as int,
            ));
        }
        j
    } else {
        proof {
            assert(v@.subrange(i as int, i as int) =~= Seq::<char>::empty());
        }
        i
    }
}

/// Value of the digit run `v[i..j]`, or `None` if it exceeds `u32`.
fn digits_value(v: &Vec<char>, i: usize, j: usize) -> (r: Option<u32>)
    requires
        i <= j <= v@.len(),
        forall|k: int| i <= k < j ==> is_digit(v@[k]),
    ensures
        match r {
            Some(x) => x as int == dec_val(v@.subrange(i as int, j as int)),
            None => dec_val(v@.subrange(i as int, j as int)) > u32::MAX as int,
        },
{
    let mut val: u32 = 0;
    let mut over: bool = false;
    let mut k: usize = i;
    proof {
        assert(v@.subrange(i as int, i as int) =~= Seq::<char>::empty());
    }
    while k < j
        invariant
            i <= k <= j <= v@.len(),
            forall|t: int| i <= t < j ==> is_digit(v@[t]),
            !over ==> val as int == dec_val(v@.subrange(i as int, k as int)),
            over ==> dec_val(v@.subrange(i as int, k as int)) > u32::MAX as int,
        decreases j - k,
    {
        let d: u32 = (v[k] as u32) - 0x30;
        proof {
            let ds1 = v@.subrange(i as int, k + 1);
            assert(ds1.drop_last() =~= v@.subrange(i as int, k as int));
            assert(ds1.last() == v@[k as int]);
        }
        if !over {
            if val <= (u32::MAX - d) / 10 {
                val = val * 10 + d;
            } else {
                over = true;
            }
        } else {
            proof {
                let prev = dec_val(v@.subrange(i as int, k as int));
                assert(prev * 10 >= prev) by (nonlinear_arith)
                    requires
                        prev > u32::MAX as int,
                ;
            }
        }
        k += 1;
    }
    if over {
        None
    } else {
        Some(val)
    }
}

/// Parse a non-negative integer from position `i`, per the strict grammar.
fn p_number(v: &Vec<char>, i: usize) -> (r: Option<(u32, usize)>)
    requires
        i <= v@.len(),
    ensures
        match r {
            Some((x, j)) => i < j <= v@.len() && sp_number(tail_at(v@, i as int)) == Some(
                (x as int, tail_at(v@, j as int)),
            ),
            None => (sp_number(tail_at(v@, i as int)) matches Some((m, rr)) ==> m
                > u32::MAX as int),
        },
{
    broadcast use lemma_tail_tail;

    let j = p_digits(v, i);
    if j == i {
        return None;
    }
    if j > i + 1 && v[i] == '0' {
        return None;
    }
    if j < v.len() {
        let c = v[j];
        if c == '.' || c == 'e' || c == 'E' {
            return None;
        }
    }
    match digits_value(v, i, j) {
        Some(x) => Some((x, j)),
        None => None,
    }
}

/// Expect the exact literal `lit` at position `i`.
fn p_lit(v: &Vec<char>, i: usize, lit: &str) -> (r: Option<usize>)
    requires
        i <= v@.len(),
    ensures
        match r {
            Some(j) => i <= j <= v@.len() && j - i == lit@.len() && sp_lit(
                tail_at(v@, i as int),
                lit@,
            ) == Some(tail_at(v@, j as int)),
            None => sp_lit(tail_at(v@, i as int), lit@) is None,
        },
{
    let m = lit.unicode_len();
    let n = v.len();
    if n - i < m {
        return None;
    }
    let mut k: usize = 0;
    while k < m
        invariant
            m == lit@.len(),
            n == v@.len(),
            i + m <= n,
            k <= m,
            forall|t: int| 0 <= t < k ==> v@[i + t] == lit@[t],
        decreases m - k,
    {
        if v[i + k] != lit.get_char(k) {
            proof {
                let s = tail_at(v@, i as int);
                assert(s.subrange(0, m as int)[k as int] == v@[i + k]);
                assert(s.subrange(0, m as int) != lit@);
            }
            return None;
        }
        k += 1;
    }
    proof {
        let s = tail_at(v@, i as int);
        assert(s.subrange(0, m as int) =~= lit@);
        assert(tail_at(s, m as int) =~= tail_at(v@, i + m));
    }
    Some(i + m)
}

/// Parse the members of the fields object from position `i` (at a key), up to
/// and including the closing brace, inserting each pair into `acc`.
fn p_fields_members(v: &Vec<char>, i: usize, acc: &mut LogFields) -> (r: Option<usize>)
    requires
        i <= v@.len(),
        old(acc).wf(),
    ensures
        match r {
            Some(j) => i < j <= v@.len() && final(acc).wf() && sp_fields_members(
                tail_at(v@, i as int),
                old(acc)@,
            ) == Some((final(acc)@, tail_at(v@, j as int))),
            None => sp_fields_members(tail_at(v@, i as int), old(acc)@) is None,
        },
    decreases v@.len() - i,
{
    broadcast use lemma_tail_tail;

    match p_string(v, i) {
        Some((k, i1)) => {
            let i2 = p_ws(v, i1);
            if i2 == v.len() || v[i2] != ':' {
                return None;
            }
            let i3 = p_ws(v, i2 + 1);
            match p_string(v, i3) {
                Some((val, i4)) => {
                    acc.insert(k, val);
                    let i5 = p_ws(v, i4);
                    if i5 == v.len() {
                        return None;
                    }
                    if v[i5] == ',' {
                        let i6 = p_ws(v, i5 + 1);
                        p_fields_members(v, i6, acc)
                    } else if v[i5] == '}' {
                        Some(i5 + 1)
                    } else {
                        None
                    }
                },
                None => None,
            }
        },
        None => None,
    }
}

/// Parse a complete fields object from position `i`, opening brace included.
fn p_fields(v: &Vec<char>, i: usize) -> (r: Option<(LogFields, usize)>)
    requires
        i <= v@.len(),
    ensures
        match r {
            Some((fs, j)) => i < j <= v@.len() && fs.wf() && sp_fields(tail_at(v@, i as int))
                == Some((fs@, tail_at(v@, j as int))),
            None => sp_fields(tail_at(v@, i as int)) is None,
        },
{
    broadcast use lemma_tail_tail;

    if i == v.len() || v[i] != '{' {
        return None;
    }
    let i1 = p_ws(v, i + 1);
    if i1 < v.len() && v[i1] == '}' {
        return Some((LogFields::new(), i1 + 1));
    }
    let mut fs = LogFields::new();
    match p_fields_members(v, i1, &mut fs) {
        Some(j) => Some((fs, j)),
        None => None,
    }
}

/// Consume the optional fraction and exponent of a number from position `i`.
fn p_num_rest(v: &Vec<char>, i: usize) -> (j: usize)
    requires
        i <= v@.len(),
    ensures
        i <= j <= v@.len(),
        tail_at(v@, j as int) == sp_num_rest(tail_at(v@, i as int)),
{
    broadcast use lemma_tail_tail;

    let mut j = i;
    if j < v.len() && v[j] == '.' {
        j = p_digits(v, j + 1);
    }
    proof {
        assert(tail_at(v@, j as int) == ({
            let s = tail_at(v@, i as int);
            if s.len() > 0 && s[0] == '.' {
                sp_digits(tail_at(s, 1)).1
            } else {
                s
            }
        }));
    }
    let ghost j1 = j;
    if j < v.len() && (v[j] == 'e' || v[j] == 'E') {
        j += 1;
        if j < v.len() && (v[j] == '+' || v[j] == '-') {
            j += 1;
        }
        let ghost jb = j;
        j = p_digits(v, j);
        proof {
            assert(sp_digits(tail_at(v@, jb as int)).1 == tail_at(v@, j as int));
        }
    }
    j
}

/// Skip one JSON value of any shape from position `i`.
fn p_skip_value(v: &Vec<char>, i: usize, fuel: usize) -> (r: Option<usize>)
    requires
        i <= v@.len(),
    ensures
        match r {
            Some(j) => i <= j <= v@.len() && sp_skip_value(tail_at(v@, i as int), fuel as nat)
                == Some(tail_at(v@, j as int)),
            None => sp_skip_value(tail_at(v@, i as int), fuel as nat) is None,
        },
    decreases fuel,
{
    broadcast use lemma_tail_tail;

    if fuel == 0 {
        return None;
    }
    if i == v.len() {
        return None;
    }
    let c = v[i];
    if c == '"' {
        match p_str_body(v, i + 1) {
            Some((x, j)) => Some(j),
            None => None,
        }
    } else if c == 't' {
        proof {
            reveal_strlit("true");
            assert("true"@ =~= seq!['t', 'r', 'u', 'e']);
        }
        p_lit(v, i, "true")
    } else if c == 'f' {
        proof {
            reveal_strlit("false");
            assert("false"@ =~= seq!['f', 'a', 'l', 's', 'e']);
        }
        p_lit(v, i, "false")
    } else if c == 'n' {
        proof {
            reveal_strlit("null");
            assert("null"@ =~= lit_null());
        }
        p_lit(v, i, "null")
    } else if c == '{' {
        let i1 = p_ws(v, i + 1);
        if i1 < v.len() && v[i1] == '}' {
            Some(i1 + 1)
        } else {
            p_skip_members(v, i1, fuel - 1)
        }
    } else if c == '[' {
        let i1 = p_ws(v, i + 1);
        if i1 < v.len() && v[i1] == ']' {
            Some(i1 + 1)
        } else {
            p_skip_elements(v, i1, fuel - 1)
        }
    } else if c == '-' || is_digit_x(c) {
        let i0 = if c == '-' {
            i + 1
        } else {
            i
        };
        let j = p_digits(v, i0);
        if j == i0 {
            None
        } else {
            Some(p_num_rest(v, j))
        }
    } else {
        None
    }
}

/// Skip the members of an unknown object from position `i` (at a key), up to
/// and including the closing brace.
fn p_skip_members(v: &Vec<char>, i: usize, fuel: usize) -> (r: Option<usize>)
    requires
        i <= v@.len(),
    ensures
        match r {
            Some(j) => i <= j <= v@.len() && sp_skip_members(tail_at(v@, i as int), fuel as nat)
                == Some(tail_at(v@, j as int)),
            None => sp_skip_members(tail_at(v@, i as int), fuel as nat) is None,
        },
    decreases fuel,
{
    broadcast use lemma_tail_tail;

    if fuel == 0 {
        return None;
    }
    match p_string(v, i) {
        Some((k, i1)) => {
            let i2 = p_ws(v, i1);
            if i2 == v.len() || v[i2] != ':' {
                return None;
            }
            let i3 = p_ws(v, i2 + 1);
            match p_skip_value(v, i3, fuel - 1) {
                Some(i4) => {
                    let i5 = p_ws(v, i4);
                    if i5 == v.len() {
                        return None;
                    }
                    if v[i5] == ',' {
                        let i6 = p_ws(v, i5 + 1);
                        p_skip_members(v, i6, fuel - 1)
                    } else if v[i5] == '}' {
                        Some(i5 + 1)
                    } else {
                        None
                    }
                },
                None => None,
            }
        },
        None => None,
    }
}

/// Skip the elements of an unknown array from position `i` (at an element),
/// up to and including the closing bracket.
fn p_skip_elements(v: &Vec<char>, i: usize, fuel: usize) -> (r: Option<usize>)
    requires
        i <= v@.len(),
    ensures
        match r {
            Some(j) => i <= j <= v@.len() && sp_skip_elements(tail_at(v@, i as int), fuel as nat)
                == Some(tail_at(v@, j as int)),
            None => sp_skip_elements(tail_at(v@, i as int), fuel as nat) is None,
        },
    decreases fuel,
{
    broadcast use lemma_tail_tail;

    if fuel == 0 {
        return None;
    }
    match p_skip_value(v, i, fuel - 1) {
        Some(i1) => {
            let i2 = p_ws(v, i1);
            if i2 == v.len() {
                return None;
            }
            if v[i2] == ',' {
                let i3 = p_ws(v, i2 + 1);
                p_skip_elements(v, i3, fuel - 1)
            } else if v[i2] == ']' {
                Some(i2 + 1)
            } else {
                None
            }
        },
        None => None,
    }
}

/// Members seen so far while parsing one entry object.
struct PartialRec {
    id: Option<String>,
    timestamp: Option<String>,
    level: Option<LogLevel>,
    daemon: Option<String>,
    message: Option<String>,
    fields: Option<LogFields>,
    pid: Option<Option<u32>>,
    hostname: Option<Option<String>>,
}

impl View for PartialRec {
    type V = PartialEntry;

    closed spec fn view(&self) -> PartialEntry {
        PartialEntry {
            id: match self.id {
                Some(x) => Some(x@),
                None => None,
            },
            timestamp: match self.timestamp {
                Some(x) => Some(x@),
                None => None,
            },
            level: self.level,
            daemon: match self.daemon {
                Some(x) => Some(x@),
                None => None,
            },
            message: match self.message {
                Some(x) => Some(x@),
                None => None,
            },
            fields: match self.fields {
                Some(x) => Some(x@),
                None => None,
            },
            pid: self.pid,
            hostname: match self.hostname {
                Some(x) => match x {
                    Some(h) => Some(Some(h@)),
                    None => Some(None),
                },
                None => None,
            },
        }
    }
}

impl PartialRec {
    /// The held fields map, if any, keeps its keys unique.
    spec fn inv(&self) -> bool {
        self.fields matches Some(f) ==> f.wf()
    }
}

/// Parse and record the value of the member named `k` from position `i`.
#[verifier::rlimit(100)]
fn p_member_value(v: &Vec<char>, i: usize, k: &String, acc: &mut PartialRec) -> (r: Option<usize>)
    requires
        i <= v@.len(),
        old(acc).inv(),
    ensures
        match r {
            Some(j) => i <= j <= v@.len() && final(acc).inv() && sp_member_value(
                k@,
                tail_at(v@, i as int),
                old(acc)@,
            ) == Some((final(acc)@, tail_at(v@, j as int))),
            None => sp_member_value(k@, tail_at(v@, i as int), old(acc)@) is None,
        },
{
    broadcast use lemma_tail_tail;

    proof {
        reveal_strlit("id");
        reveal_strlit("timestamp");
        reveal_strlit("level");
        reveal_strlit("daemon");
        reveal_strlit("message");
        reveal_strlit("fields");
        reveal_strlit("pid");
        reveal_strlit("hostname");
        reveal_strlit("null");
        assert("id"@ =~= key_id());
        assert("timestamp"@ =~= key_timestamp());
        assert("level"@ =~= key_level());
        assert("daemon"@ =~= key_daemon());
        assert("message"@ =~= key_message());
        assert("fields"@ =~= key_fields());
        assert("pid"@ =~= key_pid());
        assert("hostname"@ =~= key_hostname());
        assert("null"@ =~= lit_null());
    }
    let ks = k.as_str();
    if crate::level::str_eq(ks, "id") {
        if acc.id.is_some() {
            return None;
        }
        match p_string(v, i) {
            Some((x, j)) => {
                acc.id = Some(x);
                Some(j)
            },
            None => None,
        }
    } else if crate::level::str_eq(ks, "timestamp") {
        if acc.timestamp.is_some() {
            return None;
        }
        match p_string(v, i) {
            Some((x, j)) => {
                acc.timestamp = Some(x);
                Some(j)
            },
            None => None,
        }
    } else if crate::level::str_eq(ks, "level") {
        if acc.level.is_some() {
            return None;
        }
        match p_string(v, i) {
            Some((x, j)) => match LogLevel::of_name(x.as_str()) {
                Some(l) => {
                    acc.level = Some(l);
                    Some(j)
                },
                None => None,
            },
            None => None,
        }
    } else if crate::level::str_eq(ks, "daemon") {
        if acc.daemon.is_some() {
            return None;
        }
        match p_string(v, i) {
            Some((x, j)) => {
                acc.daemon = Some(x);
                Some(j)
            },
            None => None,
        }
    } else if crate::level::str_eq(ks, "message") {
        if acc.message.is_some() {
            return None;
        }
        match p_string(v, i) {
            Some((x, j)) => {
                acc.message = Some(x);
                Some(j)
            },
            None => None,
        }
    } else if crate::level::str_eq(ks, "fields") {
        if acc.fields.is_some() {
            return None;
        }
        match p_fields(v, i) {
            Some((fs, j)) => {
                acc.fields = Some(fs);
                Some(j)
            },
            None => None,
        }
    } else if crate::level::str_eq(ks, "pid") {
        if acc.pid.is_some() {
            return None;
        }
        if i < v.len() && v[i] == 'n' {
            match p_lit(v, i, "null") {
                Some(j) => {
                    acc.pid = Some(None);
                    Some(j)
                },
                None => None,
            }
        } else {
            match p_number(v, i) {
                Some((x, j)) => {
                    acc.pid = Some(Some(x));
                    Some(j)
                },
                None => None,
            }
        }
    } else if crate::level::str_eq(ks, "hostname") {
        if acc.hostname.is_some() {
            return None;
        }
        if i < v.len() && v[i] == 'n' {
            match p_lit(v, i, "null") {
                Some(j) => {
                    acc.hostname = Some(None);
                    Some(j)
                },
                None => None,
            }
        } else {
            match p_string(v, i) {
                Some((x, j)) => {
                    acc.hostname = Some(Some(x));
                    Some(j)
                },
                None => None,
            }
        }
    } else {
        match p_skip_value(v, i, v.len() - i) {
            Some(j) => Some(j),
            None => None,
        }
    }
}

/// Parse the members of the entry object from position `i` (at a key), up to
/// and including the closing brace.
#[verifier::rlimit(100)]
fn p_members(v: &Vec<char>, i: usize, acc: &mut PartialRec) -> (r: Option<usize>)
    requires
        i <= v@.len(),
        old(acc).inv(),
    ensures
        match r {
            Some(j) => i < j <= v@.len() && final(acc).inv() && sp_members(
                tail_at(v@, i as int),
                old(acc)@,
            ) == Some((final(acc)@, tail_at(v@, j as int))),
            None => sp_members(tail_at(v@, i as int), old(acc)@) is None,
        },
    decreases v@.len() - i,
{
    broadcast use lemma_tail_tail;

    match p_string(v, i) {
        Some((k, i1)) => {
            let i2 = p_ws(v, i1);
            if i2 == v.len() || v[i2] != ':' {
                return None;
            }
            let i3 = p_ws(v, i2 + 1);
            match p_member_value(v, i3, &k, acc) {
                Some(i4) => {
                    let i5 = p_ws(v, i4);
                    if i5 == v.len() {
                        return None;
                    }
                    if v[i5] == ',' {
                        let i6 = p_ws(v, i5 + 1);
                        p_members(v, i6, acc)
                    } else if v[i5] == '}' {
                        Some(i5 + 1)
                    } else {
                        None
                    }
                },
                None => None,
            }
        },
        None => None,
    }
}

/// The lower-case form of an ASCII letter.
fn lower_ascii_x(c: char) -> (r: char)
    ensures
        r == lower_ascii(c),
{
    let u = c as u32;
    if 0x41 <= u && u <= 0x5A {
        char::from_u32(u + 32).unwrap()
    } else {
        c
    }
}

/// Whether the 36 characters at `start` form a hyphenated UUID.
fn hyphenated_at(v: &Vec<char>, start: usize) -> (r: bool)
    requires
        start + 36 <= v@.len(),
    ensures
        r == is_hyphenated_uuid(v@.subrange(start as int, start as int + 36)),
{
    let ghost s = v@.subrange(start as int, start as int + 36);
    let n = v.len();
    let mut i: usize = 0;
    while i < 36
        invariant
            n == v@.len(),
            start + 36 <= n,
            i <= 36,
            s == v@.subrange(start as int, start as int + 36),
            forall|j: int|
                0 <= j < i ==> (if j == 8 || j == 13 || j == 18 || j == 23 {
                    s[j] == '-'
                } else {
                    hex_val(#[trigger] s[j]) is Some
                }),
        decreases 36 - i,
    {
        let c = v[start + i];
        proof {
            assert(s[i as int] == c);
        }
        if i == 8 || i == 13 || i == 18 || i == 23 {
            if c != '-' {
                return false;
            }
        } else {
            if hex_val_x(c).is_none() {
                return false;
            }
        }
        i += 1;
    }
    true
}

/// Whether the characters are one of the four accepted UUID string forms.
fn valid_id_chars(v: &Vec<char>) -> (r: bool)
    ensures
        r == is_valid_id(v@),
{
    let n = v.len();
    if n == 32 {
        let mut i: usize = 0;
        while i < 32
            invariant
                32 == v@.len(),
                i <= 32,
                forall|j: int| 0 <= j < i ==> hex_val(#[trigger] v@[j]) is Some,
            decreases 32 - i,
        {
            if hex_val_x(v[i]).is_none() {
                return false;
            }
            i += 1;
        }
        true
    } else if n == 36 {
        proof {
            assert(v@.subrange(0, 36) =~= v@);
        }
        hyphenated_at(v, 0)
    } else if n == 38 {
        v[0] == '{' && v[37] == '}' && hyphenated_at(v, 1)
    } else if n == 45 {
        lower_ascii_x(v[0]) == 'u' && lower_ascii_x(v[1]) == 'r' && lower_ascii_x(v[2]) == 'n'
            && v[3] == ':' && lower_ascii_x(v[4]) == 'u' && lower_ascii_x(v[5]) == 'u'
            && lower_ascii_x(v[6]) == 'i' && lower_ascii_x(v[7]) == 'd' && v[8] == ':'
            && hyphenated_at(v, 9)
    } else {
        false
    }
}

/// Value of the two digit characters at `i` and `i + 1`.
fn two_digits_x(v: &Vec<char>, i: usize) -> (r: u32)
    requires
        i + 2 <= v@.len(),
        is_digit(v@[i as int]),
        is_digit(v@[i as int + 1]),
    ensures
        r as int == two_digits(v@, i as int),
        r <= 99,
{
    let n = v.len();
    let a = v[i];
    let b = v[i + 1];
    proof {
        assert(is_digit(a) && is_digit(b));
        assert(0x30 <= a as u32 <= 0x39);
        assert(0x30 <= b as u32 <= 0x39);
    }
    (a as u32 - 0x30) * 10 + (b as u32 - 0x30)
}

/// Days in a month of a year.
fn days_in_month_x(y: u32, m: u32) -> (r: u32)
    ensures
        r as int == days_in_month(y as int, m as int),
{
    if m == 1 || m == 3 || m == 5 || m == 7 || m == 8 || m == 10 || m == 12 {
        31
    } else if m == 4 || m == 6 || m == 9 || m == 11 {
        30
    } else if y % 4 == 0 && (y % 100 != 0 || y % 400 == 0) {
        29
    } else {
        28
    }
}

/// Whether the characters from `i` on are a valid offset.
fn valid_offset_at(v: &Vec<char>, i: usize) -> (r: bool)
    requires
        i <= v@.len(),
    ensures
        r == is_valid_offset(tail_at(v@, i as int)),
{
    let m = v.len() - i;
    if m == 1 {
        let c = v[i];
        c == 'Z' || c == 'z'
    } else if m == 6 {
        if !(v[i] == '+' || v[i] == '-') {
            return false;
        }
        if !(is_digit_x(v[i + 1]) && is_digit_x(v[i + 2]) && v[i + 3] == ':' && is_digit_x(
            v[i + 4],
        ) && is_digit_x(v[i + 5])) {
            return false;
        }
        proof {
            assert(tail_at(v@, i as int)[1] == v@[i + 1]);
            assert(tail_at(v@, i as int)[2] == v@[i + 2]);
            assert(tail_at(v@, i as int)[4] == v@[i + 4]);
            assert(tail_at(v@, i as int)[5] == v@[i + 5]);
        }
        let hh = (v[i + 1] as u32 - 0x30) * 10 + (v[i + 2] as u32 - 0x30);
        let mm = (v[i + 4] as u32 - 0x30) * 10 + (v[i + 5] as u32 - 0x30);
        hh <= 23 && mm <= 59
    } else {
        false
    }
}

/// Whether the characters form a valid RFC 3339 timestamp.
#[verifier::rlimit(100)]
fn valid_timestamp_chars(v: &Vec<char>) -> (r: bool)
    ensures
        r == is_valid_timestamp(v@),
{
    broadcast use lemma_tail_tail;

    let n = v.len();
    if n < 20 {
        return false;
    }
    if !(is_digit_x(v[0]) && is_digit_x(v[1]) && is_digit_x(v[2]) && is_digit_x(v[3])) {
        return false;
    }
    if !(v[4] == '-' && is_digit_x(v[5]) && is_digit_x(v[6]) && v[7] == '-' && is_digit_x(v[8])
        && is_digit_x(v[9])) {
        return false;
    }
    if !(v[10] == 'T' || v[10] == 't' || v[10] == ' ') {
        return false;
    }
    if !(is_digit_x(v[11]) && is_digit_x(v[12]) && v[13] == ':' && is_digit_x(v[14]) && is_digit_x(
        v[15],
    ) && v[16] == ':' && is_digit_x(v[17]) && is_digit_x(v[18])) {
        return false;
    }
    let year = (v[0] as u32 - 0x30) * 1000 + (v[1] as u32 - 0x30) * 100 + (v[2] as u32 - 0x30) * 10
        + (v[3] as u32 - 0x30);
    let month = two_digits_x(v, 5);
    let day = two_digits_x(v, 8);
    if !(1 <= month && month <= 12 && 1 <= day && day <= days_in_month_x(year, month)) {
        return false;
    }
    if !(two_digits_x(v, 11) <= 23 && two_digits_x(v, 14) <= 59 && two_digits_x(v, 17) <= 60) {
        return false;
    }
    if v[19] == '.' {
        let q = p_digits(v, 20);
        if q == 20 {
            return false;
        }
        valid_offset_at(v, q)
    } else {
        valid_offset_at(v, 19)
    }
}

/// A parse failure, reported as the serialization-class error.
fn parse_failure() -> (r: LogStreamError)
    ensures
        r is Serde,
{
    LogStreamError::Serde(String::from_str("malformed log record"))
}

impl LogEntry {
    /// Parse one wire line.  `Ok` exactly on the lines that `sp_entry`
    /// accepts: one JSON object with all eight members present exactly once
    /// and well shaped, unknown members ignored, whitespace tolerated; and
    /// the parsed entry is exactly the entry `sp_entry` denotes.
    #[verifier::rlimit(100)]
    pub fn from_json(s: &str) -> (r: Result<LogEntry, LogStreamError>)
        ensures
            match r {
                Ok(e) => sp_entry(s@) == Some(e@) && e.wf(),
                Err(err) => sp_entry(s@) is None && err is Serde,
            },
    {
        broadcast use lemma_tail_tail;

        let v = str_chars(s);
        proof {
            assert(tail_at(v@, 0) =~= s@);
        }
        let i0 = p_ws(&v, 0);
        if i0 == v.len() || v[i0] != '{' {
            return Err(parse_failure());
        }
        let i1 = p_ws(&v, i0 + 1);
        if i1 < v.len() && v[i1] == '}' {
            return Err(parse_failure());
        }
        let mut acc = PartialRec {
            id: None,
            timestamp: None,
            level: None,
            daemon: None,
            message: None,
            fields: None,
            pid: None,
            hostname: None,
        };
        proof {
            assert(acc@ == empty_partial());
        }
        let j = match p_members(&v, i1, &mut acc) {
            Some(j) => j,
            None => {
                return Err(parse_failure());
            },
        };
        let j2 = p_ws(&v, j);
        if j2 != v.len() {
            proof {
                assert(sp_ws(tail_at(v@, j as int)).len() > 0);
            }
            return Err(parse_failure());
        }
        proof {
            assert(tail_at(v@, j2 as int) =~= Seq::<char>::empty());
        }
        let PartialRec { id, timestamp, level, daemon, message, fields, pid, hostname } = acc;
        match (id, timestamp, level, daemon, message, fields) {
            (Some(id), Some(timestamp), Some(level), Some(daemon), Some(message), Some(fields)) => {
                if daemon.as_str().is_empty() {
                    return Err(parse_failure());
                }
                let idv = str_chars(id.as_str());
                if !valid_id_chars(&idv) {
                    return Err(parse_failure());
                }
                let tsv = str_chars(timestamp.as_str());
                if !valid_timestamp_chars(&tsv) {
                    return Err(parse_failure());
                }
                let pid = match pid {
                    Some(p) => p,
                    None => None,
                };
                let hostname = match hostname {
                    Some(h) => h,
                    None => None,
                };
                let e = LogEntry { id, timestamp, level, daemon, message, fields, pid, hostname };
                proof {
                    assert(e@ =~= sp_entry(s@).unwrap());
                }
                Ok(e)
            },
            _ => Err(parse_failure()),
        }
    }
}

} // verus!
