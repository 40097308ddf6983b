//! The round-trip law of the wire format: parsing a rendered entry yields the
//! entry back, field for field.

use vstd::prelude::*;

verus! {

use crate::fields::key_index;
use crate::fields::lww_insert;
use crate::fields::unique_keys;
use crate::level::LogLevel;
use crate::wire::EntryView;
use crate::wire::PartialEntry;
use crate::wire::dec_seq;
use crate::wire::dec_val;
use crate::wire::digit_char;
use crate::wire::digit_val;
use crate::wire::empty_partial;
use crate::wire::esc_char;
use crate::wire::escape;
use crate::wire::hex_char;
use crate::wire::hex_val;
use crate::wire::is_digit;
use crate::wire::is_ws;
use crate::wire::key_daemon;
use crate::wire::key_fields;
use crate::wire::key_hostname;
use crate::wire::key_id;
use crate::wire::key_level;
use crate::wire::key_message;
use crate::wire::key_pid;
use crate::wire::key_timestamp;
use crate::wire::lit_null;
use crate::wire::render_entry;
use crate::wire::render_fields;
use crate::wire::render_member;
use crate::wire::render_pair;
use crate::wire::render_pairs;
use crate::wire::render_string;
use crate::wire::sp_digits;
use crate::wire::sp_entry;
use crate::wire::sp_fields;
use crate::wire::sp_fields_members;
use crate::wire::sp_lit;
use crate::wire::sp_member_value;
use crate::wire::sp_members;
use crate::wire::sp_number;
use crate::wire::sp_str_body;
use crate::wire::sp_string;
use crate::wire::sp_ws;
use crate::wire::tail_at;

// ---------------------------------------------------------------------------
// Small facts.
// ---------------------------------------------------------------------------

/// Whitespace skipping does nothing when the input does not start with
/// whitespace.
pub proof fn lemma_ws_noop(s: Seq<char>)
    requires
        s.len() == 0 || !is_ws(s[0]),
    ensures
        sp_ws(s) == s,
{
}

/// A hexadecimal digit character reads back as its value.
pub proof fn lemma_hex_round(x: int)
    requires
        0 <= x < 16,
    ensures
        hex_val(hex_char(x)) == Some(x),
{
}

/// A decimal digit character reads back as its value.
pub proof fn lemma_digit_round(x: int)
    requires
        0 <= x < 10,
    ensures
        is_digit(digit_char(x)),
        digit_val(digit_char(x)) == x,
{
}

// ---------------------------------------------------------------------------
// String literals.
// ---------------------------------------------------------------------------

/// Parsing an escaped string body, closing quote and all, yields the original
/// string and leaves the rest untouched.
pub proof fn lemma_rt_string(v: Seq<char>, rest: Seq<char>)
    ensures
        sp_str_body(escape(v) + seq!['"'] + rest) == Some((v, rest)),
    decreases v.len(),
{
    if v.len() == 0 {
        let s = escape(v) + seq!['"'] + rest;
        assert(s =~= seq!['"'] + rest);
        assert(s[0] == '"');
        assert(tail_at(s, 1) =~= rest);
        assert(v =~= Seq::<char>::empty());
    } else {
        let c = v[0];
        let vt = tail_at(v, 1);
        lemma_rt_string(vt, rest);
        let s = escape(v) + seq!['"'] + rest;
        assert(escape(v) == esc_char(c) + escape(vt));
        assert(s =~= esc_char(c) + (escape(vt) + seq!['"'] + rest));
        let inner = escape(vt) + seq!['"'] + rest;
        assert(seq![c] + vt =~= v);
        if c == '"' || c == '\\' || c == '\n' || c == '\r' || c == '\t' {
            assert(s[0] == '\\');
            assert(s.len() >= 2);
            assert(s[1] == esc_char(c)[1]);
            assert(s[1] != 'u');
            assert(tail_at(s, 2) =~= inner);
            assert(sp_str_body(s) == Some((seq![c] + vt, rest)));
        } else if (c as u32) < 0x20 {
            let ci = (c as u32) as int;
            assert(s[0] == '\\');
            assert(s.len() >= 6);
            assert(s[1] == 'u');
            assert(s[2] == '0');
            assert(s[3] == '0');
            assert(s[4] == hex_char(ci / 16));
            assert(s[5] == hex_char(ci % 16));
            assert(hex_val('0') == Some(0int));
            assert(0 <= ci < 0x20);
            assert(0 <= ci / 16 < 16 && 0 <= ci % 16 < 16) by (nonlinear_arith)
                requires
                    0 <= ci < 0x20,
            ;
            lemma_hex_round(ci / 16);
            lemma_hex_round(ci % 16);
            let n = 0 * 4096 + 0 * 256 + (ci / 16) * 16 + ci % 16;
            vstd::arithmetic::div_mod::lemma_fundamental_div_mod(ci, 16);
            assert(n == ci);
            assert(!(0xD800 <= n < 0xE000));
            assert(tail_at(s, 6) =~= inner);
            vstd::utf8::char_u32_cast(c, c as u32);
            assert(n as char == c);
            assert(sp_str_body(s) == Some((seq![c] + vt, rest)));
        } else {
            assert(s[0] == c);
            assert(s[0] != '"' && s[0] != '\\');
            assert(!((s[0] as u32) < 0x20));
            assert(tail_at(s, 1) =~= inner);
            assert(sp_str_body(s) == Some((seq![c] + vt, rest)));
        }
    }
}

/// The same law for a complete string literal with its opening quote.
pub proof fn lemma_rt_string_lit(v: Seq<char>, rest: Seq<char>)
    ensures
        sp_string(render_string(v) + rest) == Some((v, rest)),
{
    let s = render_string(v) + rest;
    assert(s[0] == '"');
    assert(tail_at(s, 1) =~= escape(v) + seq!['"'] + rest);
    lemma_rt_string(v, rest);
}

// ---------------------------------------------------------------------------
// Numbers.
// ---------------------------------------------------------------------------

/// Every character of a decimal rendering is a digit, the rendering is
/// non-empty, and it has no leading zero unless it is the single digit `0`.
pub proof fn lemma_dec_seq_shape(n: nat)
    ensures
        dec_seq(n).len() >= 1,
        forall|i: int| 0 <= i < dec_seq(n).len() ==> is_digit(#[trigger] dec_seq(n)[i]),
        n >= 1 ==> dec_seq(n)[0] != '0',
        dec_seq(n).len() > 1 ==> dec_seq(n)[0] != '0',
    decreases n,
{
    if n < 10 {
        lemma_digit_round(n as int);
    } else {
        lemma_dec_seq_shape(n / 10);
        lemma_digit_round((n % 10) as int);
        assert(dec_seq(n) == dec_seq(n / 10) + seq![digit_char((n % 10) as int)]);
        assert(dec_seq(n)[0] == dec_seq(n / 10)[0]);
    }
}

/// A decimal rendering reads back as its value.
pub proof fn lemma_dec_val_round(n: nat)
    ensures
        dec_val(dec_seq(n)) == n,
    decreases n,
{
    if n < 10 {
        let d = digit_char(n as int);
        assert(dec_seq(n) == seq![d]);
        assert(seq![d].drop_last() =~= Seq::<char>::empty());
        assert(seq![d].last() == d);
        lemma_digit_round(n as int);
        assert(dec_val(Seq::<char>::empty()) == 0);
        assert(dec_val(seq![d]) == dec_val(seq![d].drop_last()) * 10 + digit_val(d));
    } else {
        lemma_dec_val_round(n / 10);
        let d = digit_char((n % 10) as int);
        let ds = dec_seq(n / 10) + seq![d];
        assert(dec_seq(n) == ds);
        assert(ds.drop_last() =~= dec_seq(n / 10));
        assert(ds.last() == d);
        lemma_digit_round((n % 10) as int);
        assert(dec_val(ds) == dec_val(ds.drop_last()) * 10 + digit_val(d));
        assert(dec_val(ds) == (n / 10) * 10 + (n % 10));
        vstd::arithmetic::div_mod::lemma_fundamental_div_mod(n as int, 10);
        assert(n == 10 * (n as int / 10) + n as int % 10);
    }
}

/// Splitting digits off a digit run followed by a non-digit yields exactly
/// that run.
pub proof fn lemma_sp_digits_exact(ds: Seq<char>, rest: Seq<char>)
    requires
        forall|i: int| 0 <= i < ds.len() ==> is_digit(#[trigger] ds[i]),
        rest.len() == 0 || !is_digit(rest[0]),
    ensures
        sp_digits(ds + rest) == (ds, rest),
    decreases ds.len(),
{
    let s = ds + rest;
    if ds.len() == 0 {
        assert(s =~= rest);
        assert(ds =~= Seq::<char>::empty());
    } else {
        assert(s[0] == ds[0]);
        assert(tail_at(s, 1) =~= tail_at(ds, 1) + rest);
        lemma_sp_digits_exact(tail_at(ds, 1), rest);
        assert(seq![s[0]] + tail_at(ds, 1) =~= ds);
    }
}

/// Parsing a rendered number followed by anything that cannot continue a
/// number yields exactly its value.
pub proof fn lemma_rt_number(n: nat, rest: Seq<char>)
    requires
        rest.len() == 0 || (!is_digit(rest[0]) && rest[0] != '.' && rest[0] != 'e' && rest[0]
            != 'E'),
    ensures
        sp_number(dec_seq(n) + rest) == Some((n as int, rest)),
{
    lemma_dec_seq_shape(n);
    lemma_sp_digits_exact(dec_seq(n), rest);
    lemma_dec_val_round(n);
}

// ---------------------------------------------------------------------------
// The fields object.
// ---------------------------------------------------------------------------

/// Inserting a fresh key is appending.
pub proof fn lemma_lww_fresh(
    acc: Seq<(Seq<char>, Seq<char>)>,
    k: Seq<char>,
    v: Seq<char>,
)
    requires
        forall|i: int| 0 <= i < acc.len() ==> (#[trigger] acc[i]).0 != k,
    ensures
        lww_insert(acc, k, v) == acc.push((k, v)),
{
    assert(key_index(acc, k) is None);
}

/// Parsing rendered members of a fields object appends those pairs, in
/// order, to the accumulator.
pub proof fn lemma_rt_fields_members(
    ps: Seq<(Seq<char>, Seq<char>)>,
    acc: Seq<(Seq<char>, Seq<char>)>,
    rest: Seq<char>,
)
    requires
        ps.len() >= 1,
        unique_keys(acc + ps),
    ensures
        sp_fields_members(render_pairs(ps) + seq!['}'] + rest, acc) == Some((acc + ps, rest)),
    decreases ps.len(),
{
    let s = render_pairs(ps) + seq!['}'] + rest;
    let p = ps[0];
    let tail0 = if ps.len() == 1 {
        seq!['}'] + rest
    } else {
        seq![','] + (render_pairs(ps.subrange(1, ps.len() as int)) + seq!['}'] + rest)
    };
    if ps.len() == 1 {
        assert(render_pairs(ps) == render_pair(p));
    } else {
        assert(render_pairs(ps) == render_pair(p) + seq![','] + render_pairs(
            ps.subrange(1, ps.len() as int),
        ));
    }
    assert(s =~= render_string(p.0) + (seq![':'] + (render_string(p.1) + tail0)));
    // the key
    assert(s[0] == '"');
    assert(tail_at(s, 1) =~= escape(p.0) + seq!['"'] + (seq![':'] + (render_string(p.1) + tail0)));
    lemma_rt_string(p.0, seq![':'] + (render_string(p.1) + tail0));
    let s1 = seq![':'] + (render_string(p.1) + tail0);
    assert(sp_string(s) == Some((p.0, s1)));
    // the colon
    lemma_ws_noop(s1);
    assert(s1[0] == ':');
    assert(tail_at(s1, 1) =~= render_string(p.1) + tail0);
    // the value
    let s3 = render_string(p.1) + tail0;
    assert(s3[0] == '"');
    lemma_ws_noop(s3);
    lemma_rt_string_lit(p.1, tail0);
    assert(sp_string(s3) == Some((p.1, tail0)));
    // the accumulator
    assert(forall|i: int| 0 <= i < acc.len() ==> (#[trigger] acc[i]).0 != p.0) by {
        assert(forall|i: int| 0 <= i < acc.len() ==> (acc + ps)[i] == acc[i]);
        assert((acc + ps)[acc.len() as int] == p);
    }
    lemma_lww_fresh(acc, p.0, p.1);
    let acc2 = acc.push(p);
    // the separator
    lemma_ws_noop(tail0);
    if ps.len() == 1 {
        assert(tail0[0] == '}');
        assert(tail_at(tail0, 1) =~= rest);
        assert(acc2 =~= acc + ps);
        assert(sp_fields_members(s, acc) == Some((acc + ps, rest)));
    } else {
        assert(tail0[0] == ',');
        let pt = ps.subrange(1, ps.len() as int);
        let u = render_pairs(pt) + seq!['}'] + rest;
        assert(tail_at(tail0, 1) =~= u);
        assert(u[0] == '"') by {
            assert(pt.len() >= 1);
            if pt.len() == 1 {
                assert(render_pairs(pt) == render_pair(pt[0]));
            } else {
                assert(render_pairs(pt) == render_pair(pt[0]) + seq![','] + render_pairs(
                    pt.subrange(1, pt.len() as int),
                ));
            }
            assert(render_pair(pt[0])[0] == '"');
        }
        lemma_ws_noop(u);
        assert(acc2 + pt =~= acc + ps);
        lemma_rt_fields_members(pt, acc2, rest);
        assert(sp_fields_members(s, acc) == Some((acc + ps, rest)));
    }
}

/// Parsing a rendered fields object yields exactly its pairs.
pub proof fn lemma_rt_fields(ps: Seq<(Seq<char>, Seq<char>)>, rest: Seq<char>)
    requires
        unique_keys(ps),
    ensures
        sp_fields(render_fields(ps) + rest) == Some((ps, rest)),
{
    let s = render_fields(ps) + rest;
    assert(s[0] == '{');
    assert(tail_at(s, 1) =~= render_pairs(ps) + seq!['}'] + rest);
    let s1 = render_pairs(ps) + seq!['}'] + rest;
    if ps.len() == 0 {
        assert(s1 =~= seq!['}'] + rest);
        lemma_ws_noop(s1);
        assert(s1[0] == '}');
        assert(tail_at(s1, 1) =~= rest);
        assert(ps =~= Seq::<(Seq<char>, Seq<char>)>::empty());
    } else {
        assert(s1[0] == '"') by {
            if ps.len() == 1 {
                assert(render_pairs(ps) == render_pair(ps[0]));
            } else {
                assert(render_pairs(ps) == render_pair(ps[0]) + seq![','] + render_pairs(
                    ps.subrange(1, ps.len() as int),
                ));
            }
            assert(render_pair(ps[0])[0] == '"');
        }
        lemma_ws_noop(s1);
        assert(Seq::<(Seq<char>, Seq<char>)>::empty() + ps =~= ps);
        lemma_rt_fields_members(ps, Seq::empty(), rest);
    }
}

/// Concatenation of character sequences is associative.
proof fn lemma_assoc(a: Seq<char>, b: Seq<char>, c: Seq<char>)
    ensures
        (a + b) + c == a + (b + c),
{
    assert((a + b) + c =~= a + (b + c));
}

/// The rendered entry, re-grouped as one flat left-to-right concatenation of
/// its pieces (the shape in which the renderer builds it).
pub proof fn lemma_render_entry_left(e: EntryView)
    ensures
        render_entry(e) == seq!['{'] + render_member(key_id(), render_string(e.id)) + seq![',']
            + render_member(key_timestamp(), render_string(e.timestamp)) + seq![',']
            + render_member(key_level(), render_string(e.level.name_spec())) + seq![',']
            + render_member(key_daemon(), render_string(e.daemon)) + seq![','] + render_member(
            key_message(),
            render_string(e.message),
        ) + seq![','] + render_member(key_fields(), render_fields(e.fields)) + seq![',']
            + render_member(key_pid(), crate::wire::render_opt_u32(e.pid)) + seq![',']
            + render_member(key_hostname(), crate::wire::render_opt_string(e.hostname))
            + seq!['}'],
{
    let s0 = seq!['{'];
    let e0 = seq!['}'];
    let c = seq![','];
    let m1 = render_member(key_id(), render_string(e.id));
    let m2 = render_member(key_timestamp(), render_string(e.timestamp));
    let m3 = render_member(key_level(), render_string(e.level.name_spec()));
    let m4 = render_member(key_daemon(), render_string(e.daemon));
    let m5 = render_member(key_message(), render_string(e.message));
    let m6 = render_member(key_fields(), render_fields(e.fields));
    let m7 = render_member(key_pid(), crate::wire::render_opt_u32(e.pid));
    let m8 = render_member(key_hostname(), crate::wire::render_opt_string(e.hostname));
    let r8 = m8 + e0;
    let r7 = m7 + (c + r8);
    let r6 = m6 + (c + r7);
    let r5 = m5 + (c + r6);
    let r4 = m4 + (c + r5);
    let r3 = m3 + (c + r4);
    let r2 = m2 + (c + r3);
    let r1 = m1 + (c + r2);
    let l1 = s0 + m1;
    let l2 = l1 + c;
    let l3 = l2 + m2;
    let l4 = l3 + c;
    let l5 = l4 + m3;
    let l6 = l5 + c;
    let l7 = l6 + m4;
    let l8 = l7 + c;
    let l9 = l8 + m5;
    let l10 = l9 + c;
    let l11 = l10 + m6;
    let l12 = l11 + c;
    let l13 = l12 + m7;
    let l14 = l13 + c;
    let l15 = l14 + m8;
    let left = l15 + e0;
    lemma_assoc(l14, m8, e0);
    assert(left == l14 + r8);
    lemma_assoc(l13, c, r8);
    assert(left == l13 + (c + r8));
    lemma_assoc(l12, m7, c + r8);
    assert(left == l12 + r7);
    lemma_assoc(l11, c, r7);
    assert(left == l11 + (c + r7));
    lemma_assoc(l10, m6, c + r7);
    assert(left == l10 + r6);
    lemma_assoc(l9, c, r6);
    assert(left == l9 + (c + r6));
    lemma_assoc(l8, m5, c + r6);
    assert(left == l8 + r5);
    lemma_assoc(l7, c, r5);
    assert(left == l7 + (c + r5));
    lemma_assoc(l6, m4, c + r5);
    assert(left == l6 + r4);
    lemma_assoc(l5, c, r4);
    assert(left == l5 + (c + r4));
    lemma_assoc(l4, m3, c + r4);
    assert(left == l4 + r3);
    lemma_assoc(l3, c, r3);
    assert(left == l3 + (c + r3));
    lemma_assoc(l2, m2, c + r3);
    assert(left == l2 + r2);
    lemma_assoc(l1, c, r2);
    assert(left == l1 + (c + r2));
    lemma_assoc(s0, m1, c + r2);
    assert(left == s0 + r1);
    assert(render_entry(e) == s0 + r1);
}

// ---------------------------------------------------------------------------
// Severity names.
// ---------------------------------------------------------------------------

/// A level's wire name reads back as that level.
pub proof fn lemma_level_name_round(l: LogLevel)
    ensures
        LogLevel::of_name_spec(l.name_spec()) == Some(l),
{
    broadcast use vstd::string::group_string_axioms;

    reveal_strlit("Emergency");
    reveal_strlit("Alert");
    reveal_strlit("Critical");
    reveal_strlit("Error");
    reveal_strlit("Warning");
    reveal_strlit("Notice");
    reveal_strlit("Info");
    reveal_strlit("Debug");
    assert("Emergency"@.len() == 9);
    assert("Alert"@.len() == 5);
    assert("Critical"@.len() == 8);
    assert("Error"@.len() == 5);
    assert("Warning"@.len() == 7);
    assert("Notice"@.len() == 6);
    assert("Info"@.len() == 4);
    assert("Debug"@.len() == 5);
    assert("Alert"@[0] == 'A' && "Error"@[0] == 'E' && "Debug"@[0] == 'D');
    match l {
        LogLevel::Emergency => {
            assert(LogLevel::of_name_spec(l.name_spec()) == Some(l));
        },
        LogLevel::Alert => {
            assert(LogLevel::of_name_spec(l.name_spec()) == Some(l));
        },
        LogLevel::Critical => {
            assert(LogLevel::of_name_spec(l.name_spec()) == Some(l));
        },
        LogLevel::Error => {
            assert(LogLevel::of_name_spec(l.name_spec()) == Some(l));
        },
        LogLevel::Warning => {
            assert(LogLevel::of_name_spec(l.name_spec()) == Some(l));
        },
        LogLevel::Notice => {
            assert(LogLevel::of_name_spec(l.name_spec()) == Some(l));
        },
        LogLevel::Info => {
            assert(LogLevel::of_name_spec(l.name_spec()) == Some(l));
        },
        LogLevel::Debug => {
            assert(LogLevel::of_name_spec(l.name_spec()) == Some(l));
        },
    }
}

// ---------------------------------------------------------------------------
// One member of the entry object.
// ---------------------------------------------------------------------------

/// The eight member keys are pairwise distinct (stated as the inequalities
/// the parser's dispatch order needs).
pub proof fn lemma_keys_distinct()
    ensures
        key_timestamp() != key_id(),
        key_level() != key_id() && key_level() != key_timestamp(),
        key_daemon() != key_id() && key_daemon() != key_timestamp() && key_daemon() != key_level(),
        key_message() != key_id() && key_message() != key_timestamp() && key_message()
            != key_level() && key_message() != key_daemon(),
        key_fields() != key_id() && key_fields() != key_timestamp() && key_fields() != key_level()
            && key_fields() != key_daemon() && key_fields() != key_message(),
        key_pid() != key_id() && key_pid() != key_timestamp() && key_pid() != key_level()
            && key_pid() != key_daemon() && key_pid() != key_message() && key_pid() != key_fields(),
        key_hostname() != key_id() && key_hostname() != key_timestamp() && key_hostname()
            != key_level() && key_hostname() != key_daemon() && key_hostname() != key_message()
            && key_hostname() != key_fields() && key_hostname() != key_pid(),
{
    assert(key_daemon()[0] == 'd' && key_fields()[0] == 'f');
}

/// Parsing the id member's value.
pub proof fn lemma_mv_id(v: Seq<char>, tail: Seq<char>, acc: PartialEntry)
    requires
        acc.id is None,
    ensures
        sp_member_value(key_id(), render_string(v) + tail, acc) == Some(
            (PartialEntry { id: Some(v), ..acc }, tail),
        ),
{
    lemma_rt_string_lit(v, tail);
}

/// Parsing the timestamp member's value.
pub proof fn lemma_mv_timestamp(v: Seq<char>, tail: Seq<char>, acc: PartialEntry)
    requires
        acc.timestamp is None,
    ensures
        sp_member_value(key_timestamp(), render_string(v) + tail, acc) == Some(
            (PartialEntry { timestamp: Some(v), ..acc }, tail),
        ),
{
    lemma_keys_distinct();
    lemma_rt_string_lit(v, tail);
}

/// Parsing the level member's value.
pub proof fn lemma_mv_level(l: LogLevel, tail: Seq<char>, acc: PartialEntry)
    requires
        acc.level is None,
    ensures
        sp_member_value(key_level(), render_string(l.name_spec()) + tail, acc) == Some(
            (PartialEntry { level: Some(l), ..acc }, tail),
        ),
{
    lemma_keys_distinct();
    lemma_rt_string_lit(l.name_spec(), tail);
    lemma_level_name_round(l);
}

/// Parsing the daemon member's value.
pub proof fn lemma_mv_daemon(v: Seq<char>, tail: Seq<char>, acc: PartialEntry)
    requires
        acc.daemon is None,
    ensures
        sp_member_value(key_daemon(), render_string(v) + tail, acc) == Some(
            (PartialEntry { daemon: Some(v), ..acc }, tail),
        ),
{
    lemma_keys_distinct();
    lemma_rt_string_lit(v, tail);
}

/// Parsing the message member's value.
pub proof fn lemma_mv_message(v: Seq<char>, tail: Seq<char>, acc: PartialEntry)
    requires
        acc.message is None,
    ensures
        sp_member_value(key_message(), render_string(v) + tail, acc) == Some(
            (PartialEntry { message: Some(v), ..acc }, tail),
        ),
{
    lemma_keys_distinct();
    lemma_rt_string_lit(v, tail);
}

/// Parsing the fields member's value.
pub proof fn lemma_mv_fields(ps: Seq<(Seq<char>, Seq<char>)>, tail: Seq<char>, acc: PartialEntry)
    requires
        acc.fields is None,
        unique_keys(ps),
    ensures
        sp_member_value(key_fields(), render_fields(ps) + tail, acc) == Some(
            (PartialEntry { fields: Some(ps), ..acc }, tail),
        ),
{
    lemma_keys_distinct();
    lemma_rt_fields(ps, tail);
}

/// Parsing the pid member's value.
pub proof fn lemma_mv_pid(p: Option<u32>, tail: Seq<char>, acc: PartialEntry)
    requires
        acc.pid is None,
        tail.len() == 0 || (!is_digit(tail[0]) && tail[0] != '.' && tail[0] != 'e' && tail[0]
            != 'E'),
    ensures
        sp_member_value(key_pid(), crate::wire::render_opt_u32(p) + tail, acc) == Some(
            (PartialEntry { pid: Some(p), ..acc }, tail),
        ),
{
    lemma_keys_distinct();
    let s = crate::wire::render_opt_u32(p) + tail;
    match p {
        Some(n) => {
            lemma_dec_seq_shape(n as nat);
            assert(s[0] == dec_seq(n as nat)[0]);
            assert(is_digit(s[0]));
            assert(s[0] != 'n');
            lemma_rt_number(n as nat, tail);
            assert(sp_number(s) == Some((n as int, tail)));
        },
        None => {
            assert(s[0] == 'n');
            assert(s.len() >= 4);
            assert(s.subrange(0, 4) =~= lit_null());
            assert(sp_lit(s, lit_null()) == Some(tail_at(s, 4)));
            assert(tail_at(s, 4) =~= tail);
        },
    }
}

/// Parsing the hostname member's value.
pub proof fn lemma_mv_hostname(h: Option<Seq<char>>, tail: Seq<char>, acc: PartialEntry)
    requires
        acc.hostname is None,
    ensures
        sp_member_value(key_hostname(), crate::wire::render_opt_string(h) + tail, acc) == Some(
            (PartialEntry { hostname: Some(h), ..acc }, tail),
        ),
{
    lemma_keys_distinct();
    let s = crate::wire::render_opt_string(h) + tail;
    match h {
        Some(v) => {
            assert(s[0] == '"');
            lemma_rt_string_lit(v, tail);
        },
        None => {
            assert(s[0] == 'n');
            assert(s.len() >= 4);
            assert(s.subrange(0, 4) =~= lit_null());
            assert(sp_lit(s, lit_null()) == Some(tail_at(s, 4)));
            assert(tail_at(s, 4) =~= tail);
        },
    }
}

/// One step of the member list: a rendered member whose value parses into
/// `acc2` either continues with the next member after a comma, or closes the
/// object on a brace.
pub proof fn lemma_members_step(
    k: Seq<char>,
    vr: Seq<char>,
    acc: PartialEntry,
    acc2: PartialEntry,
    tail: Seq<char>,
)
    requires
        vr.len() > 0,
        !is_ws(vr[0]),
        sp_member_value(k, vr + tail, acc) == Some((acc2, tail)),
        tail.len() > 0,
        tail[0] == ',' || tail[0] == '}',
    ensures
        tail[0] == ',' ==> sp_members(render_member(k, vr) + tail, acc) == sp_members(
            sp_ws(tail_at(tail, 1)),
            acc2,
        ),
        tail[0] == '}' ==> sp_members(render_member(k, vr) + tail, acc) == Some(
            (acc2, tail_at(tail, 1)),
        ),
{
    let s = render_member(k, vr) + tail;
    let after_key = seq![':'] + (vr + tail);
    assert(s[0] == '"');
    assert(tail_at(s, 1) =~= escape(k) + seq!['"'] + after_key);
    lemma_rt_string(k, after_key);
    assert(sp_string(s) == Some((k, after_key)));
    lemma_ws_noop(after_key);
    assert(after_key[0] == ':');
    assert(tail_at(after_key, 1) =~= vr + tail);
    assert((vr + tail)[0] == vr[0]);
    lemma_ws_noop(vr + tail);
    lemma_ws_noop(tail);
}

// ---------------------------------------------------------------------------
// The round-trip law.
// ---------------------------------------------------------------------------

/// The back half of the member chain: from the message member on, parsing
/// the rendered members fills in the remaining four values and closes the
/// object.
#[verifier::rlimit(100)]
proof fn lemma_rt_members_back(e: EntryView, acc4: PartialEntry)
    requires
        e.wf(),
        acc4.message is None,
        acc4.fields is None,
        acc4.pid is None,
        acc4.hostname is None,
    ensures
        ({
            let m5 = render_member(key_message(), render_string(e.message));
            let m6 = render_member(key_fields(), render_fields(e.fields));
            let m7 = render_member(key_pid(), crate::wire::render_opt_u32(e.pid));
            let m8 = render_member(key_hostname(), crate::wire::render_opt_string(e.hostname));
            let u8r = m8 + seq!['}'];
            let u7 = m7 + (seq![','] + u8r);
            let u6 = m6 + (seq![','] + u7);
            let u5 = m5 + (seq![','] + u6);
            let acc5 = PartialEntry { message: Some(e.message), ..acc4 };
            let acc6 = PartialEntry { fields: Some(e.fields), ..acc5 };
            let acc7 = PartialEntry { pid: Some(e.pid), ..acc6 };
            let acc8 = PartialEntry { hostname: Some(e.hostname), ..acc7 };
            sp_members(u5, acc4) == Some((acc8, Seq::<char>::empty()))
        }),
{
    let m5 = render_member(key_message(), render_string(e.message));
    let m6 = render_member(key_fields(), render_fields(e.fields));
    let m7 = render_member(key_pid(), crate::wire::render_opt_u32(e.pid));
    let m8 = render_member(key_hostname(), crate::wire::render_opt_string(e.hostname));
    let u8r = m8 + seq!['}'];
    let u7 = m7 + (seq![','] + u8r);
    let u6 = m6 + (seq![','] + u7);
    let u5 = m5 + (seq![','] + u6);
    let acc5 = PartialEntry { message: Some(e.message), ..acc4 };
    let acc6 = PartialEntry { fields: Some(e.fields), ..acc5 };
    let acc7 = PartialEntry { pid: Some(e.pid), ..acc6 };
    let acc8 = PartialEntry { hostname: Some(e.hostname), ..acc7 };

    lemma_mv_message(e.message, seq![','] + u6, acc4);
    lemma_members_step(key_message(), render_string(e.message), acc4, acc5, seq![','] + u6);
    assert(tail_at(seq![','] + u6, 1) =~= u6);
    assert(u6[0] == '"');
    lemma_ws_noop(u6);
    assert(sp_members(u5, acc4) == sp_members(u6, acc5));

    lemma_mv_fields(e.fields, seq![','] + u7, acc5);
    assert(render_fields(e.fields).len() > 0 && render_fields(e.fields)[0] == '{');
    lemma_members_step(key_fields(), render_fields(e.fields), acc5, acc6, seq![','] + u7);
    assert(tail_at(seq![','] + u7, 1) =~= u7);
    assert(u7[0] == '"');
    lemma_ws_noop(u7);
    assert(sp_members(u6, acc5) == sp_members(u7, acc6));

    assert((seq![','] + u8r)[0] == ',');
    lemma_mv_pid(e.pid, seq![','] + u8r, acc6);
    assert(crate::wire::render_opt_u32(e.pid).len() > 0 && !is_ws(
        crate::wire::render_opt_u32(e.pid)[0],
    )) by {
        match e.pid {
            Some(n) => {
                lemma_dec_seq_shape(n as nat);
            },
            None => {},
        }
    }
    lemma_members_step(key_pid(), crate::wire::render_opt_u32(e.pid), acc6, acc7, seq![','] + u8r);
    assert(tail_at(seq![','] + u8r, 1) =~= u8r);
    assert(u8r[0] == '"');
    lemma_ws_noop(u8r);
    assert(sp_members(u7, acc6) == sp_members(u8r, acc7));

    lemma_mv_hostname(e.hostname, seq!['}'], acc7);
    assert(crate::wire::render_opt_string(e.hostname).len() > 0 && !is_ws(
        crate::wire::render_opt_string(e.hostname)[0],
    )) by {
        match e.hostname {
            Some(v) => {},
            None => {},
        }
    }
    lemma_members_step(
        key_hostname(),
        crate::wire::render_opt_string(e.hostname),
        acc7,
        acc8,
        seq!['}'],
    );
    assert(tail_at(seq!['}'], 1) =~= Seq::<char>::empty());
    assert(sp_members(u8r, acc7) == Some((acc8, Seq::<char>::empty())));
}

/// The full member chain: starting at the id member with nothing seen,
/// parsing the eight rendered members yields every value and closes the
/// object.
#[verifier::rlimit(100)]
proof fn lemma_rt_members_front(e: EntryView)
    requires
        e.wf(),
    ensures
        ({
            let m1 = render_member(key_id(), render_string(e.id));
            let m2 = render_member(key_timestamp(), render_string(e.timestamp));
            let m3 = render_member(key_level(), render_string(e.level.name_spec()));
            let m4 = render_member(key_daemon(), render_string(e.daemon));
            let m5 = render_member(key_message(), render_string(e.message));
            let m6 = render_member(key_fields(), render_fields(e.fields));
            let m7 = render_member(key_pid(), crate::wire::render_opt_u32(e.pid));
            let m8 = render_member(key_hostname(), crate::wire::render_opt_string(e.hostname));
            let u8r = m8 + seq!['}'];
            let u7 = m7 + (seq![','] + u8r);
            let u6 = m6 + (seq![','] + u7);
            let u5 = m5 + (seq![','] + u6);
            let u4 = m4 + (seq![','] + u5);
            let u3 = m3 + (seq![','] + u4);
            let u2 = m2 + (seq![','] + u3);
            let u1 = m1 + (seq![','] + u2);
            sp_members(u1, empty_partial()) == Some(
                (
                    PartialEntry {
                        id: Some(e.id),
                        timestamp: Some(e.timestamp),
                        level: Some(e.level),
                        daemon: Some(e.daemon),
                        message: Some(e.message),
                        fields: Some(e.fields),
                        pid: Some(e.pid),
                        hostname: Some(e.hostname),
                    },
                    Seq::<char>::empty(),
                ),
            )
        }),
{
    let m1 = render_member(key_id(), render_string(e.id));
    let m2 = render_member(key_timestamp(), render_string(e.timestamp));
    let m3 = render_member(key_level(), render_string(e.level.name_spec()));
    let m4 = render_member(key_daemon(), render_string(e.daemon));
    let m5 = render_member(key_message(), render_string(e.message));
    let m6 = render_member(key_fields(), render_fields(e.fields));
    let m7 = render_member(key_pid(), crate::wire::render_opt_u32(e.pid));
    let m8 = render_member(key_hostname(), crate::wire::render_opt_string(e.hostname));
    let u8r = m8 + seq!['}'];
    let u7 = m7 + (seq![','] + u8r);
    let u6 = m6 + (seq![','] + u7);
    let u5 = m5 + (seq![','] + u6);
    let u4 = m4 + (seq![','] + u5);
    let u3 = m3 + (seq![','] + u4);
    let u2 = m2 + (seq![','] + u3);
    let u1 = m1 + (seq![','] + u2);

    let acc0 = empty_partial();
    let acc1 = PartialEntry { id: Some(e.id), ..acc0 };
    let acc2 = PartialEntry { timestamp: Some(e.timestamp), ..acc1 };
    let acc3 = PartialEntry { level: Some(e.level), ..acc2 };
    let acc4 = PartialEntry { daemon: Some(e.daemon), ..acc3 };
    let acc5 = PartialEntry { message: Some(e.message), ..acc4 };
    let acc6 = PartialEntry { fields: Some(e.fields), ..acc5 };
    let acc7 = PartialEntry { pid: Some(e.pid), ..acc6 };
    let acc8 = PartialEntry { hostname: Some(e.hostname), ..acc7 };

    lemma_mv_id(e.id, seq![','] + u2, acc0);
    lemma_members_step(key_id(), render_string(e.id), acc0, acc1, seq![','] + u2);
    assert(tail_at(seq![','] + u2, 1) =~= u2);
    assert(u2[0] == '"');
    lemma_ws_noop(u2);
    assert(sp_members(u1, acc0) == sp_members(u2, acc1));

    lemma_mv_timestamp(e.timestamp, seq![','] + u3, acc1);
    lemma_members_step(key_timestamp(), render_string(e.timestamp), acc1, acc2, seq![','] + u3);
    assert(tail_at(seq![','] + u3, 1) =~= u3);
    assert(u3[0] == '"');
    lemma_ws_noop(u3);
    assert(sp_members(u2, acc1) == sp_members(u3, acc2));

    lemma_mv_level(e.level, seq![','] + u4, acc2);
    lemma_members_step(
        key_level(),
        render_string(e.level.name_spec()),
        acc2,
        acc3,
        seq![','] + u4,
    );
    assert(tail_at(seq![','] + u4, 1) =~= u4);
    assert(u4[0] == '"');
    lemma_ws_noop(u4);
    assert(sp_members(u3, acc2) == sp_members(u4, acc3));

    lemma_mv_daemon(e.daemon, seq![','] + u5, acc3);
    lemma_members_step(key_daemon(), render_string(e.daemon), acc3, acc4, seq![','] + u5);
    assert(tail_at(seq![','] + u5, 1) =~= u5);
    assert(u5[0] == '"');
    lemma_ws_noop(u5);
    assert(sp_members(u4, acc3) == sp_members(u5, acc4));

    lemma_rt_members_back(e, acc4);
    assert(sp_members(u5, acc4) == Some((acc8, Seq::<char>::empty())));
    assert(acc8 == (PartialEntry {
        id: Some(e.id),
        timestamp: Some(e.timestamp),
        level: Some(e.level),
        daemon: Some(e.daemon),
        message: Some(e.message),
        fields: Some(e.fields),
        pid: Some(e.pid),
        hostname: Some(e.hostname),
    }));
}

/// Round trip: parsing the rendered line of any well-formed entry yields
/// exactly that entry, field for field.
#[verifier::rlimit(100)]
pub proof fn lemma_entry_round_trip(e: EntryView)
    requires
        e.wf(),
    ensures
        sp_entry(render_entry(e)) == Some(e),
{
    let m1 = render_member(key_id(), render_string(e.id));
    let m2 = render_member(key_timestamp(), render_string(e.timestamp));
    let m3 = render_member(key_level(), render_string(e.level.name_spec()));
    let m4 = render_member(key_daemon(), render_string(e.daemon));
    let m5 = render_member(key_message(), render_string(e.message));
    let m6 = render_member(key_fields(), render_fields(e.fields));
    let m7 = render_member(key_pid(), crate::wire::render_opt_u32(e.pid));
    let m8 = render_member(key_hostname(), crate::wire::render_opt_string(e.hostname));
    let u8r = m8 + seq!['}'];
    let u7 = m7 + (seq![','] + u8r);
    let u6 = m6 + (seq![','] + u7);
    let u5 = m5 + (seq![','] + u6);
    let u4 = m4 + (seq![','] + u5);
    let u3 = m3 + (seq![','] + u4);
    let u2 = m2 + (seq![','] + u3);
    let u1 = m1 + (seq![','] + u2);
    let s = render_entry(e);
    assert(s =~= seq!['{'] + u1);
    assert(s[0] == '{');
    lemma_ws_noop(s);
    assert(tail_at(s, 1) =~= u1);
    assert(u1[0] == '"');
    lemma_ws_noop(u1);
    lemma_rt_members_front(e);
    assert(sp_ws(Seq::<char>::empty()).len() == 0);
    let built = sp_entry(s).unwrap();
    assert(built =~= e);
}

} // verus!
