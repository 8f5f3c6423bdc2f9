//! The wire format that carries an [`ExecutionParams`] report between the
//! wrapper's report mode and the orchestrator.
//!
//! The document is a single compact JSON object with exactly two members,
//! `"binary"` and `"environment"`, written once to standard output and read
//! whole.  The serializer defines the canonical encoding; the parser accepts
//! that encoding together with the usual JSON string escapes, and rejects
//! everything else.  Both directions are verified, and a round trip is
//! proved exact for every path and every environment.

use vstd::prelude::*;

use crate::params::ExecutionParams;

verus! {

pub const QUOTE: u8 = 0x22;

pub const BACKSLASH: u8 = 0x5c;

pub const SLASH: u8 = 0x2f;

pub const LBRACE: u8 = 0x7b;

pub const RBRACE: u8 = 0x7d;

pub const COLON: u8 = 0x3a;

pub const COMMA: u8 = 0x2c;

/// `{"binary":` — the opening of the document up to the path string.
pub open spec fn binary_prefix() -> Seq<u8> {
    seq![
        LBRACE,
        QUOTE,
        0x62u8,
        0x69u8,
        0x6eu8,
        0x61u8,
        0x72u8,
        0x79u8,
        QUOTE,
        COLON,
    ]
}

/// `,"environment":` — the separator between the two members.
pub open spec fn env_infix() -> Seq<u8> {
    seq![
        COMMA,
        QUOTE,
        0x65u8,
        0x6eu8,
        0x76u8,
        0x69u8,
        0x72u8,
        0x6fu8,
        0x6eu8,
        0x6du8,
        0x65u8,
        0x6eu8,
        0x74u8,
        QUOTE,
        COLON,
    ]
}

/// Lower-case hexadecimal digit for a value below sixteen.
pub open spec fn hex_digit(n: u8) -> u8
    recommends
        n < 16,
{
    if n < 10 {
        (0x30 + n) as u8
    } else {
        (0x61 + (n - 10)) as u8
    }
}

/// How one byte appears inside a JSON string: quotes and backslashes are
/// escaped, control bytes become `\u00XX`, everything else stands as is.
pub open spec fn esc_byte(b: u8) -> Seq<u8> {
    if b == QUOTE {
        seq![BACKSLASH, QUOTE]
    } else if b == BACKSLASH {
        seq![BACKSLASH, BACKSLASH]
    } else if b < 0x20 {
        seq![BACKSLASH, 0x75u8, 0x30u8, 0x30u8, hex_digit(b / 16), hex_digit(b % 16)]
    } else {
        seq![b]
    }
}

/// The escaped form of a whole byte string.
pub open spec fn esc(s: Seq<u8>) -> Seq<u8>
    decreases s.len(),
{
    if s.len() == 0 {
        Seq::empty()
    } else {
        esc_byte(s[0]) + esc(s.skip(1))
    }
}

/// The escaped form of a single byte is that byte's escape.
pub proof fn lemma_esc_singleton(b: u8)
    ensures
        esc(seq![b]) == esc_byte(b),
{
    assert(seq![b].len() == 1);
    assert(seq![b][0] == b);
    assert(seq![b].skip(1) =~= Seq::<u8>::empty());
    assert(esc(Seq::<u8>::empty()) =~= Seq::<u8>::empty());
    assert(esc(seq![b]) =~= esc_byte(b) + esc(seq![b].skip(1)));
    assert(esc(seq![b]) =~= esc_byte(b));
}

/// Escaping a concatenation escapes the parts.
pub proof fn lemma_esc_add(a: Seq<u8>, b: Seq<u8>)
    ensures
        esc(a + b) == esc(a) + esc(b),
    decreases a.len(),
{
    if a.len() == 0 {
        assert(a + b =~= b);
        assert(esc(a) + esc(b) =~= esc(b));
    } else {
        lemma_esc_add(a.skip(1), b);
        assert((a + b).skip(1) =~= a.skip(1) + b);
        assert(esc(a + b) =~= esc(a) + esc(b));
    }
}

/// A quoted, escaped JSON string.
pub open spec fn ser_string(s: Seq<u8>) -> Seq<u8> {
    seq![QUOTE] + esc(s) + seq![QUOTE]
}

/// One `"name":"value"` member of the environment object.
pub open spec fn ser_entry(k: Seq<u8>, v: Seq<u8>) -> Seq<u8> {
    ser_string(k) + seq![COLON] + ser_string(v)
}

/// The environment object after its first entry: either the closing brace,
/// or a comma, the next entry, and the rest.
pub open spec fn ser_tail(env: Seq<(Seq<u8>, Seq<u8>)>) -> Seq<u8>
    decreases env.len(),
{
    if env.len() == 0 {
        seq![RBRACE]
    } else {
        seq![COMMA] + ser_entry(env[0].0, env[0].1) + ser_tail(env.skip(1))
    }
}

/// The whole environment object.
pub open spec fn ser_env(env: Seq<(Seq<u8>, Seq<u8>)>) -> Seq<u8> {
    if env.len() == 0 {
        seq![LBRACE, RBRACE]
    } else {
        seq![LBRACE] + ser_entry(env[0].0, env[0].1) + ser_tail(env.skip(1))
    }
}

/// The whole report document.
pub open spec fn ser_params(binary: Seq<u8>, env: Seq<(Seq<u8>, Seq<u8>)>) -> Seq<u8> {
    binary_prefix() + ser_string(binary) + env_infix() + ser_env(env) + seq![RBRACE]
}

/// Append the escaped form of one byte.
fn push_escaped_byte(out: &mut Vec<u8>, b: u8)
    ensures
        final(out)@ == old(out)@ + esc_byte(b),
{
    if b == QUOTE {
        out.push(BACKSLASH);
        out.push(QUOTE);
    } else if b == BACKSLASH {
        out.push(BACKSLASH);
        out.push(BACKSLASH);
    } else if b < 0x20 {
        out.push(BACKSLASH);
        out.push(0x75);
        out.push(0x30);
        out.push(0x30);
        let hi = b / 16;
        let lo = b % 16;
        out.push(if hi < 10 { 0x30 + hi } else { 0x61 + (hi - 10) });
        out.push(if lo < 10 { 0x30 + lo } else { 0x61 + (lo - 10) });
    } else {
        out.push(b);
    }
    assert(final(out)@ =~= old(out)@ + esc_byte(b));
}

/// Append the escaped form of a whole byte string.
fn push_escaped(out: &mut Vec<u8>, s: &Vec<u8>)
    ensures
        final(out)@ == old(out)@ + esc(s@),
{
    let mut i: usize = 0;
    proof {
        assert(s@.take(0) =~= Seq::<u8>::empty());
    }
    while i < s.len()
        invariant
            i <= s@.len(),
            out@ == old(out)@ + esc(s@.take(i as int)),
        decreases s@.len() - i,
    {
        proof {
            assert(s@.take(i as int + 1) =~= s@.take(i as int) + seq![s@[i as int]]);
            lemma_esc_add(s@.take(i as int), seq![s@[i as int]]);
            lemma_esc_singleton(s@[i as int]);
        }
        push_escaped_byte(out, s[i]);
        i = i + 1;
    }
    proof {
        assert(s@.take(s@.len() as int) =~= s@);
    }
}

/// Append a quoted, escaped JSON string.
fn push_string(out: &mut Vec<u8>, s: &Vec<u8>)
    ensures
        final(out)@ == old(out)@ + ser_string(s@),
{
    out.push(QUOTE);
    push_escaped(out, s);
    out.push(QUOTE);
    assert(final(out)@ =~= old(out)@ + ser_string(s@));
}

/// Append one environment member.
fn push_entry(out: &mut Vec<u8>, k: &Vec<u8>, v: &Vec<u8>)
    ensures
        final(out)@ == old(out)@ + ser_entry(k@, v@),
{
    push_string(out, k);
    out.push(COLON);
    push_string(out, v);
    assert(final(out)@ =~= old(out)@ + ser_entry(k@, v@));
}

/// Append the environment object from its `i`-th entry on, closing it.
fn push_tail(out: &mut Vec<u8>, env: &Vec<(Vec<u8>, Vec<u8>)>, i: usize)
    requires
        i <= env@.len(),
    ensures
        final(out)@ == old(out)@ + ser_tail(crate::params::env_pairs_view(env@).skip(i as int)),
    decreases env@.len() - i,
{
    let ghost view = crate::params::env_pairs_view(env@);
    if i == env.len() {
        out.push(RBRACE);
        assert(final(out)@ =~= old(out)@ + ser_tail(view.skip(i as int)));
    } else {
        out.push(COMMA);
        push_entry(out, &env[i].0, &env[i].1);
        push_tail(out, env, i + 1);
        proof {
            assert(view.skip(i as int)[0] == (env@[i as int].0@, env@[i as int].1@));
            assert(view.skip(i as int).skip(1) =~= view.skip(i as int + 1));
            assert(final(out)@ =~= old(out)@ + ser_tail(view.skip(i as int)));
        }
    }
}

/// Serialize a report to its canonical wire form.
pub fn serialize_execution_params(p: &ExecutionParams) -> (out: Vec<u8>)
    ensures
        out@ == ser_params(p.binary@, p.env_view()),
{
    let ghost view = p.env_view();
    let mut out: Vec<u8> = Vec::new();
    out.push(LBRACE);
    out.push(QUOTE);
    out.push(0x62);
    out.push(0x69);
    out.push(0x6e);
    out.push(0x61);
    out.push(0x72);
    out.push(0x79);
    out.push(QUOTE);
    out.push(COLON);
    assert(out@ =~= binary_prefix());
    push_string(&mut out, &p.binary);
    out.push(COMMA);
    out.push(QUOTE);
    out.push(0x65);
    out.push(0x6e);
    out.push(0x76);
    out.push(0x69);
    out.push(0x72);
    out.push(0x6f);
    out.push(0x6e);
    out.push(0x6d);
    out.push(0x65);
    out.push(0x6e);
    out.push(0x74);
    out.push(QUOTE);
    out.push(COLON);
    assert(out@ =~= binary_prefix() + ser_string(p.binary@) + env_infix());
    out.push(LBRACE);
    if p.environment.len() == 0 {
        out.push(RBRACE);
        assert(view.len() == 0);
        assert(out@ =~= binary_prefix() + ser_string(p.binary@) + env_infix() + ser_env(view));
    } else {
        push_entry(&mut out, &p.environment[0].0, &p.environment[0].1);
        push_tail(&mut out, &p.environment, 1);
        proof {
            assert(view[0] == (p.environment@[0].0@, p.environment@[0].1@));
            assert(view.skip(1) =~= crate::params::env_pairs_view(p.environment@).skip(1));
            assert(out@ =~= binary_prefix() + ser_string(p.binary@) + env_infix() + ser_env(view));
        }
    }
    out.push(RBRACE);
    assert(out@ =~= ser_params(p.binary@, view));
    out
}

} // verus!

verus! {

/// Value of one hexadecimal digit, either case.
pub open spec fn hex_val(c: u8) -> Option<u8> {
    if 0x30 <= c && c <= 0x39 {
        Some((c - 0x30) as u8)
    } else if 0x61 <= c && c <= 0x66 {
        Some((c - 0x61 + 10) as u8)
    } else if 0x41 <= c && c <= 0x46 {
        Some((c - 0x41 + 10) as u8)
    } else {
        None
    }
}

/// The control byte named by a one-letter JSON escape, if any.
pub open spec fn shortcut_unescape(e: u8) -> Option<u8> {
    if e == 0x62 {
        Some(0x08u8)
    } else if e == 0x66 {
        Some(0x0cu8)
    } else if e == 0x6e {
        Some(0x0au8)
    } else if e == 0x72 {
        Some(0x0du8)
    } else if e == 0x74 {
        Some(0x09u8)
    } else {
        None
    }
}

/// Parse the inside of a JSON string up to and including its closing quote.
/// Returns the unescaped content and the number of bytes consumed.
pub open spec fn parse_str_body(s: Seq<u8>) -> Option<(Seq<u8>, int)>
    decreases s.len(),
{
    if s.len() == 0 {
        None
    } else if s[0] == QUOTE {
        Some((Seq::empty(), 1))
    } else if s[0] == BACKSLASH {
        if s.len() < 2 {
            None
        } else {
            let e = s[1];
            if e == QUOTE || e == BACKSLASH || e == SLASH {
                match parse_str_body(s.skip(2)) {
                    Some(t) => Some((seq![e] + t.0, 2 + t.1)),
                    None => None,
                }
            } else if shortcut_unescape(e) is Some {
                match parse_str_body(s.skip(2)) {
                    Some(t) => Some((seq![shortcut_unescape(e)->Some_0] + t.0, 2 + t.1)),
                    None => None,
                }
            } else if e == 0x75 {
                if s.len() < 6 {
                    None
                } else if s[2] == 0x30 && s[3] == 0x30 && hex_val(s[4]) is Some && hex_val(s[5])
                    is Some {
                    match parse_str_body(s.skip(6)) {
                        Some(t) => Some(
                            (seq![(hex_val(s[4])->Some_0 * 16 + hex_val(s[5])->Some_0) as u8] + t.0, 6 + t.1),
                        ),
                        None => None,
                    }
                } else {
                    None
                }
            } else {
                None
            }
        }
    } else if s[0] < 0x20 {
        None
    } else {
        match parse_str_body(s.skip(1)) {
            Some(t) => Some((seq![s[0]] + t.0, 1 + t.1)),
            None => None,
        }
    }
}

/// Parse a quoted JSON string from the front of `s`.
pub open spec fn parse_string(s: Seq<u8>) -> Option<(Seq<u8>, int)> {
    if s.len() > 0 && s[0] == QUOTE {
        match parse_str_body(s.skip(1)) {
            Some(t) => Some((t.0, 1 + t.1)),
            None => None,
        }
    } else {
        None
    }
}

/// Parse one `"name":"value"` member from the front of `s`.
pub open spec fn parse_entry(s: Seq<u8>) -> Option<((Seq<u8>, Seq<u8>), int)> {
    match parse_string(s) {
        Some(k) => {
            if 0 <= k.1 && k.1 < s.len() && s[k.1] == COLON {
                match parse_string(s.skip(k.1 + 1)) {
                    Some(v) => Some(((k.0, v.0), k.1 + 1 + v.1)),
                    None => None,
                }
            } else {
                None
            }
        },
        None => None,
    }
}

/// Parse the remainder of the environment object after one member:
/// either the closing brace, or a comma and the next member.
pub open spec fn parse_entries_rest(s: Seq<u8>) -> Option<(Seq<(Seq<u8>, Seq<u8>)>, int)>
    decreases s.len(),
{
    if s.len() == 0 {
        None
    } else if s[0] == RBRACE {
        Some((Seq::empty(), 1))
    } else if s[0] == COMMA {
        match parse_entry(s.skip(1)) {
            Some(kv) => {
                if 1 <= kv.1 && 1 + kv.1 <= s.len() {
                    match parse_entries_rest(s.skip(1 + kv.1)) {
                        Some(rest) => Some((seq![kv.0] + rest.0, 1 + kv.1 + rest.1)),
                        None => None,
                    }
                } else {
                    None
                }
            },
            None => None,
        }
    } else {
        None
    }
}

/// Parse the whole environment object from the front of `s`.
pub open spec fn parse_env(s: Seq<u8>) -> Option<(Seq<(Seq<u8>, Seq<u8>)>, int)> {
    if s.len() < 2 || s[0] != LBRACE {
        None
    } else if s[1] == RBRACE {
        Some((Seq::empty(), 2))
    } else {
        match parse_entry(s.skip(1)) {
            Some(kv) => {
                if 1 <= kv.1 && 1 + kv.1 <= s.len() {
                    match parse_entries_rest(s.skip(1 + kv.1)) {
                        Some(rest) => Some((seq![kv.0] + rest.0, 1 + kv.1 + rest.1)),
                        None => None,
                    }
                } else {
                    None
                }
            },
            None => None,
        }
    }
}

/// Parse a whole report document; the document must end with the object.
pub open spec fn parse_params(s: Seq<u8>) -> Option<(Seq<u8>, Seq<(Seq<u8>, Seq<u8>)>)> {
    if s.len() < 10 || s.take(10) != binary_prefix() {
        None
    } else {
        match parse_string(s.skip(10)) {
            Some(b) => {
                let p1 = 10 + b.1;
                if 0 <= b.1 && p1 + 15 <= s.len() && s.subrange(p1, p1 + 15) == env_infix() {
                    match parse_env(s.skip(p1 + 15)) {
                        Some(env) => {
                            let p2 = p1 + 15 + env.1;
                            if 0 <= env.1 && p2 + 1 == s.len() && s[p2] == RBRACE {
                                Some((b.0, env.0))
                            } else {
                                None
                            }
                        },
                        None => None,
                    }
                } else {
                    None
                }
            },
            None => None,
        }
    }
}

} // verus!

verus! {

use crate::params::env_pairs_view;

/// Decide the value of one hexadecimal digit.
fn hex_val_at(c: u8) -> (r: Option<u8>)
    ensures
        r == hex_val(c),
{
    if 0x30 <= c && c <= 0x39 {
        Some(c - 0x30)
    } else if 0x61 <= c && c <= 0x66 {
        Some(c - 0x61 + 10)
    } else if 0x41 <= c && c <= 0x46 {
        Some(c - 0x41 + 10)
    } else {
        None
    }
}

/// Parse the inside of a JSON string starting at `i`, up to and including
/// the closing quote.  Returns the content and the index just past it.
fn parse_str_body_at(s: &Vec<u8>, i: usize) -> (r: Option<(Vec<u8>, usize)>)
    requires
        i <= s@.len(),
    ensures
        match r {
            Some(p) => {
                &&& i < p.1 <= s@.len()
                &&& parse_str_body(s@.skip(i as int)) == Some((p.0@, p.1 as int - i as int))
            },
            None => parse_str_body(s@.skip(i as int)) is None,
        },
    decreases s@.len() - i,
{
    let ghost t = s@.skip(i as int);
    if i == s.len() {
        return None;
    }
    let b = s[i];
    assert(t[0] == b);
    if b == QUOTE {
        let v: Vec<u8> = Vec::new();
        assert(v@ =~= Seq::<u8>::empty());
        Some((v, i + 1))
    } else if b == BACKSLASH {
        if i + 1 == s.len() {
            assert(t.len() < 2);
            return None;
        }
        let e = s[i + 1];
        assert(t[1] == e);
        if e == QUOTE || e == BACKSLASH || e == SLASH {
            assert(t.skip(2) =~= s@.skip(i as int + 2));
            match parse_str_body_at(s, i + 2) {
                Some((mut v, j)) => {
                    let ghost v0 = v@;
                    v.insert(0, e);
                    assert(v@ =~= seq![e] + v0);
                    Some((v, j))
                },
                None => None,
            }
        } else if e == 0x62 || e == 0x66 || e == 0x6e || e == 0x72 || e == 0x74 {
            let c: u8 = if e == 0x62 {
                0x08
            } else if e == 0x66 {
                0x0c
            } else if e == 0x6e {
                0x0a
            } else if e == 0x72 {
                0x0d
            } else {
                0x09
            };
            assert(shortcut_unescape(e) == Some(c));
            assert(t.skip(2) =~= s@.skip(i as int + 2));
            match parse_str_body_at(s, i + 2) {
                Some((mut v, j)) => {
                    let ghost v0 = v@;
                    v.insert(0, c);
                    assert(v@ =~= seq![c] + v0);
                    Some((v, j))
                },
                None => None,
            }
        } else if e == 0x75 {
            if s.len() - i < 6 {
                assert(t.len() < 6);
                return None;
            }
            assert(t[2] == s@[i as int + 2] && t[3] == s@[i as int + 3] && t[4] == s@[i as int
                + 4] && t[5] == s@[i as int + 5]);
            if s[i + 2] != 0x30 || s[i + 3] != 0x30 {
                return None;
            }
            let h1 = hex_val_at(s[i + 4]);
            let h2 = hex_val_at(s[i + 5]);
            match (h1, h2) {
                (Some(d1), Some(d2)) => {
                    assert(d1 < 16 && d2 < 16);
                    let c: u8 = d1 * 16 + d2;
                    assert(t.skip(6) =~= s@.skip(i as int + 6));
                    match parse_str_body_at(s, i + 6) {
                        Some((mut v, j)) => {
                            let ghost v0 = v@;
                            v.insert(0, c);
                            assert(v@ =~= seq![c] + v0);
                            Some((v, j))
                        },
                        None => None,
                    }
                },
                _ => None,
            }
        } else {
            None
        }
    } else if b < 0x20 {
        None
    } else {
        assert(t.skip(1) =~= s@.skip(i as int + 1));
        match parse_str_body_at(s, i + 1) {
            Some((mut v, j)) => {
                let ghost v0 = v@;
                v.insert(0, b);
                assert(v@ =~= seq![b] + v0);
                Some((v, j))
            },
            None => None,
        }
    }
}

} // verus!

verus! {

/// Parse a quoted JSON string starting at `i`.
fn parse_string_at(s: &Vec<u8>, i: usize) -> (r: Option<(Vec<u8>, usize)>)
    requires
        i <= s@.len(),
    ensures
        match r {
            Some(p) => {
                &&& i < p.1 <= s@.len()
                &&& parse_string(s@.skip(i as int)) == Some((p.0@, p.1 as int - i as int))
            },
            None => parse_string(s@.skip(i as int)) is None,
        },
{
    let ghost t = s@.skip(i as int);
    if i == s.len() {
        return None;
    }
    assert(t[0] == s@[i as int]);
    if s[i] != QUOTE {
        return None;
    }
    assert(t.skip(1) =~= s@.skip(i as int + 1));
    match parse_str_body_at(s, i + 1) {
        Some((v, j)) => Some((v, j)),
        None => None,
    }
}

/// Parse one `"name":"value"` member starting at `i`.
fn parse_entry_at(s: &Vec<u8>, i: usize) -> (r: Option<((Vec<u8>, Vec<u8>), usize)>)
    requires
        i <= s@.len(),
    ensures
        match r {
            Some(p) => {
                &&& i < p.1 <= s@.len()
                &&& parse_entry(s@.skip(i as int)) == Some((((p.0).0@, (p.0).1@), p.1 as int
                    - i as int))
            },
            None => parse_entry(s@.skip(i as int)) is None,
        },
{
    let ghost t = s@.skip(i as int);
    match parse_string_at(s, i) {
        Some((k, j1)) => {
            assert(j1 < s@.len() ==> t[j1 as int - i as int] == s@[j1 as int]);
            if j1 == s.len() || s[j1] != COLON {
                return None;
            }
            assert(t.skip(j1 as int - i as int + 1) =~= s@.skip(j1 as int + 1));
            match parse_string_at(s, j1 + 1) {
                Some((v, j2)) => Some(((k, v), j2)),
                None => None,
            }
        },
        None => None,
    }
}

/// Parse the remainder of the environment object starting at `i`: a closing
/// brace, or a comma and another member, repeatedly.
fn parse_entries_rest_at(s: &Vec<u8>, i: usize) -> (r: Option<(Vec<(Vec<u8>, Vec<u8>)>, usize)>)
    requires
        i <= s@.len(),
    ensures
        match r {
            Some(p) => {
                &&& i < p.1 <= s@.len()
                &&& parse_entries_rest(s@.skip(i as int)) == Some((env_pairs_view(p.0@), p.1 as int
                    - i as int))
            },
            None => parse_entries_rest(s@.skip(i as int)) is None,
        },
    decreases s@.len() - i,
{
    let ghost t = s@.skip(i as int);
    if i == s.len() {
        return None;
    }
    let b = s[i];
    assert(t[0] == b);
    if b == RBRACE {
        let v: Vec<(Vec<u8>, Vec<u8>)> = Vec::new();
        assert(env_pairs_view(v@) =~= Seq::<(Seq<u8>, Seq<u8>)>::empty());
        Some((v, i + 1))
    } else if b == COMMA {
        assert(t.skip(1) =~= s@.skip(i as int + 1));
        match parse_entry_at(s, i + 1) {
            Some((kv, j)) => {
                assert(t.skip(j as int - i as int) =~= s@.skip(j as int));
                match parse_entries_rest_at(s, j) {
                    Some((mut env, j2)) => {
                        let ghost e0 = env@;
                        let ghost kvv = (kv.0@, kv.1@);
                        env.insert(0, kv);
                        assert(env_pairs_view(env@) =~= seq![kvv] + env_pairs_view(e0)) by {
                            assert(env@ == e0.insert(0, kv));
                            assert(env_pairs_view(env@).len() == 1 + env_pairs_view(e0).len());
                        }
                        Some((env, j2))
                    },
                    None => None,
                }
            },
            None => None,
        }
    } else {
        None
    }
}

/// Parse the whole environment object starting at `i`.
fn parse_env_at(s: &Vec<u8>, i: usize) -> (r: Option<(Vec<(Vec<u8>, Vec<u8>)>, usize)>)
    requires
        i <= s@.len(),
    ensures
        match r {
            Some(p) => {
                &&& i < p.1 <= s@.len()
                &&& parse_env(s@.skip(i as int)) == Some((env_pairs_view(p.0@), p.1 as int
                    - i as int))
            },
            None => parse_env(s@.skip(i as int)) is None,
        },
{
    let ghost t = s@.skip(i as int);
    if s.len() - i < 2 {
        assert(t.len() < 2);
        return None;
    }
    assert(t[0] == s@[i as int] && t[1] == s@[i as int + 1]);
    if s[i] != LBRACE {
        return None;
    }
    if s[i + 1] == RBRACE {
        let v: Vec<(Vec<u8>, Vec<u8>)> = Vec::new();
        assert(env_pairs_view(v@) =~= Seq::<(Seq<u8>, Seq<u8>)>::empty());
        return Some((v, i + 2));
    }
    assert(t.skip(1) =~= s@.skip(i as int + 1));
    match parse_entry_at(s, i + 1) {
        Some((kv, j)) => {
            assert(t.skip(j as int - i as int) =~= s@.skip(j as int));
            match parse_entries_rest_at(s, j) {
                Some((mut env, j2)) => {
                    let ghost e0 = env@;
                    let ghost kvv = (kv.0@, kv.1@);
                    env.insert(0, kv);
                    assert(env_pairs_view(env@) =~= seq![kvv] + env_pairs_view(e0)) by {
                        assert(env@ == e0.insert(0, kv));
                        assert(env_pairs_view(env@).len() == 1 + env_pairs_view(e0).len());
                    }
                    Some((env, j2))
                },
                None => None,
            }
        },
        None => None,
    }
}

/// Compare the bytes of `s` from `i` on with `lit`.
fn region_eq(s: &Vec<u8>, i: usize, lit: &Vec<u8>) -> (r: bool)
    requires
        i + lit@.len() <= s@.len(),
    ensures
        r == (s@.subrange(i as int, i as int + lit@.len() as int) == lit@),
{
    let ghost region = s@.subrange(i as int, i as int + lit@.len() as int);
    let n = s.len();
    let mut k: usize = 0;
    while k < lit.len()
        invariant
            k <= lit@.len(),
            i + lit@.len() <= s@.len(),
            n == s@.len(),
            region == s@.subrange(i as int, i as int + lit@.len() as int),
            forall|m: int| 0 <= m < k ==> region[m] == lit@[m],
        decreases lit@.len() - k,
    {
        if s[i + k] != lit[k] {
            assert(region[k as int] != lit@[k as int]);
            return false;
        }
        k = k + 1;
    }
    proof {
        assert(region =~= lit@);
    }
    true
}

/// The opening literal of the document, as bytes.
fn binary_prefix_vec() -> (r: Vec<u8>)
    ensures
        r@ == binary_prefix(),
{
    let v: Vec<u8> = vec![LBRACE, QUOTE, 0x62, 0x69, 0x6e, 0x61, 0x72, 0x79, QUOTE, COLON];
    assert(v@ =~= binary_prefix());
    v
}

/// The member separator of the document, as bytes.
fn env_infix_vec() -> (r: Vec<u8>)
    ensures
        r@ == env_infix(),
{
    let v: Vec<u8> = vec![
        COMMA,
        QUOTE,
        0x65,
        0x6e,
        0x76,
        0x69,
        0x72,
        0x6f,
        0x6e,
        0x6d,
        0x65,
        0x6e,
        0x74,
        QUOTE,
        COLON,
    ];
    assert(v@ =~= env_infix());
    v
}

/// Parse a whole report document, rejecting anything malformed or trailing.
pub fn parse_execution_params(s: &Vec<u8>) -> (r: Option<ExecutionParams>)
    ensures
        match r {
            Some(p) => parse_params(s@) == Some((p.binary@, p.env_view())),
            None => parse_params(s@) is None,
        },
{
    if s.len() < 10 {
        return None;
    }
    let pref = binary_prefix_vec();
    if !region_eq(s, 0, &pref) {
        assert(s@.take(10) =~= s@.subrange(0, 10));
        return None;
    }
    assert(s@.take(10) =~= s@.subrange(0, 10));
    match parse_string_at(s, 10) {
        Some((binary, j1)) => {
            if s.len() - j1 < 15 {
                return None;
            }
            let infix = env_infix_vec();
            if !region_eq(s, j1, &infix) {
                return None;
            }
            match parse_env_at(s, j1 + 15) {
                Some((env, j2)) => {
                    if j2 < s.len() && s.len() == j2 + 1 && s[j2] == RBRACE {
                        let p = ExecutionParams { binary, environment: env };
                        assert(p.env_view() == env_pairs_view(p.environment@));
                        Some(p)
                    } else {
                        None
                    }
                },
                None => None,
            }
        },
        None => None,
    }
}

} // verus!

verus! {

/// A hexadecimal digit decodes to the value it was made from.
proof fn lemma_hex_val_digit(n: u8)
    requires
        n < 16,
    ensures
        hex_val(hex_digit(n)) == Some(n),
{
}

/// Parsing the escaped form of `x`, a closing quote, and anything after it
/// recovers `x` exactly and stops at the quote.
pub proof fn lemma_parse_str_body_esc(x: Seq<u8>, rest: Seq<u8>)
    ensures
        parse_str_body(esc(x) + seq![QUOTE] + rest) == Some((x, esc(x).len() as int + 1)),
    decreases x.len(),
{
    let s = esc(x) + seq![QUOTE] + rest;
    if x.len() == 0 {
        assert(esc(x) =~= Seq::<u8>::empty());
        assert(s =~= seq![QUOTE] + rest);
        assert(s[0] == QUOTE);
        assert(x =~= Seq::<u8>::empty());
    } else {
        let b = x[0];
        let x1 = x.skip(1);
        lemma_parse_str_body_esc(x1, rest);
        let s1 = esc(x1) + seq![QUOTE] + rest;
        let n1 = esc(x1).len() as int;
        assert(esc(x) == esc_byte(b) + esc(x1));
        if b == QUOTE || b == BACKSLASH {
            assert(esc_byte(b).len() == 2);
            assert(s.len() >= 2);
            assert(s[0] == BACKSLASH);
            assert(s[1] == b);
            assert(s.skip(2) =~= s1);
            assert(parse_str_body(s) == Some((seq![b] + x1, 2 + (n1 + 1))));
            assert(seq![b] + x1 =~= x);
            assert(esc(x).len() == 2 + n1);
        } else if b < 0x20 {
            assert(esc_byte(b).len() == 6);
            assert(s.len() >= 6);
            assert(s[0] == BACKSLASH);
            assert(s[1] == 0x75);
            assert(s[2] == 0x30);
            assert(s[3] == 0x30);
            assert(s[4] == hex_digit(b / 16));
            assert(s[5] == hex_digit(b % 16));
            assert(shortcut_unescape(0x75) is None);
            lemma_hex_val_digit(b / 16);
            lemma_hex_val_digit(b % 16);
            assert((hex_val(s[4])->Some_0 * 16 + hex_val(s[5])->Some_0) as u8 == b);
            assert(s.skip(6) =~= s1);
            assert(parse_str_body(s) == Some((seq![b] + x1, 6 + (n1 + 1))));
            assert(seq![b] + x1 =~= x);
            assert(esc(x).len() == 6 + n1);
        } else {
            assert(esc_byte(b).len() == 1);
            assert(s[0] == b);
            assert(b != QUOTE && b != BACKSLASH && !(b < 0x20));
            assert(s.skip(1) =~= s1);
            assert(parse_str_body(s) == Some((seq![b] + x1, 1 + (n1 + 1))));
            assert(seq![b] + x1 =~= x);
            assert(esc(x).len() == 1 + n1);
        }
    }
}

/// Parsing a serialized string and anything after it recovers the string.
pub proof fn lemma_parse_string_ser(x: Seq<u8>, rest: Seq<u8>)
    ensures
        parse_string(ser_string(x) + rest) == Some((x, ser_string(x).len() as int)),
        ser_string(x).len() >= 2,
{
    let s = ser_string(x) + rest;
    assert(s[0] == QUOTE);
    assert(s.skip(1) =~= esc(x) + seq![QUOTE] + rest);
    lemma_parse_str_body_esc(x, rest);
}

/// Parsing a serialized member and anything after it recovers the pair.
pub proof fn lemma_parse_entry_ser(k: Seq<u8>, v: Seq<u8>, rest: Seq<u8>)
    ensures
        parse_entry(ser_entry(k, v) + rest) == Some(((k, v), ser_entry(k, v).len() as int)),
        ser_entry(k, v).len() >= 5,
{
    let s = ser_entry(k, v) + rest;
    let n1 = ser_string(k).len() as int;
    assert(s =~= ser_string(k) + (seq![COLON] + ser_string(v) + rest));
    lemma_parse_string_ser(k, seq![COLON] + ser_string(v) + rest);
    assert(s[n1] == COLON);
    assert(s.skip(n1 + 1) =~= ser_string(v) + rest);
    lemma_parse_string_ser(v, rest);
}

/// Parsing the tail of a serialized environment object recovers the
/// remaining entries in order.
#[verifier::rlimit(80)]
pub proof fn lemma_parse_entries_rest_ser(env: Seq<(Seq<u8>, Seq<u8>)>, rest: Seq<u8>)
    ensures
        parse_entries_rest(ser_tail(env) + rest) == Some((env, ser_tail(env).len() as int)),
        ser_tail(env).len() >= 1,
    decreases env.len(),
{
    let s = ser_tail(env) + rest;
    if env.len() == 0 {
        assert(s[0] == RBRACE);
        assert(env =~= Seq::<(Seq<u8>, Seq<u8>)>::empty());
    } else {
        let kv = env[0];
        let e = ser_entry(kv.0, kv.1);
        assert(s[0] == COMMA);
        assert(s[0] != RBRACE);
        assert(s.skip(1) =~= e + (ser_tail(env.skip(1)) + rest));
        lemma_parse_entry_ser(kv.0, kv.1, ser_tail(env.skip(1)) + rest);
        let n = e.len() as int;
        assert((kv.0, kv.1) == kv);
        assert(1 + n <= s.len());
        assert(s.skip(1 + n) =~= ser_tail(env.skip(1)) + rest);
        lemma_parse_entries_rest_ser(env.skip(1), rest);
        assert(seq![kv] + env.skip(1) =~= env);
        assert(ser_tail(env).len() == 1 + n + ser_tail(env.skip(1)).len());
    }
}

/// Parsing a serialized environment object recovers all its entries.
#[verifier::rlimit(80)]
pub proof fn lemma_parse_env_ser(env: Seq<(Seq<u8>, Seq<u8>)>, rest: Seq<u8>)
    ensures
        parse_env(ser_env(env) + rest) == Some((env, ser_env(env).len() as int)),
        ser_env(env).len() >= 2,
{
    let s = ser_env(env) + rest;
    if env.len() == 0 {
        assert(s[0] == LBRACE);
        assert(s[1] == RBRACE);
        assert(env =~= Seq::<(Seq<u8>, Seq<u8>)>::empty());
    } else {
        let kv = env[0];
        let e = ser_entry(kv.0, kv.1);
        assert(s[0] == LBRACE);
        assert(s[1] == QUOTE);
        assert(s[1] != RBRACE);
        assert(s.skip(1) =~= e + (ser_tail(env.skip(1)) + rest));
        lemma_parse_entry_ser(kv.0, kv.1, ser_tail(env.skip(1)) + rest);
        let n = e.len() as int;
        assert((kv.0, kv.1) == kv);
        assert(1 + n <= s.len());
        assert(s.skip(1 + n) =~= ser_tail(env.skip(1)) + rest);
        lemma_parse_entries_rest_ser(env.skip(1), rest);
        assert(seq![kv] + env.skip(1) =~= env);
        assert(ser_env(env).len() == 1 + n + ser_tail(env.skip(1)).len());
    }
}

/// Round trip: parsing a serialized report yields the very path and the
/// very environment, entry for entry, for every path and every environment.
#[verifier::rlimit(80)]
pub proof fn lemma_round_trip(binary: Seq<u8>, env: Seq<(Seq<u8>, Seq<u8>)>)
    ensures
        parse_params(ser_params(binary, env)) == Some((binary, env)),
{
    let s = ser_params(binary, env);
    let bs = ser_string(binary);
    let es = ser_env(env);
    lemma_parse_string_ser(binary, env_infix() + es + seq![RBRACE]);
    lemma_parse_env_ser(env, seq![RBRACE]);
    let n = bs.len() as int;
    let m = es.len() as int;
    assert(s.len() == 10 + n + 15 + m + 1);
    assert(s.take(10) =~= binary_prefix());
    assert(s.skip(10) =~= bs + (env_infix() + es + seq![RBRACE]));
    let p1 = 10 + n;
    assert(s.subrange(p1, p1 + 15) =~= env_infix());
    assert(s.skip(p1 + 15) =~= es + seq![RBRACE]);
    let p2 = p1 + 15 + m;
    assert(s[p2] == RBRACE);
}

} // verus!
