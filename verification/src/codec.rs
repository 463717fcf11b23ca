//! The wire format: one status event as a JSON object with the two fields
//! `user_id` and `status`, in that order.  Double quotes and backslashes
//! in the strings are escaped with a backslash, control characters as
//! `\u00` followed by two lowercase hex digits; parsing undoes exactly
//! that, so an encoded event parses back to the same two strings.

use vstd::prelude::*;
use vstd::string::StrSliceExecFns;
use vstd::string::StringExecFns;

use crate::event::{EventView, InputError, StatusEvent};

verus! {

/// What opens the JSON object, up to and including the quote that starts
/// the `user_id` string.
pub open spec fn wire_user_prefix() -> Seq<char> {
    "{\"user_id\":\""@
}

/// What separates the two strings, from after the quote that closes
/// `user_id` up to and including the quote that starts `status`.
pub open spec fn wire_status_prefix() -> Seq<char> {
    ",\"status\":\""@
}

/// Lowercase hex digit of a value below sixteen.
pub open spec fn hex_digit(n: int) -> char {
    if n == 0 {
        '0'
    } else if n == 1 {
        '1'
    } else if n == 2 {
        '2'
    } else if n == 3 {
        '3'
    } else if n == 4 {
        '4'
    } else if n == 5 {
        '5'
    } else if n == 6 {
        '6'
    } else if n == 7 {
        '7'
    } else if n == 8 {
        '8'
    } else if n == 9 {
        '9'
    } else if n == 10 {
        'a'
    } else if n == 11 {
        'b'
    } else if n == 12 {
        'c'
    } else if n == 13 {
        'd'
    } else if n == 14 {
        'e'
    } else {
        'f'
    }
}

/// A lowercase hex digit.
pub open spec fn is_hex(c: char) -> bool {
    (48 <= c as int && c as int <= 57) || (97 <= c as int && c as int <= 102)
}

/// The value of a lowercase hex digit.
pub open spec fn hex_val(c: char) -> int {
    if 48 <= c as int && c as int <= 57 {
        c as int - 48
    } else {
        c as int - 87
    }
}

/// How one character appears inside a JSON string.
pub open spec fn escape_char(c: char) -> Seq<char> {
    if c == '"' {
        seq!['\\', '"']
    } else if c == '\\' {
        seq!['\\', '\\']
    } else if (c as int) < 32 {
        seq!['\\', 'u', '0', '0', hex_digit(c as int / 16), hex_digit(c as int % 16)]
    } else {
        seq![c]
    }
}

/// How a whole string appears inside a JSON string.
pub open spec fn escape(s: Seq<char>) -> Seq<char>
    decreases s.len(),
{
    if s.len() == 0 {
        Seq::empty()
    } else {
        escape_char(s[0]) + escape(s.skip(1))
    }
}

/// The encoded form of an event.
pub open spec fn wire(e: EventView) -> Seq<char> {
    wire_user_prefix() + escape(e.user_id) + seq!['"'] + wire_status_prefix() + escape(e.status)
        + seq!['"', '}']
}

/// Reads a JSON string body up to its closing quote: the decoded content
/// and what follows the quote.  Refuses unescaped control characters,
/// lone backslashes and unknown escapes.
pub open spec fn parse_body(s: Seq<char>) -> Option<(Seq<char>, Seq<char>)>
    decreases s.len(),
{
    if s.len() == 0 {
        None
    } else if s[0] == '"' {
        Some((Seq::empty(), s.skip(1)))
    } else if s[0] == '\\' {
        if s.len() >= 2 && (s[1] == '"' || s[1] == '\\') {
            match parse_body(s.skip(2)) {
                Some(q) => Some((seq![s[1]] + q.0, q.1)),
                None => None,
            }
        } else if s.len() >= 6 && s[1] == 'u' && s[2] == '0' && s[3] == '0' && is_hex(s[4])
            && is_hex(s[5]) {
            match parse_body(s.skip(6)) {
                Some(q) => Some((seq![(hex_val(s[4]) * 16 + hex_val(s[5])) as char] + q.0, q.1)),
                None => None,
            }
        } else {
            None
        }
    } else if (s[0] as int) < 32 {
        None
    } else {
        match parse_body(s.skip(1)) {
            Some(q) => Some((seq![s[0]] + q.0, q.1)),
            None => None,
        }
    }
}

/// What a text denotes as an encoded event: the two decoded strings, both
/// non-empty, with nothing after the closing brace.
pub open spec fn spec_parse(s: Seq<char>) -> Option<EventView> {
    let p1 = wire_user_prefix();
    if s.len() < p1.len() || s.take(p1.len() as int) != p1 {
        None
    } else {
        match parse_body(s.skip(p1.len() as int)) {
            None => None,
            Some(q1) => {
                let p2 = wire_status_prefix();
                if q1.1.len() < p2.len() || q1.1.take(p2.len() as int) != p2 {
                    None
                } else {
                    match parse_body(q1.1.skip(p2.len() as int)) {
                        None => None,
                        Some(q2) => {
                            if q2.1.len() == 1 && q2.1[0] == '}' && q1.0.len() > 0 && q2.0.len()
                                > 0 {
                                Some(EventView { user_id: q1.0, status: q2.0 })
                            } else {
                                None
                            }
                        },
                    }
                }
            },
        }
    }
}

/// Relies on `String::push`: appends exactly the one character.
#[verifier::external_body]
fn push_char(out: &mut String, c: char)
    ensures
        final(out)@ == old(out)@.push(c),
{
    out.push(c);
}

fn hex_digit_exec(n: u32) -> (r: char)
    requires
        n < 16,
    ensures
        r == hex_digit(n as int),
{
    if n < 10 {
        ((48 + n) as u8) as char
    } else {
        ((87 + n) as u8) as char
    }
}

fn is_hex_exec(c: char) -> (r: bool)
    ensures
        r == is_hex(c),
{
    let u = c as u32;
    (48 <= u && u <= 57) || (97 <= u && u <= 102)
}

fn hex_val_exec(c: char) -> (r: u32)
    requires
        is_hex(c),
    ensures
        r as int == hex_val(c),
        r < 16,
{
    let u = c as u32;
    if u <= 57 {
        u - 48
    } else {
        u - 87
    }
}

proof fn lemma_escape_snoc(t: Seq<char>, c: char)
    ensures
        escape(t.push(c)) == escape(t) + escape_char(c),
    decreases t.len(),
{
    if t.len() == 0 {
        assert(t.push(c)[0] == c);
        assert(t.push(c).skip(1) =~= Seq::<char>::empty());
        assert(escape(t.push(c).skip(1)) == Seq::<char>::empty());
        assert(escape(t.push(c)) == escape_char(c) + escape(t.push(c).skip(1)));
        assert(escape(t) == Seq::<char>::empty());
        assert(escape(t.push(c)) =~= escape(t) + escape_char(c));
    } else {
        assert(t.push(c)[0] == t[0]);
        assert(t.push(c).skip(1) =~= t.skip(1).push(c));
        assert(escape(t.push(c)) == escape_char(t[0]) + escape(t.push(c).skip(1)));
        assert(escape(t.push(c).skip(1)) == escape(t.skip(1).push(c)));
        lemma_escape_snoc(t.skip(1), c);
        assert(escape(t) == escape_char(t[0]) + escape(t.skip(1)));
        assert(escape(t.push(c)) =~= escape(t) + escape_char(c));
    }
}

#[verifier::loop_isolation(false)]
fn append_escaped(out: &mut String, s: &String)
    ensures
        final(out)@ == old(out)@ + escape(s@),
{
    let len = s.as_str().unicode_len();
    let mut i: usize = 0;
    while i < len
        invariant
            i <= len == s@.len(),
            out@ == old(out)@ + escape(s@.take(i as int)),
        decreases len - i,
    {
        let c = s.as_str().get_char(i);
        proof {
            assert(s@.take(i + 1) =~= s@.take(i as int).push(s@[i as int]));
            lemma_escape_snoc(s@.take(i as int), s@[i as int]);
        }
        if c == '"' {
            push_char(out, '\\');
            push_char(out, '"');
            proof {
                assert(out@ =~= old(out)@ + escape(s@.take(i + 1)));
            }
        } else if c == '\\' {
            push_char(out, '\\');
            push_char(out, '\\');
            proof {
                assert(out@ =~= old(out)@ + escape(s@.take(i + 1)));
            }
        } else {
            let cu = c as u32;
            if cu < 32 {
                push_char(out, '\\');
                push_char(out, 'u');
                push_char(out, '0');
                push_char(out, '0');
                push_char(out, hex_digit_exec(cu / 16));
                push_char(out, hex_digit_exec(cu % 16));
                proof {
                    assert(out@ =~= old(out)@ + escape(s@.take(i + 1)));
                }
            } else {
                push_char(out, c);
                proof {
                    assert(out@ =~= old(out)@ + escape(s@.take(i + 1)));
                }
            }
        }
        i = i + 1;
    }
    proof {
        assert(s@.take(len as int) =~= s@);
    }
}

/// Encodes an event into its wire form.
pub fn encode_event(e: &StatusEvent) -> (r: String)
    ensures
        r@ == wire(e@),
{
    let mut out = String::new();
    out.append("{\"user_id\":\"");
    append_escaped(&mut out, e.user_id());
    push_char(&mut out, '"');
    out.append(",\"status\":\"");
    append_escaped(&mut out, e.status());
    push_char(&mut out, '"');
    push_char(&mut out, '}');
    proof {
        assert(out@ =~= wire(e@));
    }
    out
}

#[verifier::loop_isolation(false)]
fn match_at(s: &str, pos: usize, pat: &str) -> (r: bool)
    requires
        pos <= s@.len(),
    ensures
        r <==> (pos + pat@.len() <= s@.len() && s@.subrange(pos as int, pos + pat@.len()) == pat@),
{
    let n = pat.unicode_len();
    let sn = s.unicode_len();
    if sn - pos < n {
        return false;
    }
    let mut j: usize = 0;
    while j < n
        invariant
            j <= n,
            forall|k: int| 0 <= k < j ==> s@[pos + k] == pat@[k],
        decreases n - j,
    {
        if s.get_char(pos + j) != pat.get_char(j) {
            proof {
                let a = s@.subrange(pos as int, pos + pat@.len());
                assert(a[j as int] == s@[pos + j]);
                assert(a[j as int] != pat@[j as int]);
            }
            return false;
        }
        j = j + 1;
    }
    proof {
        assert(s@.subrange(pos as int, pos + pat@.len()) =~= pat@);
    }
    true
}

#[verifier::loop_isolation(false)]
fn parse_body_at(s: &str, pos: usize) -> (r: Option<(String, usize)>)
    requires
        pos <= s@.len(),
    ensures
        match r {
            Some(q) => q.1 <= s@.len() && parse_body(s@.skip(pos as int)) == Some(
                (q.0@, s@.skip(q.1 as int)),
            ),
            None => parse_body(s@.skip(pos as int)) is None,
        },
{
    let len = s.unicode_len();
    let mut out = String::new();
    let mut i: usize = pos;
    loop
        invariant
            pos <= i <= len == s@.len(),
            match parse_body(s@.skip(i as int)) {
                Some(q) => parse_body(s@.skip(pos as int)) == Some((out@ + q.0, q.1)),
                None => parse_body(s@.skip(pos as int)) is None,
            },
        decreases len - i,
    {
        if i == len {
            proof {
                assert(s@.skip(i as int).len() == 0);
            }
            return None;
        }
        proof {
            assert(s@.skip(i as int)[0] == s@[i as int]);
            assert(s@.skip(i as int).len() == len - i);
        }
        let c = s.get_char(i);
        if c == '"' {
            proof {
                assert(s@.skip(i as int).skip(1) =~= s@.skip(i + 1));
                assert(out@ + Seq::<char>::empty() =~= out@);
            }
            return Some((out, i + 1));
        }
        if c == '\\' {
            if i + 1 == len {
                return None;
            }
            proof {
                assert(s@.skip(i as int)[1] == s@[i + 1]);
            }
            let c2 = s.get_char(i + 1);
            if c2 == '"' || c2 == '\\' {
                proof {
                    assert(s@.skip(i as int).skip(2) =~= s@.skip(i + 2));
                    match parse_body(s@.skip(i + 2)) {
                        Some(q) => {
                            assert((out@ + (seq![s@[i + 1]] + q.0)) =~= (out@.push(s@[i + 1])
                                + q.0));
                        },
                        None => {},
                    }
                }
                push_char(&mut out, c2);
                i = i + 2;
            } else if c2 == 'u' {
                if len - i < 6 {
                    return None;
                }
                proof {
                    assert(s@.skip(i as int)[2] == s@[i + 2]);
                    assert(s@.skip(i as int)[3] == s@[i + 3]);
                    assert(s@.skip(i as int)[4] == s@[i + 4]);
                    assert(s@.skip(i as int)[5] == s@[i + 5]);
                }
                let c3 = s.get_char(i + 2);
                let c4 = s.get_char(i + 3);
                if c3 != '0' || c4 != '0' {
                    return None;
                }
                let h1 = s.get_char(i + 4);
                let h2 = s.get_char(i + 5);
                if !is_hex_exec(h1) || !is_hex_exec(h2) {
                    return None;
                }
                let code = hex_val_exec(h1) * 16 + hex_val_exec(h2);
                proof {
                    assert(s@.skip(i as int).skip(6) =~= s@.skip(i + 6));
                    match parse_body(s@.skip(i + 6)) {
                        Some(q) => {
                            assert((out@ + (seq![(hex_val(s@[i + 4]) * 16 + hex_val(
                                s@[i + 5],
                            )) as char] + q.0)) =~= (out@.push(
                                (hex_val(s@[i + 4]) * 16 + hex_val(s@[i + 5])) as char,
                            ) + q.0));
                        },
                        None => {},
                    }
                }
                push_char(&mut out, (code as u8) as char);
                i = i + 6;
            } else {
                return None;
            }
        } else {
            let cu = c as u32;
            if cu < 32 {
                return None;
            }
            proof {
                assert(s@.skip(i as int).skip(1) =~= s@.skip(i + 1));
                match parse_body(s@.skip(i + 1)) {
                    Some(q) => {
                        assert((out@ + (seq![s@[i as int]] + q.0)) =~= (out@.push(s@[i as int])
                            + q.0));
                    },
                    None => {},
                }
            }
            push_char(&mut out, c);
            i = i + 1;
        }
    }
}

/// Reads a text as an encoded event; yields nothing when the text is not
/// the wire form of any event.
pub fn parse_event(s: &str) -> (r: Option<StatusEvent>)
    ensures
        match r {
            Some(e) => spec_parse(s@) == Some(e@),
            None => spec_parse(s@) is None,
        },
{
    let len = s.unicode_len();
    let p1 = "{\"user_id\":\"";
    let p1len = p1.unicode_len();
    if !match_at(s, 0, p1) {
        proof {
            assert(s@.subrange(0, s@.len() as int) =~= s@);
        }
        return None;
    }
    proof {
        assert(s@.subrange(0, p1len as int) =~= s@.take(p1len as int));
    }
    let q1 = match parse_body_at(s, p1len) {
        Some(q) => q,
        None => {
            return None;
        },
    };
    let (uid, pos2) = q1;
    let p2 = ",\"status\":\"";
    let p2len = p2.unicode_len();
    if !match_at(s, pos2, p2) {
        proof {
            let r1 = s@.skip(pos2 as int);
            if r1.len() >= p2@.len() {
                assert(r1.take(p2@.len() as int) =~= s@.subrange(pos2 as int, pos2 + p2@.len()));
            }
        }
        return None;
    }
    proof {
        assert(s@.skip(pos2 as int).take(p2@.len() as int) =~= s@.subrange(
            pos2 as int,
            pos2 + p2@.len(),
        ));
        assert(s@.skip(pos2 as int).skip(p2@.len() as int) =~= s@.skip(pos2 + p2@.len()));
    }
    let q2 = match parse_body_at(s, pos2 + p2len) {
        Some(q) => q,
        None => {
            return None;
        },
    };
    let (st, pos4) = q2;
    if pos4 >= len {
        proof {
            assert(s@.skip(pos4 as int).len() == 0);
        }
        return None;
    }
    if pos4 + 1 != len {
        proof {
            assert(s@.skip(pos4 as int).len() != 1);
        }
        return None;
    }
    proof {
        assert(s@.skip(pos4 as int)[0] == s@[pos4 as int]);
        assert(s@.skip(pos4 as int).len() == 1);
    }
    if s.get_char(pos4) != '}' {
        return None;
    }
    match StatusEvent::new(uid, st) {
        Ok(e) => Some(e),
        Err(InputError::Empty) => None,
    }
}

proof fn lemma_char_bounds(c: char)
    ensures
        0 <= c as int,
        c as int <= 0x10FFFF,
{
}

proof fn lemma_hex_digit_roundtrip(n: int)
    requires
        0 <= n < 16,
    ensures
        is_hex(hex_digit(n)),
        hex_val(hex_digit(n)) == n,
{
}

proof fn lemma_parse_body_inverts(s: Seq<char>, rest: Seq<char>)
    ensures
        parse_body(escape(s) + seq!['"'] + rest) == Some((s, rest)),
    decreases s.len(),
{
    let t = escape(s) + seq!['"'] + rest;
    if s.len() == 0 {
        assert(escape(s) =~= Seq::<char>::empty());
        assert(t[0] == '"');
        assert(t.skip(1) =~= rest);
        assert(Seq::<char>::empty() =~= s);
    } else {
        let c = s[0];
        let s1 = s.skip(1);
        lemma_parse_body_inverts(s1, rest);
        let t1 = escape(s1) + seq!['"'] + rest;
        if c == '"' {
            assert(t =~= seq!['\\', '"'] + t1);
            assert(t[0] == '\\' && t[1] == '"');
            assert(t.skip(2) =~= t1);
            assert(seq![t[1]] + s1 =~= s);
        } else if c == '\\' {
            assert(t =~= seq!['\\', '\\'] + t1);
            assert(t[0] == '\\' && t[1] == '\\');
            assert(t.skip(2) =~= t1);
            assert(seq![t[1]] + s1 =~= s);
        } else if (c as int) < 32 {
            let hi = hex_digit(c as int / 16);
            let lo = hex_digit(c as int % 16);
            lemma_char_bounds(c);
            assert(0 <= (c as int) && (c as int) < 32);
            assert(0 <= (c as int) / 16 && (c as int) / 16 < 16 && 0 <= (c as int) % 16 && (
            c as int) % 16 < 16) by (nonlinear_arith)
                requires
                    0 <= (c as int) && (c as int) < 32,
            ;
            assert((c as int) / 16 * 16 + (c as int) % 16 == (c as int)) by (nonlinear_arith)
                requires
                    0 <= (c as int) && (c as int) < 32,
            ;
            lemma_hex_digit_roundtrip(c as int / 16);
            lemma_hex_digit_roundtrip(c as int % 16);
            assert(t =~= seq!['\\', 'u', '0', '0', hi, lo] + t1);
            assert(t[0] == '\\' && t[1] == 'u' && t[2] == '0' && t[3] == '0');
            assert(t.skip(6) =~= t1);
            assert(hex_val(hi) * 16 + hex_val(lo) == c as int);
            assert(((hex_val(hi) * 16 + hex_val(lo)) as char) == c);
            assert(seq![c] + s1 =~= s);
        } else {
            assert(t =~= seq![c] + t1);
            assert(t[0] == c);
            assert(t.skip(1) =~= t1);
            assert(seq![c] + s1 =~= s);
        }
    }
}

/// Law: parsing inverts encoding.  The wire form of any event — any pair
/// of non-empty strings — parses back to exactly that event.
pub proof fn lemma_wire_round_trip(e: EventView)
    requires
        e.valid(),
    ensures
        spec_parse(wire(e)) == Some(e),
{
    let w = wire(e);
    let p1 = wire_user_prefix();
    let p2 = wire_status_prefix();
    let tail2 = seq!['}'];
    let rest2 = escape(e.status) + seq!['"'] + tail2;
    let rest1 = p2 + rest2;
    let body1 = escape(e.user_id) + seq!['"'] + rest1;
    assert(w =~= p1 + body1);
    assert(w.take(p1.len() as int) =~= p1);
    assert(w.skip(p1.len() as int) =~= body1);
    lemma_parse_body_inverts(e.user_id, rest1);
    assert(rest1.take(p2.len() as int) =~= p2);
    assert(rest1.skip(p2.len() as int) =~= rest2);
    lemma_parse_body_inverts(e.status, tail2);
    assert(tail2.len() == 1 && tail2[0] == '}');
    assert(spec_parse(w) == Some(EventView { user_id: e.user_id, status: e.status }));
    assert(EventView { user_id: e.user_id, status: e.status } =~= e);
}

} // verus!

