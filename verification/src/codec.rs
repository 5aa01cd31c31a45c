//! The wire codec for the structured text payloads exchanged with
//! clients.
//!
//! A request is the compact object `{"path":<string>}` and maps to
//! `Action::Read`.  A successful response is
//! `{"path":<string>,"content":<string>}`; a failure response carries a
//! distinct `error` field in place of `content`:
//! `{"path":<string>,"error":<string>}`.  Inside a string, `"` and `\`
//! are escaped with a backslash and every other character stands for
//! itself; no other escape is accepted.

use vstd::prelude::*;
use vstd::string::StrSliceExecFns;
use crate::action::{Action, ActionResult};

verus! {

/// The opening of every message: the object brace, the `path` field
/// name, and the opening quote of its value.
pub open spec fn request_prefix() -> Seq<char> {
    "{\"path\":\""@
}

/// Between the path value and the content value of a success response.
pub open spec fn content_infix() -> Seq<char> {
    "\",\"content\":\""@
}

/// Between the path value and the error message of a failure response.
pub open spec fn error_infix() -> Seq<char> {
    "\",\"error\":\""@
}

/// The closing quote and brace that end every message.
pub open spec fn message_suffix() -> Seq<char> {
    "\"}"@
}

/// How one character is written inside a quoted string: `"` and `\` get
/// a leading backslash, everything else stands for itself.
pub open spec fn escape_char(c: char) -> Seq<char> {
    if c == '"' || c == '\\' {
        seq!['\\', c]
    } else {
        seq![c]
    }
}

/// How a whole string is written inside quotes.
pub open spec fn escaped(s: Seq<char>) -> Seq<char>
    decreases s.len(),
{
    if s.len() == 0 {
        Seq::empty()
    } else {
        escape_char(s[0]) + escaped(s.skip(1))
    }
}

/// Reads a quoted string body back: a backslash must be followed by `"`
/// or `\` and denotes that character; a bare `"` cannot occur; any other
/// character stands for itself.  Yields nothing on an ill-formed body.
pub open spec fn unescape(s: Seq<char>) -> Option<Seq<char>>
    decreases s.len(),
{
    if s.len() == 0 {
        Some(Seq::empty())
    } else if s[0] == '\\' {
        if s.len() >= 2 && (s[1] == '"' || s[1] == '\\') {
            match unescape(s.skip(2)) {
                Some(r) => Some(seq![s[1]] + r),
                None => None,
            }
        } else {
            None
        }
    } else if s[0] == '"' {
        None
    } else {
        match unescape(s.skip(1)) {
            Some(r) => Some(seq![s[0]] + r),
            None => None,
        }
    }
}

/// The request message that asks for `key`.
pub open spec fn spec_encode_request(key: Seq<char>) -> Seq<char> {
    request_prefix() + escaped(key) + message_suffix()
}

/// The success response for `path` carrying `content`.
pub open spec fn spec_encode_ok(path: Seq<char>, content: Seq<char>) -> Seq<char> {
    request_prefix() + escaped(path) + content_infix() + escaped(content) + message_suffix()
}

/// The failure response for `path` carrying the failure message `error`.
pub open spec fn spec_encode_err(path: Seq<char>, error: Seq<char>) -> Seq<char> {
    request_prefix() + escaped(path) + error_infix() + escaped(error) + message_suffix()
}

/// The response that encodes `res`: its success payload under `content`,
/// its failure message under `error`, the action's key under `path`
/// either way.
pub open spec fn spec_encode_response(res: ActionResult) -> Seq<char> {
    match res.outcome {
        Ok(content) => spec_encode_ok(res.action.spec_key(), content@),
        Err(error) => spec_encode_err(res.action.spec_key(), error@),
    }
}

/// The key requested by message `t`, when `t` is a well-formed request
/// and nothing otherwise: the fixed frame around a quoted string body
/// that unescapes cleanly.
pub open spec fn spec_decode(t: Seq<char>) -> Option<Seq<char>> {
    let p = request_prefix();
    let c = message_suffix();
    if t.len() >= p.len() + c.len() && t.take(p.len() as int) == p && t.subrange(
        t.len() - c.len(),
        t.len() as int,
    ) == c {
        unescape(t.subrange(p.len() as int, t.len() - c.len()))
    } else {
        None
    }
}

/// Appending one character to a string appends its escape to the
/// written form.
proof fn lemma_escaped_append_last(s: Seq<char>)
    requires
        s.len() > 0,
    ensures
        escaped(s) == escaped(s.drop_last()) + escape_char(s.last()),
    decreases s.len(),
{
    if s.len() == 1 {
        assert(s.skip(1) =~= Seq::<char>::empty());
        assert(s.drop_last() =~= Seq::<char>::empty());
        assert(escaped(s) =~= escaped(s.drop_last()) + escape_char(s.last()));
    } else {
        let tail = s.skip(1);
        lemma_escaped_append_last(tail);
        assert(tail.drop_last() =~= s.drop_last().skip(1));
        assert(tail.last() == s.last());
        assert(s.drop_last().len() > 0);
        assert(s.drop_last()[0] == s[0]);
        assert(escaped(s) =~= escaped(s.drop_last()) + escape_char(s.last()));
    }
}

/// Round trip of the string escaping: every string reads back from its
/// written form, so every key and payload survives the wire unchanged.
pub proof fn lemma_unescape_escaped(s: Seq<char>)
    ensures
        unescape(escaped(s)) == Some(s),
    decreases s.len(),
{
    if s.len() == 0 {
    } else {
        lemma_unescape_escaped(s.skip(1));
        let e = escaped(s);
        if s[0] == '"' || s[0] == '\\' {
            assert(e[0] == '\\' && e[1] == s[0]);
            assert(e.skip(2) =~= escaped(s.skip(1)));
            assert(seq![s[0]] + s.skip(1) =~= s);
        } else {
            assert(e[0] == s[0]);
            assert(e.skip(1) =~= escaped(s.skip(1)));
            assert(seq![s[0]] + s.skip(1) =~= s);
        }
    }
}

/// Round trip of the request codec: the message that encodes a key
/// decodes back to exactly that key, for every key.
pub proof fn lemma_request_round_trip(key: Seq<char>)
    ensures
        spec_decode(spec_encode_request(key)) == Some(key),
{
    let t = spec_encode_request(key);
    let p = request_prefix();
    let c = message_suffix();
    assert(t.take(p.len() as int) =~= p);
    assert(t.subrange(t.len() - c.len(), t.len() as int) =~= c);
    assert(t.subrange(p.len() as int, t.len() - c.len()) =~= escaped(key));
    lemma_unescape_escaped(key);
}

/// Relies on `String`'s `FromIterator` implementation over `char`:
/// collecting an iterator of characters yields the string of exactly
/// those characters, in order.
#[verifier::external_body]
fn string_from_chars(v: &Vec<char>) -> (r: String)
    ensures
        r@ == v@,
{
    v.iter().collect()
}

/// The characters of `s`, in order.
fn chars_vec(s: &str) -> (r: Vec<char>)
    ensures
        r@ == s@,
{
    let n = s.unicode_len();
    let mut r: Vec<char> = Vec::new();
    proof {
        assert(r@ =~= s@.take(0));
    }
    let mut i: usize = 0;
    while i < n
        invariant
            n == s@.len(),
            i <= n,
            r@ == s@.take(i as int),
        decreases n - i,
    {
        r.push(s.get_char(i));
        proof {
            assert(r@ =~= s@.take(i as int + 1));
        }
        i = i + 1;
    }
    proof {
        assert(s@.take(n as int) =~= s@);
    }
    r
}

/// Appends the characters of `p` to `out`.
fn push_str_chars(out: &mut Vec<char>, p: &str)
    ensures
        final(out)@ == old(out)@ + p@,
{
    let n = p.unicode_len();
    proof {
        assert(out@ =~= old(out)@ + p@.take(0));
    }
    let mut i: usize = 0;
    while i < n
        invariant
            n == p@.len(),
            i <= n,
            out@ == old(out)@ + p@.take(i as int),
        decreases n - i,
    {
        out.push(p.get_char(i));
        proof {
            assert(out@ =~= old(out)@ + p@.take(i as int + 1));
        }
        i = i + 1;
    }
    proof {
        assert(p@.take(n as int) =~= p@);
    }
}

/// Appends the written (escaped) form of `s` to `out`.
fn push_escaped(out: &mut Vec<char>, s: &String)
    ensures
        final(out)@ == old(out)@ + escaped(s@),
{
    let n = s.as_str().unicode_len();
    proof {
        assert(escaped(s@.take(0)) =~= Seq::<char>::empty());
        assert(out@ =~= old(out)@ + escaped(s@.take(0)));
    }
    let mut i: usize = 0;
    while i < n
        invariant
            n == s@.len(),
            i <= n,
            out@ == old(out)@ + escaped(s@.take(i as int)),
        decreases n - i,
    {
        let c = s.as_str().get_char(i);
        if c == '"' || c == '\\' {
            out.push('\\');
            out.push(c);
        } else {
            out.push(c);
        }
        proof {
            lemma_escaped_append_last(s@.take(i as int + 1));
            assert(s@.take(i as int + 1).drop_last() =~= s@.take(i as int));
            assert(s@.take(i as int + 1).last() == s@[i as int]);
            assert(out@ =~= old(out)@ + escaped(s@.take(i as int + 1)));
        }
        i = i + 1;
    }
    proof {
        assert(s@.take(n as int) =~= s@);
    }
}

/// Whether the characters of `p` stand in `t` at position `at`.
fn match_at(t: &Vec<char>, at: usize, p: &str) -> (b: bool)
    requires
        at + p@.len() <= t@.len(),
    ensures
        b == (t@.subrange(at as int, at as int + p@.len() as int) == p@),
{
    let n = p.unicode_len();
    let tlen = t.len();
    let mut i: usize = 0;
    while i < n
        invariant
            n == p@.len(),
            tlen == t@.len(),
            at + n <= tlen,
            i <= n,
            forall|k: int| 0 <= k < i ==> t@[at + k] == p@[k],
        decreases n - i,
    {
        if t[at + i] != p.get_char(i) {
            proof {
                assert(t@.subrange(at as int, at as int + p@.len() as int)[i as int]
                    == t@[at + i]);
            }
            return false;
        }
        i = i + 1;
    }
    proof {
        assert(t@.subrange(at as int, at as int + p@.len() as int) =~= p@);
    }
    true
}

/// Writes the response for `res`: `content` carries a success payload,
/// `error` a failure message, and `path` echoes the action's key, so a
/// client can correlate the response even out of order.
pub fn encode_response(res: &ActionResult) -> (r: String)
    ensures
        r@ == spec_encode_response(*res),
{
    let mut out: Vec<char> = Vec::new();
    push_str_chars(&mut out, "{\"path\":\"");
    push_escaped(&mut out, res.action.key());
    match &res.outcome {
        Ok(content) => {
            push_str_chars(&mut out, "\",\"content\":\"");
            push_escaped(&mut out, content);
        },
        Err(error) => {
            push_str_chars(&mut out, "\",\"error\":\"");
            push_escaped(&mut out, error);
        },
    }
    push_str_chars(&mut out, "\"}");
    proof {
        assert(out@ =~= spec_encode_response(*res));
    }
    string_from_chars(&out)
}

/// Reads a quoted string body out of `t[from..to]`, undoing the
/// escaping; yields nothing exactly when that range is ill-formed.
fn unescape_range(t: &Vec<char>, from: usize, to: usize) -> (r: Option<Vec<char>>)
    requires
        from <= to <= t@.len(),
    ensures
        match r {
            Some(v) => unescape(t@.subrange(from as int, to as int)) == Some(v@),
            None => unescape(t@.subrange(from as int, to as int)) is None,
        },
{
    let ghost whole = t@.subrange(from as int, to as int);
    let mut out: Vec<char> = Vec::new();
    proof {
        assert(whole.subrange(0, whole.len() as int) =~= whole);
    }
    let mut i: usize = from;
    while i < to
        invariant
            from <= i <= to <= t@.len(),
            unescape(whole) == (match unescape(t@.subrange(i as int, to as int)) {
                Some(rest) => Some(out@ + rest),
                None => None::<Seq<char>>,
            }),
            whole == t@.subrange(from as int, to as int),
        decreases to - i,
    {
        let ghost here = t@.subrange(i as int, to as int);
        proof {
            assert(here.len() > 0);
            assert(here[0] == t@[i as int]);
        }
        let c = t[i];
        if c == '\\' {
            if i + 1 >= to {
                proof {
                    assert(here.len() < 2);
                    assert(unescape(here) is None);
                }
                return None;
            }
            let c2 = t[i + 1];
            proof {
                assert(here[1] == t@[i as int + 1]);
            }
            if c2 == '"' || c2 == '\\' {
                out.push(c2);
                proof {
                    assert(here.skip(2) =~= t@.subrange(i as int + 2, to as int));
                    if unescape(here.skip(2)) is Some {
                        let r2 = unescape(here.skip(2))->Some_0;
                        assert(unescape(here) == Some(seq![c2] + r2));
                        assert(out@ + r2 =~= out@.drop_last() + (seq![c2] + r2));
                    }
                }
                i = i + 2;
            } else {
                proof {
                    assert(unescape(here) is None);
                }
                return None;
            }
        } else if c == '"' {
            proof {
                assert(unescape(here) is None);
            }
            return None;
        } else {
            out.push(c);
            proof {
                assert(here.skip(1) =~= t@.subrange(i as int + 1, to as int));
                if unescape(here.skip(1)) is Some {
                    let r2 = unescape(here.skip(1))->Some_0;
                    assert(unescape(here) == Some(seq![c] + r2));
                    assert(out@ + r2 =~= out@.drop_last() + (seq![c] + r2));
                }
            }
            i = i + 1;
        }
    }
    proof {
        assert(t@.subrange(i as int, to as int) =~= Seq::<char>::empty());
        assert(unescape(whole) == Some(out@));
    }
    Some(out)
}

/// Reads a client message: yields the decoded action exactly when the
/// message is a well-formed request, and nothing otherwise, so a
/// malformed message can be answered locally without touching the queue.
pub fn decode_request(text: &str) -> (r: Option<Action>)
    ensures
        match r {
            Some(a) => spec_decode(text@) == Some(a.spec_key()),
            None => spec_decode(text@) is None,
        },
{
    proof {
        reveal_strlit("{\"path\":\"");
        reveal_strlit("\"}");
    }
    let t = chars_vec(text);
    let n = t.len();
    if n < 11 {
        return None;
    }
    if !match_at(&t, 0, "{\"path\":\"") {
        proof {
            assert(t@.subrange(0, 9) =~= t@.take(9));
        }
        return None;
    }
    if !match_at(&t, n - 2, "\"}") {
        proof {
            assert(t@.subrange(n as int - 2, n as int) =~= t@.subrange(
                t@.len() - message_suffix().len(),
                t@.len() as int,
            ));
        }
        return None;
    }
    proof {
        assert(t@.subrange(0, 9) =~= t@.take(9));
        assert(t@.subrange(n as int - 2, n as int) =~= t@.subrange(
            t@.len() - message_suffix().len(),
            t@.len() as int,
        ));
    }
    match unescape_range(&t, 9, n - 2) {
        Some(key_chars) => {
            let key = string_from_chars(&key_chars);
            Some(Action::Read { key })
        },
        None => None,
    }
}

} // verus!
