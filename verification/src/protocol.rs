//! The BSP wire protocol: LSP-style framing (`Content-Length` headers), the
//! JSON-RPC response envelopes, and the dispatch of each incoming message to
//! a reply, a state-dependent action, or silence.

use vstd::prelude::*;
use vstd::utf8::{decode_utf8, encode_utf8, valid_utf8};
use crate::json::{
    as_str, clone_value, get, get_opt, json_get, json_get_opt, json_str, json_to_string,
    lemma_array_view, lemma_object_view, items_view, members_view, opt_view,
    spec_json_to_string, Json, JsonValue,
};
use crate::text::{
    concat, decimal, from_chars, i64_to_string, is_empty_str, is_whitespace_char, is_ws, owned,
    signed_decimal, str_eq, strip_prefix, to_chars, trim, trim_end, trim_end_seq, trim_seq,
    u64_to_string,
};
use crate::uri::{path_to_uri, path_to_uri_of, utf8_strict};

verus! {

broadcast use vstd::string::group_string_axioms;

// ── Framing ──

/// Upper bound on a message body, so a bogus huge `Content-Length` cannot
/// ask for an unbounded allocation.
pub const MAX_MESSAGE_BYTES: usize = 67108864;

/// Why a frame could not be read.
#[derive(PartialEq, Eq, Structural, Clone, Copy, Debug)]
pub enum FrameError {
    /// The input ended inside the headers.
    UnexpectedEof,
    /// A header line is not UTF-8.
    InvalidUtf8,
    /// The `Content-Length` value is not a `usize`.
    InvalidContentLength,
    /// The headers ended without a `Content-Length`.
    MissingContentLength,
    /// The `Content-Length` is over `MAX_MESSAGE_BYTES`.
    TooLarge,
    /// The input ended inside the body.
    ShortBody,
}

impl FrameError {
    /// Whether the error is the input ending too early (inside the headers
    /// or the body), as opposed to malformed headers.
    pub fn is_early_end(&self) -> (r: bool)
        ensures
            r == (*self == FrameError::UnexpectedEof || *self == FrameError::ShortBody),
    {
        match self {
            FrameError::UnexpectedEof => true,
            FrameError::ShortBody => true,
            _ => false,
        }
    }

    /// The error's text.
    pub fn message(&self) -> (r: String)
        ensures
            r@.len() > 0,
    {
        let s = match self {
            FrameError::UnexpectedEof => "EOF within frame headers",
            FrameError::InvalidUtf8 => "stream did not contain valid UTF-8",
            FrameError::InvalidContentLength => "invalid Content-Length value",
            FrameError::MissingContentLength => "missing Content-Length header",
            FrameError::TooLarge => "Content-Length exceeds maximum",
            FrameError::ShortBody => "failed to fill whole buffer",
        };
        proof {
            reveal_strlit("EOF within frame headers");
            reveal_strlit("stream did not contain valid UTF-8");
            reveal_strlit("invalid Content-Length value");
            reveal_strlit("missing Content-Length header");
            reveal_strlit("Content-Length exceeds maximum");
            reveal_strlit("failed to fill whole buffer");
        }
        owned(s)
    }
}

pub open spec fn is_digit(c: char) -> bool {
    '0' <= c <= '9'
}

/// The value of a string of decimal digits.
pub open spec fn digits_value(d: Seq<char>) -> nat
    decreases d.len(),
{
    if d.len() == 0 {
        0
    } else {
        digits_value(d.drop_last()) * 10 + ((d.last() as u32) - 48) as nat
    }
}

pub open spec fn all_digits(d: Seq<char>) -> bool {
    forall|i: int| 0 <= i < d.len() ==> is_digit(#[trigger] d[i])
}

/// `usize::from_str`: an optional `+`, then at least one digit, and no
/// overflow.
pub open spec fn parse_usize_of(s: Seq<char>) -> Option<nat> {
    let d = if s.len() > 0 && s[0] == '+' {
        s.drop_first()
    } else {
        s
    };
    if d.len() == 0 || !all_digits(d) || digits_value(d) > usize::MAX {
        None
    } else {
        Some(digits_value(d))
    }
}

proof fn lemma_digits_monotone(d: Seq<char>, i: int)
    requires
        0 <= i <= d.len(),
        all_digits(d),
    ensures
        digits_value(d.take(i)) <= digits_value(d),
    decreases d.len() - i,
{
    if i < d.len() {
        lemma_digits_monotone(d, i + 1);
        assert(d.take(i + 1).drop_last() =~= d.take(i));
        assert(is_digit(d[i]));
    } else {
        assert(d.take(i) =~= d);
    }
}

/// `s.parse::<usize>()`.
pub fn parse_usize(s: &str) -> (r: Option<usize>)
    ensures
        match r {
            Some(n) => parse_usize_of(s@) == Some(n as nat),
            None => parse_usize_of(s@) is None,
        },
{
    let cs = to_chars(s);
    let start: usize = if cs.len() > 0 && cs[0] == '+' {
        1
    } else {
        0
    };
    let ghost d = if s@.len() > 0 && s@[0] == '+' {
        s@.drop_first()
    } else {
        s@
    };
    assert(d =~= cs@.subrange(start as int, cs@.len() as int));
    if start == cs.len() {
        return None;
    }
    let mut v: usize = 0;
    let mut i = start;
    while i < cs.len()
        invariant
            start <= i <= cs@.len(),
            d == cs@.subrange(start as int, cs@.len() as int),
            d == (if s@.len() > 0 && s@[0] == '+' {
                s@.drop_first()
            } else {
                s@
            }),
            d.len() > 0,
            forall|k: int| start <= k < i ==> is_digit(cs@[k]),
            v as nat == digits_value(d.take(i - start)),
        decreases cs@.len() - i,
    {
        let c = cs[i];
        proof {
            assert(d.take(i + 1 - start).drop_last() =~= d.take(i - start));
            assert(d.take(i + 1 - start).last() == c);
        }
        if !('0' <= c && c <= '9') {
            assert(!is_digit(d[i - start]));
            return None;
        }
        let digit: usize = (c as u32 - 48) as usize;
        assert(digits_value(d.take(i + 1 - start)) == v as nat * 10 + digit as nat);
        match v.checked_mul(10) {
            None => {
                proof {
                    if all_digits(d) {
                        lemma_digits_monotone(d, i + 1 - start);
                        assert(v as nat * 10 > usize::MAX);
                        assert(digits_value(d) > usize::MAX);
                    }
                }
                return None;
            },
            Some(m) => match m.checked_add(digit) {
                None => {
                    proof {
                        if all_digits(d) {
                            lemma_digits_monotone(d, i + 1 - start);
                            assert(m + digit > usize::MAX);
                            assert(digits_value(d) > usize::MAX);
                        }
                    }
                    return None;
                },
                Some(w) => {
                    v = w;
                },
            },
        }
        i = i + 1;
    }
    assert(d.take(cs@.len() - start) =~= d);
    assert(all_digits(d)) by {
        assert forall|k: int| 0 <= k < d.len() implies is_digit(#[trigger] d[k]) by {
            assert(d[k] == cs@[k + start]);
        }
    }
    Some(v)
}

/// What one header line does to the frame being read.
#[derive(PartialEq, Eq, Structural, Clone, Copy, Debug)]
pub enum HeaderStep {
    /// Another header line follows; the `Content-Length` seen so far.
    More(Option<usize>),
    /// The headers are over; the body has this many bytes.
    End(usize),
    /// The frame cannot be read.
    Fail(FrameError),
}

/// The effect of one header line (its line ending included) given the
/// `Content-Length` seen so far: a blank line ends the headers; a
/// `Content-Length:` line sets the length; other headers are ignored.
pub open spec fn header_step_of(content_length: Option<usize>, line: Seq<char>) -> HeaderStep {
    let t = trim_end_seq(line);
    if t.len() == 0 {
        match content_length {
            None => HeaderStep::Fail(FrameError::MissingContentLength),
            Some(n) => if n > MAX_MESSAGE_BYTES {
                HeaderStep::Fail(FrameError::TooLarge)
            } else {
                HeaderStep::End(n)
            },
        }
    } else if "Content-Length:"@.is_prefix_of(t) {
        match parse_usize_of(trim_seq(t.subrange(15, t.len() as int))) {
            Some(n) => HeaderStep::More(Some(n as usize)),
            None => HeaderStep::Fail(FrameError::InvalidContentLength),
        }
    } else {
        HeaderStep::More(content_length)
    }
}

/// One header line read from the stream, with its line ending.
pub fn header_step(content_length: Option<usize>, line: &str) -> (r: HeaderStep)
    ensures
        r == header_step_of(content_length, line@),
{
    let t = trim_end(line);
    if is_empty_str(t.as_str()) {
        return match content_length {
            None => HeaderStep::Fail(FrameError::MissingContentLength),
            Some(n) => if n > MAX_MESSAGE_BYTES {
                HeaderStep::Fail(FrameError::TooLarge)
            } else {
                HeaderStep::End(n)
            },
        };
    }
    proof {
        reveal_strlit("Content-Length:");
    }
    match strip_prefix(t.as_str(), "Content-Length:") {
        Some(rest) => {
            let v = trim(rest.as_str());
            match parse_usize(v.as_str()) {
                Some(n) => HeaderStep::More(Some(n)),
                None => HeaderStep::Fail(FrameError::InvalidContentLength),
            }
        },
        None => HeaderStep::More(content_length),
    }
}

/// At the end of the input before a header line: a clean end between
/// frames, or an error inside one.
pub open spec fn end_of_input_of(content_length: Option<usize>) -> Result<
    Option<(Seq<u8>, int)>,
    FrameError,
> {
    if content_length is None {
        Ok(None)
    } else {
        Err(FrameError::UnexpectedEof)
    }
}

/// The first index at or after `from` holding a newline byte, or -1.
pub open spec fn find_newline(b: Seq<u8>, from: int) -> int
    decreases b.len() - from,
{
    if from < 0 || from >= b.len() {
        -1
    } else if b[from] == 10 {
        from
    } else {
        find_newline(b, from + 1)
    }
}

pub proof fn lemma_find_newline(b: Seq<u8>, from: int)
    requires
        0 <= from,
    ensures
        -1 <= find_newline(b, from) < b.len(),
        find_newline(b, from) >= 0 ==> from <= find_newline(b, from),
    decreases b.len() - from,
{
    if from < b.len() && b[from] != 10 {
        lemma_find_newline(b, from + 1);
    }
}

/// The end of the line that starts at `pos`: after its newline, or the end
/// of the input.
pub open spec fn line_end(b: Seq<u8>, pos: int) -> int {
    if find_newline(b, pos) < 0 {
        b.len() as int
    } else {
        find_newline(b, pos) + 1
    }
}

/// Reading one frame from `input` at `pos`, with the `Content-Length` seen
/// so far: the body and the position after it, `None` at a clean end of
/// input, or the error.
pub open spec fn frame_from(input: Seq<u8>, pos: int, content_length: Option<usize>) -> Result<
    Option<(Seq<u8>, int)>,
    FrameError,
>
    decreases input.len() - pos,
{
    if pos < 0 || pos >= input.len() {
        end_of_input_of(content_length)
    } else {
        let end = line_end(input, pos);
        let line = input.subrange(pos, end);
        if !valid_utf8(line) {
            Err(FrameError::InvalidUtf8)
        } else {
            proof {
                lemma_find_newline(input, pos);
            }
            match header_step_of(content_length, decode_utf8(line)) {
                HeaderStep::More(cl) => frame_from(input, end, cl),
                HeaderStep::End(n) => if input.len() - end < n {
                    Err(FrameError::ShortBody)
                } else {
                    Ok(Some((input.subrange(end, end + n), end + n)))
                },
                HeaderStep::Fail(e) => Err(e),
            }
        }
    }
}

// ── Malformed frames ──

/// A header line as sent: its text, then `\r\n`.
pub open spec fn header_line(l: Seq<char>) -> Seq<char> {
    l + seq!['\r', '\n']
}

/// Header lines as sent, one after another.
pub open spec fn header_text(lines: Seq<Seq<char>>) -> Seq<char>
    decreases lines.len(),
{
    if lines.len() == 0 {
        Seq::empty()
    } else {
        header_line(lines[0]) + header_text(lines.drop_first())
    }
}

/// Header lines of ASCII text, without newlines, none blank.
pub open spec fn plain_header_lines(lines: Seq<Seq<char>>) -> bool {
    forall|k: int|
        0 <= k < lines.len() ==> {
            &&& vstd::utf8::is_ascii_chars(#[trigger] lines[k])
            &&& !lines[k].contains('\n')
            &&& trim_end_seq(lines[k]).len() > 0
        }
}

/// Whether a header line is a `Content-Length:` line.
pub open spec fn is_length_line(l: Seq<char>) -> bool {
    "Content-Length:"@.is_prefix_of(trim_end_seq(l))
}

/// The value of a `Content-Length:` line, when it parses.
pub open spec fn length_value(l: Seq<char>) -> Option<nat> {
    let t = trim_end_seq(l);
    parse_usize_of(trim_seq(t.subrange(15, t.len() as int)))
}

/// The `Content-Length` after a run of header lines (`More`), or the
/// failure of one of them.
pub open spec fn headers_fold(cl: Option<usize>, lines: Seq<Seq<char>>) -> HeaderStep
    decreases lines.len(),
{
    if lines.len() == 0 {
        HeaderStep::More(cl)
    } else {
        match header_step_of(cl, header_line(lines[0])) {
            HeaderStep::More(c) => headers_fold(c, lines.drop_first()),
            other => other,
        }
    }
}

/// A non-blank header line never ends the headers: it is a `Content-Length`
/// line (setting the length, or failing when the value does not parse) or
/// another header (ignored).
proof fn lemma_header_step_plain(cl: Option<usize>, l: Seq<char>)
    requires
        trim_end_seq(l).len() > 0,
    ensures
        header_step_of(cl, header_line(l)) == if is_length_line(l) {
            match length_value(l) {
                Some(n) => HeaderStep::More(Some(n as usize)),
                None => HeaderStep::Fail(FrameError::InvalidContentLength),
            }
        } else {
            HeaderStep::More(cl)
        },
{
    let h = header_line(l);
    let h1 = l + seq!['\r'];
    assert(h.drop_last() =~= h1);
    assert(h1.drop_last() =~= l);
    assert(h.last() == '\n' && h1.last() == '\r');
    assert(is_ws(h.last()));
    assert(is_ws(h1.last()));
    assert(trim_end_seq(h) == trim_end_seq(h1));
    assert(trim_end_seq(h1) == trim_end_seq(l));
}

/// An ASCII header line is ASCII as sent, one byte per character.
proof fn lemma_header_line_ascii(l: Seq<char>)
    requires
        vstd::utf8::is_ascii_chars(l),
    ensures
        vstd::utf8::is_ascii_chars(header_line(l)),
        encode_utf8(header_line(l)).len() == l.len() + 2,
{
    let h = header_line(l);
    assert forall|i: int| 0 <= i < h.len() implies '\0' <= #[trigger] h[i] <= '\u{7f}' by {
        if i < l.len() {
            assert(h[i] == l[i]);
        }
    }
    vstd::utf8::is_ascii_chars_encode_utf8(h);
}

/// One header line at `pos`: the line ends after its `\n`, and its text
/// reads back.
proof fn lemma_header_line_at(input: Seq<u8>, pos: int, l: Seq<char>)
    requires
        vstd::utf8::is_ascii_chars(l),
        !l.contains('\n'),
        0 <= pos,
        pos + l.len() + 2 <= input.len(),
        input.subrange(pos, pos + l.len() + 2) == encode_utf8(header_line(l)),
    ensures
        line_end(input, pos) == pos + l.len() + 2,
        valid_utf8(input.subrange(pos, pos + l.len() + 2)),
        decode_utf8(input.subrange(pos, pos + l.len() + 2)) == header_line(l),
{
    let h = header_line(l);
    lemma_header_line_ascii(l);
    crate::uri::lemma_encode_ascii(h);
    let b = encode_utf8(h);
    assert(b.len() == h.len());
    assert forall|k: int| pos <= k < pos + h.len() - 1 implies input[k] != 10 by {
        assert(input[k] == input.subrange(pos, pos + l.len() + 2)[k - pos]);
        assert(b[k - pos] == h[k - pos] as u8);
        if k - pos < l.len() {
            assert(h[k - pos] == l[k - pos]);
            if l[k - pos] == '\n' {
                assert(l.contains('\n'));
            }
        }
    }
    assert(input[pos + h.len() - 1] == 10) by {
        assert(input[pos + h.len() - 1] == input.subrange(pos, pos + l.len() + 2)[h.len() - 1]);
        assert(b[h.len() - 1] == h[h.len() - 1] as u8);
    }
    lemma_find_newline_at(input, pos, pos + h.len() - 1);
    vstd::utf8::encode_utf8_valid_utf8(h);
    vstd::utf8::encode_utf8_decode_utf8(h);
}

/// The length of header text of ASCII lines in bytes.
proof fn lemma_header_text_len(lines: Seq<Seq<char>>)
    requires
        plain_header_lines(lines),
    ensures
        vstd::utf8::is_ascii_chars(header_text(lines)),
        encode_utf8(header_text(lines)).len() == header_text(lines).len(),
    decreases lines.len(),
{
    if lines.len() > 0 {
        let rest = lines.drop_first();
        assert forall|k: int| 0 <= k < rest.len() implies {
            &&& vstd::utf8::is_ascii_chars(#[trigger] rest[k])
            &&& !rest[k].contains('\n')
            &&& trim_end_seq(rest[k]).len() > 0
        } by {
            assert(rest[k] == lines[k + 1]);
        }
        lemma_header_text_len(rest);
        let h = header_line(lines[0]);
        let t = header_text(lines);
        assert(vstd::utf8::is_ascii_chars(lines[0]));
        assert forall|i: int| 0 <= i < t.len() implies '\0' <= #[trigger] t[i] <= '\u{7f}' by {
            if i < lines[0].len() {
                assert(t[i] == lines[0][i]);
            } else if i >= h.len() {
                assert(t[i] == header_text(rest)[i - h.len()]);
            }
        }
    }
    vstd::utf8::is_ascii_chars_encode_utf8(header_text(lines));
}

/// Reading through plain header lines follows `headers_fold`.
proof fn lemma_frame_through_headers(input: Seq<u8>, pos: int, cl: Option<usize>, lines: Seq<Seq<char>>)
    requires
        plain_header_lines(lines),
        0 <= pos,
        pos + header_text(lines).len() <= input.len(),
        input.subrange(pos, pos + header_text(lines).len()) == encode_utf8(header_text(lines)),
    ensures
        frame_from(input, pos, cl) == match headers_fold(cl, lines) {
            HeaderStep::More(c) => frame_from(input, pos + header_text(lines).len(), c),
            HeaderStep::Fail(e) => Err(e),
            HeaderStep::End(_) => Err(FrameError::UnexpectedEof),
        },
        !(headers_fold(cl, lines) is End),
    decreases lines.len(),
{
    lemma_header_text_len(lines);
    if lines.len() > 0 {
        let l = lines[0];
        let rest = lines.drop_first();
        let h = header_line(l);
        assert(plain_header_lines(rest)) by {
            assert forall|k: int| 0 <= k < rest.len() implies {
                &&& vstd::utf8::is_ascii_chars(#[trigger] rest[k])
                &&& !rest[k].contains('\n')
                &&& trim_end_seq(rest[k]).len() > 0
            } by {
                assert(rest[k] == lines[k + 1]);
            }
        }
        assert(vstd::utf8::is_ascii_chars(l) && !l.contains('\n') && trim_end_seq(l).len() > 0);
        lemma_header_text_len(rest);
        vstd::utf8::is_ascii_chars_encode_utf8(l);
        lemma_encode_concat(h, header_text(rest));
        assert(header_text(lines) == h + header_text(rest));
        let eh = encode_utf8(h);
        let er = encode_utf8(header_text(rest));
        lemma_header_line_ascii(l);
        assert(eh.len() == h.len());
        assert(input.subrange(pos, pos + h.len()) =~= eh) by {
            assert(input.subrange(pos, pos + header_text(lines).len()) == eh + er);
            assert forall|k: int| 0 <= k < h.len() implies input.subrange(pos, pos + h.len())[k] == eh[k] by {
                assert(input.subrange(pos, pos + h.len())[k] == input.subrange(pos, pos + header_text(lines).len())[k]);
            }
        }
        assert(input.subrange(pos + h.len(), pos + h.len() + header_text(rest).len()) =~= er) by {
            assert(input.subrange(pos, pos + header_text(lines).len()) == eh + er);
            assert forall|k: int| 0 <= k < er.len() implies input.subrange(pos + h.len(), pos + h.len() + header_text(rest).len())[k] == er[k] by {
                assert(input.subrange(pos + h.len(), pos + h.len() + header_text(rest).len())[k] == input.subrange(pos, pos + header_text(lines).len())[h.len() + k]);
            }
        }
        lemma_header_line_at(input, pos, l);
        lemma_header_step_plain(cl, l);
        assert(h.len() == l.len() + 2);
        match header_step_of(cl, h) {
            HeaderStep::More(c) => {
                lemma_frame_through_headers(input, pos + h.len(), c, rest);
            },
            _ => {},
        }
    }
}

/// Law: a frame's outcome from its header lines (plain: ASCII, no newline,
/// none blank). With the blank line and then `body` after them:
/// - a `Content-Length` value that does not parse gives
///   `InvalidContentLength`;
/// - no `Content-Length` line gives `MissingContentLength`;
/// - a length over `MAX_MESSAGE_BYTES` gives `TooLarge`;
/// - fewer body bytes than the length gives `ShortBody`;
/// - otherwise the body's first `length` bytes are read.
/// When the input ends after the header lines, before the blank line: the
/// same failure on a bad value; else `UnexpectedEof` once a length was
/// seen, and a clean end (no frame) when none was.
pub proof fn lemma_malformed_frames(lines: Seq<Seq<char>>, body: Seq<u8>)
    requires
        plain_header_lines(lines),
    ensures
        ({
            let head = encode_utf8(header_text(lines));
            let full = encode_utf8(header_text(lines) + seq!['\r', '\n']) + body;
            &&& frame_from(full, 0, None) == match headers_fold(None, lines) {
                HeaderStep::More(None) => Err(FrameError::MissingContentLength),
                HeaderStep::More(Some(n)) => if n > MAX_MESSAGE_BYTES {
                    Err(FrameError::TooLarge)
                } else if body.len() < n {
                    Err(FrameError::ShortBody)
                } else {
                    Ok(Some((body.subrange(0, n as int), head.len() + 2 + n)))
                },
                HeaderStep::Fail(e) => Err(e),
                HeaderStep::End(_) => Err(FrameError::UnexpectedEof),
            }
            &&& frame_from(head, 0, None) == match headers_fold(None, lines) {
                HeaderStep::More(None) => Ok(None::<(Seq<u8>, int)>),
                HeaderStep::More(Some(_)) => Err(FrameError::UnexpectedEof),
                HeaderStep::Fail(e) => Err(e),
                HeaderStep::End(_) => Err(FrameError::UnexpectedEof),
            }
            &&& !(headers_fold(None, lines) is End)
        }),
{
    let t = header_text(lines);
    let crlf = seq!['\r', '\n'];
    lemma_header_text_len(lines);
    let head = encode_utf8(t);
    lemma_encode_concat(t, crlf);
    assert(vstd::utf8::is_ascii_chars(crlf));
    crate::uri::lemma_encode_ascii(crlf);
    let ec = encode_utf8(crlf);
    assert(ec =~= seq![13u8, 10u8]);
    let full = encode_utf8(t + crlf) + body;
    assert(full =~= head + ec + body);
    // The header lines, in both inputs.
    assert(full.subrange(0, t.len() as int) =~= head);
    assert(head.subrange(0, t.len() as int) =~= head);
    lemma_frame_through_headers(full, 0, None, lines);
    lemma_frame_through_headers(head, 0, None, lines);
    // The blank line.
    let p = t.len() as int;
    assert(full[p] == 13u8 && full[p + 1] == 10u8);
    lemma_find_newline_at(full, p, p + 1);
    assert(full.subrange(p, p + 2) =~= ec);
    vstd::utf8::encode_utf8_valid_utf8(crlf);
    vstd::utf8::encode_utf8_decode_utf8(crlf);
    reveal_with_fuel(trim_end_seq, 3);
    assert(crlf.drop_last() =~= seq!['\r']);
    assert(seq!['\r'].drop_last() =~= Seq::<char>::empty());
    assert(trim_end_seq(crlf).len() == 0);
    assert(full.len() - (p + 2) == body.len());
    match headers_fold(None, lines) {
        HeaderStep::More(Some(n)) => {
            if n <= MAX_MESSAGE_BYTES && body.len() >= n {
                assert(full.subrange(p + 2, p + 2 + n) =~= body.subrange(0, n as int));
            }
        },
        _ => {},
    }
}

/// The header lines fail exactly when a `Content-Length` line's value
/// does not parse, and then with `InvalidContentLength`; without any
/// `Content-Length` line the length stays unset.
pub proof fn lemma_headers_fold_cases(cl: Option<usize>, lines: Seq<Seq<char>>)
    requires
        plain_header_lines(lines),
    ensures
        headers_fold(cl, lines) is Fail <==> exists|k: int|
            0 <= k < lines.len() && is_length_line(#[trigger] lines[k]) && length_value(lines[k]) is None,
        headers_fold(cl, lines) matches HeaderStep::Fail(e) ==> e == FrameError::InvalidContentLength,
        (forall|k: int| 0 <= k < lines.len() ==> !is_length_line(#[trigger] lines[k])) ==> headers_fold(
            cl,
            lines,
        ) == HeaderStep::More(cl),
    decreases lines.len(),
{
    if lines.len() > 0 {
        let l = lines[0];
        let rest = lines.drop_first();
        assert(plain_header_lines(rest)) by {
            assert forall|k: int| 0 <= k < rest.len() implies {
                &&& vstd::utf8::is_ascii_chars(#[trigger] rest[k])
                &&& !rest[k].contains('\n')
                &&& trim_end_seq(rest[k]).len() > 0
            } by {
                assert(rest[k] == lines[k + 1]);
            }
        }
        assert(trim_end_seq(l).len() > 0);
        lemma_header_step_plain(cl, l);
        let next = if is_length_line(l) {
            match length_value(l) {
                Some(n) => Some(n as usize),
                None => cl,
            }
        } else {
            cl
        };
        lemma_headers_fold_cases(next, rest);
        if is_length_line(l) && length_value(l) is None {
            assert(is_length_line(lines[0]) && length_value(lines[0]) is None);
        } else {
            assert((exists|k: int| 0 <= k < lines.len() && is_length_line(#[trigger] lines[k]) && length_value(lines[k]) is None)
                <==> (exists|k: int| 0 <= k < rest.len() && is_length_line(#[trigger] rest[k]) && length_value(rest[k]) is None)) by {
                if exists|k: int| 0 <= k < lines.len() && is_length_line(#[trigger] lines[k]) && length_value(lines[k]) is None {
                    let k = choose|k: int| 0 <= k < lines.len() && is_length_line(#[trigger] lines[k]) && length_value(lines[k]) is None;
                    assert(k > 0);
                    assert(rest[k - 1] == lines[k]);
                }
                if exists|k: int| 0 <= k < rest.len() && is_length_line(#[trigger] rest[k]) && length_value(rest[k]) is None {
                    let k = choose|k: int| 0 <= k < rest.len() && is_length_line(#[trigger] rest[k]) && length_value(rest[k]) is None;
                    assert(lines[k + 1] == rest[k]);
                }
            }
            if forall|k: int| 0 <= k < lines.len() ==> !is_length_line(#[trigger] lines[k]) {
                assert(!is_length_line(lines[0]));
                assert forall|k: int| 0 <= k < rest.len() implies !is_length_line(#[trigger] rest[k]) by {
                    assert(rest[k] == lines[k + 1]);
                }
            }
        }
    }
}

/// Read one LSP frame from the bytes of a stream: header lines until a blank
/// line (which must have come after a `Content-Length:`; other headers such
/// as `Content-Type` are ignored), then exactly that many body bytes.
/// Returns the body and the number of bytes consumed; `None` at a clean end
/// between frames.
pub fn read_frame(input: &[u8]) -> (r: Result<Option<(Vec<u8>, usize)>, FrameError>)
    ensures
        match r {
            Ok(Some((body, used))) => frame_from(input@, 0, None) == Ok::<
                Option<(Seq<u8>, int)>,
                FrameError,
            >(Some((body@, used as int))),
            Ok(None) => frame_from(input@, 0, None) == Ok::<Option<(Seq<u8>, int)>, FrameError>(
                None,
            ),
            Err(e) => frame_from(input@, 0, None) == Err::<Option<(Seq<u8>, int)>, FrameError>(e),
        },
{
    let mut pos: usize = 0;
    let mut cl: Option<usize> = None;
    let n = input.len();
    loop
        invariant
            pos <= input@.len(),
            n == input@.len(),
            frame_from(input@, pos as int, cl) == frame_from(input@, 0, None),
        decreases input@.len() - pos,
    {
        if pos == n {
            return if cl.is_none() {
                Ok(None)
            } else {
                Err(FrameError::UnexpectedEof)
            };
        }
        let mut end = pos;
        while end < n && input[end] != 10
            invariant
                pos <= end <= n,
                n == input@.len(),
                find_newline(input@, pos as int) == find_newline(input@, end as int),
            decreases n - end,
        {
            end = end + 1;
        }
        if end < n {
            end = end + 1;
        }
        proof {
            lemma_find_newline(input@, pos as int);
            assert(end == line_end(input@, pos as int));
        }
        let line_bytes = vstd::slice::slice_subrange(input, pos, end);
        let line = match utf8_strict(line_bytes) {
            Some(l) => l,
            None => {
                return Err(FrameError::InvalidUtf8);
            },
        };
        pos = end;
        match header_step(cl, line.as_str()) {
            HeaderStep::More(c) => {
                cl = c;
            },
            HeaderStep::End(len) => {
                if n - pos < len {
                    return Err(FrameError::ShortBody);
                }
                let body = vstd::slice::slice_to_vec(
                    vstd::slice::slice_subrange(input, pos, pos + len),
                );
                return Ok(Some((body, pos + len)));
            },
            HeaderStep::Fail(e) => {
                return Err(e);
            },
        }
    }
}

/// The framed text of a JSON body: `Content-Length: <bytes>`, a blank line,
/// then the body, the length counted in UTF-8 bytes.
pub open spec fn frame_text(body: Seq<char>) -> Seq<char> {
    "Content-Length: "@ + decimal(encode_utf8(body).len()) + "\r\n\r\n"@ + body
}

/// One LSP-framed JSON-RPC message: the compact JSON text of `msg` after its
/// `Content-Length` header.
pub fn frame_message(msg: &JsonValue) -> (r: String)
    ensures
        r@ == frame_text(spec_json_to_string(msg@)),
{
    let body = json_to_string(msg);
    let len = body.as_str().as_bytes().len();
    let a = concat("Content-Length: ", u64_to_string(len as u64).as_str());
    let b = concat(a.as_str(), "\r\n\r\n");
    concat(b.as_str(), body.as_str())
}

// ── JSON-RPC envelopes ──

/// A JSON string.
pub fn jstr(s: &str) -> (r: JsonValue)
    ensures
        r@ == Json::Str(s@),
{
    JsonValue::Str(owned(s))
}

/// `{"jsonrpc": "2.0", "id": id, "result": result}`.
pub open spec fn ok_response_of(id: Json, result: Json) -> Json {
    Json::Object(seq![("jsonrpc"@, Json::Str("2.0"@)), ("id"@, id), ("result"@, result)])
}

/// `{"jsonrpc": "2.0", "id": id, "error": {"code": code, "message": message}}`.
pub open spec fn error_response_of(id: Json, code: int, message: Seq<char>) -> Json {
    Json::Object(
        seq![
            ("jsonrpc"@, Json::Str("2.0"@)),
            ("id"@, id),
            (
                "error"@,
                Json::Object(
                    seq![
                        ("code"@, Json::Number(signed_decimal(code))),
                        ("message"@, Json::Str(message)),
                    ],
                ),
            ),
        ],
    )
}

/// A success response echoing `id`.
pub fn ok_response(id: &JsonValue, result: JsonValue) -> (r: JsonValue)
    ensures
        r@ == ok_response_of(id@, result@),
{
    let m: Vec<(String, JsonValue)> = vec![
        (owned("jsonrpc"), jstr("2.0")),
        (owned("id"), clone_value(id)),
        (owned("result"), result),
    ];
    proof {
        lemma_object_view(m);
        assert(members_view(m@) =~= seq![
            ("jsonrpc"@, Json::Str("2.0"@)),
            ("id"@, id@),
            ("result"@, result@),
        ]);
    }
    JsonValue::Object(m)
}

/// An error response echoing `id`.
pub fn error_response(id: &JsonValue, code: i64, message: &str) -> (r: JsonValue)
    ensures
        r@ == error_response_of(id@, code as int, message@),
{
    let e: Vec<(String, JsonValue)> = vec![
        (owned("code"), JsonValue::Number(i64_to_string(code))),
        (owned("message"), jstr(message)),
    ];
    let ghost ev = seq![
        ("code"@, Json::Number(signed_decimal(code as int))),
        ("message"@, Json::Str(message@)),
    ];
    proof {
        lemma_object_view(e);
        assert(members_view(e@) =~= ev);
    }
    let m: Vec<(String, JsonValue)> = vec![
        (owned("jsonrpc"), jstr("2.0")),
        (owned("id"), clone_value(id)),
        (owned("error"), JsonValue::Object(e)),
    ];
    proof {
        lemma_object_view(m);
        assert(members_view(m@) =~= seq![
            ("jsonrpc"@, Json::Str("2.0"@)),
            ("id"@, id@),
            ("error"@, Json::Object(ev)),
        ]);
    }
    JsonValue::Object(m)
}

/// The language ids this server advertises.
pub open spec fn language_ids_of() -> Json {
    Json::Array(
        seq![
            Json::Str("c"@),
            Json::Str("cpp"@),
            Json::Str("objective-c"@),
            Json::Str("objective-cpp"@),
            Json::Str("swift"@),
        ],
    )
}

/// BSP language ids advertised by this server.
pub fn language_ids() -> (r: JsonValue)
    ensures
        r@ == language_ids_of(),
{
    let a: Vec<JsonValue> = vec![
        jstr("c"),
        jstr("cpp"),
        jstr("objective-c"),
        jstr("objective-cpp"),
        jstr("swift"),
    ];
    proof {
        lemma_array_view(a);
        assert(items_view(a@) =~= seq![
            Json::Str("c"@),
            Json::Str("cpp"@),
            Json::Str("objective-c"@),
            Json::Str("objective-cpp"@),
            Json::Str("swift"@),
        ]);
    }
    JsonValue::Array(a)
}

/// An object of the given members.
pub fn jobject(m: Vec<(String, JsonValue)>) -> (r: JsonValue)
    ensures
        r@ == Json::Object(members_view(m@)),
{
    proof {
        lemma_object_view(m);
    }
    JsonValue::Object(m)
}

/// An array of the given items.
pub fn jarray(a: Vec<JsonValue>) -> (r: JsonValue)
    ensures
        r@ == Json::Array(items_view(a@)),
{
    proof {
        lemma_array_view(a);
    }
    JsonValue::Array(a)
}

/// `{"uri": "dummy://dummy"}`.
pub open spec fn dummy_target_of() -> Json {
    Json::Object(seq![("uri"@, Json::Str("dummy://dummy"@))])
}

fn dummy_target() -> (r: JsonValue)
    ensures
        r@ == dummy_target_of(),
{
    let m = vec![(owned("uri"), jstr("dummy://dummy"))];
    assert(members_view(m@) =~= seq![("uri"@, Json::Str("dummy://dummy"@))]);
    jobject(m)
}

/// The `workspace/buildTargets` result: one dummy target carrying the
/// language ids.
pub open spec fn build_targets_of() -> Json {
    Json::Object(
        seq![
            (
                "targets"@,
                Json::Array(
                    seq![
                        Json::Object(
                            seq![
                                ("id"@, dummy_target_of()),
                                ("displayName"@, Json::Str("BuildServer"@)),
                                ("tags"@, Json::Array(seq![Json::Str("test"@)])),
                                ("capabilities"@, Json::Object(Seq::empty())),
                                ("languageIds"@, language_ids_of()),
                                ("dependencies"@, Json::Array(Seq::empty())),
                            ],
                        ),
                    ],
                ),
            ),
        ],
    )
}

/// The `workspace/buildTargets` result.
pub fn build_targets_result() -> (r: JsonValue)
    ensures
        r@ == build_targets_of(),
{
    let tv0 = vec![jstr("test")];
    assert(items_view(tv0@) =~= seq![Json::Str("test"@)]);
    let tags = jarray(tv0);
    let caps = jobject(Vec::new());
    let deps = jarray(Vec::new());
    let t = vec![
        (owned("id"), dummy_target()),
        (owned("displayName"), jstr("BuildServer")),
        (owned("tags"), tags),
        (owned("capabilities"), caps),
        (owned("languageIds"), language_ids()),
        (owned("dependencies"), deps),
    ];
    proof {
        let e0: Seq<JsonValue> = Seq::empty();
        assert(items_view(e0) =~= Seq::<Json>::empty());
        let e1: Seq<(String, JsonValue)> = Seq::empty();
        assert(members_view(e1) =~= Seq::<(Seq<char>, Json)>::empty());
    }
    let ghost tv = members_view(t@);
    let target = jobject(t);
    let ghost tg = target@;
    let av = vec![target];
    assert(items_view(av@) =~= seq![tg]);
    let arr = jarray(av);
    let ghost ag = arr@;
    let top = vec![(owned("targets"), arr)];
    assert(members_view(top@) =~= seq![("targets"@, ag)]);
    let r = jobject(top);
    assert(r@ =~= build_targets_of()) by {
        assert(tv =~= seq![
            ("id"@, dummy_target_of()),
            ("displayName"@, Json::Str("BuildServer"@)),
            ("tags"@, Json::Array(seq![Json::Str("test"@)])),
            ("capabilities"@, Json::Object(Seq::empty())),
            ("languageIds"@, language_ids_of()),
            ("dependencies"@, Json::Array(Seq::empty())),
        ]);
    }
    r
}

/// The `buildTarget/sources` result: the root directory as the one source.
pub open spec fn sources_of(root: Seq<char>) -> Json {
    Json::Object(
        seq![
            (
                "items"@,
                Json::Array(
                    seq![
                        Json::Object(
                            seq![
                                ("target"@, dummy_target_of()),
                                (
                                    "sources"@,
                                    Json::Array(
                                        seq![
                                            Json::Object(
                                                seq![
                                                    ("uri"@, Json::Str(path_to_uri_of(root))),
                                                    ("kind"@, Json::Number("2"@)),
                                                    ("generated"@, Json::Bool(false)),
                                                ],
                                            ),
                                        ],
                                    ),
                                ),
                            ],
                        ),
                    ],
                ),
            ),
        ],
    )
}

/// The `buildTarget/sources` result.
pub fn sources_result(root: &str) -> (r: JsonValue)
    ensures
        r@ == sources_of(root@),
{
    let src = vec![
        (owned("uri"), JsonValue::Str(path_to_uri(root))),
        (owned("kind"), JsonValue::Number(owned("2"))),
        (owned("generated"), JsonValue::Bool(false)),
    ];
    let ghost sv = members_view(src@);
    let so = jobject(src);
    let ghost sog = so@;
    let sa = vec![so];
    assert(items_view(sa@) =~= seq![sog]);
    let srcs = jarray(sa);
    let ghost srcs_g = srcs@;
    let item = vec![(owned("target"), dummy_target()), (owned("sources"), srcs)];
    let ghost iv = members_view(item@);
    assert(iv =~= seq![("target"@, dummy_target_of()), ("sources"@, srcs_g)]);
    let io = jobject(item);
    let ghost iog = io@;
    let ia = vec![io];
    assert(items_view(ia@) =~= seq![iog]);
    let items = jarray(ia);
    let ghost items_g = items@;
    let top = vec![(owned("items"), items)];
    assert(members_view(top@) =~= seq![("items"@, items_g)]);
    let r = jobject(top);
    assert(r@ =~= sources_of(root@)) by {
        assert(sv =~= seq![
            ("uri"@, Json::Str(path_to_uri_of(root@))),
            ("kind"@, Json::Number("2"@)),
            ("generated"@, Json::Bool(false)),
        ]);
    }
    r
}

/// The `build/initialize` result.
pub open spec fn initialize_result_of(
    root_uri: Seq<char>,
    version: Seq<char>,
    index_store: Option<Seq<char>>,
    index_db: Option<Seq<char>>,
) -> Json {
    Json::Object(
        seq![
            ("displayName"@, Json::Str("xcode-tools bsp"@)),
            ("version"@, Json::Str(version)),
            ("bspVersion"@, Json::Str("2.2.0"@)),
            ("rootUri"@, Json::Str(root_uri)),
            ("capabilities"@, Json::Object(seq![("languageIds"@, language_ids_of())])),
            ("data"@, Json::Object(initialize_data_of(index_store, index_db))),
            ("dataKind"@, Json::Str("sourceKit"@)),
        ],
    )
}

/// The SourceKit data of the `build/initialize` result: the index paths
/// only where they are known.
pub open spec fn initialize_data_of(index_store: Option<Seq<char>>, index_db: Option<Seq<char>>) -> Seq<
    (Seq<char>, Json),
> {
    seq![("sourceKitOptionsProvider"@, Json::Bool(true))] + match index_store {
        Some(p) => seq![("indexStorePath"@, Json::Str(p))],
        None => Seq::empty(),
    } + match index_db {
        Some(p) => seq![("indexDatabasePath"@, Json::Str(p))],
        None => Seq::empty(),
    }
}

/// The view of an optional string.
pub open spec fn opt_string(o: Option<String>) -> Option<Seq<char>> {
    match o {
        Some(s) => Some(s@),
        None => None,
    }
}

/// The `build/initialize` result, advertising SourceKit options and the
/// index store and database when known.
pub fn initialize_result(
    root_uri: &str,
    version: &str,
    index_store: Option<String>,
    index_db: Option<String>,
) -> (r: JsonValue)
    ensures
        r@ == initialize_result_of(root_uri@, version@, opt_string(index_store), opt_string(index_db)),
{
    let mut data: Vec<(String, JsonValue)> = vec![
        (owned("sourceKitOptionsProvider"), JsonValue::Bool(true)),
    ];
    let ghost d0 = members_view(data@);
    assert(d0 =~= seq![("sourceKitOptionsProvider"@, Json::Bool(true))]);
    match &index_store {
        Some(p) => {
            data.push((owned("indexStorePath"), jstr(p.as_str())));
        },
        None => {},
    }
    let ghost d1 = members_view(data@);
    assert(d1 =~= d0 + match opt_string(index_store) {
        Some(p) => seq![("indexStorePath"@, Json::Str(p))],
        None => Seq::empty(),
    });
    match &index_db {
        Some(p) => {
            data.push((owned("indexDatabasePath"), jstr(p.as_str())));
        },
        None => {},
    }
    let ghost d2 = members_view(data@);
    assert(d2 =~= initialize_data_of(opt_string(index_store), opt_string(index_db)));
    let cm = vec![(owned("languageIds"), language_ids())];
    assert(members_view(cm@) =~= seq![("languageIds"@, language_ids_of())]);
    let caps = jobject(cm);
    let ghost dv = initialize_data_of(opt_string(index_store), opt_string(index_db));
    let m = vec![
        (owned("displayName"), jstr("xcode-tools bsp")),
        (owned("version"), jstr(version)),
        (owned("bspVersion"), jstr("2.2.0")),
        (owned("rootUri"), jstr(root_uri)),
        (owned("capabilities"), caps),
        (owned("data"), jobject(data)),
        (owned("dataKind"), jstr("sourceKit")),
    ];
    let ghost mv = members_view(m@);
    let r = jobject(m);
    assert(mv =~= seq![
        ("displayName"@, Json::Str("xcode-tools bsp"@)),
        ("version"@, Json::Str(version@)),
        ("bspVersion"@, Json::Str("2.2.0"@)),
        ("rootUri"@, Json::Str(root_uri@)),
        ("capabilities"@, Json::Object(seq![("languageIds"@, language_ids_of())])),
        ("data"@, Json::Object(dv)),
        ("dataKind"@, Json::Str("sourceKit"@)),
    ]);
    r
}

/// `buildTarget/didChange` with `changes: null` ("all targets changed"):
/// the client re-queries every open file.
pub open spec fn did_change_of() -> Json {
    Json::Object(
        seq![
            ("jsonrpc"@, Json::Str("2.0"@)),
            ("method"@, Json::Str("buildTarget/didChange"@)),
            ("params"@, Json::Object(seq![("changes"@, Json::Null)])),
        ],
    )
}

/// The `buildTarget/didChange` notification.
pub fn did_change_notification() -> (r: JsonValue)
    ensures
        r@ == did_change_of(),
{
    let p = vec![(owned("changes"), JsonValue::Null)];
    assert(members_view(p@) =~= seq![("changes"@, Json::Null)]);
    let m = vec![
        (owned("jsonrpc"), jstr("2.0")),
        (owned("method"), jstr("buildTarget/didChange")),
        (owned("params"), jobject(p)),
    ];
    let ghost mv = members_view(m@);
    let r = jobject(m);
    assert(mv =~= seq![
        ("jsonrpc"@, Json::Str("2.0"@)),
        ("method"@, Json::Str("buildTarget/didChange"@)),
        ("params"@, Json::Object(seq![("changes"@, Json::Null)])),
    ]);
    r
}

// ── Dispatch ──

/// What to do with one incoming message.
pub enum Dispatch {
    /// Send this response.
    Reply(JsonValue),
    /// `build/initialize`: set the session up from the root URI, then answer
    /// the request id with `initialize_result`.
    Initialize(JsonValue, String),
    /// A `sourceKitOptions` request: route the document URI (if any) to its
    /// target and answer the request id.
    SourceKitOptions(JsonValue, Option<String>),
    /// A notification: nothing to send.
    Silent,
}

/// The view of a dispatch decision.
pub enum DispatchV {
    Reply(Json),
    Initialize(Json, Seq<char>),
    SourceKitOptions(Json, Option<Seq<char>>),
    Silent,
}

impl View for Dispatch {
    type V = DispatchV;

    open spec fn view(&self) -> DispatchV {
        match self {
            Dispatch::Reply(r) => DispatchV::Reply(r@),
            Dispatch::Initialize(id, u) => DispatchV::Initialize(id@, u@),
            Dispatch::SourceKitOptions(id, u) => DispatchV::SourceKitOptions(id@, opt_string(*u)),
            Dispatch::Silent => DispatchV::Silent,
        }
    }
}

/// The `method` of a message (empty when missing).
pub open spec fn method_of(msg: Json) -> Seq<char> {
    match json_str(json_get(msg, "method"@)) {
        Some(m) => m,
        None => Seq::empty(),
    }
}

/// A reply for requests, silence for notifications.
pub open spec fn reply_to(id: Option<Json>, reply: spec_fn(Json) -> Json) -> DispatchV {
    match id {
        Some(i) => DispatchV::Reply(reply(i)),
        None => DispatchV::Silent,
    }
}

/// The dispatch of one message. Before `build/initialize` every request is
/// refused with code 123; unknown requests are refused with 123 too;
/// notifications are never answered.
pub open spec fn dispatch_of(initialized: bool, root: Seq<char>, msg: Json) -> DispatchV {
    let m = method_of(msg);
    let id = json_get(msg, "id"@);
    if !initialized && m != "build/initialize"@ {
        reply_to(id, |i: Json| error_response_of(i, 123, "server not initialized"@))
    } else if m == "build/initialize"@ {
        match id {
            Some(i) => DispatchV::Initialize(
                i,
                match json_str(json_get_opt(json_get(msg, "params"@), "rootUri"@)) {
                    Some(u) => u,
                    None => Seq::empty(),
                },
            ),
            None => DispatchV::Silent,
        }
    } else if m == "build/initialized"@ || m == "build/exit"@ {
        DispatchV::Silent
    } else if m == "workspace/buildTargets"@ {
        reply_to(id, |i: Json| ok_response_of(i, build_targets_of()))
    } else if m == "buildTarget/sources"@ {
        reply_to(id, |i: Json| ok_response_of(i, sources_of(root)))
    } else if m == "textDocument/sourceKitOptions"@ || m == "sourcekit/textDocument/sourceKitOptions"@ {
        match id {
            Some(i) => DispatchV::SourceKitOptions(
                i,
                json_str(
                    json_get_opt(json_get_opt(json_get(msg, "params"@), "textDocument"@), "uri"@),
                ),
            ),
            None => DispatchV::Silent,
        }
    } else if m == "workspace/waitForBuildSystemUpdates"@ || m
        == "sourcekit/workspace/waitForBuildSystemUpdates"@ {
        reply_to(id, |i: Json| ok_response_of(i, Json::Object(Seq::empty())))
    } else if m == "buildTarget/prepare"@ || m == "sourcekit/buildTarget/prepare"@ || m
        == "build/shutdown"@ {
        reply_to(id, |i: Json| ok_response_of(i, Json::Null))
    } else {
        reply_to(id, |i: Json| error_response_of(i, 123, "unhandled method "@ + m))
    }
}

/// Dispatch one message (a parsed JSON-RPC body). `initialized` says
/// whether `build/initialize` has been answered; `root` is the session's
/// root directory.
pub fn handle_message(initialized: bool, root: &str, msg: &JsonValue) -> (r: Dispatch)
    ensures
        r@ == dispatch_of(initialized, root@, msg@),
{
    proof {
        reveal_strlit("");
        assert(""@ =~= Seq::<char>::empty());
    }
    let method: &str = match as_str(get(msg, "method")) {
        Some(m) => m,
        None => "",
    };
    let id = get(msg, "id");
    if !initialized && !str_eq(method, "build/initialize") {
        return match id {
            Some(i) => Dispatch::Reply(error_response(i, 123, "server not initialized")),
            None => Dispatch::Silent,
        };
    }
    if str_eq(method, "build/initialize") {
        return match id {
            Some(i) => {
                let root_uri = match as_str(get_opt(get(msg, "params"), "rootUri")) {
                    Some(u) => owned(u),
                    None => owned(""),
                };
                Dispatch::Initialize(clone_value(i), root_uri)
            },
            None => Dispatch::Silent,
        };
    }
    if str_eq(method, "build/initialized") || str_eq(method, "build/exit") {
        return Dispatch::Silent;
    }
    let i = match id {
        Some(i) => i,
        None => {
            return Dispatch::Silent;
        },
    };
    if str_eq(method, "workspace/buildTargets") {
        Dispatch::Reply(ok_response(i, build_targets_result()))
    } else if str_eq(method, "buildTarget/sources") {
        Dispatch::Reply(ok_response(i, sources_result(root)))
    } else if str_eq(method, "textDocument/sourceKitOptions") || str_eq(
        method,
        "sourcekit/textDocument/sourceKitOptions",
    ) {
        let uri = match as_str(get_opt(get_opt(get(msg, "params"), "textDocument"), "uri")) {
            Some(u) => Some(owned(u)),
            None => None,
        };
        Dispatch::SourceKitOptions(clone_value(i), uri)
    } else if str_eq(method, "workspace/waitForBuildSystemUpdates") || str_eq(
        method,
        "sourcekit/workspace/waitForBuildSystemUpdates",
    ) {
        let e: Vec<(String, JsonValue)> = Vec::new();
        assert(members_view(e@) =~= Seq::<(Seq<char>, Json)>::empty());
        Dispatch::Reply(ok_response(i, jobject(e)))
    } else if str_eq(method, "buildTarget/prepare") || str_eq(method, "sourcekit/buildTarget/prepare")
        || str_eq(method, "build/shutdown") {
        Dispatch::Reply(ok_response(i, JsonValue::Null))
    } else {
        let text = concat("unhandled method ", method);
        Dispatch::Reply(error_response(i, 123, text.as_str()))
    }
}

/// Law: every response echoes the id of the request it answers, and a
/// message without an id (a notification) is never answered.
pub proof fn lemma_reply_echoes_id(initialized: bool, root: Seq<char>, msg: Json)
    ensures
        dispatch_of(initialized, root, msg) matches DispatchV::Reply(r) ==> json_get(msg, "id"@)
            matches Some(i) && json_get(r, "id"@) == Some(i),
        json_get(msg, "id"@) is None ==> dispatch_of(initialized, root, msg) == DispatchV::Silent,
        dispatch_of(initialized, root, msg) matches DispatchV::Initialize(i, _) ==> json_get(
            msg,
            "id"@,
        ) == Some(i),
        dispatch_of(initialized, root, msg) matches DispatchV::SourceKitOptions(i, _) ==> json_get(
            msg,
            "id"@,
        ) == Some(i),
{
    if let Some(i) = json_get(msg, "id"@) {
        assert forall|result: Json| #[trigger] json_get(ok_response_of(i, result), "id"@) == Some(i) by {
            lemma_ok_response_id(i, result);
        }
        assert forall|code: int, m: Seq<char>| #[trigger] json_get(error_response_of(i, code, m), "id"@)
            == Some(i) by {
            lemma_error_response_id(i, code, m);
        }
    }
}

proof fn lemma_jsonrpc_not_id()
    ensures
        "jsonrpc"@ != "id"@,
{
    reveal_strlit("jsonrpc");
    reveal_strlit("id");
    assert("jsonrpc"@[0] != "id"@[0]);
}

proof fn lemma_ok_response_id(i: Json, result: Json)
    ensures
        json_get(ok_response_of(i, result), "id"@) == Some(i),
{
    lemma_jsonrpc_not_id();
    reveal_with_fuel(crate::json::member_lookup, 2);
    let ms = seq![("jsonrpc"@, Json::Str("2.0"@)), ("id"@, i), ("result"@, result)];
    assert(ms.drop_first()[0] == ("id"@, i));
}

proof fn lemma_error_response_id(i: Json, code: int, m: Seq<char>)
    ensures
        json_get(error_response_of(i, code, m), "id"@) == Some(i),
{
    lemma_jsonrpc_not_id();
    reveal_with_fuel(crate::json::member_lookup, 2);
    let ms = match error_response_of(i, code, m) {
        Json::Object(x) => x,
        _ => Seq::empty(),
    };
    assert(ms.drop_first()[0].0 == "id"@);
}

/// A JSON-RPC response envelope for `id`: `jsonrpc` is `"2.0"`, the id is
/// echoed, and exactly one of `result` and `error` is present.
pub open spec fn is_envelope(r: Json, id: Json) -> bool {
    &&& json_get(r, "jsonrpc"@) == Some(Json::Str("2.0"@))
    &&& json_get(r, "id"@) == Some(id)
    &&& (json_get(r, "result"@) is Some) != (json_get(r, "error"@) is Some)
}

proof fn lemma_envelope_keys_distinct()
    ensures
        "jsonrpc"@ != "id"@,
        "jsonrpc"@ != "result"@,
        "jsonrpc"@ != "error"@,
        "id"@ != "result"@,
        "id"@ != "error"@,
        "result"@ != "error"@,
{
    reveal_strlit("jsonrpc");
    reveal_strlit("id");
    reveal_strlit("result");
    reveal_strlit("error");
    assert("jsonrpc"@[0] != "id"@[0]);
    assert("jsonrpc"@[0] != "result"@[0]);
    assert("jsonrpc"@[0] != "error"@[0]);
    assert("id"@[0] != "result"@[0]);
    assert("id"@[0] != "error"@[0]);
    assert("result"@[0] != "error"@[0]);
}

/// Lookups in a three-member object with distinct keys.
proof fn lemma_three_members(ms: Seq<(Seq<char>, Json)>, k: Seq<char>)
    requires
        ms.len() == 3,
        ms[0].0 != ms[1].0,
        ms[0].0 != ms[2].0,
        ms[1].0 != ms[2].0,
    ensures
        k == ms[0].0 ==> crate::json::member_lookup(ms, k) == Some(ms[0].1),
        k == ms[1].0 ==> crate::json::member_lookup(ms, k) == Some(ms[1].1),
        k == ms[2].0 ==> crate::json::member_lookup(ms, k) == Some(ms[2].1),
        k != ms[0].0 && k != ms[1].0 && k != ms[2].0 ==> crate::json::member_lookup(ms, k) is None,
{
    reveal_with_fuel(crate::json::member_lookup, 4);
    let d1 = ms.drop_first();
    let d2 = d1.drop_first();
    assert(d1[0] == ms[1] && d1[1] == ms[2]);
    assert(d2[0] == ms[2]);
    assert(d2.drop_first().len() == 0);
}

/// `ok_response_of` and `error_response_of` are envelopes.
pub proof fn lemma_responses_are_envelopes(i: Json, result: Json, code: int, m: Seq<char>)
    ensures
        is_envelope(ok_response_of(i, result), i),
        is_envelope(error_response_of(i, code, m), i),
{
    lemma_envelope_keys_distinct();
    let ok = seq![("jsonrpc"@, Json::Str("2.0"@)), ("id"@, i), ("result"@, result)];
    lemma_three_members(ok, "jsonrpc"@);
    lemma_three_members(ok, "id"@);
    lemma_three_members(ok, "result"@);
    lemma_three_members(ok, "error"@);
    let em = match error_response_of(i, code, m) {
        Json::Object(x) => x,
        _ => Seq::empty(),
    };
    lemma_three_members(em, "jsonrpc"@);
    lemma_three_members(em, "id"@);
    lemma_three_members(em, "result"@);
    lemma_three_members(em, "error"@);
}

/// Law: every reply is a JSON-RPC envelope for the request's id; and once
/// initialized, every request (a message with an id) other than the
/// `build/initialized` and `build/exit` notifications gets an answer.
pub proof fn lemma_reply_shape(initialized: bool, root: Seq<char>, msg: Json)
    ensures
        dispatch_of(initialized, root, msg) matches DispatchV::Reply(r) ==> json_get(msg, "id"@) matches Some(i)
            && is_envelope(r, i),
        initialized && json_get(msg, "id"@) is Some && method_of(msg) != "build/initialized"@ && method_of(msg)
            != "build/exit"@ ==> !(dispatch_of(initialized, root, msg) is Silent),
{
    if let Some(i) = json_get(msg, "id"@) {
        assert forall|result: Json| #[trigger] is_envelope(ok_response_of(i, result), i) by {
            lemma_responses_are_envelopes(i, result, 0, Seq::empty());
        }
        assert forall|code: int, m: Seq<char>| #[trigger] is_envelope(error_response_of(i, code, m), i) by {
            lemma_responses_are_envelopes(i, Json::Null, code, m);
        }
    }
}

/// Law: before initialization, every request other than `build/initialize`
/// is answered with error 123 and nothing else happens.
pub proof fn lemma_uninitialized_refuses(root: Seq<char>, msg: Json)
    requires
        method_of(msg) != "build/initialize"@,
        json_get(msg, "id"@) is Some,
    ensures
        dispatch_of(false, root, msg) == DispatchV::Reply(
            error_response_of(json_get(msg, "id"@)->0, 123, "server not initialized"@),
        ),
{
}

// ── The `synth` debug command line ──

/// Parsed `synth` arguments.
pub struct SynthArgs {
    pub project: String,
    pub project_flag: String,
    pub scheme: Option<String>,
    pub file: String,
}

/// Options seen so far: project, project flag, scheme, file.
pub type SynthScan = (Option<Seq<char>>, Seq<char>, Option<Seq<char>>, Option<Seq<char>>);

/// Reading `--project P | --workspace P | --scheme S | --file F` from `i` on.
pub open spec fn synth_scan(args: Seq<Seq<char>>, i: int, st: SynthScan) -> Result<SynthScan, Seq<char>>
    decreases args.len() - i,
{
    if i < 0 || i >= args.len() {
        Ok(st)
    } else {
        let a = args[i];
        if a == "--project"@ || a == "--workspace"@ || a == "--scheme"@ || a == "--file"@ {
            if i + 1 >= args.len() {
                Err("missing value for "@ + a)
            } else {
                let v = args[i + 1];
                let (p, f, s, file) = st;
                let next = if a == "--project"@ {
                    (Some(v), "-project"@, s, file)
                } else if a == "--workspace"@ {
                    (Some(v), "-workspace"@, s, file)
                } else if a == "--scheme"@ {
                    (p, f, Some(v), file)
                } else {
                    (p, f, s, Some(v))
                };
                synth_scan(args, i + 2, next)
            }
        } else {
            Err("unknown synth arg: "@ + a)
        }
    }
}

/// The `synth` arguments: the options read in order, then a project and a
/// file required.
pub open spec fn synth_args_of(args: Seq<Seq<char>>) -> Result<SynthScan, Seq<char>> {
    match synth_scan(args, 0, (None, "-project"@, None, None)) {
        Err(e) => Err(e),
        Ok(st) => if st.0 is None {
            Err("synth: --project or --workspace is required"@)
        } else if st.3 is None {
            Err("synth: --file is required"@)
        } else {
            Ok(st)
        },
    }
}

/// The view of parsed `synth` arguments.
pub open spec fn synth_view(a: SynthArgs) -> SynthScan {
    (Some(a.project@), a.project_flag@, opt_string(a.scheme), Some(a.file@))
}

/// The value after the option at `*i`; moves `*i` onto it.
pub fn next_value(args: &Vec<String>, i: &mut usize) -> (r: Result<String, String>)
    requires
        *old(i) < args@.len(),
    ensures
        *final(i) == *old(i) + 1,
        match r {
            Ok(v) => *final(i) < args@.len() && v@ == args@[*final(i) as int]@,
            Err(e) => *final(i) >= args@.len() && e@ == "missing value for "@ + args@[*old(i) as int]@,
        },
{
    let len = args.len();
    *i = *i + 1;
    if *i < len {
        Ok(args[*i].clone())
    } else {
        Err(concat("missing value for ", args[*i - 1].as_str()))
    }
}

/// Parse `synth (--project P | --workspace P) [--scheme S] --file F`.
pub fn parse_synth_args(args: &Vec<String>) -> (r: Result<SynthArgs, String>)
    ensures
        match r {
            Ok(a) => synth_args_of(crate::text::strs_view(args@)) == Ok::<SynthScan, Seq<char>>(
                synth_view(a),
            ),
            Err(e) => synth_args_of(crate::text::strs_view(args@)) == Err::<SynthScan, Seq<char>>(
                e@,
            ),
        },
{
    let ghost av = crate::text::strs_view(args@);
    let mut project: Option<String> = None;
    let mut project_flag = owned("-project");
    let mut scheme: Option<String> = None;
    let mut file: Option<String> = None;
    let mut i: usize = 0;
    while i < args.len()
        invariant
            i <= args@.len(),
            av == crate::text::strs_view(args@),
            synth_scan(av, i as int, (opt_string(project), project_flag@, opt_string(scheme), opt_string(file)))
                == synth_scan(av, 0, (None, "-project"@, None, None)),
        decreases args@.len() - i,
    {
        let a = args[i].as_str();
        let is_project = str_eq(a, "--project");
        let is_workspace = str_eq(a, "--workspace");
        let is_scheme = str_eq(a, "--scheme");
        let is_file = str_eq(a, "--file");
        if !(is_project || is_workspace || is_scheme || is_file) {
            return Err(concat("unknown synth arg: ", a));
        }
        let v = match next_value(args, &mut i) {
            Ok(v) => v,
            Err(e) => {
                return Err(e);
            },
        };
        if is_project {
            project = Some(v);
            project_flag = owned("-project");
        } else if is_workspace {
            project = Some(v);
            project_flag = owned("-workspace");
        } else if is_scheme {
            scheme = Some(v);
        } else {
            file = Some(v);
        }
        i = i + 1;
    }
    let project = match project {
        Some(p) => p,
        None => {
            return Err(owned("synth: --project or --workspace is required"));
        },
    };
    let file = match file {
        Some(f) => f,
        None => {
            return Err(owned("synth: --file is required"));
        },
    };
    Ok(SynthArgs { project, project_flag, scheme, file })
}

// ── Frame round trip ──

/// UTF-8 encoding distributes over concatenation.
pub proof fn lemma_encode_concat(a: Seq<char>, b: Seq<char>)
    ensures
        encode_utf8(a + b) == encode_utf8(a) + encode_utf8(b),
    decreases a.len(),
{
    if a.len() == 0 {
        assert(a + b =~= b);
        assert(encode_utf8(a) =~= Seq::<u8>::empty());
        assert(encode_utf8(a) + encode_utf8(b) =~= encode_utf8(b));
    } else {
        lemma_encode_concat(a.drop_first(), b);
        assert((a + b).drop_first() =~= a.drop_first() + b);
        assert((a + b)[0] == a[0]);
        assert(encode_utf8(a + b) =~= vstd::utf8::encode_scalar(a[0] as u32) + encode_utf8(
            a.drop_first(),
        ) + encode_utf8(b));
    }
}

/// The decimal text of a number: non-empty digits whose value is it.
proof fn lemma_decimal(n: nat)
    ensures
        decimal(n).len() > 0,
        all_digits(decimal(n)),
        digits_value(decimal(n)) == n,
    decreases n,
{
    reveal_with_fuel(digits_value, 2);
    let r = (n % 10) as nat;
    assert(r < 10);
    assert(((48 + r) as char) as u32 == 48 + r);
    assert(crate::text::digit_char(r) as u32 == 48 + r);
    if n < 10 {
        assert(r == n);
        let s = decimal(n);
        assert(s.drop_last() =~= Seq::<char>::empty());
    } else {
        lemma_decimal(n / 10);
        let d = decimal(n / 10);
        let s = d.push(crate::text::digit_char(n % 10));
        assert(n == (n / 10) * 10 + n % 10);
        assert(s.drop_last() =~= d);
        assert forall|i: int| 0 <= i < s.len() implies is_digit(#[trigger] s[i]) by {
            if i < d.len() {
                assert(s[i] == d[i]);
            }
        }
    }
}

proof fn lemma_find_newline_at(b: Seq<u8>, from: int, i: int)
    requires
        0 <= from <= i < b.len(),
        b[i] == 10,
        forall|k: int| from <= k < i ==> b[k] != 10,
    ensures
        find_newline(b, from) == i,
    decreases i - from,
{
    if from < i {
        lemma_find_newline_at(b, from + 1, i);
    }
}

proof fn lemma_trim_end_digits(d: Seq<char>, tail: Seq<char>)
    requires
        d.len() > 0,
        !is_ws(d.last()),
        forall|k: int| 0 <= k < tail.len() ==> is_ws(#[trigger] tail[k]),
    ensures
        trim_end_seq(d + tail) == d,
    decreases tail.len(),
{
    if tail.len() == 0 {
        assert(d + tail =~= d);
    } else {
        assert((d + tail).drop_last() =~= d + tail.drop_last());
        assert((d + tail).last() == tail.last());
        lemma_trim_end_digits(d, tail.drop_last());
    }
}

/// The header line of a frame: `Content-Length: <n>` and its line ending.
pub open spec fn header_line_text(n: nat) -> Seq<char> {
    "Content-Length: "@ + decimal(n) + seq!['\r', '\n']
}

/// The header line is ASCII, ends with its only newline, and sets the
/// content length.
proof fn lemma_header_line(n: nat)
    requires
        n <= MAX_MESSAGE_BYTES,
    ensures
        vstd::utf8::is_ascii_chars(header_line_text(n)),
        header_line_text(n).len() >= 2,
        header_line_text(n).last() == '\n',
        forall|k: int| 0 <= k < header_line_text(n).len() - 1 ==> #[trigger] header_line_text(n)[k] != '\n',
        header_step_of(None, header_line_text(n)) == HeaderStep::More(Some(n as usize)),
{
    reveal_strlit("Content-Length: ");
    reveal_strlit("Content-Length:");
    let lit = "Content-Length: "@;
    let dec = decimal(n);
    lemma_decimal(n);
    let crlf = seq!['\r', '\n'];
    let t = lit + dec;
    let h = header_line_text(n);
    assert(h =~= t + crlf);
    assert forall|i: int| 0 <= i < h.len() implies '\0' <= #[trigger] h[i] <= '\u{7f}' && (i < h.len() - 1 ==> h[i] != '\n') by {
        if lit.len() <= i < lit.len() + dec.len() {
            assert(h[i] == dec[i - lit.len()]);
            assert(is_digit(dec[i - lit.len()]));
        }
    }
    assert(!is_ws(t.last())) by {
        assert(t.last() == dec.last());
        assert(is_digit(dec[dec.len() - 1]));
    }
    lemma_trim_end_digits(t, crlf);
    assert("Content-Length:"@.is_prefix_of(t));
    let rest = t.subrange(15, t.len() as int);
    assert(rest =~= seq![' '] + dec);
    assert(is_digit(dec[0]));
    lemma_trim_start_space(rest, dec);
    assert(trim_end_seq(dec) == dec) by {
        assert(is_digit(dec[dec.len() - 1]));
    }
    assert(dec[0] != '+');
    assert(parse_usize_of(dec) == Some(n));
}

/// The blank line ends the headers.
proof fn lemma_blank_line(n: nat)
    requires
        n <= MAX_MESSAGE_BYTES,
    ensures
        header_step_of(Some(n as usize), seq!['\r', '\n']) == HeaderStep::End(n as usize),
{
    let crlf = seq!['\r', '\n'];
    reveal_with_fuel(trim_end_seq, 3);
    assert(crlf.drop_last() =~= seq!['\r']);
    assert(seq!['\r'].drop_last() =~= Seq::<char>::empty());
}

/// The bytes of an ASCII line whose only newline ends it, followed by
/// anything: the line ends right after it.
proof fn lemma_ascii_line_end(line: Seq<char>, after: Seq<u8>, from: int)
    requires
        vstd::utf8::is_ascii_chars(line),
        line.len() >= 1,
        line.last() == '\n',
        forall|k: int| 0 <= k < line.len() - 1 ==> #[trigger] line[k] != '\n',
        0 <= from,
    ensures
        ({
            let b = encode_utf8(line);
            let pre = Seq::<u8>::new(from as nat, |i: int| 0u8);
            let input = pre + (b + after);
            line_end(input, from) == from + b.len() && input.subrange(from, from + b.len()) == b
        }),
{
    crate::uri::lemma_encode_ascii(line);
    let b = encode_utf8(line);
    let pre = Seq::<u8>::new(from as nat, |i: int| 0u8);
    let input = pre + (b + after);
    assert forall|k: int| from <= k < from + b.len() - 1 implies input[k] != 10 by {
        assert(input[k] == b[k - from]);
        assert(b[k - from] == line[k - from] as u8);
    }
    assert(input[from + b.len() - 1] == 10) by {
        assert(input[from + b.len() - 1] == b[b.len() - 1]);
        assert(b[b.len() - 1] == line[line.len() - 1] as u8);
    }
    lemma_find_newline_at(input, from, from + b.len() - 1);
    assert(input.subrange(from, from + b.len()) =~= b);
}

/// A framed message is read back as its body, the whole input consumed.
#[verifier::rlimit(40)]
pub proof fn lemma_frame_round_trip(body: Seq<char>)
    requires
        encode_utf8(body).len() <= MAX_MESSAGE_BYTES,
    ensures
        frame_from(encode_utf8(frame_text(body)), 0, None) == Ok::<Option<(Seq<u8>, int)>, FrameError>(
            Some((encode_utf8(body), encode_utf8(frame_text(body)).len() as int)),
        ),
{
    reveal_strlit("\r\n\r\n");
    let n = encode_utf8(body).len();
    let crlf = seq!['\r', '\n'];
    let h = header_line_text(n);
    assert("\r\n\r\n"@ =~= crlf + crlf);
    assert(frame_text(body) =~= h + (crlf + body));
    lemma_encode_concat(h, crlf + body);
    lemma_encode_concat(crlf, body);
    lemma_header_line(n);
    lemma_blank_line(n);
    assert(vstd::utf8::is_ascii_chars(crlf));
    crate::uri::lemma_encode_ascii(crlf);
    let hb = encode_utf8(h);
    let eb = encode_utf8(crlf);
    let bb = encode_utf8(body);
    let input = encode_utf8(frame_text(body));
    assert(input == hb + (eb + bb));
    // First line.
    lemma_ascii_line_end(h, eb + bb, 0);
    assert(Seq::<u8>::new(0, |i: int| 0u8) + (hb + (eb + bb)) =~= input);
    vstd::utf8::encode_utf8_valid_utf8(h);
    vstd::utf8::encode_utf8_decode_utf8(h);
    // Second line.
    let p1 = hb.len() as int;
    lemma_ascii_line_end(crlf, bb, p1);
    let pre1 = Seq::<u8>::new(p1 as nat, |i: int| 0u8);
    assert(input.subrange(p1, input.len() as int) =~= eb + bb);
    assert(forall|k: int| p1 <= k < input.len() ==> #[trigger] input[k] == (pre1 + (eb + bb))[k]);
    lemma_line_end_suffix(input, pre1 + (eb + bb), p1);
    vstd::utf8::encode_utf8_valid_utf8(crlf);
    vstd::utf8::encode_utf8_decode_utf8(crlf);
    assert(eb.len() == 2);
    // The body.
    assert(input.subrange(p1 + 2, p1 + 2 + n) =~= bb);
    assert(frame_from(input, p1, Some(n as usize)) == Ok::<Option<(Seq<u8>, int)>, FrameError>(
        Some((bb, input.len() as int)),
    ));
}

/// The end of the line at `p` depends only on the bytes from `p` on.
proof fn lemma_line_end_suffix(a: Seq<u8>, b: Seq<u8>, p: int)
    requires
        0 <= p <= a.len(),
        a.len() == b.len(),
        forall|k: int| p <= k < a.len() ==> #[trigger] a[k] == b[k],
    ensures
        line_end(a, p) == line_end(b, p),
        forall|e: int| p <= e <= a.len() ==> #[trigger] a.subrange(p, e) == b.subrange(p, e),
{
    lemma_find_newline_same(a, b, p);
    assert forall|e: int| p <= e <= a.len() implies #[trigger] a.subrange(p, e) == b.subrange(p, e) by {
        assert(a.subrange(p, e) =~= b.subrange(p, e));
    }
}

proof fn lemma_find_newline_same(a: Seq<u8>, b: Seq<u8>, p: int)
    requires
        0 <= p <= a.len(),
        a.len() == b.len(),
        forall|k: int| p <= k < a.len() ==> #[trigger] a[k] == b[k],
    ensures
        find_newline(a, p) == find_newline(b, p),
    decreases a.len() - p,
{
    if p < a.len() && a[p] != 10 {
        lemma_find_newline_same(a, b, p + 1);
    }
}

/// `" " + d` with `d` starting with a digit trims at the front to `d`.
proof fn lemma_trim_start_space(rest: Seq<char>, d: Seq<char>)
    requires
        rest == seq![' '] + d,
        d.len() > 0,
        is_digit(d[0]),
    ensures
        crate::text::trim_start_seq(rest) == d,
{
    assert(rest.drop_first() =~= d);
    assert(is_ws(rest[0]));
    assert(!is_ws(d[0]));
    reveal_with_fuel(crate::text::trim_start_seq, 2);
}

} // verus!
