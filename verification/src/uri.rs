//! `file://` URIs for paths: percent-encoding of a path's UTF-8 bytes (the
//! path separator and unreserved characters stay literal) and decoding back.

use vstd::prelude::*;
use vstd::utf8::{decode_utf8, encode_utf8, valid_utf8};
use crate::text::{char_from_ascii, from_chars, strip_prefix, to_chars};

verus! {

broadcast use vstd::string::group_string_axioms;

/// What `String::from_utf8_lossy` makes of bytes that are not UTF-8 (each
/// maximal invalid run becomes U+FFFD).
pub uninterp spec fn spec_utf8_lossy(b: Seq<u8>) -> Seq<char>;

/// Decodes bytes as UTF-8, replacing invalid sequences, with
/// `String::from_utf8_lossy`: valid input decodes exactly; the result on
/// other input is named `spec_utf8_lossy`.
#[verifier::external_body]
pub fn utf8_lossy(b: &[u8]) -> (r: String)
    ensures
        valid_utf8(b@) ==> r@ == decode_utf8(b@),
        !valid_utf8(b@) ==> r@ == spec_utf8_lossy(b@),
{
    String::from_utf8_lossy(b).into_owned()
}

/// Decodes bytes as UTF-8 with `std::str::from_utf8`: `None` exactly when
/// they are not UTF-8.
#[verifier::external_body]
pub fn utf8_strict(b: &[u8]) -> (r: Option<String>)
    ensures
        r is Some <==> valid_utf8(b@),
        r matches Some(s) ==> s@ == decode_utf8(b@),
{
    match std::str::from_utf8(b) {
        Ok(s) => Some(s.to_string()),
        Err(_) => None,
    }
}

/// The value of an ASCII hex digit.
pub open spec fn hex_val_of(b: u8) -> Option<u8> {
    if 48 <= b <= 57 {
        Some((b - 48) as u8)
    } else if 97 <= b <= 102 {
        Some((b - 97 + 10) as u8)
    } else if 65 <= b <= 70 {
        Some((b - 65 + 10) as u8)
    } else {
        None
    }
}

/// The value of an ASCII hex digit (either case).
pub fn hex_val(b: u8) -> (r: Option<u8>)
    ensures
        r == hex_val_of(b),
{
    if 48 <= b && b <= 57 {
        Some(b - 48)
    } else if 97 <= b && b <= 102 {
        Some(b - 97 + 10)
    } else if 65 <= b && b <= 70 {
        Some(b - 65 + 10)
    } else {
        None
    }
}

/// Percent-decoding of bytes: `%` and two hex digits give one byte; any
/// other byte (a `%` without two digits after it too) stays.
pub open spec fn percent_decode_bytes(b: Seq<u8>) -> Seq<u8>
    decreases b.len(),
{
    if b.len() == 0 {
        Seq::empty()
    } else if b.len() >= 3 && b[0] == 37 && hex_val_of(b[1]) is Some && hex_val_of(b[2]) is Some {
        seq![(hex_val_of(b[1])->0 * 16 + hex_val_of(b[2])->0) as u8] + percent_decode_bytes(
            b.skip(3),
        )
    } else {
        seq![b[0]] + percent_decode_bytes(b.skip(1))
    }
}

/// The text of percent-decoded bytes, read as UTF-8 with replacement.
pub open spec fn lossy_of(b: Seq<u8>) -> Seq<char> {
    if valid_utf8(b) {
        decode_utf8(b)
    } else {
        spec_utf8_lossy(b)
    }
}

/// Percent-decoding of `s` (its UTF-8 bytes), read back as UTF-8.
pub fn percent_decode(s: &str) -> (r: String)
    ensures
        r@ == lossy_of(percent_decode_bytes(encode_utf8(s@))),
{
    let bytes = s.as_bytes();
    let ghost b = bytes@;
    let mut out: Vec<u8> = Vec::new();
    let mut i: usize = 0;
    assert(b.skip(0) =~= b);
    assert(out@ + percent_decode_bytes(b) =~= percent_decode_bytes(b));
    while i < bytes.len()
        invariant
            i <= b.len(),
            b == bytes@,
            b == encode_utf8(s@),
            out@ + percent_decode_bytes(b.skip(i as int)) == percent_decode_bytes(b),
        decreases b.len() - i,
    {
        let ghost rest = b.skip(i as int);
        if bytes[i] == 37 && bytes.len() - i > 2 {
            match (hex_val(bytes[i + 1]), hex_val(bytes[i + 2])) {
                (Some(h), Some(l)) => {
                    assert(h < 16 && l < 16);
                    let v: u8 = h * 16 + l;
                    out.push(v);
                    proof {
                        assert(rest[0] == 37 && rest[1] == b[i + 1] && rest[2] == b[i + 2]);
                        assert(rest.skip(3) =~= b.skip(i + 3));
                    }
                    i = i + 3;
                    continue;
                },
                _ => {},
            }
        }
        out.push(bytes[i]);
        proof {
            assert(rest[0] == b[i as int]);
            assert(rest.skip(1) =~= b.skip(i + 1));
            if rest.len() >= 3 && rest[1] == b[i + 1] && rest[2] == b[i + 2] {
            }
        }
        i = i + 1;
    }
    assert(b.skip(b.len() as int) =~= Seq::<u8>::empty());
    assert(out@ =~= percent_decode_bytes(b));
    let r = utf8_lossy(out.as_slice());
    r
}

/// The path of a `file://` URI (percent-decoded); other text as it is.
pub open spec fn uri_to_path_of(uri: Seq<char>) -> Seq<char> {
    if "file://"@.is_prefix_of(uri) {
        lossy_of(percent_decode_bytes(encode_utf8(uri.subrange(7, uri.len() as int))))
    } else {
        uri
    }
}

/// The path of a `file://` URI.
pub fn uri_to_path(uri: &str) -> (r: String)
    ensures
        r@ == uri_to_path_of(uri@),
{
    proof {
        reveal_strlit("file://");
    }
    match strip_prefix(uri, "file://") {
        Some(rest) => percent_decode(rest.as_str()),
        None => from_chars(&to_chars(uri)),
    }
}

/// Bytes written literally in a URI: ASCII letters, digits, `-_.~/`.
pub open spec fn unreserved(b: u8) -> bool {
    (65 <= b <= 90) || (97 <= b <= 122) || (48 <= b <= 57) || b == 45 || b == 95 || b == 46 || b
        == 126 || b == 47
}

/// An uppercase hex digit.
pub open spec fn hex_digit(n: u8) -> char {
    if n < 10 {
        ((48 + n) as u8) as char
    } else {
        ((65 + n - 10) as u8) as char
    }
}

/// Percent-encoding of bytes.
pub open spec fn percent_encode_bytes(b: Seq<u8>) -> Seq<char>
    decreases b.len(),
{
    if b.len() == 0 {
        Seq::empty()
    } else {
        (if unreserved(b[0]) {
            seq![b[0] as char]
        } else {
            seq!['%', hex_digit(b[0] / 16), hex_digit(b[0] % 16)]
        }) + percent_encode_bytes(b.skip(1))
    }
}

/// The `file://` URI of a path.
pub open spec fn path_to_uri_of(path: Seq<char>) -> Seq<char> {
    "file://"@ + percent_encode_bytes(encode_utf8(path))
}

fn hex_digit_exec(n: u8) -> (c: char)
    requires
        n < 16,
    ensures
        c == hex_digit(n),
{
    if n < 10 {
        char_from_ascii((48 + n) as u32)
    } else {
        char_from_ascii((65 + n - 10) as u32)
    }
}

/// The `file://` URI of a path: its UTF-8 bytes, reserved and non-ASCII
/// ones percent-encoded in uppercase hex.
pub fn path_to_uri(path: &str) -> (r: String)
    ensures
        r@ == path_to_uri_of(path@),
{
    proof {
        reveal_strlit("file://");
    }
    let mut out: Vec<char> = to_chars("file://");
    let bytes = path.as_bytes();
    let ghost b = bytes@;
    let mut i: usize = 0;
    assert(b.skip(0) =~= b);
    while i < bytes.len()
        invariant
            i <= b.len(),
            b == bytes@,
            b == encode_utf8(path@),
            out@ + percent_encode_bytes(b.skip(i as int)) == path_to_uri_of(path@),
        decreases b.len() - i,
    {
        let x = bytes[i];
        let ghost before = out@;
        proof {
            assert(b.skip(i as int).skip(1) =~= b.skip(i + 1));
            assert(b.skip(i as int)[0] == x);
        }
        if (65 <= x && x <= 90) || (97 <= x && x <= 122) || (48 <= x && x <= 57) || x == 45 || x
            == 95 || x == 46 || x == 126 || x == 47 {
            out.push(char_from_ascii(x as u32));
            assert(out@ =~= before + seq![x as char]);
        } else {
            out.push('%');
            out.push(hex_digit_exec(x / 16));
            out.push(hex_digit_exec(x % 16));
            assert(out@ =~= before + seq!['%', hex_digit(x / 16), hex_digit(x % 16)]);
        }
        assert(out@ + percent_encode_bytes(b.skip(i + 1)) =~= before + percent_encode_bytes(
            b.skip(i as int),
        ));
        i = i + 1;
    }
    assert(b.skip(b.len() as int) =~= Seq::<u8>::empty());
    assert(out@ =~= path_to_uri_of(path@));
    from_chars(&out)
}

// ── Round trip ──

/// The bytes of ASCII characters.
pub open spec fn ascii_bytes(cs: Seq<char>) -> Seq<u8> {
    cs.map_values(|c: char| c as u8)
}

pub proof fn lemma_encode_ascii(cs: Seq<char>)
    requires
        vstd::utf8::is_ascii_chars(cs),
    ensures
        encode_utf8(cs) == ascii_bytes(cs),
{
    vstd::utf8::is_ascii_chars_encode_utf8(cs);
    assert(encode_utf8(cs) =~= ascii_bytes(cs));
}

proof fn lemma_percent_encode_ascii(b: Seq<u8>)
    ensures
        vstd::utf8::is_ascii_chars(percent_encode_bytes(b)),
    decreases b.len(),
{
    if b.len() > 0 {
        lemma_percent_encode_ascii(b.skip(1));
        let h = if unreserved(b[0]) {
            seq![b[0] as char]
        } else {
            seq!['%', hex_digit(b[0] / 16), hex_digit(b[0] % 16)]
        };
        let rest = percent_encode_bytes(b.skip(1));
        assert(percent_encode_bytes(b) == h + rest);
        assert forall|i: int| 0 <= i < (h + rest).len() implies '\0' <= #[trigger] (h + rest)[i]
            <= '\u{7f}' by {
            if i >= h.len() {
                assert((h + rest)[i] == rest[i - h.len()]);
            }
        }
    }
}

proof fn lemma_decode_encoded(b: Seq<u8>)
    ensures
        percent_decode_bytes(ascii_bytes(percent_encode_bytes(b))) == b,
    decreases b.len(),
{
    if b.len() == 0 {
        assert(ascii_bytes(percent_encode_bytes(b)) =~= Seq::<u8>::empty());
    } else {
        lemma_decode_encoded(b.skip(1));
        let b0 = b[0];
        let h = if unreserved(b0) {
            seq![b0 as char]
        } else {
            seq!['%', hex_digit(b0 / 16), hex_digit(b0 % 16)]
        };
        let rest = percent_encode_bytes(b.skip(1));
        let bb = ascii_bytes(h + rest);
        assert(bb =~= ascii_bytes(h) + ascii_bytes(rest));
        if unreserved(b0) {
            assert(ascii_bytes(h) =~= seq![b0]);
            assert(bb.skip(1) =~= ascii_bytes(rest));
            assert(bb[0] == b0);
            assert(percent_decode_bytes(bb) == seq![b0] + percent_decode_bytes(bb.skip(1)));
        } else {
            let hi = b0 / 16;
            let lo = b0 % 16;
            assert(ascii_bytes(h) =~= seq![37u8, hex_digit(hi) as u8, hex_digit(lo) as u8]);
            assert(hex_val_of(hex_digit(hi) as u8) == Some(hi));
            assert(hex_val_of(hex_digit(lo) as u8) == Some(lo));
            assert(bb.skip(3) =~= ascii_bytes(rest));
            assert(bb[0] == 37 && bb[1] == hex_digit(hi) as u8 && bb[2] == hex_digit(lo) as u8);
            assert(((hi * 16 + lo) as u8) == b0);
        }
        assert(b =~= seq![b0] + b.skip(1));
    }
}

/// A path survives the trip to a `file://` URI and back.
pub proof fn lemma_uri_round_trip(p: Seq<char>)
    ensures
        uri_to_path_of(path_to_uri_of(p)) == p,
{
    reveal_strlit("file://");
    let b = encode_utf8(p);
    let e = percent_encode_bytes(b);
    let uri = path_to_uri_of(p);
    assert("file://"@.is_prefix_of(uri));
    assert(uri.subrange(7, uri.len() as int) =~= e);
    lemma_percent_encode_ascii(b);
    lemma_encode_ascii(e);
    lemma_decode_encoded(b);
    vstd::utf8::encode_utf8_valid_utf8(p);
    vstd::utf8::encode_utf8_decode_utf8(p);
}

} // verus!
