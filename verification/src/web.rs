//! HTTP pieces the handlers share: which method names the HTTP stack
//! accepts, and percent-decoding of request paths.

use vstd::prelude::*;
use vstd::utf8::{decode_utf8, encode_utf8, valid_utf8};

verus! {

/// Whether `c` may stand in a method name: an RFC 9110 token character
/// (letters, digits and ``!#$%&'*+-.^_`|~``).
pub open spec fn is_tchar(c: char) -> bool {
    ||| ('a' <= c <= 'z')
    ||| ('A' <= c <= 'Z')
    ||| ('0' <= c <= '9')
    ||| c == '!' || c == '#' || c == '$' || c == '%' || c == '&' || c == '\''
    ||| c == '*' || c == '+' || c == '-' || c == '.' || c == '^' || c == '_'
    ||| c == '`' || c == '|' || c == '~'
}

/// Whether the HTTP stack accepts `m` as a method name: not empty, made of
/// token characters only.
pub open spec fn method_accepted_spec(m: Seq<char>) -> bool {
    m.len() > 0 && forall|i: int| 0 <= i < m.len() ==> is_tchar(#[trigger] m[i])
}

/// `invalid HTTP method`, how the HTTP stack describes a refused name.
pub open spec fn invalid_method_text() -> Seq<char> {
    "invalid HTTP method"@
}

/// Parses a method name with `str::parse::<http::Method>` (the `http` crate
/// that `reqwest` uses). Its source accepts exactly the non-empty names
/// whose bytes are token characters (the table `METHOD_CHARS`), and its
/// error displays as `invalid HTTP method`.
#[verifier::external_body]
pub(crate) fn parse_method(m: &str) -> (r: Result<(), String>)
    ensures
        r is Ok <==> method_accepted_spec(m@),
        r matches Err(e) ==> e@ == invalid_method_text(),
{
    match m.parse::<http::Method>() {
        Ok(_) => Ok(()),
        Err(e) => Err(e.to_string()),
    }
}

/// The value of a hexadecimal digit.
pub open spec fn hex_value(b: u8) -> Option<u8> {
    if 48 <= b <= 57 {
        Some((b - 48) as u8)
    } else if 65 <= b <= 70 {
        Some((b - 55) as u8)
    } else if 97 <= b <= 102 {
        Some((b - 87) as u8)
    } else {
        None
    }
}

/// Percent-decoding as `urlencoding::decode_binary` does it: `%` and two
/// hexadecimal digits give one byte; a `%` followed by a digit and a
/// non-digit stays with that digit; a `%` followed by a non-digit stays;
/// a `%` with fewer than two bytes after it stays with them; `+` is kept.
pub open spec fn percent_decode_spec(b: Seq<u8>) -> Seq<u8>
    decreases b.len(),
{
    if b.len() == 0 {
        Seq::empty()
    } else if b[0] != 37 {
        seq![b[0]] + percent_decode_spec(b.skip(1))
    } else if b.len() < 3 {
        b
    } else {
        match hex_value(b[1]) {
            Some(x) => match hex_value(b[2]) {
                Some(y) => seq![(x * 16 + y) as u8] + percent_decode_spec(b.skip(3)),
                None => seq![37u8, b[1]] + percent_decode_spec(b.skip(2)),
            },
            None => seq![37u8] + percent_decode_spec(b.skip(1)),
        }
    }
}

/// What `urlencoding::decode` gives for a text: the percent-decoded bytes
/// as text where they are valid UTF-8, nothing otherwise.
pub open spec fn url_decode_spec(s: Seq<char>) -> Option<Seq<char>> {
    let d = percent_decode_spec(encode_utf8(s));
    if valid_utf8(d) {
        Some(decode_utf8(d))
    } else {
        None
    }
}

/// `urlencoding::decode`, its error dropped. Its source percent-decodes the
/// UTF-8 bytes as `percent_decode_spec` says (a text without `%` comes
/// back as it is) and then reads the bytes as UTF-8, failing where they
/// are not valid.
#[verifier::external_body]
pub(crate) fn url_decode(s: &str) -> (r: Option<String>)
    ensures
        match r {
            Some(t) => url_decode_spec(s@) == Some(t@),
            None => url_decode_spec(s@) is None,
        },
{
    match urlencoding::decode(s) {
        Ok(t) => Some(t.into_owned()),
        Err(_) => None,
    }
}

/// Whether a byte is left as it is by percent-encoding: an ASCII letter
/// or digit, or one of `-._~`.
pub open spec fn unreserved(b: u8) -> bool {
    (48 <= b <= 57) || (65 <= b <= 90) || (97 <= b <= 122) || b == 45 || b == 46 || b == 95 || b
        == 126
}

/// The upper-case hexadecimal digit of a value below 16.
pub open spec fn hex_digit(v: u8) -> char {
    if v < 10 {
        ((48 + v) as u8) as char
    } else {
        ((55 + v) as u8) as char
    }
}

/// Percent-encoding as `urlencoding::encode_binary` does it: each
/// unreserved byte as its character, each other byte as `%` and two
/// upper-case hexadecimal digits.
pub open spec fn percent_encode_spec(b: Seq<u8>) -> Seq<char>
    decreases b.len(),
{
    if b.len() == 0 {
        Seq::empty()
    } else {
        let rest = percent_encode_spec(b.skip(1));
        if unreserved(b[0]) {
            seq![b[0] as char] + rest
        } else {
            seq!['%', hex_digit(b[0] / 16), hex_digit(b[0] % 16)] + rest
        }
    }
}

/// `urlencoding::encode`: its source percent-encodes the UTF-8 bytes of
/// the text as `percent_encode_spec` says.
#[verifier::external_body]
pub(crate) fn url_encode(s: &str) -> (r: String)
    ensures
        r@ == percent_encode_spec(encode_utf8(s@)),
{
    urlencoding::encode(s).into_owned()
}

} // verus!
