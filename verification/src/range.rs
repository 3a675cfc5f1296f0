//! HTTP `Range: bytes=…` requests against a file of known size, as the
//! static, stream and local-file handlers answer them.

use vstd::prelude::*;
use crate::num::{decimal_spec, parse_u64, parse_u64_spec};
use crate::text::{split_chars, split_spec, starts_with_spec};

verus! {

/// The text `bytes=`.
pub open spec fn bytes_prefix() -> Seq<char> {
    seq!['b', 'y', 't', 'e', 's', '=']
}

/// `o`'s value, or `d` when it is `None`.
pub open spec fn or_default(o: Option<u64>, d: u64) -> u64 {
    match o {
        Some(x) => x,
        None => d,
    }
}

/// The index of the last byte of a file of `size` bytes, `0` for an empty
/// file (`size.saturating_sub(1)`).
pub open spec fn last_index(size: u64) -> u64 {
    if size == 0 { 0 } else { (size - 1) as u64 }
}

/// The inclusive byte span that the header `h` asks for in a file of `size`
/// bytes, or `None` when the whole file is to be sent. The header must be
/// `bytes=` followed by exactly two pieces around one `-`; a start that does
/// not parse counts as `0`, an end that is empty or does not parse as the
/// last byte, an end past the file is cut to the last byte, and the span
/// is refused unless it is non-empty and starts inside the file.
pub open spec fn byte_range_spec(h: Seq<char>, size: u64) -> Option<(u64, u64)> {
    if starts_with_spec(h, bytes_prefix()) {
        let parts = split_spec(h.skip(6), '-');
        if parts.len() == 2 {
            let last = last_index(size);
            let start = or_default(parse_u64_spec(parts[0]), 0);
            let end0 = if parts[1].len() == 0 {
                last
            } else {
                or_default(parse_u64_spec(parts[1]), last)
            };
            let end = if end0 < last { end0 } else { last };
            if start <= end && start < size {
                Some((start, end))
            } else {
                None
            }
        } else {
            None
        }
    } else {
        None
    }
}

/// The span that the `Range` header `range` asks for in a file of
/// `file_size` bytes; `None` means the whole file.
pub fn parse_range_header(range: &str, file_size: u64) -> (r: Option<(u64, u64)>)
    ensures
        r == byte_range_spec(range@, file_size),
        r matches Some((s, e)) ==> s <= e < file_size,
{
    let v = crate::text::chars_of(range);
    let prefix = ['b', 'y', 't', 'e', 's', '='];
    assert(prefix@ == bytes_prefix());
    if !crate::text::matches_at_exec(v.as_slice(), 0, &prefix) {
        return None;
    }
    let rest = crate::text::slice_vec(v.as_slice(), 6, v.len());
    assert(rest@ == v@.skip(6));
    let parts = split_chars(rest.as_slice(), '-');
    assert(parts@.map_values(|p: Vec<char>| p@).len() == parts@.len());
    if parts.len() != 2 {
        return None;
    }
    assert(parts@.map_values(|p: Vec<char>| p@)[0] == parts@[0]@);
    assert(parts@.map_values(|p: Vec<char>| p@)[1] == parts@[1]@);
    let last: u64 = if file_size == 0 { 0 } else { file_size - 1 };
    let p0 = crate::text::string_of(parts[0].as_slice());
    let p1 = crate::text::string_of(parts[1].as_slice());
    let start = match parse_u64(p0.as_str()) {
        Some(x) => x,
        None => 0,
    };
    let end0 = if parts[1].len() == 0 {
        last
    } else {
        match parse_u64(p1.as_str()) {
            Some(x) => x,
            None => last,
        }
    };
    let end = if end0 < last { end0 } else { last };
    if start <= end && start < file_size {
        Some((start, end))
    } else {
        None
    }
}

/// The text `bytes {start}-{end}/{size}` of a `Content-Range` header.
pub open spec fn content_range_spec(start: u64, end: u64, size: u64) -> Seq<char> {
    seq!['b', 'y', 't', 'e', 's', ' '] + decimal_spec(start as nat) + seq!['-'] + decimal_spec(
        end as nat,
    ) + seq!['/'] + decimal_spec(size as nat)
}

/// The `Content-Range` header value for bytes `start..=end` of `size`.
pub fn content_range_value(start: u64, end: u64, size: u64) -> (r: String)
    ensures
        r@ == content_range_spec(start, end, size),
{
    let mut r = String::new();
    crate::text::push_chars(&mut r, &['b', 'y', 't', 'e', 's', ' ']);
    let a = crate::num::format_u64(start);
    let b = crate::num::format_u64(end);
    let c = crate::num::format_u64(size);
    crate::text::push_str(&mut r, a.as_str());
    r.push('-');
    crate::text::push_str(&mut r, b.as_str());
    r.push('/');
    crate::text::push_str(&mut r, c.as_str());
    r
}

/// How a file of known size is answered.
pub struct FileSlice {
    /// `206` for a span, `200` for the whole file.
    pub status: u16,
    /// The first byte sent.
    pub start: u64,
    /// How many bytes are sent.
    pub length: u64,
    /// The `Content-Range` value, sent with a span only.
    pub content_range: Option<String>,
}

/// How to answer a request for a file of `file_size` bytes that carried
/// the `Range` header `range`, if any: the span it asks for with status
/// `206`, or else the whole file with status `200`.
pub fn plan_file_slice(range: Option<&str>, file_size: u64) -> (r: FileSlice)
    ensures
        ({
            let asked = match range {
                Some(h) => byte_range_spec(h@, file_size),
                None => None,
            };
            match asked {
                Some((s, e)) => {
                    &&& r.status == 206
                    &&& r.start == s
                    &&& r.length == e - s + 1
                    &&& r.content_range matches Some(cr)
                    &&& cr@ == content_range_spec(s, e, file_size)
                },
                None => r.status == 200 && r.start == 0 && r.length == file_size
                    && r.content_range is None,
            }
        }),
        r.start + r.length <= file_size,
{
    let asked = match range {
        Some(h) => parse_range_header(h, file_size),
        None => None,
    };
    match asked {
        Some((s, e)) => FileSlice {
            status: 206,
            start: s,
            length: e - s + 1,
            content_range: Some(content_range_value(s, e, file_size)),
        },
        None => FileSlice { status: 200, start: 0, length: file_size, content_range: None },
    }
}

} // verus!
