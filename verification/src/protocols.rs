//! The custom protocols that serve files and proxy requests for pages:
//! `static://` (local files, or remote ones through the network), the
//! media stream protocol, and `fetch://`.

use vstd::prelude::*;
use crate::cookies::pairs_text;
use crate::proxy::{gunzip, gzip_read, method_kind, method_kind_spec, RequestMethod};
use crate::range::{byte_range_spec, bytes_prefix, plan_file_slice, FileSlice};
use crate::server::without_names;
use crate::text::{
    chars_of, contains, contains_spec, owned, push_str, slice_vec, split_spec, starts_with,
    starts_with_spec, string_of,
};
use crate::urls::{scheme_and_host, url_scheme_host};
use crate::web::{url_decode, url_decode_spec};

verus! {

// ------------------------------------------------------------ paths

/// A request path as a file path: percent-decoded (kept as it is where the
/// decoded bytes are no UTF-8), then without one leading `/`.
pub open spec fn static_file_path_spec(path: Seq<char>) -> Seq<char> {
    let d = match url_decode_spec(path) {
        Some(t) => t,
        None => path,
    };
    if d.len() > 0 && d[0] == '/' {
        d.skip(1)
    } else {
        d
    }
}

/// The file path a `static://` or stream request names.
pub fn static_file_path(path: &str) -> (r: String)
    ensures
        r@ == static_file_path_spec(path@),
{
    let d = match url_decode(path) {
        Some(t) => t,
        None => owned(path),
    };
    let v = chars_of(d.as_str());
    if v.len() > 0 && v[0] == '/' {
        string_of(slice_vec(v.as_slice(), 1, v.len()).as_slice())
    } else {
        d
    }
}

/// Whether a path names a remote resource: it starts with `http://` or
/// `https://`.
pub open spec fn is_remote_spec(p: Seq<char>) -> bool {
    starts_with_spec(p, "http://"@) || starts_with_spec(p, "https://"@)
}

/// Whether `p` names a remote resource.
pub fn is_remote(p: &str) -> (r: bool)
    ensures
        r == is_remote_spec(p@),
{
    starts_with(p, "http://") || starts_with(p, "https://")
}

/// The file path of a stream request: as for `static://`, and a path that
/// still reads `/X:…` (a drive letter after a slash) loses that slash.
pub open spec fn stream_file_path_spec(path: Seq<char>) -> Seq<char> {
    let p = static_file_path_spec(path);
    if p.len() > 2 && p[0] == '/' && (p[1] as u32) < 128 && p[2] == ':' {
        p.skip(1)
    } else {
        p
    }
}

/// The file path a stream request names.
pub fn stream_file_path(path: &str) -> (r: String)
    ensures
        r@ == stream_file_path_spec(path@),
{
    let p = static_file_path(path);
    let v = chars_of(p.as_str());
    if v.len() > 2 && v[0] == '/' && (v[1] as u32) < 128 && v[2] == ':' {
        string_of(slice_vec(v.as_slice(), 1, v.len()).as_slice())
    } else {
        p
    }
}

// ------------------------------------------------------------ remote

/// The `Referer` a remote `static://` request carries: `{scheme}://{host}/`
/// of the URL (an empty host where it has none), nothing where it does not
/// parse.
pub open spec fn remote_referer_spec(url: Seq<char>) -> Option<Seq<char>> {
    match url_scheme_host(url) {
        Some((scheme, host)) => Some(
            scheme + "://"@ + match host {
                Some(h) => h,
                None => Seq::empty(),
            } + seq!['/'],
        ),
        None => None,
    }
}

/// The `Referer` of a remote `static://` request.
pub fn remote_referer(url: &str) -> (r: Option<String>)
    ensures
        match r {
            Some(x) => remote_referer_spec(url@) == Some(x@),
            None => remote_referer_spec(url@) is None,
        },
{
    match scheme_and_host(url) {
        Some((scheme, host)) => {
            let mut r = scheme;
            push_str(&mut r, "://");
            match host {
                Some(h) => push_str(&mut r, h.as_str()),
                None => {},
            }
            r.push('/');
            Some(r)
        },
        None => None,
    }
}

/// The largest remote body a `static://` request passes on: 50 MiB.
pub const MAX_REMOTE_BYTES: usize = 52428800;

/// Whether a remote body of `len` bytes is passed on (a larger one is
/// answered with status 413).
pub fn remote_body_fits(len: usize) -> (r: bool)
    ensures
        r == (len <= MAX_REMOTE_BYTES),
{
    len <= MAX_REMOTE_BYTES
}

// ------------------------------------------------------------ stream

/// What the stream handler answers for a file of `file_size` bytes: for
/// `HEAD`, the headers alone; otherwise the span the `Range` header asks
/// for, or the whole file. The last byte is taken as `file_size - 1`
/// saturating at 0, so an empty file is answered whole, with no bytes,
/// whatever the range.
pub fn plan_stream(is_head: bool, range: Option<&str>, file_size: u64) -> (r: Option<FileSlice>)
    ensures
        is_head <==> r is None,
        r matches Some(s) ==> ({
            let asked = match range {
                Some(h) => byte_range_spec(h@, file_size),
                None => None,
            };
            match asked {
                Some((a, e)) => s.status == 206 && s.start == a && s.length == e - a + 1,
                None => s.status == 200 && s.start == 0 && s.length == file_size,
            }
        }),
{
    if is_head {
        None
    } else {
        Some(plan_file_slice(range, file_size))
    }
}

// ------------------------------------------------------------ fetch://

/// Whether a `fetch://` request address is one the handler serves: it
/// starts with `fetch://localhost/` or `http://fetch.localhost/`.
pub open spec fn fetch_url_valid(uri: Seq<char>) -> bool {
    starts_with_spec(uri, "fetch://localhost/"@) || starts_with_spec(uri, "http://fetch.localhost/"@)
}

/// The error for an address the handler does not serve.
pub open spec fn invalid_fetch_url(uri: Seq<char>) -> Seq<char> {
    "Invalid fetch protocol URL: "@ + uri
}

/// Checks a `fetch://` request address.
pub fn check_fetch_url(uri: &str) -> (r: Result<(), String>)
    ensures
        r is Ok <==> fetch_url_valid(uri@),
        r matches Err(e) ==> e@ == invalid_fetch_url(uri@),
{
    if starts_with(uri, "fetch://localhost/") || starts_with(uri, "http://fetch.localhost/") {
        Ok(())
    } else {
        let mut e = owned("Invalid fetch protocol URL: ");
        push_str(&mut e, uri);
        Err(e)
    }
}

/// The page headers a `fetch://` request does not pass on.
pub open spec fn fetch_dropped_request() -> Seq<Seq<char>> {
    seq!["host"@, "origin"@, "referer"@, "content-length"@]
}

/// The headers every `fetch://` request adds after the page's.
pub open spec fn fetch_fixed_headers() -> Seq<(Seq<char>, Seq<char>)> {
    seq![
        (
            "User-Agent"@,
            "Mozilla/5.0 (Linux; Android 10; K) AppleWebKit/537.36 (KHTML, like Gecko) Chrome/126.0.0.0 Mobile Safari/537.36"@,
        ),
        ("Accept"@, "*/*"@),
        ("Accept-Language"@, "zh-CN,zh;q=0.9,en;q=0.8"@),
    ]
}

/// What a `fetch://` request sends: the method (named exactly, `GET` by
/// default), the headers and the body.
pub struct FetchRequestPlan {
    pub method: RequestMethod,
    pub headers: Vec<(String, String)>,
}

fn push_pair(r: &mut Vec<(String, String)>, k: &str, v: &str)
    ensures
        pairs_text(final(r)@) == pairs_text(old(r)@).push((k@, v@)),
{
    let ghost before = r@;
    r.push((owned(k), owned(v)));
    assert(pairs_text(r@) =~= pairs_text(before).push((k@, v@)));
}

/// The method and headers of a `fetch://` request: the method named exactly
/// (`GET` by default, unknown names as `GET`); the page's headers but
/// `host`, `origin`, `referer` and `content-length` (any letter case), then
/// the fixed headers.
pub fn plan_fetch_request(method: Option<&str>, headers: &Vec<(String, String)>) -> (r: FetchRequestPlan)
    ensures
        r.method == match method {
            Some(m) => method_kind_spec(m@),
            None => RequestMethod::Get,
        },
        pairs_text(r.headers@) == without_names(pairs_text(headers@), fetch_dropped_request())
            + fetch_fixed_headers(),
{
    let kind = match method {
        Some(m) => method_kind(m),
        None => RequestMethod::Get,
    };
    let list = vec!["host", "origin", "referer", "content-length"];
    assert(list@.map_values(|t: &str| t@) =~= fetch_dropped_request());
    let mut r = crate::server::filter_names(headers, &list);
    let ghost kept = pairs_text(r@);
    push_pair(
        &mut r,
        "User-Agent",
        "Mozilla/5.0 (Linux; Android 10; K) AppleWebKit/537.36 (KHTML, like Gecko) Chrome/126.0.0.0 Mobile Safari/537.36",
    );
    push_pair(&mut r, "Accept", "*/*");
    push_pair(&mut r, "Accept-Language", "zh-CN,zh;q=0.9,en;q=0.8");
    assert(pairs_text(r@) =~= kept + fetch_fixed_headers());
    FetchRequestPlan { method: kind, headers: r }
}

/// The upstream headers a `fetch://` response does not pass on, the body
/// being decompressed.
pub open spec fn fetch_dropped_response() -> Seq<Seq<char>> {
    seq!["content-encoding"@, "content-length"@]
}

/// The CORS headers every `fetch://` response carries at its end.
pub open spec fn fetch_cors_headers() -> Seq<(Seq<char>, Seq<char>)> {
    seq![
        ("Access-Control-Allow-Origin"@, "*"@),
        ("Access-Control-Allow-Methods"@, "GET, POST, PUT, DELETE, OPTIONS"@),
        ("Access-Control-Allow-Headers"@, "*"@),
    ]
}

/// The headers of a `fetch://` response.
pub fn fetch_response_headers(upstream: &Vec<(String, String)>) -> (r: Vec<(String, String)>)
    ensures
        pairs_text(r@) == without_names(pairs_text(upstream@), fetch_dropped_response())
            + fetch_cors_headers(),
{
    let list = vec!["content-encoding", "content-length"];
    assert(list@.map_values(|t: &str| t@) =~= fetch_dropped_response());
    let mut r = crate::server::filter_names(upstream, &list);
    let ghost kept = pairs_text(r@);
    push_pair(&mut r, "Access-Control-Allow-Origin", "*");
    push_pair(&mut r, "Access-Control-Allow-Methods", "GET, POST, PUT, DELETE, OPTIONS");
    push_pair(&mut r, "Access-Control-Allow-Headers", "*");
    assert(pairs_text(r@) =~= kept + fetch_cors_headers());
    r
}

/// The body of a `fetch://` response: where the upstream's
/// `Content-Encoding` mentions `gzip`, the decoded bytes if the whole
/// stream decodes and the bytes as they came otherwise; any other body as
/// it came.
pub open spec fn fetch_body_spec(data: Seq<u8>, content_encoding: Option<Seq<char>>) -> Seq<u8> {
    if (content_encoding matches Some(e) && contains_spec(e, "gzip"@)) && gzip_read(data).1 {
        gzip_read(data).0
    } else {
        data
    }
}

/// The body of a `fetch://` response, as `fetch_body_spec` says.
pub fn fetch_body(data: Vec<u8>, content_encoding: Option<&str>) -> (r: Vec<u8>)
    ensures
        r@ == fetch_body_spec(
            data@,
            match content_encoding {
                Some(e) => Some(e@),
                None => None,
            },
        ),
{
    let is_gzip = match content_encoding {
        Some(e) => contains(e, "gzip"),
        None => false,
    };
    if is_gzip {
        let read = gunzip(data.as_slice());
        gunzipped_body(data, read)
    } else {
        data
    }
}

/// The body of a gzip `fetch://` response, given what the gzip read gave:
/// the decoded bytes where the whole stream decoded, the bytes as they came
/// otherwise.
pub fn gunzipped_body(data: Vec<u8>, read: (Vec<u8>, bool)) -> (r: Vec<u8>)
    ensures
        r@ == if read.1 {
            read.0@
        } else {
            data@
        },
{
    let (out, ok) = read;
    if ok {
        out
    } else {
        data
    }
}

} // verus!
