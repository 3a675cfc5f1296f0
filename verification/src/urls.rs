//! What the library reads of a URL: its scheme and host as the `url` crate
//! parses them, and the address a relative reference resolves to.

use vstd::prelude::*;

verus! {

/// The text inside an optional `String`.
pub open spec fn opt_text(o: Option<String>) -> Option<Seq<char>> {
    match o {
        Some(s) => Some(s@),
        None => None,
    }
}

/// The scheme, host and explicit port that `url::Url::parse` finds in a
/// text, or `None` where it refuses the text. The parser follows the
/// WHATWG URL standard, which takes pages to state; the name stands for its
/// result.
pub uninterp spec fn url_parts(s: Seq<char>) -> Option<(Seq<char>, Option<Seq<char>>, Option<u16>)>;

/// The scheme and host of a parsed text.
pub open spec fn url_scheme_host(s: Seq<char>) -> Option<(Seq<char>, Option<Seq<char>>)> {
    match url_parts(s) {
        Some((scheme, host, _)) => Some((scheme, host)),
        None => None,
    }
}

/// The address that `url::Url::parse(base)` followed by `join(reference)`
/// gives, or `None` where either step refuses its input.
pub uninterp spec fn url_joined(base: Seq<char>, reference: Seq<char>) -> Option<Seq<char>>;

/// Calls `url::Url::parse` and reads `scheme()`, `host_str()` and
/// `port()` of what it gives. The contract says only that the result is
/// the one the parser gives for this text (a function of the text alone).
#[verifier::external_body]
fn parse_url_parts(s: &str) -> (r: Option<(String, Option<String>, Option<u16>)>)
    ensures
        match r {
            Some((scheme, host, port)) => url_parts(s@) == Some((scheme@, opt_text(host), port)),
            None => url_parts(s@) is None,
        },
{
    match url::Url::parse(s) {
        Ok(u) => Some(
            (
                u.scheme().to_string(),
                match u.host_str() {
                    Some(h) => Some(h.to_string()),
                    None => None,
                },
                u.port(),
            ),
        ),
        Err(_) => None,
    }
}

fn parse_scheme_host(s: &str) -> (r: Option<(String, Option<String>)>)
    ensures
        match r {
            Some((scheme, host)) => url_scheme_host(s@) == Some((scheme@, opt_text(host))),
            None => url_scheme_host(s@) is None,
        },
{
    match parse_url_parts(s) {
        Some((scheme, host, _)) => Some((scheme, host)),
        None => None,
    }
}

/// The parts a URL parser hands back, as texts.
pub open spec fn parts_view(p: Option<(String, Option<String>, Option<u16>)>) -> Option<
    (Seq<char>, Option<Seq<char>>, Option<u16>),
> {
    match p {
        Some((scheme, host, port)) => Some((scheme@, opt_text(host), port)),
        None => None,
    }
}

/// The host and port a plain TCP relay connects to, given the parsed URL:
/// its host (`127.0.0.1` where it has none) and explicit port (80 where it
/// has none); `None` where the URL did not parse.
pub open spec fn relay_target_spec(parts: Option<(Seq<char>, Option<Seq<char>>, Option<u16>)>) -> Option<
    (Seq<char>, u16),
> {
    match parts {
        Some((_, host, port)) => Some(
            (
                match host {
                    Some(h) => h,
                    None => "127.0.0.1"@,
                },
                match port {
                    Some(p) => p,
                    None => 80,
                },
            ),
        ),
        None => None,
    }
}

/// The host and port a plain TCP relay connects to for `url`.
pub open spec fn relay_address_spec(url: Seq<char>) -> Option<(Seq<char>, u16)> {
    relay_target_spec(url_parts(url))
}

/// The host and port a relay connects to, given what the parser made of
/// the URL, as `relay_target_spec` says.
pub fn relay_target(parts: Option<(String, Option<String>, Option<u16>)>) -> (r: Option<(String, u16)>)
    ensures
        match r {
            Some((h, p)) => relay_target_spec(parts_view(parts)) == Some((h@, p)),
            None => relay_target_spec(parts_view(parts)) is None,
        },
{
    match parts {
        Some((_, host, port)) => {
            let h = match host {
                Some(h) => h,
                None => crate::text::owned("127.0.0.1"),
            };
            let p: u16 = match port {
                Some(p) => p,
                None => 80,
            };
            Some((h, p))
        },
        None => None,
    }
}

/// The host and port a plain TCP relay connects to.
pub fn relay_address(url: &str) -> (r: Option<(String, u16)>)
    ensures
        match r {
            Some((h, p)) => relay_address_spec(url@) == Some((h@, p)),
            None => relay_address_spec(url@) is None,
        },
{
    relay_target(parse_url_parts(url))
}

/// Calls `url::Url::parse(base)` and then `join(reference)` on the parsed
/// base, and renders the joined URL as text. The contract says only that the
/// result is a function of the two texts.
#[verifier::external_body]
fn parse_and_join(base: &str, reference: &str) -> (r: Option<String>)
    ensures
        opt_text(r) == url_joined(base@, reference@),
{
    match url::Url::parse(base) {
        Ok(b) => match b.join(reference) {
            Ok(j) => Some(j.to_string()),
            Err(_) => None,
        },
        Err(_) => None,
    }
}

/// The scheme and host of `url`, or `None` where it does not parse.
pub fn scheme_and_host(url: &str) -> (r: Option<(String, Option<String>)>)
    ensures
        match r {
            Some((scheme, host)) => url_scheme_host(url@) == Some((scheme@, opt_text(host))),
            None => url_scheme_host(url@) is None,
        },
{
    parse_scheme_host(url)
}

/// The domain under which the cookies of a text are kept, given what the
/// parser made of it: the host (empty when there is none), or the whole
/// text when it did not parse.
pub open spec fn domain_from_spec(url: Seq<char>, parsed: Option<(Seq<char>, Option<Seq<char>>)>) -> Seq<
    char,
> {
    match parsed {
        Some((_, Some(h))) => h,
        Some((_, None)) => Seq::empty(),
        None => url,
    }
}

/// The domain under which the cookies of `url` are kept.
pub open spec fn domain_of(url: Seq<char>) -> Seq<char> {
    domain_from_spec(url, url_scheme_host(url))
}

/// The domain of `url` given what the parser made of it, as
/// `domain_from_spec` says.
pub fn domain_from(url: &str, parsed: Option<(String, Option<String>)>) -> (r: String)
    ensures
        r@ == domain_from_spec(
            url@,
            match parsed {
                Some((scheme, host)) => Some((scheme@, opt_text(host))),
                None => None,
            },
        ),
{
    match parsed {
        Some((_, Some(h))) => h,
        Some((_, None)) => String::new(),
        None => crate::text::owned(url),
    }
}

/// The domain of `url`, as `domain_of` says.
pub fn extract_domain(url: &str) -> (r: String)
    ensures
        r@ == domain_of(url@),
{
    domain_from(url, parse_scheme_host(url))
}

/// The host of `url`, where it parses and has one.
pub open spec fn host_of(url: Seq<char>) -> Option<Seq<char>> {
    match url_scheme_host(url) {
        Some((_, h)) => h,
        None => None,
    }
}

/// The host of `url`, as `host_of` says.
pub fn url_host(url: &str) -> (r: Option<String>)
    ensures
        opt_text(r) == host_of(url@),
{
    match parse_scheme_host(url) {
        Some((_, h)) => h,
        None => None,
    }
}

/// Whether a reference is taken as it is: it starts with `http`.
pub open spec fn is_absolute_ref(reference: Seq<char>) -> bool {
    crate::text::starts_with_spec(reference, seq!['h', 't', 't', 'p'])
}

/// `reference` resolved, given what joining it to the base gave: a
/// reference that starts with `http` is taken as it is; otherwise the
/// joined address, or the reference itself where the join was refused.
pub open spec fn resolved_spec(reference: Seq<char>, joined: Option<Seq<char>>) -> Seq<char> {
    if is_absolute_ref(reference) {
        reference
    } else {
        match joined {
            Some(j) => j,
            None => reference,
        }
    }
}

/// `reference` resolved against `base`.
pub open spec fn absolute_url_spec(base: Seq<char>, reference: Seq<char>) -> Seq<char> {
    resolved_spec(reference, url_joined(base, reference))
}

/// Whether `reference` is taken as it is.
fn starts_http(reference: &str) -> (r: bool)
    ensures
        r == is_absolute_ref(reference@),
{
    proof {
        reveal_strlit("http");
    }
    assert("http"@ == seq!['h', 't', 't', 'p']);
    crate::text::starts_with(reference, "http")
}

/// `reference` resolved given the joined address, as `resolved_spec` says.
pub fn resolved(reference: &str, joined: Option<String>) -> (r: String)
    ensures
        r@ == resolved_spec(reference@, opt_text(joined)),
{
    if starts_http(reference) {
        return crate::text::owned(reference);
    }
    match joined {
        Some(j) => j,
        None => crate::text::owned(reference),
    }
}

/// The absolute address of `reference` relative to `base`; the base is
/// joined with the reference only where the reference does not start with
/// `http`.
pub fn absolute_url(base: &str, reference: &str) -> (r: String)
    ensures
        r@ == absolute_url_spec(base@, reference@),
{
    if starts_http(reference) {
        return crate::text::owned(reference);
    }
    resolved(reference, parse_and_join(base, reference))
}

} // verus!
