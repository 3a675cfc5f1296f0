//! The `pwa-resource://` handler: which site address a request stands for
//! (directly, or relative to the page that asked for it), where the
//! resource is cached, how an HTML page is rewritten to keep its links on
//! this protocol, and when the cached copy stands in for the network.

use vstd::prelude::*;
use vstd::utf8::{decode_utf8, encode_utf8, valid_utf8};
use crate::paths::{join, join_spec, lower_extension, lower_extension_spec};
use crate::text::{
    chars_of, contains, contains_spec, eq_str, find_char, find_char_spec, find_str, first_match,
    lemma_find_char_first, lemma_first_match, matches_at, owned, push_str, replace, replace_spec, rfind_char, rfind_char_spec, slice_vec, string_of,
    trim_end_char, trim_end_char_spec, trim_start_char, trim_start_char_spec,
};

verus! {

// ------------------------------------------------------------ local dev

/// Whether the request's path names a local development server, whose
/// requests go straight to the network.
pub open spec fn is_local_dev_spec(uri_path: Seq<char>) -> bool {
    contains_spec(uri_path, "localhost"@) || contains_spec(uri_path, "127.0.0.1"@) || contains_spec(
        uri_path,
        "192.168."@,
    ) || contains_spec(uri_path, "10.0."@)
}

/// Whether `uri_path` names a local development server.
pub fn is_local_dev(uri_path: &str) -> (r: bool)
    ensures
        r == is_local_dev_spec(uri_path@),
{
    contains(uri_path, "localhost") || contains(uri_path, "127.0.0.1") || contains(
        uri_path,
        "192.168.",
    ) || contains(uri_path, "10.0.")
}

/// The address of a local development request: the part after the first
/// `/http/` (or else the first `/https/`) under that scheme, with each
/// `.port-` turned into `:`; the request address itself where neither
/// occurs.
pub open spec fn local_dev_url_spec(uri: Seq<char>) -> Seq<char> {
    match first_match(uri, "/http/"@) {
        Some(i) => "http://"@ + replace_spec(uri.skip(i + "/http/"@.len()), ".port-"@, ":"@),
        None => match first_match(uri, "/https/"@) {
            Some(i) => "https://"@ + replace_spec(uri.skip(i + "/https/"@.len()), ".port-"@, ":"@),
            None => uri,
        },
    }
}

fn skip_str(s: &str, from: usize) -> (r: String)
    requires
        from <= s@.len(),
    ensures
        r@ == s@.skip(from as int),
{
    let v = chars_of(s);
    string_of(slice_vec(v.as_slice(), from, v.len()).as_slice())
}

/// The address a local development request is sent to.
pub fn local_dev_url(uri: &str) -> (r: String)
    ensures
        r@ == local_dev_url_spec(uri@),
{
    proof {
        reveal_strlit(".port-");
        reveal_strlit("/http/");
        reveal_strlit("/https/");
    }
    assert(".port-"@.len() > 0);
    assert("/http/"@.len() == 6 && "/https/"@.len() == 7);
    match find_str(uri, "/http/") {
        Some(i) => {
            let rest = skip_str(uri, i + 6);
            let mut r = owned("http://");
            let t = replace(rest.as_str(), ".port-", ":");
            push_str(&mut r, t.as_str());
            r
        },
        None => match find_str(uri, "/https/") {
            Some(i) => {
                let rest = skip_str(uri, i + 7);
                let mut r = owned("https://");
                let t = replace(rest.as_str(), ".port-", ":");
                push_str(&mut r, t.as_str());
                r
            },
            None => owned(uri),
        },
    }
}

// ------------------------------------------------------------ targets

/// The site address a request stands for: the scheme (`https` or `http`),
/// the domain (with its port, if any), the path from `/`, and the context
/// `{scheme}/{domain}` kept in a cookie.
pub struct ResourceTarget {
    pub proto: String,
    pub domain: String,
    pub file_path: String,
    pub ctx: String,
}

impl View for ResourceTarget {
    type V = (Seq<char>, Seq<char>, Seq<char>, Seq<char>);

    open spec fn view(&self) -> (Seq<char>, Seq<char>, Seq<char>, Seq<char>) {
        (self.proto@, self.domain@, self.file_path@, self.ctx@)
    }
}

/// `{proto}/{domain}`.
pub open spec fn ctx_spec(proto: Seq<char>, domain: Seq<char>) -> Seq<char> {
    proto + seq!['/'] + domain
}

/// The target of a direct request whose path continues with `after` after
/// `/{proto}/`: the domain up to the first `/`, the path from that `/` on
/// (`/` where there is none).
pub open spec fn parse_path_spec(proto: Seq<char>, after: Seq<char>) -> (
    Seq<char>,
    Seq<char>,
    Seq<char>,
    Seq<char>,
) {
    match find_char_spec(after, '/') {
        Some(i) => (proto, after.take(i), after.skip(i), ctx_spec(proto, after.take(i))),
        None => (proto, after, seq!['/'], ctx_spec(proto, after)),
    }
}

fn ctx_text(proto: &str, domain: &str) -> (r: String)
    ensures
        r@ == ctx_spec(proto@, domain@),
{
    let mut r = owned(proto);
    r.push('/');
    push_str(&mut r, domain);
    r
}

/// The target of a direct request, as `parse_path_spec` says.
pub fn parse_path(proto: &str, after_proto: &str) -> (r: ResourceTarget)
    ensures
        r@ == parse_path_spec(proto@, after_proto@),
{
    let v = chars_of(after_proto);
    match find_char(v.as_slice(), '/') {
        Some(i) => {
            let domain = string_of(slice_vec(v.as_slice(), 0, i).as_slice());
            let file_path = string_of(slice_vec(v.as_slice(), i, v.len()).as_slice());
            let ctx = ctx_text(proto, domain.as_str());
            ResourceTarget { proto: owned(proto), domain, file_path, ctx }
        },
        None => {
            proof {
                reveal_strlit("/");
            }
            let domain = owned(after_proto);
            let ctx = ctx_text(proto, domain.as_str());
            ResourceTarget { proto: owned(proto), domain, file_path: owned("/"), ctx }
        },
    }
}

/// `Missing referer for relative path`.
pub open spec fn missing_referer() -> Seq<char> {
    "Missing referer for relative path"@
}

/// `Invalid referer format`.
pub open spec fn invalid_referer() -> Seq<char> {
    "Invalid referer format"@
}

/// The directory part of the referring page's path, from `/` and ending
/// with `/`: for the page path `rest` after the domain, everything before
/// its last `/`.
pub open spec fn base_path_spec(rest: Option<Seq<char>>) -> Seq<char> {
    match rest {
        Some(p) => match rfind_char_spec(p, '/') {
            Some(j) => seq!['/'] + p.take(j) + seq!['/'],
            None => seq!['/'],
        },
        None => seq!['/'],
    }
}

/// The path of a relative request `uri_path` inside the directory
/// `base`.
pub open spec fn joined_path_spec(base: Seq<char>, uri_path: Seq<char>) -> Seq<char> {
    if uri_path.len() > 0 && uri_path[0] == '/' {
        trim_end_char_spec(base, '/') + uri_path
    } else {
        trim_end_char_spec(base, '/') + seq!['/'] + uri_path
    }
}

/// The scheme named in a referring address and the text after it: the
/// first `/https/`, or else the first `/http/`.
pub open spec fn referer_scheme(referer: Seq<char>) -> Option<(Seq<char>, Seq<char>)> {
    match first_match(referer, "/https/"@) {
        Some(i) => Some(("https"@, referer.skip(i + "/https/"@.len()))),
        None => match first_match(referer, "/http/"@) {
            Some(i) => Some(("http"@, referer.skip(i + "/http/"@.len()))),
            None => None,
        },
    }
}

/// The target of a relative request, taken from the page that asked for
/// it: the referring page's scheme and domain, and the request's path
/// inside the referring page's directory. Errors: no referer; a referer
/// that names no scheme.
pub open spec fn resolve_relative_spec(uri_path: Seq<char>, referer: Option<Seq<char>>) -> Result<
    (Seq<char>, Seq<char>, Seq<char>, Seq<char>),
    Seq<char>,
> {
    match referer {
        None => Err(missing_referer()),
        Some(r) => match referer_scheme(r) {
            None => Err(invalid_referer()),
            Some((proto, after)) => {
                let (domain, rest) = match find_char_spec(after, '/') {
                    Some(i) => (after.take(i), Some(after.skip(i + 1))),
                    None => (after, None),
                };
                Ok(
                    (
                        proto,
                        domain,
                        joined_path_spec(base_path_spec(rest), uri_path),
                        ctx_spec(proto, domain),
                    ),
                )
            },
        },
    }
}

/// The view of a result of a target or an error text.
pub open spec fn target_result_view(r: Result<ResourceTarget, String>) -> Result<
    (Seq<char>, Seq<char>, Seq<char>, Seq<char>),
    Seq<char>,
> {
    match r {
        Ok(t) => Ok(t@),
        Err(e) => Err(e@),
    }
}

fn base_path(rest: Option<&str>) -> (r: String)
    ensures
        r@ == base_path_spec(
            match rest {
                Some(p) => Some(p@),
                None => None,
            },
        ),
{
    match rest {
        Some(p) => {
            let v = chars_of(p);
            match rfind_char(v.as_slice(), '/') {
                Some(j) => {
                    let mut r = owned("/");
                    let head = string_of(slice_vec(v.as_slice(), 0, j).as_slice());
                    push_str(&mut r, head.as_str());
                    r.push('/');
                    proof {
                        reveal_strlit("/");
                    }
                    assert(r@ =~= seq!['/'] + p@.take(j as int) + seq!['/']);
                    r
                },
                None => {
                    proof {
                        reveal_strlit("/");
                    }
                    owned("/")
                },
            }
        },
        None => {
            proof {
                reveal_strlit("/");
            }
            owned("/")
        },
    }
}

fn joined_path(base: &str, uri_path: &str) -> (r: String)
    ensures
        r@ == joined_path_spec(base@, uri_path@),
{
    let b = chars_of(base);
    let trimmed = trim_end_char(b.as_slice(), '/');
    let mut r = string_of(trimmed.as_slice());
    let u = chars_of(uri_path);
    if u.len() > 0 && u[0] == '/' {
        push_str(&mut r, uri_path);
    } else {
        r.push('/');
        push_str(&mut r, uri_path);
    }
    r
}

/// The target of a relative request, as `resolve_relative_spec` says.
pub fn resolve_relative_path(uri_path: &str, referer: Option<&str>) -> (r: Result<ResourceTarget, String>)
    ensures
        target_result_view(r) == resolve_relative_spec(
            uri_path@,
            match referer {
                Some(x) => Some(x@),
                None => None,
            },
        ),
{
    let referer = match referer {
        Some(x) => x,
        None => {
            return Err(owned("Missing referer for relative path"));
        },
    };
    proof {
        reveal_strlit("/http/");
        reveal_strlit("/https/");
    }
    assert("/http/"@.len() == 6 && "/https/"@.len() == 7);
    let (proto, after) = match find_str(referer, "/https/") {
        Some(i) => (owned("https"), skip_str(referer, i + 7)),
        None => match find_str(referer, "/http/") {
            Some(i) => (owned("http"), skip_str(referer, i + 6)),
            None => {
                return Err(owned("Invalid referer format"));
            },
        },
    };
    let v = chars_of(after.as_str());
    let (domain, base) = match find_char(v.as_slice(), '/') {
        Some(i) => {
            let d = string_of(slice_vec(v.as_slice(), 0, i).as_slice());
            let rest = string_of(slice_vec(v.as_slice(), i + 1, v.len()).as_slice());
            (d, base_path(Some(rest.as_str())))
        },
        None => (owned(after.as_str()), base_path(None)),
    };
    let file_path = joined_path(base.as_str(), uri_path);
    let ctx = ctx_text(proto.as_str(), domain.as_str());
    Ok(ResourceTarget { proto, domain, file_path, ctx })
}

// ------------------------------------------------------------ laws of relative paths

/// Trimming the trailing `c`s keeps a prefix of `s` that does not end with
/// `c`, and drops only `c`s.
pub proof fn lemma_trim_end(s: Seq<char>, c: char)
    ensures
        trim_end_char_spec(s, c).len() <= s.len(),
        s.take(trim_end_char_spec(s, c).len() as int) == trim_end_char_spec(s, c),
        trim_end_char_spec(s, c).len() == 0 || trim_end_char_spec(s, c).last() != c,
        forall|j: int| trim_end_char_spec(s, c).len() <= j < s.len() ==> s[j] == c,
    decreases s.len(),
{
    if s.len() > 0 && s.last() == c {
        lemma_trim_end(s.drop_last(), c);
        let t = trim_end_char_spec(s, c);
        assert(s.take(t.len() as int) =~= s.drop_last().take(t.len() as int));
        assert forall|j: int| t.len() <= j < s.len() implies s[j] == c by {
            if j < s.len() - 1 {
                assert(s.drop_last()[j] == s[j]);
            }
        }
    } else {
        assert(s.take(s.len() as int) =~= s);
    }
}

/// A relative request lands inside the directory: the path begins with
/// the directory (its trailing `/`s dropped), then exactly one `/`, and
/// ends with the request; a request that begins with `/` follows the
/// directory at once, any other after one added `/`.
pub proof fn lemma_joined_path(base: Seq<char>, uri_path: Seq<char>)
    ensures
        ({
            let t = trim_end_char_spec(base, '/');
            let j = joined_path_spec(base, uri_path);
            &&& j.take(t.len() as int) == t
            &&& base.take(t.len() as int) == t
            &&& j.len() > t.len() && j[t.len() as int] == '/'
            &&& (t.len() == 0 || j[t.len() - 1] != '/')
            &&& j.skip(j.len() - uri_path.len()) == uri_path
            &&& j.len() == t.len() + uri_path.len() + if uri_path.len() > 0 && uri_path[0] == '/' {
                0int
            } else {
                1int
            }
        }),
{
    lemma_trim_end(base, '/');
    let t = trim_end_char_spec(base, '/');
    let j = joined_path_spec(base, uri_path);
    if uri_path.len() > 0 && uri_path[0] == '/' {
        assert(j == t + uri_path);
        assert(j.take(t.len() as int) =~= t);
        assert(j.skip(j.len() - uri_path.len()) =~= uri_path);
    } else {
        assert(j == t + seq!['/'] + uri_path);
        assert(j.take(t.len() as int) =~= t);
        assert(j.skip(j.len() - uri_path.len()) =~= uri_path);
    }
}

/// The directory of the page `dir/page` (a page name without `/`) is
/// `/dir/`.
pub proof fn lemma_base_path(dir: Seq<char>, page: Seq<char>)
    requires
        forall|i: int| 0 <= i < page.len() ==> page[i] != '/',
    ensures
        base_path_spec(Some(dir + seq!['/'] + page)) == seq!['/'] + dir + seq!['/'],
{
    let p = dir + seq!['/'] + page;
    let k = dir.len() as int;
    assert(p[k] == '/');
    assert forall|j: int| k < j < p.len() implies p[j] != '/' by {
        assert(p[j] == page[j - k - 1]);
    }
    let w = choose|i: int| 0 <= i < p.len() && p[i] == '/' && forall|j: int| i < j < p.len() ==> p[j] != '/';
    assert(w == k) by {
        if w < k {
            assert(p[k] == '/');
        }
    }
    assert(rfind_char_spec(p, '/') == Some(k));
    assert(p.take(k) =~= dir);
}

/// In `{domain}/{rest}`, with no `/` in the domain, the first `/` is the
/// one after the domain.
pub proof fn lemma_first_slash(domain: Seq<char>, rest: Seq<char>)
    requires
        forall|i: int| 0 <= i < domain.len() ==> domain[i] != '/',
    ensures
        find_char_spec(domain + seq!['/'] + rest, '/') == Some(domain.len() as int),
        (domain + seq!['/'] + rest).take(domain.len() as int) == domain,
        (domain + seq!['/'] + rest).skip(domain.len() + 1int) == rest,
{
    let s = domain + seq!['/'] + rest;
    let d = domain.len() as int;
    assert(s[d] == '/');
    assert forall|j: int| 0 <= j < d implies s[j] != '/' by {
        assert(s[j] == domain[j]);
    }
    lemma_find_char_first(s, '/', d);
    assert(s.take(d) =~= domain);
    assert(s.skip(d + 1) =~= rest);
}

/// A direct request names its domain and path: after `/{proto}/`, the
/// text up to the first `/` is the domain and the rest, from that `/` on,
/// is the file; with no `/` after the domain the file is `/`.
pub proof fn lemma_direct_path(proto: Seq<char>, domain: Seq<char>, rest: Seq<char>)
    requires
        forall|i: int| 0 <= i < domain.len() ==> domain[i] != '/',
    ensures
        parse_path_spec(proto, domain + seq!['/'] + rest) == (
            proto,
            domain,
            seq!['/'] + rest,
            proto + seq!['/'] + domain,
        ),
        parse_path_spec(proto, domain) == (proto, domain, seq!['/'], proto + seq!['/'] + domain),
{
    lemma_first_slash(domain, rest);
    let s = domain + seq!['/'] + rest;
    let d = domain.len() as int;
    assert(s.skip(d) =~= seq!['/'] + rest);
    assert(!(exists|i: int| 0 <= i < domain.len() && domain[i] == '/'));
}

/// A request `p` relative to the page `{dir}/{page}` (a page name without
/// `/`, a directory that does not end with `/`) is the file `/{dir}{p}`
/// where `p` begins with `/`, and `/{dir}/{p}` otherwise.
pub proof fn lemma_page_dir_join(dir: Seq<char>, page: Seq<char>, p: Seq<char>)
    requires
        forall|i: int| 0 <= i < page.len() ==> page[i] != '/',
        dir.len() > 0,
        dir.last() != '/',
    ensures
        joined_path_spec(base_path_spec(Some(dir + seq!['/'] + page)), p) == if p.len() > 0 && p[0] == '/' {
            seq!['/'] + dir + p
        } else {
            seq!['/'] + dir + seq!['/'] + p
        },
{
    lemma_base_path(dir, page);
    let b = seq!['/'] + dir + seq!['/'];
    let b2 = seq!['/'] + dir;
    assert(b.drop_last() =~= b2);
    assert(b2.last() == dir.last());
    assert(trim_end_char_spec(b2, '/') == b2);
    assert(trim_end_char_spec(b, '/') == trim_end_char_spec(b2, '/'));
    if p.len() > 0 && p[0] == '/' {
        assert(joined_path_spec(b, p) == b2 + p);
    } else {
        assert(joined_path_spec(b, p) == b2 + seq!['/'] + p);
    }
}

/// A relative request is resolved inside the referring page's directory:
/// for a referer `r` whose first scheme marker names `proto` and is
/// followed by `{domain}/{dir}/{page}` (a domain and a page name without
/// `/`, a directory that does not end with `/`), a request `p` that begins
/// with `/` is the file `/{dir}{p}` and any other request the file
/// `/{dir}/{p}`, on that domain and scheme.
pub proof fn lemma_relative_in_referer_dir(
    r: Seq<char>,
    proto: Seq<char>,
    domain: Seq<char>,
    dir: Seq<char>,
    page: Seq<char>,
    p: Seq<char>,
)
    requires
        referer_scheme(r) == Some((proto, domain + seq!['/'] + (dir + seq!['/'] + page))),
        forall|i: int| 0 <= i < domain.len() ==> domain[i] != '/',
        forall|i: int| 0 <= i < page.len() ==> page[i] != '/',
        dir.len() > 0,
        dir.last() != '/',
    ensures
        resolve_relative_spec(p, Some(r)) == Ok::<(Seq<char>, Seq<char>, Seq<char>, Seq<char>), Seq<char>>(
            (
                proto,
                domain,
                if p.len() > 0 && p[0] == '/' {
                    seq!['/'] + dir + p
                } else {
                    seq!['/'] + dir + seq!['/'] + p
                },
                ctx_spec(proto, domain),
            ),
        ),
{
    lemma_first_slash(domain, dir + seq!['/'] + page);
    lemma_page_dir_join(dir, page, p);
}

/// A referer `{pre}/https/{rest}` whose first `/https/` is the one after
/// `pre` names https, followed by `rest`.
pub proof fn lemma_https_referer(pre: Seq<char>, rest: Seq<char>)
    requires
        first_match(pre + "/https/"@ + rest, "/https/"@) == Some(pre.len() as int),
    ensures
        referer_scheme(pre + "/https/"@ + rest) == Some(("https"@, rest)),
{
    reveal_strlit("/https/");
    let r = pre + "/https/"@ + rest;
    assert(r.skip(pre.len() + 7int) =~= rest);
}

/// The target of a request with path `uri_path`: after the first `/https/`
/// or else the first `/http/`, a direct request; otherwise a relative
/// one.
pub open spec fn resource_target_spec(uri_path: Seq<char>, referer: Option<Seq<char>>) -> Result<
    (Seq<char>, Seq<char>, Seq<char>, Seq<char>),
    Seq<char>,
> {
    match first_match(uri_path, "/https/"@) {
        Some(i) => Ok(parse_path_spec("https"@, uri_path.skip(i + "/https/"@.len()))),
        None => match first_match(uri_path, "/http/"@) {
            Some(i) => Ok(parse_path_spec("http"@, uri_path.skip(i + "/http/"@.len()))),
            None => resolve_relative_spec(uri_path, referer),
        },
    }
}

/// The target of a request, as `resource_target_spec` says.
pub fn resource_target(uri_path: &str, referer: Option<&str>) -> (r: Result<ResourceTarget, String>)
    ensures
        target_result_view(r) == resource_target_spec(
            uri_path@,
            match referer {
                Some(x) => Some(x@),
                None => None,
            },
        ),
{
    proof {
        reveal_strlit("/http/");
        reveal_strlit("/https/");
    }
    assert("/http/"@.len() == 6 && "/https/"@.len() == 7);
    match find_str(uri_path, "/https/") {
        Some(i) => {
            let after = skip_str(uri_path, i + 7);
            Ok(parse_path("https", after.as_str()))
        },
        None => match find_str(uri_path, "/http/") {
            Some(i) => {
                let after = skip_str(uri_path, i + 6);
                Ok(parse_path("http", after.as_str()))
            },
            None => resolve_relative_path(uri_path, referer),
        },
    }
}

/// `{proto}://{domain}{path}` with `?{query}` where there is a query.
pub open spec fn site_url_spec(t: (Seq<char>, Seq<char>, Seq<char>, Seq<char>), query: Option<Seq<char>>) -> Seq<
    char,
> {
    t.0 + "://"@ + t.1 + t.2 + match query {
        Some(q) => seq!['?'] + q,
        None => Seq::empty(),
    }
}

/// The site address a target stands for.
pub fn site_url(t: &ResourceTarget, query: Option<&str>) -> (r: String)
    ensures
        r@ == site_url_spec(
            t@,
            match query {
                Some(q) => Some(q@),
                None => None,
            },
        ),
{
    let mut r = owned(t.proto.as_str());
    push_str(&mut r, "://");
    push_str(&mut r, t.domain.as_str());
    push_str(&mut r, t.file_path.as_str());
    match query {
        Some(q) => {
            r.push('?');
            push_str(&mut r, q);
        },
        None => {},
    }
    r
}

/// A direct address names the site address it was made from: for a
/// domain without `/` and a path from `/`, the request path
/// `/https/{domain}{path}` stands for `https://{domain}{path}`, with the
/// query appended where one is given, whatever the referer.
pub proof fn lemma_direct_address_roundtrip(
    domain: Seq<char>,
    path: Seq<char>,
    query: Option<Seq<char>>,
    referer: Option<Seq<char>>,
)
    requires
        forall|i: int| 0 <= i < domain.len() ==> domain[i] != '/',
        path.len() > 0,
        path[0] == '/',
    ensures
        resource_target_spec("/https/"@ + domain + path, referer) matches Ok(t) && site_url_spec(t, query)
            == "https://"@ + domain + path + match query {
            Some(q) => seq!['?'] + q,
            None => Seq::<char>::empty(),
        },
{
    reveal_strlit("/https/");
    reveal_strlit("https");
    reveal_strlit("://");
    reveal_strlit("https://");
    let pat = "/https/"@;
    let uri = pat + domain + path;
    assert(uri.subrange(0, pat.len() as int) =~= pat);
    assert(matches_at(uri, 0, pat));
    lemma_first_match(uri, pat, 0);
    let after = uri.skip(pat.len() as int);
    assert(after =~= domain + path);
    let n = domain.len() as int;
    assert(after[n] == '/');
    assert forall|j: int| 0 <= j < n implies after[j] != '/' by {
        assert(after[j] == domain[j]);
    }
    lemma_find_char_first(after, '/', n);
    assert(after.take(n) =~= domain);
    assert(after.skip(n) =~= path);
    assert("https://"@ =~= "https"@ + "://"@);
}

// ------------------------------------------------------------ caching

/// The domain without its port: the text before the first `:`.
pub open spec fn domain_name_spec(domain: Seq<char>) -> Seq<char> {
    match find_char_spec(domain, ':') {
        Some(i) => domain.take(i),
        None => domain,
    }
}

/// The domain without its port.
pub fn domain_name(domain: &str) -> (r: String)
    ensures
        r@ == domain_name_spec(domain@),
{
    let v = chars_of(domain);
    match find_char(v.as_slice(), ':') {
        Some(i) => string_of(slice_vec(v.as_slice(), 0, i).as_slice()),
        None => owned(domain),
    }
}

/// The extensions whose files are cached.
pub open spec fn cache_whitelist() -> Seq<Seq<char>> {
    seq![
        "html"@,
        "htm"@,
        "js"@,
        "mjs"@,
        "cjs"@,
        "css"@,
        "json"@,
        "webmanifest"@,
        "woff"@,
        "woff2"@,
        "ttf"@,
        "otf"@,
        "svg"@,
        "map"@,
    ]
}

/// Whether a file with path `file_path` is cached: its lowercased
/// extension is on the list.
pub fn should_cache(file_path: &str) -> (r: bool)
    ensures
        r == cache_whitelist().contains(lower_extension_spec(file_path@)),
{
    let ext = lower_extension(file_path);
    let list: [&str; 14] = [
        "html",
        "htm",
        "js",
        "mjs",
        "cjs",
        "css",
        "json",
        "webmanifest",
        "woff",
        "woff2",
        "ttf",
        "otf",
        "svg",
        "map",
    ];
    let ghost views = list@.map_values(|s: &str| s@);
    assert(views =~= cache_whitelist());
    let mut i: usize = 0;
    while i < 14
        invariant
            i <= 14,
            views == list@.map_values(|s: &str| s@),
            views == cache_whitelist(),
            ext@ == lower_extension_spec(file_path@),
            forall|j: int| 0 <= j < i ==> views[j] != ext@,
        decreases 14 - i,
    {
        if eq_str(list[i], ext.as_str()) {
            assert(views[i as int] == ext@);
            assert(cache_whitelist().contains(ext@));
            return true;
        }
        i = i + 1;
    }
    assert(!views.contains(ext@));
    false
}

/// Where a resource is cached: `{app data}/pwa_cache/{domain name}/`, then
/// `index.html` for the root path and the path without its leading `/`
/// otherwise.
pub open spec fn local_cache_path_spec(app_data_dir: Seq<char>, domain: Seq<char>, file_path: Seq<char>) -> Seq<
    char,
> {
    let dir = join_spec(join_spec(app_data_dir, "pwa_cache"@), domain_name_spec(domain));
    if file_path == seq!['/'] || file_path.len() == 0 {
        join_spec(dir, "index.html"@)
    } else {
        join_spec(dir, trim_start_char_spec(file_path, '/'))
    }
}

/// The cache file of a resource.
pub fn local_cache_path(app_data_dir: &str, domain: &str, file_path: &str) -> (r: String)
    ensures
        r@ == local_cache_path_spec(app_data_dir@, domain@, file_path@),
{
    let base = join(app_data_dir, "pwa_cache");
    let name = domain_name(domain);
    let dir = join(base.as_str(), name.as_str());
    let v = chars_of(file_path);
    if (v.len() == 1 && v[0] == '/') || v.len() == 0 {
        assert(v@.len() == 1 && v@[0] == '/' ==> v@ =~= seq!['/']);
        join(dir.as_str(), "index.html")
    } else {
        assert(file_path@ != seq!['/']);
        let t = trim_start_char(v.as_slice(), '/');
        let ts = string_of(t.as_slice());
        join(dir.as_str(), ts.as_str())
    }
}

/// The cookie that keeps the site context:
/// `pwa_context={ctx}; Path=/; Max-Age=3600; SameSite=Lax`.
pub open spec fn context_cookie_spec(ctx: Seq<char>) -> Seq<char> {
    "pwa_context="@ + ctx + "; Path=/; Max-Age=3600; SameSite=Lax"@
}

/// The `Set-Cookie` value of a response.
pub fn context_cookie(ctx: &str) -> (r: String)
    ensures
        r@ == context_cookie_spec(ctx@),
{
    let mut r = owned("pwa_context=");
    push_str(&mut r, ctx);
    push_str(&mut r, "; Path=/; Max-Age=3600; SameSite=Lax");
    r
}

// ------------------------------------------------------------ HTML

/// The directory of a page path: up to and including its last `/`, or `/`.
pub open spec fn base_file_path_spec(file_path: Seq<char>) -> Seq<char> {
    match rfind_char_spec(file_path, '/') {
        Some(j) => file_path.take(j + 1),
        None => seq!['/'],
    }
}

/// The address that a page's relative links are made to point into:
/// `pwa-resource://localhost/{proto}/{domain}{directory}`.
pub open spec fn rewrite_base_spec(proto: Seq<char>, domain: Seq<char>, file_path: Seq<char>) -> Seq<char> {
    "pwa-resource://localhost/"@ + proto + seq!['/'] + domain + base_file_path_spec(file_path)
}

/// The page with its relative links pointed at the base address, in this
/// order: `src="./`, `src='./`, `href="./`, `href='./`, `src="/`, `src='/`,
/// `href="/`, `href='/`, `url(./`, `url(/`, `import "./`, `import './`.
pub open spec fn rewrite_html_spec(html: Seq<char>, base: Seq<char>) -> Seq<char> {
    let s1 = replace_spec(html, "src=\"./"@, "src=\""@ + base);
    let s2 = replace_spec(s1, "src='./"@, "src='"@ + base);
    let s3 = replace_spec(s2, "href=\"./"@, "href=\""@ + base);
    let s4 = replace_spec(s3, "href='./"@, "href='"@ + base);
    let s5 = replace_spec(s4, "src=\"/"@, "src=\""@ + base);
    let s6 = replace_spec(s5, "src='/"@, "src='"@ + base);
    let s7 = replace_spec(s6, "href=\"/"@, "href=\""@ + base);
    let s8 = replace_spec(s7, "href='/"@, "href='"@ + base);
    let s9 = replace_spec(s8, "url(./"@, "url("@ + base);
    let s10 = replace_spec(s9, "url(/"@, "url("@ + base);
    let s11 = replace_spec(s10, "import \"./"@, "import \""@ + base);
    replace_spec(s11, "import './"@, "import '"@ + base)
}

fn prefixed(lead: &str, base: &str) -> (r: String)
    ensures
        r@ == lead@ + base@,
{
    let mut r = owned(lead);
    push_str(&mut r, base);
    r
}

fn base_file_path(file_path: &str) -> (r: String)
    ensures
        r@ == base_file_path_spec(file_path@),
{
    let v = chars_of(file_path);
    match rfind_char(v.as_slice(), '/') {
        Some(j) => string_of(slice_vec(v.as_slice(), 0, j + 1).as_slice()),
        None => {
            proof {
                reveal_strlit("/");
            }
            owned("/")
        },
    }
}

/// The base address for a page.
pub fn rewrite_base(proto: &str, domain: &str, file_path: &str) -> (r: String)
    ensures
        r@ == rewrite_base_spec(proto@, domain@, file_path@),
{
    let mut r = owned("pwa-resource://localhost/");
    push_str(&mut r, proto);
    r.push('/');
    push_str(&mut r, domain);
    let b = base_file_path(file_path);
    push_str(&mut r, b.as_str());
    r
}

/// The page with its relative links rewritten, as `rewrite_html_spec`
/// says.
pub fn rewrite_html(html: &str, base: &str) -> (r: String)
    ensures
        r@ == rewrite_html_spec(html@, base@),
{
    proof {
        reveal_strlit("src=\"./");
        reveal_strlit("src='./");
        reveal_strlit("href=\"./");
        reveal_strlit("href='./");
        reveal_strlit("src=\"/");
        reveal_strlit("src='/");
        reveal_strlit("href=\"/");
        reveal_strlit("href='/");
        reveal_strlit("url(./");
        reveal_strlit("url(/");
        reveal_strlit("import \"./");
        reveal_strlit("import './");
    }
    let s1 = replace(html, "src=\"./", prefixed("src=\"", base).as_str());
    let s2 = replace(s1.as_str(), "src='./", prefixed("src='", base).as_str());
    let s3 = replace(s2.as_str(), "href=\"./", prefixed("href=\"", base).as_str());
    let s4 = replace(s3.as_str(), "href='./", prefixed("href='", base).as_str());
    let s5 = replace(s4.as_str(), "src=\"/", prefixed("src=\"", base).as_str());
    let s6 = replace(s5.as_str(), "src='/", prefixed("src='", base).as_str());
    let s7 = replace(s6.as_str(), "href=\"/", prefixed("href=\"", base).as_str());
    let s8 = replace(s7.as_str(), "href='/", prefixed("href='", base).as_str());
    let s9 = replace(s8.as_str(), "url(./", prefixed("url(", base).as_str());
    let s10 = replace(s9.as_str(), "url(/", prefixed("url(", base).as_str());
    let s11 = replace(s10.as_str(), "import \"./", prefixed("import \"", base).as_str());
    replace(s11.as_str(), "import './", prefixed("import '", base).as_str())
}

/// `String::from_utf8`: the text the bytes encode in UTF-8, or `None`
/// where they are no valid UTF-8.
#[verifier::external_body]
fn utf8_text(bytes: Vec<u8>) -> (r: Option<String>)
    ensures
        r is Some <==> valid_utf8(bytes@),
        r matches Some(s) ==> s@ == decode_utf8(bytes@),
{
    match String::from_utf8(bytes) {
        Ok(s) => Some(s),
        Err(_) => None,
    }
}

/// The body of a fetched resource as it is served and cached: a page that
/// came with status 200, a type mentioning `html` and valid UTF-8 text is
/// rewritten; anything else is left as it came.
pub open spec fn served_body_spec(
    content: Seq<u8>,
    mime: Option<Seq<char>>,
    status: u16,
    base: Seq<char>,
) -> Seq<u8> {
    if status == 200 && (mime matches Some(m) && contains_spec(m, "html"@)) && valid_utf8(content) {
        encode_utf8(rewrite_html_spec(decode_utf8(content), base))
    } else {
        content
    }
}

/// The body of a fetched resource, as `served_body_spec` says.
pub fn served_body(content: Vec<u8>, mime: Option<&str>, status: u16, base: &str) -> (r: Vec<u8>)
    ensures
        r@ == served_body_spec(
            content@,
            match mime {
                Some(m) => Some(m@),
                None => None,
            },
            status,
            base@,
        ),
{
    let is_html = match mime {
        Some(m) => contains(m, "html"),
        None => false,
    };
    if status == 200 && is_html {
        let ghost c = content@;
        match utf8_text(content.clone()) {
            Some(html) => {
                let out = rewrite_html(html.as_str(), base);
                vstd::slice::slice_to_vec(out.as_str().as_bytes())
            },
            None => content,
        }
    } else {
        content
    }
}

/// What a fetch of the network gave: the body, the reported type, the
/// status.
pub struct Fetched {
    pub content: Vec<u8>,
    pub mime: Option<String>,
    pub status: u16,
}

/// Which response is served: the network's where it came with status 200;
/// else, for a cached kind of file whose cache copy could be read, that
/// copy with status 200 and no reported type; else what the network gave
/// (its error included).
pub fn choose_resource(network: Result<Fetched, String>, cacheable: bool, cached: Option<Vec<u8>>) -> (r:
    Result<Fetched, String>)
    ensures
        match network {
            Ok(f) => if f.status == 200 {
                r == Ok::<Fetched, String>(f)
            } else if cacheable && cached is Some {
                r matches Ok(g) && g.content@ == cached->0@ && g.mime is None && g.status == 200
            } else {
                r == Ok::<Fetched, String>(f)
            },
            Err(e) => if cacheable && cached is Some {
                r matches Ok(g) && g.content@ == cached->0@ && g.mime is None && g.status == 200
            } else {
                r == Err::<Fetched, String>(e)
            },
        },
{
    match network {
        Ok(f) => {
            if f.status == 200 {
                Ok(f)
            } else {
                match cached {
                    Some(c) => if cacheable {
                        Ok(Fetched { content: c, mime: None, status: 200 })
                    } else {
                        Ok(f)
                    },
                    None => Ok(f),
                }
            }
        },
        Err(e) => match cached {
            Some(c) => if cacheable {
                Ok(Fetched { content: c, mime: None, status: 200 })
            } else {
                Err(e)
            },
            None => Err(e),
        },
    }
}

/// Whether a fetched resource is written to the cache: status 200 and a
/// cached kind of file.
pub fn should_store(status: u16, cacheable: bool) -> (r: bool)
    ensures
        r == (status == 200 && cacheable),
{
    status == 200 && cacheable
}

// ------------------------------------------------------------ laws of the rewrite

/// Whether `t` holds none of the characters that every link prefix has one
/// of: `=`, `"`, `'`, `(` and the space.
pub open spec fn link_free(t: Seq<char>) -> bool {
    forall|j: int|
        0 <= j < t.len() ==> t[j] != '=' && t[j] != '"' && t[j] != '\'' && t[j] != '(' && t[j] != ' '
}

/// Where `pat` occurs nowhere in `s`, replacing it changes nothing.
pub proof fn lemma_replace_none(s: Seq<char>, from: Seq<char>, to: Seq<char>)
    requires
        forall|i: int| !matches_at(s, i, from),
    ensures
        replace_spec(s, from, to) == s,
    decreases s.len(),
{
    if from.len() > 0 && s.len() > 0 {
        let t = s.drop_first();
        assert forall|i: int| !matches_at(t, i, from) by {
            if matches_at(t, i, from) {
                assert(s.subrange(i + 1, i + 1 + from.len()) =~= t.subrange(i, i + from.len()));
                assert(matches_at(s, i + 1, from));
            }
        }
        lemma_replace_none(t, from, to);
        assert(seq![s[0]] + t =~= s);
    }
}

/// A text that begins with `from`, and has no other `from` after it, is
/// `to` followed by the rest.
pub proof fn lemma_replace_head(from: Seq<char>, x: Seq<char>, to: Seq<char>)
    requires
        from.len() > 0,
        forall|i: int| !matches_at(x, i, from),
    ensures
        replace_spec(from + x, from, to) == to + x,
{
    let s = from + x;
    assert(s.subrange(0, from.len() as int) =~= from);
    assert(s.skip(from.len() as int) =~= x);
    lemma_replace_none(x, from, to);
}

/// The characters of a match.
pub proof fn lemma_match_chars(s: Seq<char>, i: int, pat: Seq<char>)
    requires
        matches_at(s, i, pat),
    ensures
        forall|k: int| 0 <= k < pat.len() ==> s[i + k] == pat[k],
{
    assert forall|k: int| 0 <= k < pat.len() implies s[i + k] == pat[k] by {
        assert(s.subrange(i, i + pat.len())[k] == pat[k]);
    }
}

/// Whether `c` is one of the characters that every link prefix has one of.
pub open spec fn link_char(c: char) -> bool {
    c == '=' || c == '"' || c == '\'' || c == '(' || c == ' '
}

/// The twelve relative-link prefixes a page's links are found by, in the
/// order they are rewritten.
pub open spec fn link_pat(j: int) -> Seq<char> {
    if j == 0 {
        seq!['s', 'r', 'c', '=', '"', '.', '/']
    } else if j == 1 {
        seq!['s', 'r', 'c', '=', '\'', '.', '/']
    } else if j == 2 {
        seq!['h', 'r', 'e', 'f', '=', '"', '.', '/']
    } else if j == 3 {
        seq!['h', 'r', 'e', 'f', '=', '\'', '.', '/']
    } else if j == 4 {
        seq!['s', 'r', 'c', '=', '"', '/']
    } else if j == 5 {
        seq!['s', 'r', 'c', '=', '\'', '/']
    } else if j == 6 {
        seq!['h', 'r', 'e', 'f', '=', '"', '/']
    } else if j == 7 {
        seq!['h', 'r', 'e', 'f', '=', '\'', '/']
    } else if j == 8 {
        seq!['u', 'r', 'l', '(', '.', '/']
    } else if j == 9 {
        seq!['u', 'r', 'l', '(', '/']
    } else if j == 10 {
        seq!['i', 'm', 'p', 'o', 'r', 't', ' ', '"', '.', '/']
    } else {
        seq!['i', 'm', 'p', 'o', 'r', 't', ' ', '\'', '.', '/']
    }
}

/// What the link prefix `link_pat(j)` keeps in front of the base address:
/// the prefix without its `./` or `/`.
pub open spec fn link_lead(j: int) -> Seq<char> {
    if j == 0 || j == 4 {
        seq!['s', 'r', 'c', '=', '"']
    } else if j == 1 || j == 5 {
        seq!['s', 'r', 'c', '=', '\'']
    } else if j == 2 || j == 6 {
        seq!['h', 'r', 'e', 'f', '=', '"']
    } else if j == 3 || j == 7 {
        seq!['h', 'r', 'e', 'f', '=', '\'']
    } else if j == 8 || j == 9 {
        seq!['u', 'r', 'l', '(']
    } else if j == 10 {
        seq!['i', 'm', 'p', 'o', 'r', 't', ' ', '"']
    } else {
        seq!['i', 'm', 'p', 'o', 'r', 't', ' ', '\'']
    }
}

/// The page after the first `n` rewriting steps.
pub open spec fn link_stages(html: Seq<char>, base: Seq<char>, n: nat) -> Seq<char>
    decreases n,
{
    if n == 0 {
        html
    } else {
        replace_spec(link_stages(html, base, (n - 1) as nat), link_pat(n - 1), link_lead(n - 1) + base)
    }
}

/// Whether `p` holds a link character.
pub open spec fn has_link_char(p: Seq<char>) -> bool
    decreases p.len(),
{
    p.len() > 0 && (link_char(p[0]) || has_link_char(p.drop_first()))
}

/// Whether `pat` could be matched from the start of `t`, the text after `t`
/// being free of link characters (and, where `strict`, starting with
/// neither `.` nor `/`).
pub open spec fn agree_then(t: Seq<char>, pat: Seq<char>, strict: bool) -> bool
    decreases pat.len(),
{
    if pat.len() == 0 {
        true
    } else if t.len() == 0 {
        !link_char(pat[0]) && !(strict && (pat[0] == '.' || pat[0] == '/'))
    } else {
        t[0] == pat[0] && agree_then(t.drop_first(), pat.drop_first(), strict)
    }
}

/// Whether no match of `pat` can start in `a` at `i` or later.
pub open spec fn no_clash_from(a: Seq<char>, pat: Seq<char>, strict: bool, i: nat) -> bool
    decreases a.len() - i,
{
    if i >= a.len() {
        true
    } else {
        !agree_then(a.skip(i as int), pat, strict) && no_clash_from(a, pat, strict, i + 1)
    }
}

/// What the rewriting steps need of the prefixes `j` and `k`.
pub open spec fn link_pair_ok(j: int, k: int) -> bool {
    &&& has_link_char(link_pat(j))
    &&& j < k ==> no_clash_from(link_pat(k), link_pat(j), false, 0)
    &&& j > k ==> no_clash_from(link_lead(k), link_pat(j), true, 0)
}

proof fn lemma_link_pairs_of(k: int)
    requires
        0 <= k < 12,
    ensures
        forall|j: int| 0 <= j < 12 ==> #[trigger] link_pair_ok(j, k),
{
    reveal_with_fuel(no_clash_from, 11);
    reveal_with_fuel(agree_then, 11);
    reveal_with_fuel(has_link_char, 11);
    if k == 0 {
        assert(link_pair_ok(0, 0));
        assert(link_pair_ok(1, 0));
        assert(link_pair_ok(2, 0));
        assert(link_pair_ok(3, 0));
        assert(link_pair_ok(4, 0));
        assert(link_pair_ok(5, 0));
        assert(link_pair_ok(6, 0));
        assert(link_pair_ok(7, 0));
        assert(link_pair_ok(8, 0));
        assert(link_pair_ok(9, 0));
        assert(link_pair_ok(10, 0));
        assert(link_pair_ok(11, 0));
    }
    if k == 1 {
        assert(link_pair_ok(0, 1));
        assert(link_pair_ok(1, 1));
        assert(link_pair_ok(2, 1));
        assert(link_pair_ok(3, 1));
        assert(link_pair_ok(4, 1));
        assert(link_pair_ok(5, 1));
        assert(link_pair_ok(6, 1));
        assert(link_pair_ok(7, 1));
        assert(link_pair_ok(8, 1));
        assert(link_pair_ok(9, 1));
        assert(link_pair_ok(10, 1));
        assert(link_pair_ok(11, 1));
    }
    if k == 2 {
        assert(link_pair_ok(0, 2));
        assert(link_pair_ok(1, 2));
        assert(link_pair_ok(2, 2));
        assert(link_pair_ok(3, 2));
        assert(link_pair_ok(4, 2));
        assert(link_pair_ok(5, 2));
        assert(link_pair_ok(6, 2));
        assert(link_pair_ok(7, 2));
        assert(link_pair_ok(8, 2));
        assert(link_pair_ok(9, 2));
        assert(link_pair_ok(10, 2));
        assert(link_pair_ok(11, 2));
    }
    if k == 3 {
        assert(link_pair_ok(0, 3));
        assert(link_pair_ok(1, 3));
        assert(link_pair_ok(2, 3));
        assert(link_pair_ok(3, 3));
        assert(link_pair_ok(4, 3));
        assert(link_pair_ok(5, 3));
        assert(link_pair_ok(6, 3));
        assert(link_pair_ok(7, 3));
        assert(link_pair_ok(8, 3));
        assert(link_pair_ok(9, 3));
        assert(link_pair_ok(10, 3));
        assert(link_pair_ok(11, 3));
    }
    if k == 4 {
        assert(link_pair_ok(0, 4));
        assert(link_pair_ok(1, 4));
        assert(link_pair_ok(2, 4));
        assert(link_pair_ok(3, 4));
        assert(link_pair_ok(4, 4));
        assert(link_pair_ok(5, 4));
        assert(link_pair_ok(6, 4));
        assert(link_pair_ok(7, 4));
        assert(link_pair_ok(8, 4));
        assert(link_pair_ok(9, 4));
        assert(link_pair_ok(10, 4));
        assert(link_pair_ok(11, 4));
    }
    if k == 5 {
        assert(link_pair_ok(0, 5));
        assert(link_pair_ok(1, 5));
        assert(link_pair_ok(2, 5));
        assert(link_pair_ok(3, 5));
        assert(link_pair_ok(4, 5));
        assert(link_pair_ok(5, 5));
        assert(link_pair_ok(6, 5));
        assert(link_pair_ok(7, 5));
        assert(link_pair_ok(8, 5));
        assert(link_pair_ok(9, 5));
        assert(link_pair_ok(10, 5));
        assert(link_pair_ok(11, 5));
    }
    if k == 6 {
        assert(link_pair_ok(0, 6));
        assert(link_pair_ok(1, 6));
        assert(link_pair_ok(2, 6));
        assert(link_pair_ok(3, 6));
        assert(link_pair_ok(4, 6));
        assert(link_pair_ok(5, 6));
        assert(link_pair_ok(6, 6));
        assert(link_pair_ok(7, 6));
        assert(link_pair_ok(8, 6));
        assert(link_pair_ok(9, 6));
        assert(link_pair_ok(10, 6));
        assert(link_pair_ok(11, 6));
    }
    if k == 7 {
        assert(link_pair_ok(0, 7));
        assert(link_pair_ok(1, 7));
        assert(link_pair_ok(2, 7));
        assert(link_pair_ok(3, 7));
        assert(link_pair_ok(4, 7));
        assert(link_pair_ok(5, 7));
        assert(link_pair_ok(6, 7));
        assert(link_pair_ok(7, 7));
        assert(link_pair_ok(8, 7));
        assert(link_pair_ok(9, 7));
        assert(link_pair_ok(10, 7));
        assert(link_pair_ok(11, 7));
    }
    if k == 8 {
        assert(link_pair_ok(0, 8));
        assert(link_pair_ok(1, 8));
        assert(link_pair_ok(2, 8));
        assert(link_pair_ok(3, 8));
        assert(link_pair_ok(4, 8));
        assert(link_pair_ok(5, 8));
        assert(link_pair_ok(6, 8));
        assert(link_pair_ok(7, 8));
        assert(link_pair_ok(8, 8));
        assert(link_pair_ok(9, 8));
        assert(link_pair_ok(10, 8));
        assert(link_pair_ok(11, 8));
    }
    if k == 9 {
        assert(link_pair_ok(0, 9));
        assert(link_pair_ok(1, 9));
        assert(link_pair_ok(2, 9));
        assert(link_pair_ok(3, 9));
        assert(link_pair_ok(4, 9));
        assert(link_pair_ok(5, 9));
        assert(link_pair_ok(6, 9));
        assert(link_pair_ok(7, 9));
        assert(link_pair_ok(8, 9));
        assert(link_pair_ok(9, 9));
        assert(link_pair_ok(10, 9));
        assert(link_pair_ok(11, 9));
    }
    if k == 10 {
        assert(link_pair_ok(0, 10));
        assert(link_pair_ok(1, 10));
        assert(link_pair_ok(2, 10));
        assert(link_pair_ok(3, 10));
        assert(link_pair_ok(4, 10));
        assert(link_pair_ok(5, 10));
        assert(link_pair_ok(6, 10));
        assert(link_pair_ok(7, 10));
        assert(link_pair_ok(8, 10));
        assert(link_pair_ok(9, 10));
        assert(link_pair_ok(10, 10));
        assert(link_pair_ok(11, 10));
    }
    if k == 11 {
        assert(link_pair_ok(0, 11));
        assert(link_pair_ok(1, 11));
        assert(link_pair_ok(2, 11));
        assert(link_pair_ok(3, 11));
        assert(link_pair_ok(4, 11));
        assert(link_pair_ok(5, 11));
        assert(link_pair_ok(6, 11));
        assert(link_pair_ok(7, 11));
        assert(link_pair_ok(8, 11));
        assert(link_pair_ok(9, 11));
        assert(link_pair_ok(10, 11));
        assert(link_pair_ok(11, 11));
    }
    assert forall|j: int| 0 <= j < 12 implies #[trigger] link_pair_ok(j, k) by {
        assert(j == 0 || j == 1 || j == 2 || j == 3 || j == 4 || j == 5 || j == 6 || j == 7 || j == 8 || j == 9
            || j == 10 || j == 11);
    }
}

proof fn lemma_link_pairs(j: int, k: int)
    requires
        0 <= j < 12,
        0 <= k < 12,
    ensures
        link_pair_ok(j, k),
{
    lemma_link_pairs_of(k);
}

proof fn lemma_link_char_at(p: Seq<char>)
    requires
        has_link_char(p),
    ensures
        exists|q: int| 0 <= q < p.len() && link_char(#[trigger] p[q]),
    decreases p.len(),
{
    if link_char(p[0]) {
        assert(link_char(p[0]));
    } else {
        lemma_link_char_at(p.drop_first());
        let q = choose|q: int| 0 <= q < p.drop_first().len() && link_char(#[trigger] p.drop_first()[q]);
        assert(link_char(p[q + 1]));
    }
}

proof fn lemma_agree(t: Seq<char>, y: Seq<char>, pat: Seq<char>, strict: bool)
    requires
        (t + y).len() >= pat.len(),
        (t + y).take(pat.len() as int) == pat,
        link_free(y),
        strict && t.len() < pat.len() ==> y[0] != '.' && y[0] != '/',
    ensures
        agree_then(t, pat, strict),
    decreases pat.len(),
{
    if pat.len() > 0 {
        if t.len() == 0 {
            assert((t + y)[0] == y[0]);
            assert(pat[0] == (t + y).take(pat.len() as int)[0]);
        } else {
            assert(pat[0] == (t + y).take(pat.len() as int)[0]);
            let t2 = t.drop_first();
            assert(t2 + y =~= (t + y).drop_first());
            assert((t2 + y).take(pat.drop_first().len() as int) =~= pat.drop_first());
            lemma_agree(t2, y, pat.drop_first(), strict);
        }
    }
}

proof fn lemma_no_clash_at(a: Seq<char>, pat: Seq<char>, strict: bool, i0: nat, i: int)
    requires
        no_clash_from(a, pat, strict, i0),
        i0 <= i < a.len(),
    ensures
        !agree_then(a.skip(i), pat, strict),
    decreases a.len() - i0,
{
    if i0 < i {
        lemma_no_clash_at(a, pat, strict, i0 + 1, i);
    }
}

/// Where no match of `pat` can start in `a`, and the text `y` after `a` is
/// free of link characters, `pat` occurs nowhere in `a + y`.
proof fn lemma_no_link_match(a: Seq<char>, y: Seq<char>, pat: Seq<char>, strict: bool)
    requires
        link_free(y),
        has_link_char(pat),
        strict ==> y.len() > 0 && y[0] != '.' && y[0] != '/',
        no_clash_from(a, pat, strict, 0),
    ensures
        forall|i: int| !matches_at(a + y, i, pat),
{
    assert forall|i: int| !matches_at(a + y, i, pat) by {
        if matches_at(a + y, i, pat) {
            lemma_match_chars(a + y, i, pat);
            if i >= a.len() {
                lemma_link_char_at(pat);
                let q = choose|q: int| 0 <= q < pat.len() && link_char(#[trigger] pat[q]);
                assert((a + y)[i + q] == pat[q]);
                assert((a + y)[i + q] == y[i + q - a.len()]);
            } else {
                let t = a.skip(i);
                assert(t + y =~= (a + y).skip(i));
                assert((t + y).take(pat.len() as int) =~= pat);
                lemma_agree(t, y, pat, strict);
                lemma_no_clash_at(a, pat, strict, 0, i);
            }
        }
    }
}

proof fn lemma_link_stages(k: int, x: Seq<char>, base: Seq<char>, n: nat)
    requires
        0 <= k < 12,
        n <= 12,
        link_free(x),
        link_free(base),
        base.len() > 0,
        base[0] != '.' && base[0] != '/',
    ensures
        link_stages(link_pat(k) + x, base, n) == if n <= k {
            link_pat(k) + x
        } else {
            link_lead(k) + base + x
        },
    decreases n,
{
    if n > 0 {
        let j = n - 1;
        lemma_link_stages(k, x, base, (n - 1) as nat);
        lemma_link_pairs(j, k);
        if j < k {
            lemma_no_link_match(link_pat(k), x, link_pat(j), false);
            lemma_replace_none(link_pat(k) + x, link_pat(j), link_lead(j) + base);
        } else if j == k {
            lemma_no_link_match(Seq::<char>::empty(), x, link_pat(k), false);
            assert(Seq::<char>::empty() + x =~= x);
            lemma_replace_head(link_pat(k), x, link_lead(k) + base);
        } else {
            let y = base + x;
            assert forall|i: int| 0 <= i < y.len() implies !link_char(y[i]) by {
                if i < base.len() {
                    assert(y[i] == base[i]);
                } else {
                    assert(y[i] == x[i - base.len()]);
                }
            }
            assert(y[0] == base[0]);
            lemma_no_link_match(link_lead(k), y, link_pat(j), true);
            assert(link_lead(k) + base + x =~= link_lead(k) + y);
            lemma_replace_none(link_lead(k) + y, link_pat(j), link_lead(j) + base);
        }
    }
}

/// The rewriting steps are the twelve link prefixes, in order.
proof fn lemma_rewrite_is_stages(html: Seq<char>, base: Seq<char>)
    ensures
        rewrite_html_spec(html, base) == link_stages(html, base, 12),
{
    reveal_strlit("src=\"./");
    reveal_strlit("src='./");
    reveal_strlit("href=\"./");
    reveal_strlit("href='./");
    reveal_strlit("src=\"/");
    reveal_strlit("src='/");
    reveal_strlit("href=\"/");
    reveal_strlit("href='/");
    reveal_strlit("url(./");
    reveal_strlit("url(/");
    reveal_strlit("import \"./");
    reveal_strlit("import './");
    reveal_strlit("src=\"");
    reveal_strlit("src='");
    reveal_strlit("href=\"");
    reveal_strlit("href='");
    reveal_strlit("url(");
    reveal_strlit("import \"");
    reveal_strlit("import '");
    assert(link_pat(0) =~= "src=\"./"@ && link_lead(0) =~= "src=\""@);
    assert(link_pat(1) =~= "src='./"@ && link_lead(1) =~= "src='"@);
    assert(link_pat(2) =~= "href=\"./"@ && link_lead(2) =~= "href=\""@);
    assert(link_pat(3) =~= "href='./"@ && link_lead(3) =~= "href='"@);
    assert(link_pat(4) =~= "src=\"/"@ && link_lead(4) =~= "src=\""@);
    assert(link_pat(5) =~= "src='/"@ && link_lead(5) =~= "src='"@);
    assert(link_pat(6) =~= "href=\"/"@ && link_lead(6) =~= "href=\""@);
    assert(link_pat(7) =~= "href='/"@ && link_lead(7) =~= "href='"@);
    assert(link_pat(8) =~= "url(./"@ && link_lead(8) =~= "url("@);
    assert(link_pat(9) =~= "url(/"@ && link_lead(9) =~= "url("@);
    assert(link_pat(10) =~= "import \"./"@ && link_lead(10) =~= "import \""@);
    assert(link_pat(11) =~= "import './"@ && link_lead(11) =~= "import '"@);
    reveal_with_fuel(link_stages, 13);
}

/// Every relative link is pointed into the base: a page made of one of the
/// twelve link prefixes (`src="./`, `src='./`, `href="./`, `href='./`,
/// `src="/`, `src='/`, `href="/`, `href='/`, `url(./`, `url(/`,
/// `import "./`, `import './`) followed by text `x` becomes the prefix
/// without its `./` or `/`, then the base, then `x`, for any `x` and base
/// free of `=`, quotes, `(` and spaces whose base does not begin with `.`
/// or `/`.
pub proof fn lemma_rewrite_links(k: int, x: Seq<char>, base: Seq<char>)
    requires
        0 <= k < 12,
        link_free(x),
        link_free(base),
        base.len() > 0,
        base[0] != '.' && base[0] != '/',
    ensures
        rewrite_html_spec(link_pat(k) + x, base) == link_lead(k) + base + x,
{
    lemma_rewrite_is_stages(link_pat(k) + x, base);
    lemma_link_stages(k, x, base, 12);
}

} // verus!
