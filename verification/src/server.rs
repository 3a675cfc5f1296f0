//! The local HTTP server's decisions: what a query-string request asks for,
//! which headers, body and cookies an upstream request carries, which
//! response headers come back, and which proxy the server goes through.

use vstd::prelude::*;
use crate::cookie_store::{insert_pairs, lists_map};
use crate::cookies::{cookie_header, cookie_header_spec, pairs_text, parse_set_cookie, set_cookie_spec};
use crate::num::{decimal_spec, format_u64, parse_u16, parse_u16_spec};
use crate::proxy::quoted;
use crate::strmap::{StrMap, map_of};
use crate::text::{
    chars_of, contains, contains_spec, eq_str, lowercase_of, owned, push_str, replace, replace_spec,
    slice_vec, starts_with, starts_with_spec, string_of, to_lowercase, to_uppercase, uppercase_of,
};
use crate::urls::{scheme_and_host, url_scheme_host};
use crate::web::{invalid_method_text, method_accepted_spec, parse_method, url_decode, url_decode_spec};

verus! {

/// The port the local server listens on.
pub const LOCAL_SERVER_PORT: u16 = 19315;

/// The port of the local server.
pub fn get_local_server_port() -> (r: u16)
    ensures
        r == LOCAL_SERVER_PORT,
{
    LOCAL_SERVER_PORT
}

// ------------------------------------------------------------ lists

/// Whether `s` is one of `list`.
fn text_in(s: &str, list: &Vec<&'static str>) -> (r: bool)
    ensures
        r == list@.map_values(|t: &str| t@).contains(s@),
{
    let ghost views = list@.map_values(|t: &str| t@);
    let mut i: usize = 0;
    while i < list.len()
        invariant
            i <= list@.len(),
            views == list@.map_values(|t: &str| t@),
            forall|j: int| 0 <= j < i ==> views[j] != s@,
        decreases list@.len() - i,
    {
        if eq_str(list[i], s) {
            assert(views[i as int] == s@);
            return true;
        }
        i = i + 1;
    }
    false
}

/// The pairs of `h` whose lowercased name is not on `list`, in order.
pub open spec fn without_names(h: Seq<(Seq<char>, Seq<char>)>, list: Seq<Seq<char>>) -> Seq<
    (Seq<char>, Seq<char>),
>
    decreases h.len(),
{
    if h.len() == 0 {
        Seq::empty()
    } else {
        let front = without_names(h.drop_last(), list);
        if list.contains(lowercase_of(h.last().0)) {
            front
        } else {
            front.push(h.last())
        }
    }
}

/// Filtering by name keeps exactly the pairs whose lowercased name is not on
/// the list: none that is on it is passed on, and every other pair is.
pub proof fn lemma_without_names(h: Seq<(Seq<char>, Seq<char>)>, list: Seq<Seq<char>>)
    ensures
        forall|j: int|
            #![trigger without_names(h, list)[j]]
            0 <= j < without_names(h, list).len() ==> !list.contains(
                lowercase_of(without_names(h, list)[j].0),
            ) && h.contains(without_names(h, list)[j]),
        forall|j: int|
            #![trigger h[j]]
            0 <= j < h.len() && !list.contains(lowercase_of(h[j].0)) ==> without_names(h, list).contains(
                h[j],
            ),
    decreases h.len(),
{
    if h.len() > 0 {
        let p = h.drop_last();
        lemma_without_names(p, list);
        let f = without_names(p, list);
        let w = without_names(h, list);
        let x = h.last();
        assert forall|j: int| 0 <= j < w.len() implies !list.contains(lowercase_of(w[j].0)) && h.contains(
            #[trigger] w[j],
        ) by {
            if j < f.len() {
                assert(w[j] == f[j]);
                assert(!list.contains(lowercase_of(f[j].0)) && p.contains(f[j]));
                let k = choose|k: int| 0 <= k < p.len() && p[k] == f[j];
                assert(h[k] == p[k]);
            } else {
                assert(w[j] == x);
                assert(h[h.len() - 1] == x);
            }
        }
        assert forall|j: int| 0 <= j < h.len() && !list.contains(lowercase_of(h[j].0)) implies w.contains(
            #[trigger] h[j],
        ) by {
            if j < h.len() - 1 {
                assert(p[j] == h[j]);
                assert(f.contains(p[j]));
                let k = choose|k: int| 0 <= k < f.len() && f[k] == p[j];
                assert(w[k] == f[k]);
            } else {
                assert(w[w.len() - 1] == x);
            }
        }
    }
}

pub(crate) fn filter_names(h: &Vec<(String, String)>, list: &Vec<&'static str>) -> (r: Vec<(String, String)>)
    ensures
        pairs_text(r@) == without_names(pairs_text(h@), list@.map_values(|t: &str| t@)),
{
    let ghost hv = pairs_text(h@);
    let ghost lv = list@.map_values(|t: &str| t@);
    let mut r: Vec<(String, String)> = Vec::new();
    let mut i: usize = 0;
    assert(hv.take(0) =~= Seq::<(Seq<char>, Seq<char>)>::empty());
    while i < h.len()
        invariant
            i <= h@.len(),
            hv == pairs_text(h@),
            lv == list@.map_values(|t: &str| t@),
            pairs_text(r@) == without_names(hv.take(i as int), lv),
        decreases h@.len() - i,
    {
        let lower = to_lowercase(h[i].0.as_str());
        proof {
            assert(hv.take(i + 1).drop_last() == hv.take(i as int));
            assert(hv.take(i + 1).last() == hv[i as int]);
        }
        if !text_in(lower.as_str(), list) {
            let k = h[i].0.clone();
            let v = h[i].1.clone();
            assert(pairs_text(r@.push((k, v))) == pairs_text(r@).push((k@, v@)));
            r.push((k, v));
        }
        i = i + 1;
    }
    assert(hv.take(h@.len() as int) == hv);
    r
}

fn push_pair(r: &mut Vec<(String, String)>, k: &str, v: &str)
    ensures
        pairs_text(final(r)@) == pairs_text(old(r)@).push((k@, v@)),
{
    let ghost before = r@;
    r.push((owned(k), owned(v)));
    assert(pairs_text(r@) =~= pairs_text(before).push((k@, v@)));
}

// ------------------------------------------------------------ requests

/// A header a page asked for: its name, its value as text, and whether the
/// page sent the value as a JSON string (other JSON values are written
/// out as text).
pub struct PwaHeader {
    pub name: String,
    pub value: String,
    pub is_text: bool,
}

/// The name and value of each header.
pub open spec fn pwa_pairs(hs: Seq<PwaHeader>) -> Seq<(Seq<char>, Seq<char>)> {
    hs.map_values(|h: PwaHeader| (h.name@, h.value@))
}

/// A request the page asks the server to make.
pub struct ProxyRequest {
    pub target: String,
    pub method: Option<String>,
    pub headers: Option<Vec<PwaHeader>>,
    pub body: Option<String>,
}

/// `s` with every leading copy of `p` removed (`trim_start_matches`).
pub open spec fn strip_all_spec(s: Seq<char>, p: Seq<char>) -> Seq<char>
    decreases s.len(),
{
    if p.len() > 0 && starts_with_spec(s, p) {
        strip_all_spec(s.skip(p.len() as int), p)
    } else {
        s
    }
}

fn strip_all(s: &str, p: &str) -> (r: String)
    ensures
        r@ == strip_all_spec(s@, p@),
{
    let v = chars_of(s);
    let w = chars_of(p);
    if w.len() == 0 {
        return owned(s);
    }
    let mut i: usize = 0;
    let n = v.len();
    assert(v@.skip(0) == v@);
    while crate::text::matches_at_exec(v.as_slice(), i, w.as_slice())
        invariant
            i <= v@.len(),
            v@.len() == n,
            w@.len() > 0,
            strip_all_spec(v@.skip(i as int), w@) == strip_all_spec(v@, w@),
        decreases v@.len() - i,
    {
        proof {
            let rest = v@.skip(i as int);
            assert(rest.subrange(0, w@.len() as int) == v@.subrange(i as int, i + w@.len()));
            assert(rest.skip(w@.len() as int) == v@.skip(i + w@.len()));
        }
        i = i + w.len();
    }
    proof {
        let rest = v@.skip(i as int);
        if starts_with_spec(rest, w@) {
            assert(rest.subrange(0, w@.len() as int) == v@.subrange(i as int, i + w@.len()));
        }
    }
    string_of(slice_vec(v.as_slice(), i, v.len()).as_slice())
}

/// `header_`.
pub open spec fn header_prefix() -> Seq<char> {
    "header_"@
}

/// The headers a query string asks for: each parameter named `header_…`,
/// under its name with the leading `header_`s removed, in order.
pub open spec fn header_params_spec(q: Seq<(Seq<char>, Seq<char>)>) -> Seq<(Seq<char>, Seq<char>)>
    decreases q.len(),
{
    if q.len() == 0 {
        Seq::empty()
    } else {
        let front = header_params_spec(q.drop_last());
        if starts_with_spec(q.last().0, header_prefix()) {
            front.push((strip_all_spec(q.last().0, header_prefix()), q.last().1))
        } else {
            front
        }
    }
}

fn header_params(q: &Vec<(String, String)>) -> (r: Vec<(String, String)>)
    ensures
        pairs_text(r@) == header_params_spec(pairs_text(q@)),
{
    let ghost qv = pairs_text(q@);
    let mut r: Vec<(String, String)> = Vec::new();
    let mut i: usize = 0;
    assert(qv.take(0) =~= Seq::<(Seq<char>, Seq<char>)>::empty());
    while i < q.len()
        invariant
            i <= q@.len(),
            qv == pairs_text(q@),
            pairs_text(r@) == header_params_spec(qv.take(i as int)),
        decreases q@.len() - i,
    {
        proof {
            assert(qv.take(i + 1).drop_last() == qv.take(i as int));
            assert(qv.take(i + 1).last() == qv[i as int]);
        }
        if starts_with(q[i].0.as_str(), "header_") {
            let name = strip_all(q[i].0.as_str(), "header_");
            let ghost before = r@;
            r.push((name, q[i].1.clone()));
            assert(pairs_text(r@) =~= pairs_text(before).push((name@, q@[i as int].1@)));
        }
        i = i + 1;
    }
    assert(qv.take(q@.len() as int) == qv);
    r
}

/// The value of the first parameter named `url`, or the empty text.
pub open spec fn url_param_spec(q: Seq<(Seq<char>, Seq<char>)>) -> Seq<char>
    decreases q.len(),
{
    if q.len() == 0 {
        Seq::empty()
    } else if q[0].0 == "url"@ {
        q[0].1
    } else {
        url_param_spec(q.drop_first())
    }
}

fn url_param(q: &Vec<(String, String)>) -> (r: String)
    ensures
        r@ == url_param_spec(pairs_text(q@)),
{
    let ghost qv = pairs_text(q@);
    let mut i: usize = 0;
    assert(qv.skip(0) == qv);
    while i < q.len()
        invariant
            i <= q@.len(),
            qv == pairs_text(q@),
            url_param_spec(qv.skip(i as int)) == url_param_spec(qv),
        decreases q@.len() - i,
    {
        assert(qv.skip(i as int)[0] == (q@[i as int].0@, q@[i as int].1@));
        assert(qv.skip(i as int).drop_first() == qv.skip(i + 1));
        if eq_str(q[i].0.as_str(), "url") {
            return q[i].1.clone();
        }
        i = i + 1;
    }
    String::new()
}

/// The `Referer` set for a request without one: `{scheme}://{host}` of the
/// target, unless the target does not parse, has no host, or is a `file`
/// address.
pub open spec fn auto_referer_spec(target: Seq<char>) -> Option<Seq<char>> {
    match url_scheme_host(target) {
        Some((scheme, Some(host))) => if scheme != "file"@ {
            Some(scheme + "://"@ + host)
        } else {
            None
        },
        _ => None,
    }
}

/// A media target that is a local path (starting with one `/`, not `//`)
/// becomes a `file://` address.
pub open spec fn media_target_spec(t: Seq<char>) -> Seq<char> {
    if t.len() > 0 && t[0] == '/' && !starts_with_spec(t, "//"@) {
        "file://"@ + t
    } else {
        t
    }
}

/// The headers of a query-string request: the `header_…` parameters, each
/// name once with its last value, and a `Referer` from the target where
/// neither they nor the browser name one.
pub open spec fn query_headers_spec(
    q: Seq<(Seq<char>, Seq<char>)>,
    browser_has_referer: bool,
    target: Seq<char>,
) -> Map<Seq<char>, Seq<char>> {
    let m = insert_pairs(Map::empty(), header_params_spec(q));
    if !m.dom().contains("Referer"@) && !m.dom().contains("referer"@) && !browser_has_referer {
        match auto_referer_spec(target) {
            Some(r) => m.insert("Referer"@, r),
            None => m,
        }
    } else {
        m
    }
}

/// `Missing 'url' parameter`.
pub open spec fn missing_url_text() -> Seq<char> {
    "Missing 'url' parameter"@
}

fn auto_referer(target: &str) -> (r: Option<String>)
    ensures
        match r {
            Some(x) => auto_referer_spec(target@) == Some(x@),
            None => auto_referer_spec(target@) is None,
        },
{
    match scheme_and_host(target) {
        Some((scheme, Some(host))) => {
            if eq_str(scheme.as_str(), "file") {
                None
            } else {
                let mut r = scheme;
                push_str(&mut r, "://");
                push_str(&mut r, host.as_str());
                Some(r)
            }
        },
        _ => None,
    }
}

fn collect_pairs(m: &StrMap<String>) -> (r: Vec<PwaHeader>)
    requires
        m.wf(),
    ensures
        lists_map(pwa_pairs(r@), m@),
        forall|i: int| 0 <= i < r@.len() ==> (#[trigger] r@[i]).is_text,
{
    proof {
        m.lemma_key_order();
    }
    let n = m.len();
    let mut r: Vec<PwaHeader> = Vec::new();
    let mut i: usize = 0;
    while i < n
        invariant
            m.wf(),
            n == m@.dom().len(),
            m.key_order().len() == n,
            i <= n,
            r@.len() == i,
            forall|j: int| 0 <= j < i ==> (#[trigger] r@[j]).is_text,
            forall|j: int|
                0 <= j < i ==> (#[trigger] r@[j]).name@ == m.key_order()[j] && r@[j].value@
                    == m@[m.key_order()[j]],
        decreases n - i,
    {
        let (k, v) = m.entry_at(i);
        r.push(PwaHeader { name: k.clone(), value: v.clone(), is_text: true });
        i = i + 1;
    }
    proof {
        let pv = pwa_pairs(r@);
        assert forall|j: int| 0 <= j < pv.len() implies #[trigger] pv[j] == (
            m.key_order()[j],
            m@[m.key_order()[j]],
        ) by {
            assert(r@[j].name@ == m.key_order()[j]);
        }
        crate::strmap::lemma_listing(pv, m@, m.key_order());
    }
    r
}

/// A `GET` request made from a query string (the `/api/proxy` and
/// `/media/proxy` routes): an error without a `url` parameter; otherwise
/// the target (a media route turns a local path into a `file://` address),
/// the method `GET`, no body, and the query's headers (none where there are
/// none).
pub fn plan_query_request(q: &Vec<(String, String)>, browser_has_referer: bool, is_media: bool) -> (r:
    Result<ProxyRequest, String>)
    ensures
        r is Err <==> url_param_spec(pairs_text(q@)).len() == 0,
        r matches Err(e) ==> e@ == missing_url_text(),
        r matches Ok(req) ==> {
            let url = url_param_spec(pairs_text(q@));
            let target = if is_media {
                media_target_spec(url)
            } else {
                url
            };
            let m = query_headers_spec(pairs_text(q@), browser_has_referer, target);
            &&& req.target@ == target
            &&& req.method matches Some(x) && x@ == "GET"@
            &&& req.body is None
            &&& (req.headers is None <==> m.dom().len() == 0)
            &&& req.headers matches Some(hs) ==> lists_map(pwa_pairs(hs@), m) && forall|i: int|
                0 <= i < hs@.len() ==> (#[trigger] hs@[i]).is_text
        },
{
    let url = url_param(q);
    if url.as_str().is_empty() {
        return Err(owned("Missing 'url' parameter"));
    }
    let target = if is_media {
        let v = chars_of(url.as_str());
        if v.len() > 0 && v[0] == '/' && !starts_with(url.as_str(), "//") {
            let mut t = owned("file://");
            push_str(&mut t, url.as_str());
            t
        } else {
            url
        }
    } else {
        url
    };
    let params = header_params(q);
    let mut m: StrMap<String> = StrMap::new();
    let ghost p = pairs_text(params@);
    let mut i: usize = 0;
    assert(p.take(0) =~= Seq::<(Seq<char>, Seq<char>)>::empty());
    while i < params.len()
        invariant
            i <= params@.len(),
            p == pairs_text(params@),
            m.wf(),
            m@ == insert_pairs(Map::empty(), p.take(i as int)),
        decreases params@.len() - i,
    {
        m.insert(params[i].0.clone(), params[i].1.clone());
        proof {
            assert(p.take(i + 1).drop_last() == p.take(i as int));
            assert(p.take(i + 1).last() == p[i as int]);
        }
        i = i + 1;
    }
    assert(p.take(params@.len() as int) == p);
    if !m.contains_key("Referer") && !m.contains_key("referer") && !browser_has_referer {
        match auto_referer(target.as_str()) {
            Some(r) => {
                m.insert(owned("Referer"), r);
            },
            None => {},
        }
    }
    let n = m.len();
    let headers = if n == 0 {
        None
    } else {
        Some(collect_pairs(&m))
    };
    Ok(ProxyRequest { target, method: Some(owned("GET")), headers, body: None })
}

// ------------------------------------------------------------ upstream

/// The browser headers passed on when the page does not set them.
pub open spec fn browser_copy_names() -> Seq<Seq<char>> {
    seq!["accept"@, "accept-language"@, "accept-encoding"@, "cache-control"@, "range"@]
}

/// The page headers never forwarded: hop-by-hop headers and those the
/// browser adds itself.
pub open spec fn hop_by_hop_request() -> Seq<Seq<char>> {
    seq![
        "host"@,
        "connection"@,
        "keep-alive"@,
        "proxy-authenticate"@,
        "proxy-authorization"@,
        "te"@,
        "trailers"@,
        "transfer-encoding"@,
        "upgrade"@,
        "sec-fetch-dest"@,
        "sec-fetch-mode"@,
        "sec-fetch-site"@,
        "sec-ch-ua"@,
        "sec-ch-ua-mobile"@,
        "sec-ch-ua-platform"@,
        "x-request-key"@,
    ]
}

/// The page headers not passed on: the hop-by-hop ones, and the page's
/// `User-Agent` where a stored user agent replaces it.
pub open spec fn page_dropped(user_agent: Seq<char>) -> Seq<Seq<char>> {
    if user_agent.len() > 0 {
        hop_by_hop_request().push("user-agent"@)
    } else {
        hop_by_hop_request()
    }
}

fn browser_copy_list() -> (r: Vec<&'static str>)
    ensures
        r@.map_values(|t: &str| t@) == browser_copy_names(),
{
    let r = vec!["accept", "accept-language", "accept-encoding", "cache-control", "range"];
    assert(r@.map_values(|t: &str| t@) =~= browser_copy_names());
    r
}

fn hop_request_list() -> (r: Vec<&'static str>)
    ensures
        r@.map_values(|t: &str| t@) == hop_by_hop_request(),
{
    let r = vec![
        "host",
        "connection",
        "keep-alive",
        "proxy-authenticate",
        "proxy-authorization",
        "te",
        "trailers",
        "transfer-encoding",
        "upgrade",
        "sec-fetch-dest",
        "sec-fetch-mode",
        "sec-fetch-site",
        "sec-ch-ua",
        "sec-ch-ua-mobile",
        "sec-ch-ua-platform",
        "x-request-key",
    ];
    assert(r@.map_values(|t: &str| t@) =~= hop_by_hop_request());
    r
}

/// Whether the page's headers name `k` exactly.
pub open spec fn page_names(pwa: Option<Seq<(Seq<char>, Seq<char>)>>, k: Seq<char>) -> bool {
    match pwa {
        Some(h) => names_in(h, k),
        None => false,
    }
}

/// Whether some pair of `h` has the name `k`.
pub open spec fn names_in(h: Seq<(Seq<char>, Seq<char>)>, k: Seq<char>) -> bool {
    exists|i: int| 0 <= i < h.len() && (#[trigger] h[i]).0 == k
}

/// The browser's headers passed on: those whose lowercased name is on the
/// list, unless the page sets a header of that exact name, in order.
pub open spec fn copied_browser_spec(
    b: Seq<(Seq<char>, Seq<char>)>,
    pwa: Option<Seq<(Seq<char>, Seq<char>)>>,
) -> Seq<(Seq<char>, Seq<char>)>
    decreases b.len(),
{
    if b.len() == 0 {
        Seq::empty()
    } else {
        let front = copied_browser_spec(b.drop_last(), pwa);
        if browser_copy_names().contains(lowercase_of(b.last().0)) && !page_names(pwa, b.last().0) {
            front.push(b.last())
        } else {
            front
        }
    }
}

fn page_has(pwa: &Option<Vec<PwaHeader>>, k: &str) -> (r: bool)
    ensures
        r == page_names(
            match pwa {
                Some(h) => Some(pwa_pairs(h@)),
                None => None,
            },
            k@,
        ),
{
    match pwa {
        Some(h) => {
            let ghost hv = pwa_pairs(h@);
            let mut i: usize = 0;
            while i < h.len()
                invariant
                    i <= h@.len(),
                    hv == pwa_pairs(h@),
                    (match pwa {
                        Some(x) => Some(pwa_pairs(x@)),
                        None => None,
                    }) == Some(hv),
                    forall|j: int| 0 <= j < i ==> hv[j].0 != k@,
                decreases h@.len() - i,
            {
                if eq_str(h[i].name.as_str(), k) {
                    assert(hv.len() == h@.len());
                    assert(0 <= i < hv.len() && hv[i as int].0 == k@);
                    assert(names_in(hv, k@));
                    return true;
                }
                i = i + 1;
            }
            false
        },
        None => false,
    }
}

/// The page's value of the first header whose lowercased name is
/// `content-type`, lowercased (empty where the page sent no text).
pub open spec fn content_type_spec(pwa: Seq<PwaHeader>) -> Option<Seq<char>>
    decreases pwa.len(),
{
    if pwa.len() == 0 {
        None
    } else if lowercase_of(pwa[0].name@) == "content-type"@ {
        Some(
            if pwa[0].is_text {
                lowercase_of(pwa[0].value@)
            } else {
                Seq::empty()
            },
        )
    } else {
        content_type_spec(pwa.drop_first())
    }
}

fn content_type(pwa: &Vec<PwaHeader>) -> (r: Option<String>)
    ensures
        match r {
            Some(c) => content_type_spec(pwa@) == Some(c@),
            None => content_type_spec(pwa@) is None,
        },
{
    let mut i: usize = 0;
    assert(pwa@.skip(0) == pwa@);
    while i < pwa.len()
        invariant
            i <= pwa@.len(),
            content_type_spec(pwa@.skip(i as int)) == content_type_spec(pwa@),
        decreases pwa@.len() - i,
    {
        assert(pwa@.skip(i as int)[0] == pwa@[i as int]);
        assert(pwa@.skip(i as int).drop_first() == pwa@.skip(i + 1));
        let lower = to_lowercase(pwa[i].name.as_str());
        if eq_str(lower.as_str(), "content-type") {
            if pwa[i].is_text {
                return Some(to_lowercase(pwa[i].value.as_str()));
            } else {
                return Some(String::new());
            }
        }
        i = i + 1;
    }
    None
}

/// `s` with the escapes `\n`, `\r`, `\t` and `\"` replaced, in that order.
pub open spec fn form_unescape_spec(s: Seq<char>) -> Seq<char> {
    let a = replace_spec(s, seq!['\\', 'n'], seq!['\n']);
    let b = replace_spec(a, seq!['\\', 'r'], seq!['\r']);
    let c = replace_spec(b, seq!['\\', 't'], seq!['\t']);
    replace_spec(c, seq!['\\', '"'], seq!['"'])
}

/// The body sent: a form body (content type mentioning
/// `application/x-www-form-urlencoded`) that arrives quoted is unquoted and
/// unescaped; any other body is sent as it is.
pub open spec fn form_body_spec(body: Seq<char>, ct: Option<Seq<char>>) -> Seq<char> {
    if (ct matches Some(c) && contains_spec(c, "application/x-www-form-urlencoded"@)) && quoted(body) {
        form_unescape_spec(body.subrange(1, body.len() - 1))
    } else {
        body
    }
}

fn form_body(body: &str, ct: &Option<String>) -> (r: String)
    ensures
        r@ == form_body_spec(
            body@,
            match ct {
                Some(c) => Some(c@),
                None => None,
            },
        ),
{
    let is_form = match ct {
        Some(c) => contains(c.as_str(), "application/x-www-form-urlencoded"),
        None => false,
    };
    let v = chars_of(body);
    if is_form && v.len() >= 2 && v[0] == '"' && v[v.len() - 1] == '"' {
        let inner = string_of(slice_vec(v.as_slice(), 1, v.len() - 1).as_slice());
        proof {
            reveal_strlit("\\n");
            reveal_strlit("\n");
            reveal_strlit("\\r");
            reveal_strlit("\r");
            reveal_strlit("\\t");
            reveal_strlit("\t");
            reveal_strlit("\\\"");
            reveal_strlit("\"");
        }
        let a = replace(inner.as_str(), "\\n", "\n");
        let b = replace(a.as_str(), "\\r", "\r");
        let c = replace(b.as_str(), "\\t", "\t");
        let d = replace(c.as_str(), "\\\"", "\"");
        assert("\\n"@ == seq!['\\', 'n'] && "\n"@ == seq!['\n']);
        assert("\\r"@ == seq!['\\', 'r'] && "\r"@ == seq!['\r']);
        assert("\\t"@ == seq!['\\', 't'] && "\t"@ == seq!['\t']);
        assert("\\\""@ == seq!['\\', '"'] && "\""@ == seq!['"']);
        d
    } else {
        owned(body)
    }
}

/// What is sent upstream: the method, the headers in the order they are
/// added, and the body.
pub struct UpstreamRequest {
    pub method: String,
    pub headers: Vec<(String, String)>,
    pub body: Option<String>,
}

/// The method name asked for, upper-cased (`GET` where none is given).
pub open spec fn method_name_spec(method: Option<Seq<char>>) -> Seq<char> {
    match method {
        Some(m) => uppercase_of(m),
        None => uppercase_of("GET"@),
    }
}

/// The error body for a refused method name.
pub open spec fn invalid_method_body() -> Seq<char> {
    "{\"error\": \"Invalid HTTP method: "@ + invalid_method_text() + "\"}"@
}

/// The headers of an upstream request, in order: the browser's copied
/// headers, the page's headers but the hop-by-hop ones (and but its
/// `User-Agent`, where a stored one replaces it), the stored `User-Agent`
/// where there is one, and a `Cookie` header with the browser's
/// and then the web view's cookies where there are any.
pub open spec fn upstream_headers_spec(
    browser: Seq<(Seq<char>, Seq<char>)>,
    pwa: Option<Seq<(Seq<char>, Seq<char>)>>,
    user_agent: Seq<char>,
    cookies: Seq<(Seq<char>, Seq<char>)>,
) -> Seq<(Seq<char>, Seq<char>)> {
    let a = copied_browser_spec(browser, pwa);
    let b = match pwa {
        Some(h) => a + without_names(h, page_dropped(user_agent)),
        None => a,
    };
    let c = if user_agent.len() > 0 {
        b.push(("User-Agent"@, user_agent))
    } else {
        b
    };
    if cookies.len() > 0 {
        c.push(("Cookie"@, cookie_header_spec(cookies)))
    } else {
        c
    }
}

fn pwa_to_pairs(h: &Vec<PwaHeader>) -> (r: Vec<(String, String)>)
    ensures
        pairs_text(r@) == pwa_pairs(h@),
{
    let mut r: Vec<(String, String)> = Vec::new();
    let mut i: usize = 0;
    while i < h.len()
        invariant
            i <= h@.len(),
            pairs_text(r@) == pwa_pairs(h@).take(i as int),
        decreases h@.len() - i,
    {
        let ghost before = r@;
        r.push((h[i].name.clone(), h[i].value.clone()));
        assert(pwa_pairs(h@)[i as int] == (h@[i as int].name@, h@[i as int].value@));
        assert(pwa_pairs(h@).take(i + 1) =~= pwa_pairs(h@).take(i as int).push(pwa_pairs(h@)[i as int]));
        assert(pairs_text(r@) =~= pairs_text(before).push((h@[i as int].name@, h@[i as int].value@)));
        i = i + 1;
    }
    assert(pwa_pairs(h@).take(h@.len() as int) =~= pwa_pairs(h@));
    r
}

/// The optional page headers as pairs.
pub open spec fn opt_pairs(h: Option<Vec<PwaHeader>>) -> Option<Seq<(Seq<char>, Seq<char>)>> {
    match h {
        Some(v) => Some(pwa_pairs(v@)),
        None => None,
    }
}

/// The upstream request for `req`: an error body where the upper-cased
/// method name is refused; otherwise the method, the headers as
/// `upstream_headers_spec` says (with the browser's headers `browser`, the
/// stored user agent, and the stored browser and web-view cookies of the
/// target's host), and the body, a form body unquoted.
pub fn plan_upstream_request(
    req: &ProxyRequest,
    browser: &Vec<(String, String)>,
    user_agent: &str,
    browser_cookies: &Vec<(String, String)>,
    webview_cookies: &Vec<(String, String)>,
) -> (r: Result<UpstreamRequest, String>)
    ensures
        r is Err <==> !method_accepted_spec(
            method_name_spec(
                match req.method {
                    Some(m) => Some(m@),
                    None => None,
                },
            ),
        ),
        r matches Err(e) ==> e@ == invalid_method_body(),
        r matches Ok(u) ==> {
            &&& u.method@ == method_name_spec(
                match req.method {
                    Some(m) => Some(m@),
                    None => None,
                },
            )
            &&& pairs_text(u.headers@) == upstream_headers_spec(
                pairs_text(browser@),
                opt_pairs(req.headers),
                user_agent@,
                pairs_text(browser_cookies@) + pairs_text(webview_cookies@),
            )
            &&& match req.body {
                Some(b) => u.body matches Some(x) && x@ == form_body_spec(
                    b@,
                    match req.headers {
                        Some(h) => content_type_spec(h@),
                        None => None,
                    },
                ),
                None => u.body is None,
            }
        },
{
    let method = match &req.method {
        Some(m) => to_uppercase(m.as_str()),
        None => to_uppercase("GET"),
    };
    match parse_method(method.as_str()) {
        Ok(()) => {},
        Err(e) => {
            let mut body = owned("{\"error\": \"Invalid HTTP method: ");
            push_str(&mut body, e.as_str());
            push_str(&mut body, "\"}");
            return Err(body);
        },
    }
    let ghost bv = pairs_text(browser@);
    let ghost pv = opt_pairs(req.headers);
    let copy = browser_copy_list();
    let mut headers: Vec<(String, String)> = Vec::new();
    let mut i: usize = 0;
    assert(bv.take(0) =~= Seq::<(Seq<char>, Seq<char>)>::empty());
    while i < browser.len()
        invariant
            i <= browser@.len(),
            bv == pairs_text(browser@),
            pv == opt_pairs(req.headers),
            copy@.map_values(|t: &str| t@) == browser_copy_names(),
            pairs_text(headers@) == copied_browser_spec(bv.take(i as int), pv),
        decreases browser@.len() - i,
    {
        let lower = to_lowercase(browser[i].0.as_str());
        proof {
            assert(bv.take(i + 1).drop_last() == bv.take(i as int));
            assert(bv.take(i + 1).last() == bv[i as int]);
        }
        if text_in(lower.as_str(), &copy) && !page_has(&req.headers, browser[i].0.as_str()) {
            push_pair(&mut headers, browser[i].0.as_str(), browser[i].1.as_str());
        }
        i = i + 1;
    }
    assert(bv.take(browser@.len() as int) == bv);
    match &req.headers {
        Some(h) => {
            let pairs = pwa_to_pairs(h);
            let mut hop = hop_request_list();
            if !user_agent.is_empty() {
                hop.push("user-agent");
            }
            proof {
                reveal_strlit("user-agent");
                assert(hop@.map_values(|t: &str| t@) =~= page_dropped(user_agent@));
            }
            let kept = filter_names(&pairs, &hop);
            let mut j: usize = 0;
            let ghost start = pairs_text(headers@);
            let ghost kv = pairs_text(kept@);
            while j < kept.len()
                invariant
                    j <= kept@.len(),
                    kv == pairs_text(kept@),
                    pairs_text(headers@) == start + kv.take(j as int),
                decreases kept@.len() - j,
            {
                push_pair(&mut headers, kept[j].0.as_str(), kept[j].1.as_str());
                assert(kv.take(j + 1) == kv.take(j as int).push(kv[j as int]));
                j = j + 1;
            }
            assert(kv.take(kept@.len() as int) == kv);
        },
        None => {},
    }
    if !user_agent.is_empty() {
        push_pair(&mut headers, "User-Agent", user_agent);
    }
    let body = match &req.body {
        Some(b) => {
            let ct = match &req.headers {
                Some(h) => content_type(h),
                None => None,
            };
            Some(form_body(b.as_str(), &ct))
        },
        None => None,
    };
    let mut all: Vec<(String, String)> = Vec::new();
    let mut k: usize = 0;
    while k < browser_cookies.len()
        invariant
            k <= browser_cookies@.len(),
            all@ == browser_cookies@.take(k as int),
        decreases browser_cookies@.len() - k,
    {
        all.push((browser_cookies[k].0.clone(), browser_cookies[k].1.clone()));
        assert(browser_cookies@.take(k + 1) == browser_cookies@.take(k as int).push(
            browser_cookies@[k as int],
        ));
        k = k + 1;
    }
    let mut k2: usize = 0;
    assert(browser_cookies@.take(browser_cookies@.len() as int) == browser_cookies@);
    while k2 < webview_cookies.len()
        invariant
            k2 <= webview_cookies@.len(),
            all@ == browser_cookies@ + webview_cookies@.take(k2 as int),
        decreases webview_cookies@.len() - k2,
    {
        all.push((webview_cookies[k2].0.clone(), webview_cookies[k2].1.clone()));
        assert(webview_cookies@.take(k2 + 1) == webview_cookies@.take(k2 as int).push(
            webview_cookies@[k2 as int],
        ));
        k2 = k2 + 1;
    }
    assert(webview_cookies@.take(webview_cookies@.len() as int) == webview_cookies@);
    assert(pairs_text(all@) =~= pairs_text(browser_cookies@) + pairs_text(webview_cookies@));
    if all.len() > 0 {
        let c = cookie_header(&all);
        push_pair(&mut headers, "Cookie", c.as_str());
    }
    Ok(UpstreamRequest { method, headers, body })
}

// ------------------------------------------------------------ responses

/// The upstream response headers that are dropped: hop-by-hop headers and
/// the upstream's CORS headers.
pub open spec fn hop_by_hop_response() -> Seq<Seq<char>> {
    seq![
        "connection"@,
        "keep-alive"@,
        "proxy-authenticate"@,
        "proxy-authorization"@,
        "te"@,
        "trailers"@,
        "transfer-encoding"@,
        "upgrade"@,
        "access-control-allow-origin"@,
        "access-control-allow-methods"@,
        "access-control-allow-headers"@,
        "access-control-max-age"@,
    ]
}

/// The headers every proxied response carries at its end.
pub open spec fn proxy_cors_headers() -> Seq<(Seq<char>, Seq<char>)> {
    seq![
        ("Access-Control-Allow-Origin"@, "*"@),
        ("Access-Control-Allow-Methods"@, "GET, POST, PUT, DELETE, OPTIONS"@),
        ("Access-Control-Allow-Headers"@, "*"@),
        ("X-Content-Type-Options"@, "nosniff"@),
    ]
}

/// The headers of a proxied response: the upstream's headers but the
/// dropped ones, then the CORS headers.
pub fn proxy_response_headers(upstream: &Vec<(String, String)>) -> (r: Vec<(String, String)>)
    ensures
        pairs_text(r@) == without_names(pairs_text(upstream@), hop_by_hop_response())
            + proxy_cors_headers(),
{
    let list = vec![
        "connection",
        "keep-alive",
        "proxy-authenticate",
        "proxy-authorization",
        "te",
        "trailers",
        "transfer-encoding",
        "upgrade",
        "access-control-allow-origin",
        "access-control-allow-methods",
        "access-control-allow-headers",
        "access-control-max-age",
    ];
    assert(list@.map_values(|t: &str| t@) =~= hop_by_hop_response());
    let mut r = filter_names(upstream, &list);
    let ghost kept = pairs_text(r@);
    push_pair(&mut r, "Access-Control-Allow-Origin", "*");
    push_pair(&mut r, "Access-Control-Allow-Methods", "GET, POST, PUT, DELETE, OPTIONS");
    push_pair(&mut r, "Access-Control-Allow-Headers", "*");
    push_pair(&mut r, "X-Content-Type-Options", "nosniff");
    assert(pairs_text(r@) =~= kept + proxy_cors_headers());
    r
}

/// The cookies a response sets: each `Set-Cookie` header (any letter case)
/// read as `Set-Cookie` text, those with a name, in order.
pub open spec fn response_cookies_spec(h: Seq<(Seq<char>, Seq<char>)>) -> Seq<(Seq<char>, Seq<char>)>
    decreases h.len(),
{
    if h.len() == 0 {
        Seq::empty()
    } else {
        let front = response_cookies_spec(h.drop_last());
        if lowercase_of(h.last().0) == "set-cookie"@ {
            match set_cookie_spec(h.last().1) {
                Some(p) => front.push(p),
                None => front,
            }
        } else {
            front
        }
    }
}

/// The cookies that the upstream response sets.
pub fn response_cookies(h: &Vec<(String, String)>) -> (r: Vec<(String, String)>)
    ensures
        pairs_text(r@) == response_cookies_spec(pairs_text(h@)),
{
    let ghost hv = pairs_text(h@);
    let mut r: Vec<(String, String)> = Vec::new();
    let mut i: usize = 0;
    assert(hv.take(0) =~= Seq::<(Seq<char>, Seq<char>)>::empty());
    while i < h.len()
        invariant
            i <= h@.len(),
            hv == pairs_text(h@),
            pairs_text(r@) == response_cookies_spec(hv.take(i as int)),
        decreases h@.len() - i,
    {
        proof {
            assert(hv.take(i + 1).drop_last() == hv.take(i as int));
            assert(hv.take(i + 1).last() == hv[i as int]);
        }
        let lower = to_lowercase(h[i].0.as_str());
        if eq_str(lower.as_str(), "set-cookie") {
            match parse_set_cookie(h[i].1.as_str()) {
                Some((n, v)) => {
                    let ghost before = r@;
                    r.push((n, v));
                    assert(pairs_text(r@) =~= pairs_text(before).push((n@, v@)));
                },
                None => {},
            }
        }
        i = i + 1;
    }
    assert(hv.take(h@.len() as int) == hv);
    r
}

// ------------------------------------------------------------ static files

/// The browser headers not passed on by the static-file proxy.
pub open spec fn static_dropped_request() -> Seq<Seq<char>> {
    seq!["host"@, "connection"@, "content-length"@]
}

/// The pairs with their names lowercased (header names are
/// case-insensitive).
pub open spec fn lowered(h: Seq<(Seq<char>, Seq<char>)>) -> Seq<(Seq<char>, Seq<char>)> {
    h.map_values(|p: (Seq<char>, Seq<char>)| (lowercase_of(p.0), p.1))
}

/// The headers a static file's host is sent, one value per lowercased name:
/// the browser's headers but `host`, `connection` and `content-length`,
/// a later one of a name replacing an earlier; then the stored `User-Agent`
/// in place of the browser's where one is stored, and a `Cookie` header of
/// the given cookies in place of the browser's where there are any.
pub open spec fn static_headers_spec(
    h: Seq<(Seq<char>, Seq<char>)>,
    user_agent: Seq<char>,
    cookies: Seq<(Seq<char>, Seq<char>)>,
) -> Map<Seq<char>, Seq<char>> {
    let m0 = insert_pairs(Map::empty(), lowered(without_names(h, static_dropped_request())));
    let m1 = if user_agent.len() > 0 {
        m0.insert("user-agent"@, user_agent)
    } else {
        m0
    };
    if cookies.len() > 0 {
        m1.insert("cookie"@, cookie_header_spec(cookies))
    } else {
        m1
    }
}

/// The headers sent for a static file, as `static_headers_spec` says, each
/// name once.
pub fn static_request_headers(h: &Vec<(String, String)>, user_agent: &str, cookies: &Vec<(String, String)>) -> (r:
    Vec<(String, String)>)
    ensures
        lists_map(pairs_text(r@), static_headers_spec(pairs_text(h@), user_agent@, pairs_text(cookies@))),
{
    let list = vec!["host", "connection", "content-length"];
    assert(list@.map_values(|t: &str| t@) =~= static_dropped_request());
    let kept = filter_names(h, &list);
    let ghost lk = lowered(pairs_text(kept@));
    let mut m: StrMap<String> = StrMap::new();
    let mut i: usize = 0;
    assert(lk.take(0) =~= Seq::<(Seq<char>, Seq<char>)>::empty());
    while i < kept.len()
        invariant
            i <= kept@.len(),
            lk == lowered(pairs_text(kept@)),
            m.wf(),
            m@ == insert_pairs(Map::empty(), lk.take(i as int)),
        decreases kept@.len() - i,
    {
        let name = to_lowercase(kept[i].0.as_str());
        proof {
            assert(lk.take(i + 1).drop_last() =~= lk.take(i as int));
            assert(lk.take(i + 1).last() == lk[i as int]);
            assert(lk[i as int] == (name@, kept@[i as int].1@));
        }
        m.insert(name, kept[i].1.clone());
        i = i + 1;
    }
    assert(lk.take(kept@.len() as int) =~= lk);
    proof {
        reveal_strlit("user-agent");
        reveal_strlit("cookie");
    }
    if !user_agent.is_empty() {
        m.insert(owned("user-agent"), owned(user_agent));
    }
    if cookies.len() > 0 {
        m.insert(owned("cookie"), cookie_header(cookies));
    }
    crate::cookie_store::list_pairs(&m)
}

/// The domains whose cookies a static file request carries: the referring
/// page's host, then the target's host where it differs.
pub open spec fn cookie_domains_spec(referer: Option<Seq<char>>, target: Option<Seq<char>>) -> Seq<
    Seq<char>,
> {
    let a = match referer {
        Some(r) => seq![r],
        None => Seq::empty(),
    };
    match target {
        Some(t) => if a.contains(t) {
            a
        } else {
            a.push(t)
        },
        None => a,
    }
}

/// The domains whose cookies a static file request carries.
pub fn cookie_domains(referer: Option<String>, target: Option<String>) -> (r: Vec<String>)
    ensures
        r@.map_values(|s: String| s@) == cookie_domains_spec(
            match referer {
                Some(x) => Some(x@),
                None => None,
            },
            match target {
                Some(x) => Some(x@),
                None => None,
            },
        ),
{
    let mut r: Vec<String> = Vec::new();
    let ghost rv: Option<Seq<char>> = ov(referer);
    let same = match (&referer, &target) {
        (Some(a), Some(b)) => eq_str(a.as_str(), b.as_str()),
        _ => false,
    };
    match referer {
        Some(x) => {
            r.push(x);
        },
        None => {},
    }
    let ghost a = match rv {
        Some(x) => seq![x],
        None => Seq::<Seq<char>>::empty(),
    };
    assert(r@.map_values(|s: String| s@) =~= a);
    match target {
        Some(t) => {
            if !same {
                let ghost before = r@;
                r.push(t);
                assert(r@.map_values(|s: String| s@) =~= a.push(t@));
                assert(!a.contains(t@) || a[0] == t@);
            } else {
                assert(a[0] == t@);
                assert(a.contains(t@));
            }
        },
        None => {},
    }
    r
}

/// The static-file response headers that are dropped.
pub open spec fn static_dropped_response() -> Seq<Seq<char>> {
    seq![
        "connection"@,
        "keep-alive"@,
        "transfer-encoding"@,
        "upgrade"@,
        "access-control-allow-origin"@,
        "access-control-allow-methods"@,
        "access-control-allow-headers"@,
        "cross-origin-resource-policy"@,
    ]
}

/// The headers every static-file response carries at its end.
pub open spec fn static_extra_headers() -> Seq<(Seq<char>, Seq<char>)> {
    seq![
        ("Access-Control-Allow-Origin"@, "*"@),
        ("Cross-Origin-Resource-Policy"@, "cross-origin"@),
        ("Cache-Control"@, "public, max-age=3600"@),
    ]
}

/// The headers of a static-file response.
pub fn static_response_headers(upstream: &Vec<(String, String)>) -> (r: Vec<(String, String)>)
    ensures
        pairs_text(r@) == without_names(pairs_text(upstream@), static_dropped_response())
            + static_extra_headers(),
{
    let list = vec![
        "connection",
        "keep-alive",
        "transfer-encoding",
        "upgrade",
        "access-control-allow-origin",
        "access-control-allow-methods",
        "access-control-allow-headers",
        "cross-origin-resource-policy",
    ];
    assert(list@.map_values(|t: &str| t@) =~= static_dropped_response());
    let mut r = filter_names(upstream, &list);
    let ghost kept = pairs_text(r@);
    push_pair(&mut r, "Access-Control-Allow-Origin", "*");
    push_pair(&mut r, "Cross-Origin-Resource-Policy", "cross-origin");
    push_pair(&mut r, "Cache-Control", "public, max-age=3600");
    assert(pairs_text(r@) =~= kept + static_extra_headers());
    r
}

// ------------------------------------------------------------ proxy setting

/// The proxy settings the server reads from the configuration table.
pub struct ProxyConfigValues {
    pub enabled: Option<String>,
    pub proxy_type: Option<String>,
    pub host: Option<String>,
    pub port: Option<String>,
    pub username: Option<String>,
    pub password: Option<String>,
}

/// The port a configured proxy uses: the configured text as a port number,
/// 8080 where it is missing or no number.
pub open spec fn proxy_port_spec(port: Option<Seq<char>>) -> u16 {
    match port {
        Some(p) => match parse_u16_spec(p) {
            Some(n) => n,
            None => 8080,
        },
        None => 8080,
    }
}

/// The proxy the server goes through: only where `proxy_enabled` is
/// `true` and a host is set; `{type}://{user}:{password}@{host}:{port}`
/// with both credentials, `{type}://{host}:{port}` otherwise, the type
/// `http` by default.
pub open spec fn configured_proxy_spec(
    enabled: Option<Seq<char>>,
    proxy_type: Option<Seq<char>>,
    host: Option<Seq<char>>,
    port: Option<Seq<char>>,
    username: Option<Seq<char>>,
    password: Option<Seq<char>>,
) -> Option<Seq<char>> {
    let t = match proxy_type {
        Some(x) => x,
        None => "http"@,
    };
    let h = match host {
        Some(x) => x,
        None => Seq::empty(),
    };
    let p = decimal_spec(proxy_port_spec(port) as nat);
    if enabled == Some("true"@) && h.len() > 0 {
        match (username, password) {
            (Some(u), Some(pw)) => Some(t + "://"@ + u + seq![':'] + pw + seq!['@'] + h + seq![':'] + p),
            _ => Some(t + "://"@ + h + seq![':'] + p),
        }
    } else {
        None
    }
}

/// The view of an optional text.
pub open spec fn ov(o: Option<String>) -> Option<Seq<char>> {
    match o {
        Some(x) => Some(x@),
        None => None,
    }
}

/// The proxy the server goes through, as `configured_proxy_spec` says.
pub fn configured_proxy_url(c: &ProxyConfigValues) -> (r: Option<String>)
    ensures
        ov(r) == configured_proxy_spec(
            ov(c.enabled),
            ov(c.proxy_type),
            ov(c.host),
            ov(c.port),
            ov(c.username),
            ov(c.password),
        ),
{
    let enabled = match &c.enabled {
        Some(e) => eq_str(e.as_str(), "true"),
        None => false,
    };
    let host = match &c.host {
        Some(h) => h.clone(),
        None => String::new(),
    };
    if !enabled || host.as_str().is_empty() {
        return None;
    }
    let t = match &c.proxy_type {
        Some(x) => x.clone(),
        None => owned("http"),
    };
    let port: u16 = match &c.port {
        Some(p) => match parse_u16(p.as_str()) {
            Some(n) => n,
            None => 8080,
        },
        None => 8080,
    };
    let port_text = format_u64(port as u64);
    let mut r = t;
    push_str(&mut r, "://");
    match (&c.username, &c.password) {
        (Some(u), Some(pw)) => {
            push_str(&mut r, u.as_str());
            r.push(':');
            push_str(&mut r, pw.as_str());
            r.push('@');
        },
        _ => {},
    }
    push_str(&mut r, host.as_str());
    r.push(':');
    push_str(&mut r, port_text.as_str());
    Some(r)
}

// ------------------------------------------------------------ local files

/// `Invalid URL encoding`.
pub open spec fn invalid_encoding_text() -> Seq<char> {
    "Invalid URL encoding"@
}

/// The file a `/local/file/` request names: its path percent-decoded, or
/// the error for a path whose decoded bytes are no UTF-8.
pub fn local_file_path(path: &str) -> (r: Result<String, String>)
    ensures
        match url_decode_spec(path@) {
            Some(t) => r matches Ok(p) && p@ == t,
            None => r matches Err(e) && e@ == invalid_encoding_text(),
        },
{
    match url_decode(path) {
        Some(t) => Ok(t),
        None => Err(owned("Invalid URL encoding")),
    }
}

/// `Invalid URL`.
pub open spec fn invalid_url_text() -> Seq<char> {
    "Invalid URL"@
}

/// The remote address a `/static/` request names: its path percent-decoded,
/// or the error for a path whose decoded bytes are no UTF-8.
pub fn static_target(path: &str) -> (r: Result<String, String>)
    ensures
        match url_decode_spec(path@) {
            Some(t) => r matches Ok(p) && p@ == t,
            None => r matches Err(e) && e@ == invalid_url_text(),
        },
{
    match url_decode(path) {
        Some(t) => Ok(t),
        None => Err(owned("Invalid URL")),
    }
}

} // verus!
