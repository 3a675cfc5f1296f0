//! Local relays: the registry of stream proxies (a local port per target),
//! and the WebSocket proxy that carries fetches for pages as messages.

use vstd::prelude::*;
use crate::b64::{encode_spec, standard_encode};
use crate::cookie_store::{cookie_header_for, domain_cookies, lists_map, CookieStore};
use crate::cookies::{cookie_header_spec, pairs_text};
use crate::num::{decimal_spec, format_u64};
use crate::proxy::{lossy_text, method_kind, method_kind_spec, utf8_lossy, RequestMethod};
use crate::server::without_names;
use crate::strmap::StrMap;
use crate::text::{eq_str, lowercase_of, owned, push_str, starts_with, starts_with_spec, to_lowercase};
use crate::urls::{domain_of, extract_domain};

verus! {

// ------------------------------------------------------------ addresses

/// `{scheme}://127.0.0.1:{port}`.
pub open spec fn local_url_spec(scheme: Seq<char>, port: u16) -> Seq<char> {
    scheme + "://127.0.0.1:"@ + decimal_spec(port as nat)
}

fn local_url(scheme: &str, port: u16) -> (r: String)
    ensures
        r@ == local_url_spec(scheme@, port),
{
    let mut r = owned(scheme);
    push_str(&mut r, "://127.0.0.1:");
    let p = format_u64(port as u64);
    push_str(&mut r, p.as_str());
    r
}

/// Whether a target is a WebSocket address (`ws://` or `wss://`).
pub open spec fn is_ws_target_spec(t: Seq<char>) -> bool {
    starts_with_spec(t, "ws://"@) || starts_with_spec(t, "wss://"@)
}

/// Whether `t` is a WebSocket address.
pub fn is_ws_target(t: &str) -> (r: bool)
    ensures
        r == is_ws_target_spec(t@),
{
    starts_with(t, "ws://") || starts_with(t, "wss://")
}

// ------------------------------------------------------------ stream proxies

/// What starting a stream proxy asks for.
pub struct StreamProxyStartRequest {
    pub target_url: String,
}

/// What starting a stream proxy answers: the local port and the address to
/// use.
pub struct StreamProxyStartResponse {
    pub local_port: u16,
    pub proxy_url: String,
}

/// A running stream proxy: its local port and its target.
pub struct StreamProxyEntry {
    pub local_port: u16,
    pub target_url: String,
}

impl View for StreamProxyEntry {
    type V = (u16, Seq<char>);

    open spec fn view(&self) -> (u16, Seq<char>) {
        (self.local_port, self.target_url@)
    }
}

/// The running stream proxies by id.
pub struct StreamProxyRegistry {
    entries: StrMap<StreamProxyEntry>,
}

impl View for StreamProxyRegistry {
    type V = Map<Seq<char>, (u16, Seq<char>)>;

    closed spec fn view(&self) -> Map<Seq<char>, (u16, Seq<char>)> {
        self.entries@
    }
}

/// The address a stream proxy is reached at: `ws://` for a WebSocket
/// target, `http://` otherwise.
pub open spec fn stream_proxy_url_spec(target: Seq<char>, port: u16) -> Seq<char> {
    if is_ws_target_spec(target) {
        local_url_spec("ws"@, port)
    } else {
        local_url_spec("http"@, port)
    }
}

impl StreamProxyRegistry {
    /// Each id is held once, and each WebSocket target has at most one
    /// proxy.
    pub closed spec fn wf(&self) -> bool {
        &&& self.entries.wf()
        &&& ws_targets_unique(self@)
    }

    /// A live registry serves each WebSocket target from at most one proxy.
    pub proof fn lemma_ws_unique(&self)
        requires
            self.wf(),
        ensures
            ws_targets_unique(self@),
    {
    }

    /// No proxies.
    pub fn new() -> (r: Self)
        ensures
            r.wf(),
            r@ == Map::<Seq<char>, (u16, Seq<char>)>::empty(),
    {
        let r = StreamProxyRegistry { entries: StrMap::new() };
        assert(ws_targets_unique(r@));
        r
    }

    /// The port of a running proxy for `target`, if any; only WebSocket
    /// targets are shared.
    pub fn find(&self, target: &str) -> (r: Option<u16>)
        requires
            self.wf(),
        ensures
            match r {
                Some(p) => exists|id: Seq<char>| #[trigger]
                    self@.dom().contains(id) && self@[id] == (p, target@),
                None => forall|id: Seq<char>| #[trigger]
                    self@.dom().contains(id) ==> self@[id].1 != target@,
            },
    {
        proof {
            self.entries.lemma_key_order();
        }
        let n = self.entries.len();
        let mut i: usize = 0;
        while i < n
            invariant
                self.wf(),
                n == self@.dom().len(),
                self.entries.key_order().len() == n,
                i <= n,
                forall|j: int| 0 <= j < i ==> self@[self.entries.key_order()[j]].1 != target@,
            decreases n - i,
        {
            let (k, e) = self.entries.entry_at(i);
            if eq_str(e.target_url.as_str(), target) {
                assert(self@.dom().contains(k@) && self@[k@] == (e.local_port, target@));
                return Some(e.local_port);
            }
            i = i + 1;
        }
        proof {
            assert forall|id: Seq<char>| #[trigger] self@.dom().contains(id) implies self@[id].1
                != target@ by {
                assert(self.entries.key_order().contains(id));
                let j = choose|j: int|
                    0 <= j < self.entries.key_order().len() && self.entries.key_order()[j] == id;
            }
        }
        None
    }

    /// Records a proxy started on `port` for `target` under `id`, and the
    /// answer for it. A WebSocket target is recorded only where no proxy
    /// serves it yet (`reuse_stream_proxy` answered `None`).
    pub fn register(&mut self, id: String, port: u16, target: &str) -> (r: StreamProxyStartResponse)
        requires
            old(self).wf(),
            is_ws_target_spec(target@) ==> !has_target(old(self)@, target@),
        ensures
            final(self).wf(),
            final(self)@ == old(self)@.insert(id@, (port, target@)),
            r.local_port == port,
            r.proxy_url@ == stream_proxy_url_spec(target@, port),
    {
        proof {
            lemma_insert_keeps_unique(self@, id@, port, target@);
        }
        self.entries.insert(id, StreamProxyEntry { local_port: port, target_url: owned(target) });
        let url = if is_ws_target(target) {
            local_url("ws", port)
        } else {
            local_url("http", port)
        };
        StreamProxyStartResponse { local_port: port, proxy_url: url }
    }

    /// Drops the proxy `id`, handing back its entry.
    pub fn stop(&mut self, id: &str) -> (r: Option<StreamProxyEntry>)
        requires
            old(self).wf(),
        ensures
            final(self).wf(),
            final(self)@ == old(self)@.remove(id@),
            match r {
                Some(e) => old(self)@.dom().contains(id@) && old(self)@[id@] == e@,
                None => !old(self)@.dom().contains(id@),
            },
    {
        let ghost m = self@;
        let r = self.entries.take(id);
        proof {
            let m2 = m.remove(id@);
            assert forall|a: Seq<char>, b: Seq<char>|
                #![trigger m2[a], m2[b]]
                m2.dom().contains(a) && m2.dom().contains(b) && m2[a].1 == m2[b].1 && is_ws_target_spec(
                    m2[a].1,
                ) implies a == b by {
                assert(m2[a] == m[a] && m2[b] == m[b]);
            }
        }
        r
    }

    /// The running proxies as `(id, target, port, address)`, the address
    /// always `http://`, each id once.
    pub fn list(&self) -> (r: Vec<(String, String, u16, String)>)
        requires
            self.wf(),
        ensures
            r@.len() == self@.dom().len(),
            forall|i: int|
                0 <= i < r@.len() ==> {
                    let (id, target, port, url) = #[trigger] r@[i];
                    &&& self@.dom().contains(id@)
                    &&& self@[id@] == (port, target@)
                    &&& url@ == local_url_spec("http"@, port)
                },
            forall|i: int, j: int| 0 <= i < j < r@.len() ==> r@[i].0@ != r@[j].0@,
    {
        proof {
            self.entries.lemma_key_order();
        }
        let n = self.entries.len();
        let mut r: Vec<(String, String, u16, String)> = Vec::new();
        let mut i: usize = 0;
        while i < n
            invariant
                self.wf(),
                n == self@.dom().len(),
                self.entries.key_order().len() == n,
                self.entries.key_order().no_duplicates(),
                i <= n,
                r@.len() == i,
                forall|j: int|
                    0 <= j < i ==> {
                        let (id, target, port, url) = #[trigger] r@[j];
                        &&& id@ == self.entries.key_order()[j]
                        &&& self@.dom().contains(id@)
                        &&& self@[id@] == (port, target@)
                        &&& url@ == local_url_spec("http"@, port)
                    },
            decreases n - i,
        {
            let (k, e) = self.entries.entry_at(i);
            let url = local_url("http", e.local_port);
            r.push((k.clone(), e.target_url.clone(), e.local_port, url));
            i = i + 1;
        }
        proof {
            assert forall|a: int, b: int| 0 <= a < b < r@.len() implies r@[a].0@ != r@[b].0@ by {
                assert(r@[a].0@ == self.entries.key_order()[a]);
                assert(r@[b].0@ == self.entries.key_order()[b]);
            }
        }
        r
    }
}

/// A registered proxy's target is found again: after `register` records
/// `id` for `target`, the registry holds an entry for `target`, so `find`
/// cannot answer `None` for it; after `stop` of an id, that id is gone.
pub proof fn lemma_register_then_find(
    m: Map<Seq<char>, (u16, Seq<char>)>,
    id: Seq<char>,
    port: u16,
    target: Seq<char>,
)
    ensures
        exists|k: Seq<char>| #[trigger]
            m.insert(id, (port, target)).dom().contains(k) && m.insert(id, (port, target))[k] == (
                port,
                target,
            ),
        !m.insert(id, (port, target)).remove(id).dom().contains(id),
{
    let m2 = m.insert(id, (port, target));
    assert(m2.dom().contains(id) && m2[id] == (port, target));
}

/// What starting a stream proxy does: a WebSocket target that already has
/// a proxy is answered with it; otherwise a new proxy is to be started.
pub fn reuse_stream_proxy(registry: &StreamProxyRegistry, target: &str) -> (r: Option<
    StreamProxyStartResponse,
>)
    requires
        registry.wf(),
    ensures
        match r {
            Some(resp) => is_ws_target_spec(target@) && (exists|id: Seq<char>| #[trigger]
                registry@.dom().contains(id) && registry@[id] == (resp.local_port, target@))
                && (forall|id: Seq<char>| #[trigger]
                registry@.dom().contains(id) && registry@[id].1 == target@ ==> registry@[id].0
                    == resp.local_port) && resp.proxy_url@ == local_url_spec("ws"@, resp.local_port),
            None => !is_ws_target_spec(target@) || forall|id: Seq<char>| #[trigger]
                registry@.dom().contains(id) ==> registry@[id].1 != target@,
        },
{
    if !is_ws_target(target) {
        return None;
    }
    match registry.find(target) {
        Some(port) => {
            proof {
                let m = registry@;
                let w = choose|w: Seq<char>| #[trigger] m.dom().contains(w) && m[w] == (port, target@);
                assert forall|id: Seq<char>| #[trigger]
                    m.dom().contains(id) && m[id].1 == target@ implies m[id].0 == port by {
                    assert(m.dom().contains(w) && m[w].1 == target@);
                    assert(id == w);
                }
            }
            Some(StreamProxyStartResponse { local_port: port, proxy_url: local_url("ws", port) })
        },
        None => None,
    }
}

/// Whether some proxy of `m` serves `target`.
pub open spec fn has_target(m: Map<Seq<char>, (u16, Seq<char>)>, target: Seq<char>) -> bool {
    exists|k: Seq<char>| #[trigger] m.dom().contains(k) && m[k].1 == target
}

/// Whether each WebSocket target has at most one proxy in `m`.
pub open spec fn ws_targets_unique(m: Map<Seq<char>, (u16, Seq<char>)>) -> bool {
    forall|a: Seq<char>, b: Seq<char>|
        #![trigger m[a], m[b]]
        m.dom().contains(a) && m.dom().contains(b) && m[a].1 == m[b].1 && is_ws_target_spec(m[a].1)
            ==> a == b
}

/// Recording a proxy for a target that is no WebSocket address, or for one
/// that no proxy serves yet, keeps one proxy per WebSocket target.
pub proof fn lemma_insert_keeps_unique(m: Map<Seq<char>, (u16, Seq<char>)>, id: Seq<char>, port: u16, target: Seq<char>)
    requires
        ws_targets_unique(m),
        is_ws_target_spec(target) ==> !has_target(m, target),
    ensures
        ws_targets_unique(m.insert(id, (port, target))),
{
    let m2 = m.insert(id, (port, target));
    assert forall|a: Seq<char>, b: Seq<char>|
        #![trigger m2[a], m2[b]]
        m2.dom().contains(a) && m2.dom().contains(b) && m2[a].1 == m2[b].1 && is_ws_target_spec(m2[a].1)
            implies a == b by {
        if a != id && b != id {
            assert(m[a] == m2[a] && m[b] == m2[b]);
        } else if a == id && b != id {
            assert(m2[b] == m[b]);
            assert(m.dom().contains(b) && m[b].1 == target);
        } else if a != id && b == id {
            assert(m2[a] == m[a]);
            assert(m.dom().contains(a) && m[a].1 == target);
        }
    }
}

/// The registry after a start for `target` with the fresh id `id` and the
/// port `port` a new proxy would listen on: a WebSocket target that has a
/// proxy is answered from it and nothing is added (`reuse_stream_proxy`);
/// otherwise the new proxy is recorded (`register`).
pub open spec fn after_start(m: Map<Seq<char>, (u16, Seq<char>)>, id: Seq<char>, port: u16, target: Seq<char>) -> Map<
    Seq<char>,
    (u16, Seq<char>),
> {
    if is_ws_target_spec(target) && has_target(m, target) {
        m
    } else {
        m.insert(id, (port, target))
    }
}

/// Starting proxies on a live registry keeps one proxy per WebSocket
/// target: after a start the registry again has at most one proxy per
/// WebSocket target; once a WebSocket target has its proxy, a second start
/// for it changes nothing; and the one proxy serving it is the first one
/// recorded for it, on that proxy's port.
pub proof fn lemma_start_reuses_ws(
    reg: StreamProxyRegistry,
    id: Seq<char>,
    port: u16,
    target: Seq<char>,
    id2: Seq<char>,
    port2: u16,
)
    requires
        reg.wf(),
    ensures
        ws_targets_unique(after_start(reg@, id, port, target)),
        is_ws_target_spec(target) ==> after_start(after_start(reg@, id, port, target), id2, port2, target)
            == after_start(reg@, id, port, target),
        is_ws_target_spec(target) && !has_target(reg@, target) ==> forall|k: Seq<char>|
            #[trigger] after_start(reg@, id, port, target).dom().contains(k) && after_start(
                reg@,
                id,
                port,
                target,
            )[k].1 == target ==> k == id && after_start(reg@, id, port, target)[k] == (port, target),
{
    let m = reg@;
    let m2 = after_start(m, id, port, target);
    if !(is_ws_target_spec(target) && has_target(m, target)) {
        assert(m2 == m.insert(id, (port, target)));
        lemma_insert_keeps_unique(m, id, port, target);
        if is_ws_target_spec(target) {
            assert(m2.dom().contains(id) && m2[id].1 == target);
            assert(has_target(m2, target));
            assert forall|k: Seq<char>|
                #[trigger] m2.dom().contains(k) && m2[k].1 == target implies k == id && m2[k] == (port, target) by {
                if k != id {
                    assert(m2[k] == m[k]);
                    assert(m.dom().contains(k) && m[k].1 == target);
                }
            }
        }
    }
}

// ------------------------------------------------------------ WebSocket proxy

/// What starting the WebSocket proxy answers.
pub struct WsProxyStartResponse {
    pub port: u16,
    pub ws_url: String,
}

/// The WebSocket proxy's answer for `port`: `ws://127.0.0.1:{port}`.
pub fn ws_start_response(port: u16) -> (r: WsProxyStartResponse)
    ensures
        r.port == port,
        r.ws_url@ == local_url_spec("ws"@, port),
{
    WsProxyStartResponse { port, ws_url: local_url("ws", port) }
}

/// A message of the WebSocket proxy: a request a page sends (`request`),
/// or the answer (`response`) or failure (`error`) that comes back. The
/// message kind travels as the JSON field `type`.
pub struct WsProxyMessage {
    pub id: String,
    pub kind: String,
    pub url: Option<String>,
    pub method: Option<String>,
    pub headers: Option<Vec<(String, String)>>,
    pub body: Option<String>,
    pub status: Option<u16>,
    pub headers_out: Option<Vec<(String, String)>>,
    pub data: Option<String>,
    pub error: Option<String>,
}

/// Whether a message asks for a request.
pub fn is_request(m: &WsProxyMessage) -> (r: bool)
    ensures
        r == (m.kind@ == "request"@),
{
    eq_str(m.kind.as_str(), "request")
}

/// What a request message sends.
pub struct WsRequestPlan {
    pub url: String,
    pub method: RequestMethod,
    pub headers: Vec<(String, String)>,
    pub body: Option<String>,
}

/// Whether some header's lowercased name is `referer`.
pub open spec fn has_referer(h: Seq<(Seq<char>, Seq<char>)>) -> bool {
    exists|i: int| 0 <= i < h.len() && lowercase_of((#[trigger] h[i]).0) == "referer"@
}

/// The headers a request message sends: its headers but `cookie` ones,
/// the `Cookie` header of the stored cookies of the `default` app for the
/// address's domain where there are any, and `Referer:
/// https://{domain}/` where the message names no referer and the domain
/// is not empty.
pub open spec fn ws_headers_spec(
    h: Seq<(Seq<char>, Seq<char>)>,
    cookie: Seq<char>,
    domain: Seq<char>,
) -> Seq<(Seq<char>, Seq<char>)> {
    let a = if cookie.len() > 0 {
        seq![("Cookie"@, cookie)]
    } else {
        Seq::empty()
    };
    let b = a + without_names(h, seq!["cookie"@]);
    if !has_referer(h) && domain.len() > 0 {
        b.push(("Referer"@, "https://"@ + domain + seq!['/']))
    } else {
        b
    }
}

fn any_referer(h: &Vec<(String, String)>) -> (r: bool)
    ensures
        r == has_referer(pairs_text(h@)),
{
    let ghost hv = pairs_text(h@);
    let mut i: usize = 0;
    while i < h.len()
        invariant
            i <= h@.len(),
            hv == pairs_text(h@),
            forall|j: int| 0 <= j < i ==> lowercase_of(hv[j].0) != "referer"@,
        decreases h@.len() - i,
    {
        let lower = to_lowercase(h[i].0.as_str());
        if eq_str(lower.as_str(), "referer") {
            assert(lowercase_of(hv[i as int].0) == "referer"@);
            return true;
        }
        i = i + 1;
    }
    false
}

/// The address of a request message (empty where none is given).
pub open spec fn msg_url(m: WsProxyMessage) -> Seq<char> {
    match m.url {
        Some(u) => u@,
        None => Seq::empty(),
    }
}

/// The headers of a request message (none where none are given).
pub open spec fn msg_headers(m: WsProxyMessage) -> Seq<(Seq<char>, Seq<char>)> {
    match m.headers {
        Some(h) => pairs_text(h@),
        None => Seq::empty(),
    }
}

/// The request a request message asks for: the address (empty where none
/// is given), the method named exactly (`GET` by default, unknown names as
/// `GET`), the headers as `ws_headers_spec` says, and the body.
pub fn plan_ws_request(m: &WsProxyMessage, store: &CookieStore) -> (r: WsRequestPlan)
    requires
        store.wf(),
    ensures
        r.url@ == msg_url(*m),
        r.method == match m.method {
            Some(x) => method_kind_spec(x@),
            None => RequestMethod::Get,
        },
        exists|l: Seq<(Seq<char>, Seq<char>)>|
            #[trigger] lists_map(l, domain_cookies(store@, "default"@, domain_of(msg_url(*m))))
                && pairs_text(r.headers@) == ws_headers_spec(
                msg_headers(*m),
                cookie_header_spec(l),
                domain_of(msg_url(*m)),
            ),
        match m.body {
            Some(b) => r.body matches Some(x) && x@ == b@,
            None => r.body is None,
        },
{
    let url = match &m.url {
        Some(u) => u.clone(),
        None => String::new(),
    };
    let method = match &m.method {
        Some(x) => method_kind(x.as_str()),
        None => RequestMethod::Get,
    };
    let headers: Vec<(String, String)> = match &m.headers {
        Some(h) => crate::cache::copy_pairs(h),
        None => {
            let e: Vec<(String, String)> = Vec::new();
            assert(pairs_text(e@) =~= Seq::empty());
            e
        },
    };
    let ghost hv = pairs_text(headers@);
    assert(hv == match m.headers {
        Some(h) => pairs_text(h@),
        None => Seq::empty(),
    });
    let domain = extract_domain(url.as_str());
    let cookie = cookie_header_for(store, url.as_str(), "default");
    let ghost l = choose|l: Seq<(Seq<char>, Seq<char>)>|
        lists_map(l, domain_cookies(store@, "default"@, domain_of(url@))) && cookie@
            == cookie_header_spec(l);
    let mut out: Vec<(String, String)> = Vec::new();
    if !cookie.as_str().is_empty() {
        out.push((owned("Cookie"), cookie.clone()));
    }
    let ghost a = pairs_text(out@);
    assert(a =~= if cookie@.len() > 0 {
        seq![("Cookie"@, cookie@)]
    } else {
        Seq::empty()
    });
    let list = vec!["cookie"];
    assert(list@.map_values(|t: &str| t@) =~= seq!["cookie"@]);
    let kept = crate::server::filter_names(&headers, &list);
    let mut i: usize = 0;
    let ghost kv = pairs_text(kept@);
    while i < kept.len()
        invariant
            i <= kept@.len(),
            kv == pairs_text(kept@),
            pairs_text(out@) == a + kv.take(i as int),
        decreases kept@.len() - i,
    {
        let ghost before = out@;
        out.push((kept[i].0.clone(), kept[i].1.clone()));
        assert(pairs_text(out@) =~= pairs_text(before).push(kv[i as int]));
        assert(kv.take(i + 1) == kv.take(i as int).push(kv[i as int]));
        i = i + 1;
    }
    assert(kv.take(kept@.len() as int) == kv);
    if !any_referer(&headers) && !domain.as_str().is_empty() {
        let mut r = owned("https://");
        push_str(&mut r, domain.as_str());
        r.push('/');
        assert(r@ =~= "https://"@ + domain@ + seq!['/']);
        let ghost before = out@;
        out.push((owned("Referer"), r));
        assert(pairs_text(out@) =~= pairs_text(before).push(("Referer"@, "https://"@ + domain@ + seq!['/'])));
    }
    let body = match &m.body {
        Some(b) => Some(b.clone()),
        None => None,
    };
    assert(pairs_text(out@) == ws_headers_spec(hv, cookie_header_spec(l), domain_of(url@)));
    assert(lists_map(l, domain_cookies(store@, "default"@, domain_of(url@))));
    assert(url@ == match m.url {
        Some(u) => u@,
        None => Seq::<char>::empty(),
    });
    assert(method == match m.method {
        Some(x) => method_kind_spec(x@),
        None => RequestMethod::Get,
    });
    assert(url@ == msg_url(*m));
    assert(hv == msg_headers(*m));
    assert(lists_map(l, domain_cookies(store@, "default"@, domain_of(msg_url(*m)))));
    assert(pairs_text(out@) == ws_headers_spec(
        msg_headers(*m),
        cookie_header_spec(l),
        domain_of(msg_url(*m)),
    ));
    WsRequestPlan { url, method, headers: out, body }
}

/// The value of the header named exactly `content-type`, if any (the first
/// such pair).
pub open spec fn content_type_of(h: Seq<(Seq<char>, Seq<char>)>) -> Option<Seq<char>>
    decreases h.len(),
{
    if h.len() == 0 {
        None
    } else if h[0].0 == "content-type"@ {
        Some(h[0].1)
    } else {
        content_type_of(h.drop_first())
    }
}

/// Whether a lowercased content type marks binary data: video, audio or
/// `application/octet-stream`.
pub open spec fn is_binary_type(ct: Seq<char>) -> bool {
    starts_with_spec(ct, "video/"@) || starts_with_spec(ct, "audio/"@) || starts_with_spec(
        ct,
        "application/octet-stream"@,
    )
}

/// The data of a response message: base64 for binary content, text
/// otherwise.
pub open spec fn ws_data_spec(headers: Seq<(Seq<char>, Seq<char>)>, data: Seq<u8>) -> Seq<char> {
    let ct = match content_type_of(headers) {
        Some(c) => lowercase_of(c),
        None => Seq::empty(),
    };
    if is_binary_type(ct) {
        encode_spec(data, false, true)
    } else {
        utf8_lossy(data)
    }
}

fn find_content_type(h: &Vec<(String, String)>) -> (r: Option<String>)
    ensures
        match r {
            Some(c) => content_type_of(pairs_text(h@)) == Some(c@),
            None => content_type_of(pairs_text(h@)) is None,
        },
{
    let ghost hv = pairs_text(h@);
    let mut i: usize = 0;
    assert(hv.skip(0) == hv);
    while i < h.len()
        invariant
            i <= h@.len(),
            hv == pairs_text(h@),
            content_type_of(hv.skip(i as int)) == content_type_of(hv),
        decreases h@.len() - i,
    {
        assert(hv.skip(i as int)[0] == hv[i as int]);
        assert(hv.skip(i as int).drop_first() == hv.skip(i + 1));
        if eq_str(h[i].0.as_str(), "content-type") {
            return Some(h[i].1.clone());
        }
        i = i + 1;
    }
    None
}

/// The message that answers request `id`: on success a `response` with the
/// status, the headers and the data; on failure an `error` with its text.
pub fn ws_reply(id: String, result: Result<(u16, Vec<(String, String)>, Vec<u8>), String>) -> (r:
    WsProxyMessage)
    ensures
        r.id@ == id@,
        r.url is None && r.method is None && r.headers is None && r.body is None,
        match result {
            Ok((status, headers, data)) => {
                &&& r.kind@ == "response"@
                &&& r.status == Some(status)
                &&& r.headers_out matches Some(h) && pairs_text(h@) == pairs_text(headers@)
                &&& r.data matches Some(d) && d@ == ws_data_spec(pairs_text(headers@), data@)
                &&& r.error is None
            },
            Err(e) => {
                &&& r.kind@ == "error"@
                &&& r.status is None && r.headers_out is None && r.data is None
                &&& r.error matches Some(x) && x@ == e@
            },
        },
{
    match result {
        Ok((status, headers, data)) => {
            let ct = match find_content_type(&headers) {
                Some(c) => to_lowercase(c.as_str()),
                None => String::new(),
            };
            let binary = starts_with(ct.as_str(), "video/") || starts_with(ct.as_str(), "audio/")
                || starts_with(ct.as_str(), "application/octet-stream");
            let text = if binary {
                standard_encode(data.as_slice())
            } else {
                lossy_text(data.as_slice())
            };
            WsProxyMessage {
                id,
                kind: owned("response"),
                url: None,
                method: None,
                headers: None,
                body: None,
                status: Some(status),
                headers_out: Some(headers),
                data: Some(text),
                error: None,
            }
        },
        Err(e) => WsProxyMessage {
            id,
            kind: owned("error"),
            url: None,
            method: None,
            headers: None,
            body: None,
            status: None,
            headers_out: None,
            data: None,
            error: Some(e),
        },
    }
}

} // verus!
