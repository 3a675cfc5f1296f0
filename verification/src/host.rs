//! The host application around the apps: the `appdata://` protocol that
//! pages use for storage and cookies, what happens when a page loads in
//! the main window, the web view's proxy, the stored user agent, and the
//! scripts that steer the web view.

use vstd::prelude::*;
use crate::cookies::{cookie_domain_matches_spec, cookie_header, cookie_header_spec, pairs_text};
use crate::num::{decimal_spec, format_u64, parse_u16, parse_u16_spec};
use crate::server::{ov, proxy_port_spec};
use crate::text::{
    contains, contains_spec, eq_str, owned, push_str, replace, replace_spec, starts_with,
    starts_with_spec,
};
use crate::urls::{opt_text, url_parts};

verus! {

// ------------------------------------------------------------ appdata://

/// A request a page sends to `appdata://`.
pub struct DataRequest {
    pub action: String,
    pub app_id: Option<String>,
    pub key: Option<String>,
    pub value: Option<String>,
    pub domain: Option<String>,
    pub cookies: Option<String>,
}

/// What the host does for a request.
pub enum AppDataAction {
    /// Store `value` under `key` for the app.
    Store { app_id: String, key: String, value: String },
    /// Read the value under `key` for the app.
    Read { app_id: String, key: String },
    /// Store the `name=value; …` cookies of a domain for the browser.
    SaveCookies { domain: String, cookies: String },
    /// Answer at once with this error.
    Fail(String),
}

/// The action for a request: `set` with an app, a key and a value; `get`
/// with an app and a key; `cookie` with a domain and cookies; errors for a
/// missing part or another action.
pub open spec fn appdata_action_spec(
    action: Seq<char>,
    app_id: Option<Seq<char>>,
    key: Option<Seq<char>>,
    value: Option<Seq<char>>,
    domain: Option<Seq<char>>,
    cookies: Option<Seq<char>>,
) -> Result<(Seq<char>, Seq<char>, Seq<char>), Seq<char>> {
    if action == "set"@ {
        match (app_id, key, value) {
            (Some(a), Some(k), Some(v)) => Ok((a, k, v)),
            _ => Err("Missing parameters"@),
        }
    } else if action == "get"@ {
        match (app_id, key) {
            (Some(a), Some(k)) => Ok((a, k, Seq::empty())),
            _ => Err("Missing parameters"@),
        }
    } else if action == "cookie"@ {
        match (domain, cookies) {
            (Some(d), Some(c)) => Ok((d, c, Seq::empty())),
            _ => Err("Missing domain or cookies"@),
        }
    } else {
        Err("Unknown action"@)
    }
}

/// The action for a request, as `appdata_action_spec` says: its parts
/// for `set`, `get` and `cookie`, or the error.
pub fn appdata_action(req: DataRequest) -> (r: AppDataAction)
    ensures
        ({
            let spec = appdata_action_spec(
                req.action@,
                opt_text(req.app_id),
                opt_text(req.key),
                opt_text(req.value),
                opt_text(req.domain),
                opt_text(req.cookies),
            );
            match r {
                AppDataAction::Store { app_id, key, value } => req.action@ == "set"@ && spec == Ok::<
                    (Seq<char>, Seq<char>, Seq<char>),
                    Seq<char>,
                >((app_id@, key@, value@)),
                AppDataAction::Read { app_id, key } => req.action@ == "get"@ && spec == Ok::<
                    (Seq<char>, Seq<char>, Seq<char>),
                    Seq<char>,
                >((app_id@, key@, Seq::empty())),
                AppDataAction::SaveCookies { domain, cookies } => req.action@ == "cookie"@ && spec
                    == Ok::<(Seq<char>, Seq<char>, Seq<char>), Seq<char>>(
                    (domain@, cookies@, Seq::empty()),
                ),
                AppDataAction::Fail(e) => spec == Err::<(Seq<char>, Seq<char>, Seq<char>), Seq<char>>(
                    e@,
                ),
            }
        }),
{
    if eq_str(req.action.as_str(), "set") {
        match (req.app_id, req.key, req.value) {
            (Some(a), Some(k), Some(v)) => AppDataAction::Store { app_id: a, key: k, value: v },
            _ => AppDataAction::Fail(owned("Missing parameters")),
        }
    } else if eq_str(req.action.as_str(), "get") {
        match (req.app_id, req.key) {
            (Some(a), Some(k)) => AppDataAction::Read { app_id: a, key: k },
            _ => AppDataAction::Fail(owned("Missing parameters")),
        }
    } else if eq_str(req.action.as_str(), "cookie") {
        match (req.domain, req.cookies) {
            (Some(d), Some(c)) => AppDataAction::SaveCookies { domain: d, cookies: c },
            _ => AppDataAction::Fail(owned("Missing domain or cookies")),
        }
    } else {
        AppDataAction::Fail(owned("Unknown action"))
    }
}

/// The answer of `appdata://`: whether it succeeded, the action named, the
/// data of a `get` (present, possibly null), and the error.
pub struct AppDataReply {
    pub success: bool,
    pub action: Option<String>,
    pub data: Option<Option<String>>,
    pub error: Option<String>,
}

/// The answer that carries only an error.
pub fn failure_reply(error: String) -> (r: AppDataReply)
    ensures
        !r.success && r.action is None && r.data is None && r.error == Some(error),
{
    AppDataReply { success: false, action: None, data: None, error: Some(error) }
}

/// The answer for an error `e` with a prefix.
fn prefixed(prefix: &str, e: &str) -> (r: String)
    ensures
        r@ == prefix@ + e@,
{
    let mut r = owned(prefix);
    push_str(&mut r, e);
    r
}

/// The answer of a `set`: success, or `DB write error: …`.
pub fn set_reply(result: Result<(), String>) -> (r: AppDataReply)
    ensures
        match result {
            Ok(_) => {
                &&& r.success && r.data is None && r.error is None
                &&& r.action matches Some(a) && a@ == "set"@
            },
            Err(e) => {
                &&& !r.success && r.action is None && r.data is None
                &&& r.error matches Some(x) && x@ == "DB write error: "@ + e@
            },
        },
{
    match result {
        Ok(()) => AppDataReply { success: true, action: Some(owned("set")), data: None, error: None },
        Err(e) => failure_reply(prefixed("DB write error: ", e.as_str())),
    }
}

/// The answer of a `get`: the value, or a null value where there is none
/// (also for a failed read).
pub fn get_reply(value: Option<String>) -> (r: AppDataReply)
    ensures
        r.success == value is Some,
        r.action matches Some(a) && a@ == "get"@,
        r.data == Some(value),
        r.error is None,
{
    let ok = match &value {
        Some(_) => true,
        None => false,
    };
    AppDataReply { success: ok, action: Some(owned("get")), data: Some(value), error: None }
}

/// The answer of a `cookie`: success, or `Cookie save error: …`.
pub fn cookie_reply(result: Result<(), String>) -> (r: AppDataReply)
    ensures
        match result {
            Ok(_) => {
                &&& r.success && r.data is None && r.error is None
                &&& r.action matches Some(a) && a@ == "cookie"@
            },
            Err(e) => {
                &&& !r.success && r.action is None && r.data is None
                &&& r.error matches Some(x) && x@ == "Cookie save error: "@ + e@
            },
        },
{
    match result {
        Ok(()) => AppDataReply { success: true, action: Some(owned("cookie")), data: None, error: None },
        Err(e) => failure_reply(prefixed("Cookie save error: ", e.as_str())),
    }
}

/// The answer for a body that is no request: `Parse error: …`.
pub fn parse_error_reply(e: &str) -> (r: AppDataReply)
    ensures
        !r.success,
        r.error matches Some(x) && x@ == "Parse error: "@ + e@,
{
    failure_reply(prefixed("Parse error: ", e))
}

// ------------------------------------------------------------ page loads

/// The address the main window came up with: the first page loaded.
pub fn remember_base_host(current: Option<String>, loaded: &str) -> (r: Option<String>)
    ensures
        match current {
            Some(h) => r == Some(h),
            None => opt_text(r) == Some(loaded@),
        },
{
    match current {
        Some(h) => Some(h),
        None => Some(owned(loaded)),
    }
}

/// Whether a loaded page is the container's own front end: its address
/// mentions `localhost` or `127.0.0.1`, or starts with `tauri://` or
/// `http://localhost`.
pub open spec fn is_local_page_spec(url: Seq<char>) -> bool {
    contains_spec(url, "localhost"@) || contains_spec(url, "127.0.0.1"@) || starts_with_spec(
        url,
        "tauri://"@,
    ) || starts_with_spec(url, "http://localhost"@)
}

/// Whether the browser bar is put into a loaded page: an outside page that
/// is not `about:blank`.
pub open spec fn inject_browser_ui_spec(url: Seq<char>) -> bool {
    !is_local_page_spec(url) && !starts_with_spec(url, "about:blank"@)
}

/// Whether the browser bar is put into the page at `url`.
pub fn inject_browser_ui(url: &str) -> (r: bool)
    ensures
        r == inject_browser_ui_spec(url@),
{
    let local = contains(url, "localhost") || contains(url, "127.0.0.1") || starts_with(url, "tauri://")
        || starts_with(url, "http://localhost");
    !local && !starts_with(url, "about:blank")
}

/// The cookies of a loaded page's domain among the web view's cookies,
/// as `(name, value, cookie domain)`: those whose domain matches, in order.
pub open spec fn page_cookies_spec(c: Seq<(Seq<char>, Seq<char>, Seq<char>)>, domain: Seq<char>) -> Seq<
    (Seq<char>, Seq<char>),
>
    decreases c.len(),
{
    if c.len() == 0 {
        Seq::empty()
    } else {
        let front = page_cookies_spec(c.drop_last(), domain);
        if cookie_domain_matches_spec(c.last().2, domain) {
            front.push((c.last().0, c.last().1))
        } else {
            front
        }
    }
}

/// The `name=value; …` text of the web view's cookies for a loaded page's
/// domain (a cookie without a domain counts as the empty domain).
pub fn page_cookie_text(cookies: &Vec<(String, String, String)>, domain: &str) -> (r: String)
    ensures
        r@ == cookie_header_spec(
            page_cookies_spec(
                cookies@.map_values(|c: (String, String, String)| (c.0@, c.1@, c.2@)),
                domain@,
            ),
        ),
{
    let ghost cv = cookies@.map_values(|c: (String, String, String)| (c.0@, c.1@, c.2@));
    let mut kept: Vec<(String, String)> = Vec::new();
    let mut i: usize = 0;
    assert(cv.take(0) =~= Seq::<(Seq<char>, Seq<char>, Seq<char>)>::empty());
    while i < cookies.len()
        invariant
            i <= cookies@.len(),
            cv == cookies@.map_values(|c: (String, String, String)| (c.0@, c.1@, c.2@)),
            pairs_text(kept@) == page_cookies_spec(cv.take(i as int), domain@),
        decreases cookies@.len() - i,
    {
        proof {
            assert(cv.take(i + 1).drop_last() == cv.take(i as int));
            assert(cv.take(i + 1).last() == cv[i as int]);
        }
        if crate::cookies::cookie_domain_matches(cookies[i].2.as_str(), domain) {
            let ghost before = kept@;
            kept.push((cookies[i].0.clone(), cookies[i].1.clone()));
            assert(pairs_text(kept@) =~= pairs_text(before).push((cv[i as int].0, cv[i as int].1)));
        }
        i = i + 1;
    }
    assert(cv.take(cookies@.len() as int) == cv);
    cookie_header(&kept)
}

/// What `format!("{:?}", s)` writes for a text: its Rust debug form.
pub uninterp spec fn debug_text(s: Seq<char>) -> Seq<char>;

/// Whether a text is written unchanged between quotes by the debug form:
/// printable ASCII without `"` and `\`.
pub open spec fn plain_ascii(s: Seq<char>) -> bool {
    forall|i: int| 0 <= i < s.len() ==> 32 <= (#[trigger] s[i] as u32) < 127 && s[i] != '"' && s[i]
        != '\\'
}

/// `format!("{:?}", s)`: the text quoted, with the escapes of
/// `str::escape_debug`. Stated: a function of the text, and for printable
/// ASCII without `"` and `\` the text between double quotes.
#[verifier::external_body]
fn debug_quoted(s: &str) -> (r: String)
    ensures
        r@ == debug_text(s@),
        plain_ascii(s@) ==> r@ == seq!['"'] + s@ + seq!['"'],
{
    format!("{:?}", s)
}

/// The script that tells a page the main window's first address:
/// `window.__BASE_HOST__ = {debug form};`.
pub fn base_host_script(host: &str) -> (r: String)
    ensures
        r@ == "window.__BASE_HOST__ = "@ + debug_text(host@) + ";"@,
{
    let q = debug_quoted(host);
    let mut r = owned("window.__BASE_HOST__ = ");
    push_str(&mut r, q.as_str());
    push_str(&mut r, ";");
    r
}

/// The script that sends the web view to `url`: `window.location.href =
/// "{url}";`, each `"` of the address escaped.
pub open spec fn navigation_script_spec(url: Seq<char>) -> Seq<char> {
    "window.location.href = \""@ + replace_spec(url, seq!['"'], seq!['\\', '"']) + "\";"@
}

/// The script that sends the web view to `url`.
pub fn navigation_script(url: &str) -> (r: String)
    ensures
        r@ == navigation_script_spec(url@),
{
    proof {
        reveal_strlit("\"");
        reveal_strlit("\\\"");
    }
    let escaped = replace(url, "\"", "\\\"");
    assert("\""@ == seq!['"'] && "\\\""@ == seq!['\\', '"']);
    let mut r = owned("window.location.href = \"");
    push_str(&mut r, escaped.as_str());
    push_str(&mut r, "\";");
    r
}

// ------------------------------------------------------------ settings

/// The user agent stored under `user_agent`, or the default one.
pub open spec fn user_agent_spec(stored: Option<Seq<char>>) -> Seq<char> {
    match stored {
        Some(u) => u,
        None => "Mozilla/5.0 (Linux; Android 13; TECNO BG6 Build/TP1A.220624.014) AppleWebKit/537.36 (KHTML, like Gecko) Chrome/145.0.7632.159 Mobile Safari/537.36"@,
    }
}

/// The user agent in use.
pub fn get_user_agent(stored: Option<String>) -> (r: String)
    ensures
        r@ == user_agent_spec(opt_text(stored)),
{
    match stored {
        Some(u) => u,
        None => owned(
            "Mozilla/5.0 (Linux; Android 13; TECNO BG6 Build/TP1A.220624.014) AppleWebKit/537.36 (KHTML, like Gecko) Chrome/145.0.7632.159 Mobile Safari/537.36",
        ),
    }
}

/// The proxy of the main web view: `{type}://{host}:{port}` (the type
/// `http` by default, the port 8080 by default) where `proxy_enabled` is
/// `true`, a host is set and the address parses; no credentials.
pub open spec fn webview_proxy_spec(
    enabled: Option<Seq<char>>,
    proxy_type: Option<Seq<char>>,
    host: Option<Seq<char>>,
    port: Option<Seq<char>>,
) -> Option<Seq<char>> {
    let t = match proxy_type {
        Some(x) => x,
        None => "http"@,
    };
    let h = match host {
        Some(x) => x,
        None => Seq::empty(),
    };
    let u = t + "://"@ + h + seq![':'] + decimal_spec(proxy_port_spec(port) as nat);
    if enabled == Some("true"@) && h.len() > 0 && url_parts(u) is Some {
        Some(u)
    } else {
        None
    }
}

/// The proxy of the main web view, as `webview_proxy_spec` says.
pub fn webview_proxy_url(
    enabled: Option<String>,
    proxy_type: Option<String>,
    host: Option<String>,
    port: Option<String>,
) -> (r: Option<String>)
    ensures
        opt_text(r) == webview_proxy_spec(ov(enabled), ov(proxy_type), ov(host), ov(port)),
{
    let on = match &enabled {
        Some(e) => eq_str(e.as_str(), "true"),
        None => false,
    };
    let h = match host {
        Some(x) => x,
        None => String::new(),
    };
    if !on || h.as_str().is_empty() {
        return None;
    }
    let t = match proxy_type {
        Some(x) => x,
        None => owned("http"),
    };
    let p: u16 = match &port {
        Some(x) => match parse_u16(x.as_str()) {
            Some(n) => n,
            None => 8080,
        },
        None => 8080,
    };
    let ghost tv = t@;
    let mut u = t;
    push_str(&mut u, "://");
    push_str(&mut u, h.as_str());
    u.push(':');
    let pt = format_u64(p as u64);
    push_str(&mut u, pt.as_str());
    assert(p == proxy_port_spec(ov(port)));
    assert(u@ =~= tv + "://"@ + h@ + seq![':'] + decimal_spec(proxy_port_spec(ov(port)) as nat));
    match crate::urls::scheme_and_host(u.as_str()) {
        Some(_) => Some(u),
        None => None,
    }
}

// ------------------------------------------------------------ cookie rows

/// Which stored cookies a clear removes for an app.
pub enum CookieClearScope {
    /// Every cookie of the app.
    All,
    /// The cookies of exactly this domain.
    Exact(String),
    /// The cookies of this domain and of its subdomains, the second text
    /// being the `LIKE` pattern `%.{domain}`.
    WithSubdomains(String, String),
}

/// What a clear of an app's stored cookies covers: everything where no
/// domain is given; otherwise the domain with its subdomains, unless asked
/// for the domain alone.
pub fn cookie_clear_scope(domain: Option<String>, include_subdomains: Option<bool>) -> (r:
    CookieClearScope)
    ensures
        match domain {
            None => r is All,
            Some(d) => if include_subdomains == Some(false) {
                r matches CookieClearScope::Exact(x) && x@ == d@
            } else {
                r matches CookieClearScope::WithSubdomains(x, like) && x@ == d@ && like@ == "%."@
                    + d@
            },
        },
{
    match domain {
        None => CookieClearScope::All,
        Some(d) => {
            let subs = match include_subdomains {
                Some(b) => b,
                None => true,
            };
            if subs {
                let like = prefixed("%.", d.as_str());
                CookieClearScope::WithSubdomains(d, like)
            } else {
                CookieClearScope::Exact(d)
            }
        },
    }
}

} // verus!
