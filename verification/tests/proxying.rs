use std::io::Write;

use pwa_container::protocols::{
    check_fetch_url, fetch_body, fetch_response_headers, gunzipped_body, is_remote, plan_fetch_request, plan_stream,
    remote_body_fits, remote_referer, static_file_path, stream_file_path, MAX_REMOTE_BYTES,
};
use pwa_container::proxy::{
    clean_body, decompressed_body, disable_proxy, forwarded_headers, get_proxy, method_kind, pick_cookie_header,
    plan_fetch_upper, plan_proxy_fetch, proxy_reply, request_url, set_proxy, shape_reply, ProxyConfig,
    RequestMethod,
};
use pwa_container::resource::{
    choose_resource, context_cookie, domain_name, is_local_dev, local_cache_path, local_dev_url, site_url,
    parse_path, resolve_relative_path, resource_target, rewrite_base, rewrite_html, served_body, should_cache,
    should_store, Fetched,
};
use pwa_container::server::{
    configured_proxy_url, cookie_domains, get_local_server_port, local_file_path, plan_query_request, static_target, plan_upstream_request,
    proxy_response_headers, response_cookies, static_request_headers, static_response_headers, ProxyConfigValues,
    ProxyRequest, PwaHeader,
};

fn pairs(v: &[(&str, &str)]) -> Vec<(String, String)> {
    v.iter().map(|(a, b)| (a.to_string(), b.to_string())).collect()
}

fn gzip(data: &[u8]) -> Vec<u8> {
    let mut e = flate2::write::GzEncoder::new(Vec::new(), flate2::Compression::default());
    e.write_all(data).unwrap();
    e.finish().unwrap()
}

#[test]
fn direct_targets_rebuild_their_address() {
    let t = resource_target("/https/example.com:8443/a/b.js", None).unwrap();
    assert_eq!((t.proto.as_str(), t.domain.as_str(), t.file_path.as_str(), t.ctx.as_str()), ("https", "example.com:8443", "/a/b.js", "https/example.com:8443"));
    assert_eq!(site_url(&t, Some("v=1")), "https://example.com:8443/a/b.js?v=1");
    assert_eq!(site_url(&t, None), "https://example.com:8443/a/b.js");
    let bare = parse_path("http", "example.com");
    assert_eq!(bare.file_path, "/");
    assert_eq!(site_url(&bare, None), "http://example.com/");
}

#[test]
fn relative_targets_follow_the_referer() {
    let t = resolve_relative_path("img/x.png", Some("pwa-resource://localhost/https/site.org/app/index.html")).unwrap();
    assert_eq!((t.proto.as_str(), t.domain.as_str(), t.file_path.as_str()), ("https", "site.org", "/app/img/x.png"));
    let root = resolve_relative_path("/y.css", Some("x/http/h.net")).unwrap();
    assert_eq!((root.proto.as_str(), root.file_path.as_str()), ("http", "/y.css"));
    assert_eq!(resolve_relative_path("a", None).err(), Some("Missing referer for relative path".to_string()));
    assert_eq!(resolve_relative_path("a", Some("https://plain.org/")).err(), Some("Invalid referer format".to_string()));
    assert_eq!(resource_target("rel.js", None).err(), Some("Missing referer for relative path".to_string()));
}

#[test]
fn local_development_addresses() {
    assert!(is_local_dev("/http/localhost.port-3000/"));
    assert!(!is_local_dev("/https/example.com/"));
    assert_eq!(local_dev_url("/http/localhost.port-3000/app.js"), "http://localhost:3000/app.js");
    assert_eq!(local_dev_url("/https/192.168.1.2.port-8443/"), "https://192.168.1.2:8443/");
    assert_eq!(local_dev_url("/plain"), "/plain");
}

#[test]
fn resource_caching_rules() {
    assert_eq!(domain_name("example.com:8080"), "example.com");
    assert_eq!(domain_name("example.com"), "example.com");
    assert!(should_cache("/a/app.JS"));
    assert!(!should_cache("/a/data.bin"));
    assert_eq!(local_cache_path("/d", "ex.com:80", "/"), "/d/pwa_cache/ex.com/index.html");
    assert_eq!(local_cache_path("/d", "ex.com", "/a/b.css"), "/d/pwa_cache/ex.com/a/b.css");
    assert_eq!(context_cookie("https/ex.com"), "pwa_context=https/ex.com; Path=/; Max-Age=3600; SameSite=Lax");
    assert!(should_store(200, true));
    assert!(!should_store(404, true));
    assert!(!should_store(200, false));
}

#[test]
fn html_links_point_into_the_site() {
    let base = rewrite_base("https", "ex.com", "/app/index.html");
    assert_eq!(base, "pwa-resource://localhost/https/ex.com/app/");
    let html = r#"<script src="./a.js"></script><link href='/b.css'><style>x{background:url(./c.png)}</style>"#;
    assert_eq!(
        rewrite_html(html, &base),
        r#"<script src="pwa-resource://localhost/https/ex.com/app/a.js"></script><link href='pwa-resource://localhost/https/ex.com/app/b.css'><style>x{background:url(pwa-resource://localhost/https/ex.com/app/c.png)}</style>"#
    );
    let body = served_body(b"<img src=\"/i.png\">".to_vec(), Some("text/html; charset=utf-8"), 200, "B/");
    assert_eq!(body, b"<img src=\"B/i.png\">".to_vec());
    let untouched = served_body(b"<img src=\"/i.png\">".to_vec(), Some("text/css"), 200, "B/");
    assert_eq!(untouched, b"<img src=\"/i.png\">".to_vec());
    let not_ok = served_body(b"src=\"/x\"".to_vec(), Some("text/html"), 404, "B/");
    assert_eq!(not_ok, b"src=\"/x\"".to_vec());
}

#[test]
fn cached_copies_stand_in_for_failures() {
    let ok = Fetched { content: b"net".to_vec(), mime: Some("text/plain".to_string()), status: 200 };
    let r = choose_resource(Ok(ok), true, Some(b"old".to_vec())).unwrap();
    assert_eq!(r.content, b"net".to_vec());
    let missing = Fetched { content: b"404".to_vec(), mime: None, status: 404 };
    let r2 = choose_resource(Ok(missing), true, Some(b"old".to_vec())).unwrap();
    assert_eq!((r2.content, r2.status), (b"old".to_vec(), 200));
    let r3 = choose_resource(Err("down".to_string()), false, Some(b"old".to_vec()));
    assert_eq!(r3.err(), Some("down".to_string()));
    let r4 = choose_resource(Err("down".to_string()), true, Some(b"old".to_vec())).unwrap();
    assert_eq!(r4.content, b"old".to_vec());
}

#[test]
fn proxy_settings_read_back() {
    let mut c = ProxyConfig::new();
    assert!(get_proxy(&c).is_none());
    set_proxy(&mut c, Some("http://proxy:3128".to_string()), Some("u".to_string()), Some("p".to_string()));
    let s = get_proxy(&c).unwrap();
    assert_eq!(s.url, "http://proxy:3128");
    assert_eq!(s.proxy_url(), "http://u:p@proxy:3128");
    set_proxy(&mut c, Some("socks5://h:1".to_string()), Some("u".to_string()), None);
    assert_eq!(get_proxy(&c).unwrap().proxy_url(), "socks5://h:1");
    disable_proxy(&mut c);
    assert!(get_proxy(&c).is_none());
    set_proxy(&mut c, None, None, None);
    assert!(get_proxy(&c).is_none());
}

#[test]
fn request_bodies_and_addresses() {
    assert_eq!(clean_body("  \"a\\nb\\\"c\"  "), "a\nb\"c");
    assert_eq!(clean_body("{\"k\":1}"), "{\"k\":1}");
    assert_eq!(request_url("https://x/a", "GET", Some("\"q=1\"")), "https://x/a?q=1");
    assert_eq!(request_url("https://x/a?z=0", "GET", Some("\"q=1\"")), "https://x/a?z=0&q=1");
    assert_eq!(request_url("https://x/a", "POST", Some("\"q=1\"")), "https://x/a");
    assert_eq!(method_kind("DELETE"), RequestMethod::Delete);
    assert_eq!(method_kind("delete"), RequestMethod::Get);
    assert_eq!(method_kind("BREW"), RequestMethod::Get);
}

#[test]
fn fetch_plans() {
    let headers = pairs(&[("Cookie", "a=1"), ("X-Token", "t"), ("cookie", "b")]);
    let p = plan_proxy_fetch("https://x/s", "post", &headers, Some("\"{\\\"a\\\":1}\""));
    assert_eq!(p.url, "https://x/s");
    assert_eq!(p.method, RequestMethod::Post);
    assert_eq!(p.body, Some("{\"a\":1}".to_string()));
    assert_eq!(p.headers, pairs(&[("X-Token", "t")]));
    let g = plan_proxy_fetch("http://example.com/p", "get", &Vec::new(), Some("\"q=1\""));
    assert_eq!((g.url.as_str(), g.body.is_none()), ("http://example.com/p?q=1", true));
    let twice = plan_proxy_fetch("https://x/s?a=1", "get", &Vec::new(), Some("\"\\\"k=v\\\"\""));
    assert_eq!(twice.url, "https://x/s?a=1&\"k=v\"");
    let plain = plan_proxy_fetch("https://x/s", "get", &Vec::new(), Some("k=v"));
    assert_eq!((plain.url.as_str(), plain.body.is_none()), ("https://x/s", true));
    let lone = plan_proxy_fetch("https://x/s", "Get", &Vec::new(), Some("\""));
    assert_eq!(lone.url, "https://x/s?\"");
    let u = plan_fetch_upper("https://x/s", "PUT", &Vec::new(), None);
    assert_eq!(request_url("https://x/a", "GET", Some("\"a\\tb\"")), "https://x/a?a\tb");
    assert_eq!((u.method, u.body.is_none()), (RequestMethod::Put, true));
    assert_eq!(forwarded_headers(&pairs(&[("COOKIE", "x"), ("A", "b")])), pairs(&[("A", "b")]));
}

#[test]
fn cookie_header_sources_in_order() {
    let w = pairs(&[("w", "1")]);
    let b = pairs(&[("b", "2"), ("c", "3")]);
    let f = pairs(&[("f", "4")]);
    assert_eq!(pick_cookie_header(&w, &b, &f), "w=1");
    assert_eq!(pick_cookie_header(&Vec::new(), &b, &f), "b=2; c=3");
    assert_eq!(pick_cookie_header(&Vec::new(), &Vec::new(), &f), "f=4");
    assert_eq!(pick_cookie_header(&Vec::new(), &Vec::new(), &Vec::new()), "");
}

#[test]
fn replies_in_the_asked_form() {
    let data = b"hello".to_vec();
    let text = proxy_reply(&data, None, None).unwrap();
    assert_eq!((text.body.as_str(), text.is_base64, text.response_type.as_str()), ("hello", false, "text"));
    assert!(text.encoding.is_none());
    let bin = proxy_reply(&data, Some("identity"), Some("ArrayBuffer")).unwrap();
    assert_eq!((bin.body.as_str(), bin.is_base64, bin.response_type.as_str()), ("aGVsbG8=", true, "arraybuffer"));
    assert_eq!(bin.encoding, Some("identity".to_string()));
    let b64 = proxy_reply(&data, None, Some("base64")).unwrap();
    assert_eq!((b64.body.as_str(), b64.is_base64), ("aGVsbG8=", false));
    let zipped = gzip(b"unzipped text");
    let z = proxy_reply(&zipped, Some("GZIP"), None).unwrap();
    assert_eq!(z.body, "unzipped text");
    assert_eq!(z.encoding, Some("gzip".to_string()));
    let bad = proxy_reply(&b"not gzip".to_vec(), Some("gzip"), None).unwrap();
    assert_eq!(bad.body, "not gzip");
    let lossy = shape_reply(&vec![0x66, 0xff], String::new(), "text".to_string());
    assert_eq!(lossy.body, "f\u{fffd}");
    assert_eq!(decompressed_body(&b"raw".to_vec(), "gzip", Vec::new()), b"raw".to_vec());
    assert_eq!(decompressed_body(&b"raw".to_vec(), "gzip", b"out".to_vec()), b"out".to_vec());
    assert_eq!(decompressed_body(&b"raw".to_vec(), "br", b"out".to_vec()), b"raw".to_vec());
}

#[test]
fn oversized_replies_are_refused() {
    let big = vec![0u8; 10 * 1024 * 1024 + 1];
    assert_eq!(proxy_reply(&big, None, None).err(), Some("响应体过大：10485761 bytes (最大限制 10MB)".to_string()));
    let edge = vec![b'a'; 10 * 1024 * 1024];
    assert!(proxy_reply(&edge, None, None).is_ok());
}

#[test]
fn static_and_stream_paths() {
    assert_eq!(static_file_path("/home/u/My%20Song.mp3"), "home/u/My Song.mp3");
    assert_eq!(static_file_path("/bad%FF"), "bad%FF");
    assert_eq!(stream_file_path("//C:/Music/a.mp3"), "C:/Music/a.mp3");
    assert_eq!(stream_file_path("/sdcard/a.mp3"), "sdcard/a.mp3");
    assert!(is_remote("https://x"));
    assert!(!is_remote("/local"));
    assert_eq!(remote_referer("https://cdn.x.org/a/b.png"), Some("https://cdn.x.org/".to_string()));
    assert_eq!(remote_referer("nope"), None);
    assert!(remote_body_fits(MAX_REMOTE_BYTES));
    assert!(!remote_body_fits(MAX_REMOTE_BYTES + 1));
}

#[test]
fn stream_answers() {
    assert!(plan_stream(true, None, 10).is_none());
    let s = plan_stream(false, Some("bytes=2-"), 10).unwrap();
    assert_eq!((s.status, s.start, s.length), (206, 2, 8));
    let w = plan_stream(false, None, 10).unwrap();
    assert_eq!((w.status, w.length), (200, 10));
}

#[test]
fn fetch_protocol_requests() {
    assert_eq!(check_fetch_url("fetch://localhost/https://x"), Ok(()));
    assert_eq!(check_fetch_url("http://fetch.localhost/a"), Ok(()));
    assert_eq!(check_fetch_url("fetch://other/"), Err("Invalid fetch protocol URL: fetch://other/".to_string()));
    let p = plan_fetch_request(Some("PATCH"), &pairs(&[("Host", "h"), ("X-A", "1"), ("Referer", "r")]));
    assert_eq!(p.method, RequestMethod::Patch);
    assert_eq!(p.headers[0], ("X-A".to_string(), "1".to_string()));
    assert_eq!(p.headers.len(), 4);
    assert_eq!(p.headers[2], ("Accept".to_string(), "*/*".to_string()));
    assert_eq!(plan_fetch_request(None, &Vec::new()).method, RequestMethod::Get);
    let h = fetch_response_headers(&pairs(&[("Content-Encoding", "gzip"), ("ETag", "e")]));
    assert_eq!(h[0], ("ETag".to_string(), "e".to_string()));
    assert_eq!(h.len(), 4);
    assert_eq!(fetch_body(gzip(b"abc"), Some("gzip")), b"abc".to_vec());
    assert_eq!(fetch_body(b"abc".to_vec(), Some("gzip")), b"abc".to_vec());
    assert_eq!(fetch_body(b"abc".to_vec(), None), b"abc".to_vec());
}

#[test]
fn query_requests() {
    assert_eq!(plan_query_request(&pairs(&[("x", "1")]), false, false).err(), Some("Missing 'url' parameter".to_string()));
    let q = pairs(&[("url", "https://media.org/a.mp3"), ("header_header_X-K", "1"), ("header_X-K", "2")]);
    let r = plan_query_request(&q, false, false).unwrap();
    assert_eq!(r.target, "https://media.org/a.mp3");
    assert_eq!(r.method, Some("GET".to_string()));
    let mut hs: Vec<(String, String)> = r.headers.unwrap().into_iter().map(|h| (h.name, h.value)).collect();
    hs.sort();
    assert_eq!(hs, pairs(&[("Referer", "https://media.org"), ("X-K", "2")]));
    let local = plan_query_request(&pairs(&[("url", "/sdcard/a.mp3")]), true, true).unwrap();
    assert_eq!(local.target, "file:///sdcard/a.mp3");
    assert!(local.headers.is_none());
}

#[test]
fn upstream_requests() {
    let req = ProxyRequest {
        target: "https://api.x/".to_string(),
        method: Some("post".to_string()),
        headers: Some(vec![
            PwaHeader { name: "Content-Type".to_string(), value: "application/x-www-form-urlencoded".to_string(), is_text: true },
            PwaHeader { name: "Connection".to_string(), value: "close".to_string(), is_text: true },
        ]),
        body: Some("\"a=1\\tb\"".to_string()),
    };
    let browser = pairs(&[("Accept", "*/*"), ("Content-Type", "text/plain"), ("Range", "bytes=0-")]);
    let up = plan_upstream_request(&req, &browser, "UA/1", &pairs(&[("c", "1")]), &pairs(&[("w", "2")])).unwrap();
    assert_eq!(up.method, "POST");
    assert_eq!(
        up.headers,
        pairs(&[
            ("Accept", "*/*"),
            ("Range", "bytes=0-"),
            ("Content-Type", "application/x-www-form-urlencoded"),
            ("User-Agent", "UA/1"),
            ("Cookie", "c=1; w=2"),
        ])
    );
    assert_eq!(up.body, Some("a=1\tb".to_string()));
    let bad = ProxyRequest { target: "t".to_string(), method: Some("BAD METHOD".to_string()), headers: None, body: None };
    assert_eq!(
        plan_upstream_request(&bad, &Vec::new(), "", &Vec::new(), &Vec::new()).err(),
        Some("{\"error\": \"Invalid HTTP method: invalid HTTP method\"}".to_string())
    );
    let plain = ProxyRequest { target: "t".to_string(), method: None, headers: None, body: None };
    let g = plan_upstream_request(&plain, &Vec::new(), "", &Vec::new(), &Vec::new()).unwrap();
    assert_eq!((g.method.as_str(), g.headers.len(), g.body.is_none()), ("GET", 0, true));
}

#[test]
fn response_headers_and_cookies() {
    let up = pairs(&[("Content-Type", "text/html"), ("Transfer-Encoding", "chunked"), ("Access-Control-Allow-Origin", "x")]);
    let r = proxy_response_headers(&up);
    assert_eq!(r[0], ("Content-Type".to_string(), "text/html".to_string()));
    assert_eq!(r.len(), 5);
    assert_eq!(r[4], ("X-Content-Type-Options".to_string(), "nosniff".to_string()));
    let s = static_response_headers(&pairs(&[("ETag", "1"), ("Cross-Origin-Resource-Policy", "same-origin")]));
    assert_eq!(s, pairs(&[("ETag", "1"), ("Access-Control-Allow-Origin", "*"), ("Cross-Origin-Resource-Policy", "cross-origin"), ("Cache-Control", "public, max-age=3600")]));
    assert_eq!(static_request_headers(&pairs(&[("Host", "h"), ("Accept", "a")]), "", &Vec::new()), pairs(&[("accept", "a")]));
    let mut sent = static_request_headers(
        &pairs(&[("Accept", "a"), ("accept", "b"), ("User-Agent", "page"), ("Cookie", "old=1"), ("Content-Length", "9")]),
        "UA/1",
        &pairs(&[("k", "v"), ("w", "x")]),
    );
    sent.sort();
    assert_eq!(sent, pairs(&[("accept", "b"), ("cookie", "k=v; w=x"), ("user-agent", "UA/1")]));
    let set = response_cookies(&pairs(&[("set-cookie", "a=1; Path=/"), ("SET-COOKIE", "=x"), ("X", "y"), ("Set-Cookie", "b=2")]));
    assert_eq!(set, pairs(&[("a", "1"), ("b", "2")]));
}

#[test]
fn cookie_domains_and_configured_proxy() {
    assert_eq!(cookie_domains(Some("a.org".to_string()), Some("b.org".to_string())), vec!["a.org", "b.org"]);
    assert_eq!(cookie_domains(Some("a.org".to_string()), Some("a.org".to_string())), vec!["a.org"]);
    assert!(cookie_domains(None, None).is_empty());
    let mut c = ProxyConfigValues {
        enabled: Some("true".to_string()),
        proxy_type: None,
        host: Some("10.0.0.1".to_string()),
        port: None,
        username: Some("u".to_string()),
        password: Some("p".to_string()),
    };
    assert_eq!(configured_proxy_url(&c), Some("http://u:p@10.0.0.1:8080".to_string()));
    c.username = None;
    c.port = Some("3128".to_string());
    c.proxy_type = Some("socks5".to_string());
    assert_eq!(configured_proxy_url(&c), Some("socks5://10.0.0.1:3128".to_string()));
    c.enabled = Some("false".to_string());
    assert_eq!(configured_proxy_url(&c), None);
    assert_eq!(get_local_server_port(), 19315);
}

#[test]
fn local_file_paths_are_decoded() {
    assert_eq!(local_file_path("%2Fsdcard%2FMy%20Song.mp3"), Ok("/sdcard/My Song.mp3".to_string()));
    assert_eq!(local_file_path("/plain/path.mp3"), Ok("/plain/path.mp3".to_string()));
    assert_eq!(local_file_path("%FF"), Err("Invalid URL encoding".to_string()));
}

#[test]
fn static_targets_are_decoded() {
    assert_eq!(static_target("https%3A%2F%2Fcdn.org%2Fa%20b.png"), Ok("https://cdn.org/a b.png".to_string()));
    assert_eq!(static_target("%C3%28"), Err("Invalid URL".to_string()));
}

#[test]
fn stored_user_agent_replaces_the_pages() {
    let req = ProxyRequest {
        target: "https://api.x/".to_string(),
        method: None,
        headers: Some(vec![
            PwaHeader { name: "User-Agent".to_string(), value: "X".to_string(), is_text: true },
            PwaHeader { name: "X-K".to_string(), value: "1".to_string(), is_text: true },
        ]),
        body: None,
    };
    let up = plan_upstream_request(&req, &Vec::new(), "UA/1", &Vec::new(), &Vec::new()).unwrap();
    assert_eq!(up.headers, pairs(&[("X-K", "1"), ("User-Agent", "UA/1")]));
    let keep = plan_upstream_request(&req, &Vec::new(), "", &Vec::new(), &Vec::new()).unwrap();
    assert_eq!(keep.headers, pairs(&[("User-Agent", "X"), ("X-K", "1")]));
}

#[test]
fn empty_files_stream_whole() {
    let s = plan_stream(false, Some("bytes=0-"), 0).unwrap();
    assert_eq!((s.status, s.start, s.length), (200, 0, 0));
    assert!(s.content_range.is_none());
}

#[test]
fn gzip_results_pick_the_body() {
    assert_eq!(gunzipped_body(b"raw".to_vec(), (b"out".to_vec(), true)), b"out".to_vec());
    assert_eq!(gunzipped_body(b"raw".to_vec(), (b"part".to_vec(), false)), b"raw".to_vec());
}
