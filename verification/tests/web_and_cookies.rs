use pwa_container::cookie_store::{
    clear_cookies, cookie_header_for, get_all_cookies, get_cookies, save_cookies, set_cookies, CookieStore,
};
use pwa_container::cookies::{
    cookie_assignments, cookie_domain_matches, cookie_header, join, parse_cookie_assignment,
    parse_cookie_string, parse_joined_set_cookie, parse_set_cookie,
};
use pwa_container::mime::{local_file_mime, lookup, resource_mime, static_mime, stream_mime};
use pwa_container::urls::{
    absolute_url, domain_from, extract_domain, relay_address, relay_target, resolved, scheme_and_host, url_host,
};

fn pairs(v: &[(&str, &str)]) -> Vec<(String, String)> {
    v.iter().map(|(a, b)| (a.to_string(), b.to_string())).collect()
}

#[test]
fn domains_of_addresses() {
    assert_eq!(extract_domain("https://www.example.com/a?b=1"), "www.example.com");
    assert_eq!(extract_domain("not a url"), "not a url");
    assert_eq!(extract_domain("file:///tmp/x"), "");
    assert_eq!(url_host("http://h.test:81/p"), Some("h.test".to_string()));
    assert_eq!(url_host("::"), None);
    assert_eq!(
        scheme_and_host("https://a.b/c"),
        Some(("https".to_string(), Some("a.b".to_string())))
    );
}

#[test]
fn domain_from_follows_the_parse() {
    assert_eq!(domain_from("x", Some(("https".to_string(), Some("h".to_string())))), "h");
    assert_eq!(domain_from("x", Some(("data".to_string(), None))), "");
    assert_eq!(domain_from("raw text", None), "raw text");
}

#[test]
fn relay_addresses_take_defaults() {
    assert_eq!(relay_address("ws://example.com:8080/x"), Some(("example.com".to_string(), 8080)));
    assert_eq!(relay_address("http://example.com/"), Some(("example.com".to_string(), 80)));
    assert_eq!(relay_address("https://example.com/"), Some(("example.com".to_string(), 80)));
    assert_eq!(relay_address("no scheme"), None);
    assert_eq!(relay_target(Some(("x".to_string(), None, None))), Some(("127.0.0.1".to_string(), 80)));
    assert_eq!(relay_target(None), None);
}

#[test]
fn references_resolve_against_the_page() {
    assert_eq!(absolute_url("https://a.com/x/y.html", "icon.png"), "https://a.com/x/icon.png");
    assert_eq!(absolute_url("https://a.com/x/y.html", "/m.json"), "https://a.com/m.json");
    assert_eq!(absolute_url("https://a.com/x/", "//cdn.com/a.png"), "https://cdn.com/a.png");
    assert_eq!(absolute_url("https://a.com/", "http://z.org/i"), "http://z.org/i");
    assert_eq!(absolute_url("not a base", "rel.png"), "rel.png");
    assert_eq!(resolved("rel", Some("https://j/rel".to_string())), "https://j/rel");
    assert_eq!(resolved("rel", None), "rel");
    assert_eq!(resolved("https://x", Some("other".to_string())), "https://x");
}

#[test]
fn content_types_by_extension() {
    assert_eq!(stream_mime("/music/Song.MP3"), "audio/mpeg");
    assert_eq!(stream_mime("/v/clip.mkv"), "application/octet-stream");
    assert_eq!(static_mime("/img/a.gif"), "image/gif");
    assert_eq!(local_file_mime("/d/doc.pdf"), "application/pdf");
    assert_eq!(local_file_mime("/d/movie.mkv"), "video/x-matroska");
    assert_eq!(resource_mime("/f/a.woff2", None), "font/woff2");
    assert_eq!(resource_mime("/a/app.mjs", None), "application/javascript");
    assert_eq!(resource_mime("/a/x.bin", None), "application/octet-stream");
    assert_eq!(resource_mime("/a/x.bin", Some("text/plain".to_string())), "text/plain");
    assert_eq!(lookup(&[("a", "b"), ("a", "c")], "a"), Some("b"));
    assert_eq!(lookup(&[("a", "b")], "z"), None);
}

#[test]
fn cookie_lists_and_assignments() {
    assert_eq!(parse_cookie_string(" a=1; b = 2 ;bad; =x; c=3=4"), pairs(&[("a", "1"), ("b", "2"), ("c", "3=4")]));
    assert_eq!(parse_cookie_assignment(" k = v "), Some(("k".to_string(), "v".to_string())));
    assert_eq!(parse_cookie_assignment("k="), None);
    assert_eq!(parse_cookie_assignment("novalue"), None);
    assert_eq!(parse_set_cookie("sid=abc; Path=/; HttpOnly"), Some(("sid".to_string(), "abc".to_string())));
    assert_eq!(parse_set_cookie("=abc"), None);
    assert_eq!(
        parse_joined_set_cookie("a=1; Path=/, b=2; Secure, c=; x"),
        pairs(&[("a", "1"), ("b", "2")])
    );
    let p = pairs(&[("a", "1"), ("b", "2")]);
    assert_eq!(cookie_assignments(&p), vec!["a=1", "b=2"]);
    assert_eq!(cookie_header(&p), "a=1; b=2");
    assert_eq!(cookie_header(&Vec::new()), "");
    assert_eq!(join(&vec!["x".to_string(), "y".to_string(), "z".to_string()], ", "), "x, y, z");
}

#[test]
fn cookie_domains_cover_subdomains() {
    assert!(cookie_domain_matches("example.com", "example.com"));
    assert!(cookie_domain_matches(".example.com", "www.example.com"));
    assert!(cookie_domain_matches("", "anything"));
    assert!(!cookie_domain_matches("other.com", "example.com"));
}

#[test]
fn cookie_store_keeps_apps_apart() {
    let mut s = CookieStore::new();
    set_cookies(&mut s, "https://x.com/page", "app1", &vec!["a=1".to_string(), "b=2".to_string()]);
    set_cookies(&mut s, "https://x.com/other", "app2", &vec!["a=9".to_string()]);
    let mut one = get_cookies(&s, "https://x.com/", "app1");
    one.sort();
    assert_eq!(one, vec!["a=1", "b=2"]);
    assert_eq!(get_cookies(&s, "https://x.com/", "app2"), vec!["a=9"]);
    assert!(get_cookies(&s, "https://y.com/", "app1").is_empty());
    assert_eq!(cookie_header_for(&s, "https://x.com/", "app2"), "a=9");
}

#[test]
fn later_cookies_replace_earlier_ones() {
    let mut s = CookieStore::new();
    set_cookies(&mut s, "https://x.com/", "app", &vec!["a=1".to_string(), "a=2".to_string(), "bad".to_string()]);
    assert_eq!(get_cookies(&s, "https://x.com/", "app"), vec!["a=2"]);
    save_cookies(&mut s, "app", "x.com", "a=3; Path=/, z=4");
    let mut all = get_cookies(&s, "https://x.com/", "app");
    all.sort();
    assert_eq!(all, vec!["a=3", "z=4"]);
}

#[test]
fn clearing_cookies_by_domain_or_app() {
    let mut s = CookieStore::new();
    set_cookies(&mut s, "https://x.com/", "app", &vec!["a=1".to_string()]);
    set_cookies(&mut s, "https://y.com/", "app", &vec!["b=1".to_string()]);
    clear_cookies(&mut s, "app", Some("x.com"));
    assert!(get_cookies(&s, "https://x.com/", "app").is_empty());
    assert_eq!(get_cookies(&s, "https://y.com/", "app"), vec!["b=1"]);
    let listed = get_all_cookies(&s, "app");
    assert_eq!(listed.len(), 1);
    assert_eq!(listed[0].0, "y.com");
    clear_cookies(&mut s, "app", None);
    assert!(get_all_cookies(&s, "app").is_empty());
}
