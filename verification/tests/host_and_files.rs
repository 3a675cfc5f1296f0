use pwa_container::cookie_store::{set_cookies, CookieStore};
use pwa_container::files::{
    audio_state, audio_url, content_uri_file_name, dialog_filters, file_content_response, file_range_response,
    file_write_bytes, idle_audio_state, loop_option, opfs_path, permission_status, player_path, range_read_length,
    resolve_local_file_url, seek_seconds, FileFilter,
};
use pwa_container::host::{
    appdata_action, base_host_script, cookie_clear_scope, cookie_reply, failure_reply, get_reply, get_user_agent,
    inject_browser_ui, navigation_script, page_cookie_text, parse_error_reply, remember_base_host, set_reply,
    webview_proxy_url, AppDataAction, CookieClearScope, DataRequest,
};
use pwa_container::proxy::RequestMethod;
use pwa_container::relays::{
    is_request, is_ws_target, plan_ws_request, reuse_stream_proxy, ws_reply, ws_start_response, StreamProxyRegistry,
    WsProxyMessage,
};

fn pairs(v: &[(&str, &str)]) -> Vec<(String, String)> {
    v.iter().map(|(a, b)| (a.to_string(), b.to_string())).collect()
}

fn request(action: &str, app: Option<&str>, key: Option<&str>, value: Option<&str>) -> DataRequest {
    DataRequest {
        action: action.to_string(),
        app_id: app.map(|s| s.to_string()),
        key: key.map(|s| s.to_string()),
        value: value.map(|s| s.to_string()),
        domain: None,
        cookies: None,
    }
}

fn message(kind: &str) -> WsProxyMessage {
    WsProxyMessage {
        id: "1".to_string(),
        kind: kind.to_string(),
        url: None,
        method: None,
        headers: None,
        body: None,
        status: None,
        headers_out: None,
        data: None,
        error: None,
    }
}

#[test]
fn appdata_requests_become_actions() {
    match appdata_action(request("set", Some("a"), Some("k"), Some("v"))) {
        AppDataAction::Store { app_id, key, value } => assert_eq!((app_id.as_str(), key.as_str(), value.as_str()), ("a", "k", "v")),
        _ => panic!("store expected"),
    }
    match appdata_action(request("get", Some("a"), Some("k"), None)) {
        AppDataAction::Read { app_id, key } => assert_eq!((app_id.as_str(), key.as_str()), ("a", "k")),
        _ => panic!("read expected"),
    }
    let mut c = request("cookie", None, None, None);
    c.domain = Some("x.com".to_string());
    c.cookies = Some("a=1".to_string());
    match appdata_action(c) {
        AppDataAction::SaveCookies { domain, cookies } => assert_eq!((domain.as_str(), cookies.as_str()), ("x.com", "a=1")),
        _ => panic!("cookies expected"),
    }
    match appdata_action(request("set", Some("a"), None, Some("v"))) {
        AppDataAction::Fail(e) => assert_eq!(e, "Missing parameters"),
        _ => panic!("failure expected"),
    }
    match appdata_action(request("cookie", None, None, None)) {
        AppDataAction::Fail(e) => assert_eq!(e, "Missing domain or cookies"),
        _ => panic!("failure expected"),
    }
    match appdata_action(request("drop", None, None, None)) {
        AppDataAction::Fail(e) => assert_eq!(e, "Unknown action"),
        _ => panic!("failure expected"),
    }
}

#[test]
fn appdata_replies() {
    let ok = set_reply(Ok(()));
    assert!(ok.success && ok.action == Some("set".to_string()) && ok.error.is_none());
    let bad = set_reply(Err("locked".to_string()));
    assert_eq!((bad.success, bad.error), (false, Some("DB write error: locked".to_string())));
    let got = get_reply(Some("v".to_string()));
    assert_eq!((got.success, got.data), (true, Some(Some("v".to_string()))));
    let none = get_reply(None);
    assert_eq!((none.success, none.data), (false, Some(None)));
    assert_eq!(cookie_reply(Err("e".to_string())).error, Some("Cookie save error: e".to_string()));
    assert_eq!(cookie_reply(Ok(())).action, Some("cookie".to_string()));
    assert_eq!(parse_error_reply("eof").error, Some("Parse error: eof".to_string()));
    assert_eq!(failure_reply("x".to_string()).error, Some("x".to_string()));
}

#[test]
fn page_loads_in_the_main_window() {
    assert_eq!(remember_base_host(None, "https://a/"), Some("https://a/".to_string()));
    assert_eq!(remember_base_host(Some("https://first/".to_string()), "https://a/"), Some("https://first/".to_string()));
    assert!(inject_browser_ui("https://example.com/"));
    assert!(!inject_browser_ui("http://localhost:1420/"));
    assert!(!inject_browser_ui("tauri://localhost"));
    assert!(!inject_browser_ui("about:blank"));
    let cookies = vec![
        ("a".to_string(), "1".to_string(), ".example.com".to_string()),
        ("b".to_string(), "2".to_string(), "other.org".to_string()),
        ("c".to_string(), "3".to_string(), String::new()),
    ];
    assert_eq!(page_cookie_text(&cookies, "www.example.com"), "a=1; c=3");
}

#[test]
fn scripts_for_the_web_view() {
    assert_eq!(base_host_script("https://a.org/"), "window.__BASE_HOST__ = \"https://a.org/\";");
    assert_eq!(base_host_script("a\"b"), "window.__BASE_HOST__ = \"a\\\"b\";");
    assert_eq!(navigation_script("https://x/?q=\"1\""), "window.location.href = \"https://x/?q=\\\"1\\\"\";");
}

#[test]
fn user_agent_and_web_view_proxy() {
    assert_eq!(get_user_agent(Some("UA".to_string())), "UA");
    assert!(get_user_agent(None).starts_with("Mozilla/5.0 (Linux; Android 13;"));
    let t = |s: &str| Some(s.to_string());
    assert_eq!(webview_proxy_url(t("true"), None, t("127.0.0.1"), t("7890")), Some("http://127.0.0.1:7890".to_string()));
    assert_eq!(webview_proxy_url(t("true"), t("socks5"), t("h"), t("x")), Some("socks5://h:8080".to_string()));
    assert_eq!(webview_proxy_url(t("false"), None, t("h"), None), None);
    assert_eq!(webview_proxy_url(t("true"), None, None, None), None);
    assert_eq!(webview_proxy_url(t("true"), t("bad type"), t("h"), None), None);
}

#[test]
fn cookie_clearing_scopes() {
    assert!(matches!(cookie_clear_scope(None, None), CookieClearScope::All));
    match cookie_clear_scope(Some("x.com".to_string()), None) {
        CookieClearScope::WithSubdomains(d, p) => assert_eq!((d.as_str(), p.as_str()), ("x.com", "%.x.com")),
        _ => panic!("subdomains expected"),
    }
    assert!(matches!(cookie_clear_scope(Some("x.com".to_string()), Some(true)), CookieClearScope::WithSubdomains(_, _)));
    match cookie_clear_scope(Some("x.com".to_string()), Some(false)) {
        CookieClearScope::Exact(d) => assert_eq!(d, "x.com"),
        _ => panic!("exact expected"),
    }
}

#[test]
fn stream_proxies_register_and_share() {
    let mut reg = StreamProxyRegistry::new();
    assert!(reuse_stream_proxy(&reg, "ws://media/live").is_none());
    let r = reg.register("p1".to_string(), 40001, "ws://media/live");
    assert_eq!((r.local_port, r.proxy_url.as_str()), (40001, "ws://127.0.0.1:40001"));
    let h = reg.register("p2".to_string(), 40002, "https://media/file.mp4");
    assert_eq!(h.proxy_url, "http://127.0.0.1:40002");
    assert_eq!(reg.find("ws://media/live"), Some(40001));
    let again = reuse_stream_proxy(&reg, "ws://media/live").unwrap();
    assert_eq!((again.local_port, again.proxy_url.as_str()), (40001, "ws://127.0.0.1:40001"));
    assert!(reuse_stream_proxy(&reg, "https://media/file.mp4").is_none());
    let mut listed = reg.list();
    listed.sort();
    assert_eq!(listed[0], ("p1".to_string(), "ws://media/live".to_string(), 40001, "http://127.0.0.1:40001".to_string()));
    let stopped = reg.stop("p1").unwrap();
    assert_eq!(stopped.local_port, 40001);
    assert!(reg.stop("p1").is_none());
    assert_eq!(reg.find("ws://media/live"), None);
    assert!(is_ws_target("wss://x"));
    assert!(!is_ws_target("http://x"));
}

#[test]
fn websocket_relay_messages() {
    let s = ws_start_response(9000);
    assert_eq!((s.port, s.ws_url.as_str()), (9000, "ws://127.0.0.1:9000"));
    assert!(is_request(&message("request")));
    assert!(!is_request(&message("response")));
    let mut store = CookieStore::new();
    set_cookies(&mut store, "https://api.x.org/", "default", &vec!["sid=7".to_string()]);
    let mut m = message("request");
    m.url = Some("https://api.x.org/v1".to_string());
    m.method = Some("POST".to_string());
    m.headers = Some(pairs(&[("cookie", "old"), ("X-A", "1")]));
    m.body = Some("{}".to_string());
    let plan = plan_ws_request(&m, &store);
    assert_eq!(plan.url, "https://api.x.org/v1");
    assert_eq!(plan.method, RequestMethod::Post);
    assert_eq!(plan.headers, pairs(&[("Cookie", "sid=7"), ("X-A", "1"), ("Referer", "https://api.x.org/")]));
    assert_eq!(plan.body, Some("{}".to_string()));
    let ok = ws_reply("7".to_string(), Ok((200, pairs(&[("content-type", "Audio/MPEG")]), vec![1, 2, 3])));
    assert_eq!((ok.kind.as_str(), ok.status, ok.data), ("response", Some(200), Some("AQID".to_string())));
    let text = ws_reply("8".to_string(), Ok((200, pairs(&[("Content-Type", "audio/mpeg")]), b"hi".to_vec())));
    assert_eq!(text.data, Some("hi".to_string()));
    let err = ws_reply("9".to_string(), Err("refused".to_string()));
    assert_eq!((err.kind.as_str(), err.error), ("error", Some("refused".to_string())));
}

#[test]
fn dialog_filters_drop_dots_and_empty_filters() {
    let f = vec![
        FileFilter { name: "Audio".to_string(), extensions: vec![".mp3".to_string(), "flac".to_string(), "..x".to_string()] },
        FileFilter { name: "None".to_string(), extensions: Vec::new() },
    ];
    let r = dialog_filters(&f);
    assert_eq!(r, vec![("Audio".to_string(), vec!["mp3".to_string(), "flac".to_string(), "x".to_string()])]);
}

#[test]
fn local_files_and_their_contents() {
    assert_eq!(resolve_local_file_url("/sdcard/My Song.mp3"), "http://localhost:19315/local/file/%2Fsdcard%2FMy%20Song.mp3");
    let c = file_content_response("/music/a.mp3".to_string(), &b"abc".to_vec());
    assert_eq!((c.name.as_str(), c.size, c.mime_type.as_str(), c.content.as_str()), ("a.mp3", 3, "audio/mpeg", "YWJj"));
    let odd = file_content_response("/".to_string(), &Vec::new());
    assert_eq!((odd.name.as_str(), odd.mime_type.as_str()), ("unknown", "application/octet-stream"));
    assert_eq!(range_read_length(10, 5, 100), 5);
    assert_eq!(range_read_length(98, 5, 100), 2);
    assert_eq!(range_read_length(100, 5, 100), 0);
    let part = file_range_response("/x/v.mp4".to_string(), 100, 10, &vec![0, 1]);
    assert_eq!((part.name.as_str(), part.size, part.offset, part.length, part.content.as_str()), ("v.mp4", 100, 10, 2, "AAE="));
    assert_eq!(content_uri_file_name("content://media/external/audio/primary:Music/a.mp3"), "a.mp3");
    assert_eq!(content_uri_file_name("content://x/document/primary:song.flac"), "song.flac");
}

#[test]
fn writing_files_and_app_storage() {
    assert_eq!(file_write_bytes("aGk=", true), Ok(b"hi".to_vec()));
    assert!(file_write_bytes("!!", true).is_err());
    assert_eq!(file_write_bytes("hé", false), Ok("hé".as_bytes().to_vec()));
    assert_eq!(opfs_path("app", "/d", "dir/f.txt"), "/d/apps/app/opfs/dir/f.txt");
    let p = permission_status(false);
    assert_eq!((p.granted, p.can_request), (false, true));
}

#[test]
fn audio_player_values() {
    assert_eq!(audio_url("/sdcard/a.mp3"), "file:///sdcard/a.mp3");
    assert_eq!(audio_url("https://x/a.mp3"), "https://x/a.mp3");
    assert_eq!(player_path("file:///sdcard/a.mp3"), "/sdcard/a.mp3");
    assert_eq!(player_path("https://x"), "https://x");
    assert_eq!((loop_option(true), loop_option(false)), ("inf", "no"));
    assert_eq!(seek_seconds(61999), 61);
    let idle = idle_audio_state();
    assert_eq!((idle.current_url.as_str(), idle.is_playing, idle.is_paused), ("", false, true));
    let s = audio_state("u".to_string(), 5, 10, false);
    assert_eq!((s.is_playing, s.is_paused, s.position_ms, s.duration_ms), (true, false, 5, 10));
}
