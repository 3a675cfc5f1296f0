use pwa_container::apps::{
    app_list, apply_manifest, backup_file_name, list_running_pwas, new_app_info, page_hints, page_info,
    shortcut_file, site_cache_dir, webview_label, window_label, window_style, AppInfo, CommandResponse,
    InstallRequest, ManifestData, ManifestIcon, ManifestInfo,
};
use pwa_container::cache::{
    cache_counts, cache_get_result, cache_list, cache_live, cache_lookup, cache_set, get_cache_dir,
    get_cache_file_path, get_metadata_path, sanitize_key, CacheIndex, CacheLookup, CacheSetOptions,
};
use pwa_container::eav::{
    count_sql, default_query_options, find_sql, init_sqlite_kv, json_to_string, list_tables_sql, read_back,
    schema_step_outcome,
    sanitize_id, stored_field, FieldValue, QueryOptions,
};
use pwa_container::usage::{
    app_name_query, cleared_dirs, collect_app_ids, get_app_name_from_db, get_db_data_size_for_app, row_sizes,
    size_query_list, sort_by_total_desc,
    usage_dirs, usage_info, DataUsageInfo, RawUsage,
};

#[test]
fn cache_paths() {
    assert_eq!(get_cache_dir("a", "/d"), "/d/apps/a/persistent_cache");
    assert_eq!(get_metadata_path("a", "/d"), "/d/apps/a/persistent_cache/_metadata.json");
    assert_eq!(sanitize_key("a/b?"), "YS9iPw");
    assert_eq!(get_cache_file_path("a", "a/b?", "/d"), "/d/apps/a/persistent_cache/YS9iPw.bin");
    assert_ne!(get_cache_file_path("a", "key1", "/d"), get_cache_file_path("a", "key2", "/d"));
    assert_eq!(get_cache_file_path("a", "", "/d"), "/d/apps/a/persistent_cache/.bin");
}

#[test]
fn cache_read_after_write() {
    let mut idx = CacheIndex::new();
    let bytes = cache_set(&mut idx, "k", "aGVsbG8=", None, 100).unwrap();
    assert_eq!(bytes, b"hello".to_vec());
    match cache_lookup(&idx, "k", 5000) {
        CacheLookup::Present(e) => {
            assert_eq!(e.key, "k");
            assert_eq!(e.size, 5);
            assert_eq!(e.mime_type, "application/octet-stream");
            assert_eq!((e.created_at, e.updated_at, e.expires_at), (100, 100, None));
            let got = cache_get_result(&e, &bytes);
            assert_eq!(got.data, "aGVsbG8=");
            assert_eq!(got.size, 5);
        }
        _ => panic!("entry expected"),
    }
    assert!(matches!(cache_lookup(&idx, "other", 100), CacheLookup::Missing));
}

#[test]
fn cache_rewrite_keeps_creation_time() {
    let mut idx = CacheIndex::new();
    cache_set(&mut idx, "k", "AA==", None, 10).unwrap();
    let opts = CacheSetOptions { mime_type: Some("text/plain".to_string()), ttl: Some(5), metadata: None };
    cache_set(&mut idx, "k", "AAE=", Some(&opts), 20).unwrap();
    match cache_lookup(&idx, "k", 25) {
        CacheLookup::Present(e) => {
            assert_eq!((e.created_at, e.updated_at, e.expires_at, e.size), (10, 20, Some(25), 2));
            assert_eq!(e.mime_type, "text/plain");
        }
        _ => panic!("entry expected"),
    }
    assert!(matches!(cache_lookup(&idx, "k", 26), CacheLookup::Expired));
    assert!(cache_live(&idx, "k", 25));
    assert!(!cache_live(&idx, "k", 26));
}

#[test]
fn cache_refuses_bad_base64_and_keeps_index() {
    let mut idx = CacheIndex::new();
    let r = cache_set(&mut idx, "k", "not base64!", None, 1);
    assert!(r.unwrap_err().starts_with("解码 base64 失败: "));
    assert_eq!(idx.len(), 0);
}

#[test]
fn cache_lists_and_counts_live_entries() {
    let mut idx = CacheIndex::new();
    let short = CacheSetOptions { mime_type: None, ttl: Some(1), metadata: None };
    cache_set(&mut idx, "a", "AAAA", None, 0).unwrap();
    cache_set(&mut idx, "b", "AAAAAA==", Some(&short), 0).unwrap();
    cache_set(&mut idx, "c", "AA==", None, 0).unwrap();
    let listed: Vec<String> = cache_list(&idx, 10).into_iter().map(|e| e.key).collect();
    assert_eq!(listed, vec!["a", "c"]);
    let counts = cache_counts(&idx, 10);
    assert_eq!(
        (counts.total_entries, counts.valid_entries, counts.expired_entries, counts.total_size_bytes),
        (3, 2, 1, 4)
    );
    idx.remove("a");
    assert_eq!(idx.len(), 2);
}

#[test]
fn identifiers_and_fields() {
    assert_eq!(sanitize_id("my_db-1"), Ok("my_db-1".to_string()));
    assert_eq!(sanitize_id("表1"), Ok("表1".to_string()));
    assert_eq!(sanitize_id("x'; DROP"), Err("无效的标识符".to_string()));
    assert_eq!(json_to_string(&FieldValue::Null), "null");
    assert_eq!(json_to_string(&FieldValue::Bool(true)), "true");
    assert_eq!(json_to_string(&FieldValue::Json("[1,2]".to_string())), "[1,2]");
    assert_eq!(stored_field(&FieldValue::Null), (String::new(), "null".to_string()));
    assert_eq!(stored_field(&FieldValue::Number("3.5".to_string())), ("3.5".to_string(), "number".to_string()));
    assert_eq!(stored_field(&FieldValue::Text("hi".to_string())), ("hi".to_string(), "string".to_string()));
}

#[test]
fn stored_fields_read_back() {
    for v in [
        FieldValue::Null,
        FieldValue::Bool(false),
        FieldValue::Bool(true),
        FieldValue::Number("42".to_string()),
        FieldValue::Text("hello".to_string()),
        FieldValue::Json("{\"a\":1}".to_string()),
    ] {
        let (text, kind) = stored_field(&v);
        assert_eq!(read_back(text, &kind), v);
    }
    assert_eq!(read_back("x".to_string(), "unknown"), FieldValue::Text("x".to_string()));
}

#[test]
fn query_texts() {
    let filter = vec![("name".to_string(), FieldValue::Text("bob".to_string()))];
    let opts = QueryOptions { order_by: Some("created_at".to_string()), desc: Some(true), limit: Some(10), offset: Some(5) };
    let sql = find_sql("app", "db", "users", &filter, &opts).unwrap();
    assert!(sql.starts_with("SELECT d.id, d.data_id, d.created_at, d.updated_at"));
    assert!(sql.contains("WHERE d.pwa_id = 'app' AND d.db_name = 'db' AND d.table_name = 'users'"));
    assert!(sql.contains("s.key = 'name' AND s.value = 'bob')"));
    assert!(sql.ends_with(" ORDER BY d.created_at DESC LIMIT 10 OFFSET 5"));
    let plain = find_sql("app", "db", "users", &Vec::new(), &default_query_options()).unwrap();
    assert!(plain.ends_with("d.table_name = 'users'"));
    assert!(find_sql("a b", "db", "t", &Vec::new(), &default_query_options()).is_err());
    let count = count_sql("app", "db", "t", &Vec::new()).unwrap();
    assert_eq!(count, "SELECT COUNT(*) FROM pwa_data d \n         WHERE d.pwa_id = 'app' AND d.db_name = 'db' AND d.table_name = 't'");
    assert!(list_tables_sql("app", Some("bad name")).is_err());
    assert!(list_tables_sql("app", None).unwrap().contains("'app'"));
}

#[test]
fn schema_is_created_in_a_database() {
    let conn = rusqlite::Connection::open_in_memory().unwrap();
    assert_eq!(init_sqlite_kv(&conn), Ok(()));
    assert_eq!(init_sqlite_kv(&conn), Ok(()));
    conn.execute("INSERT INTO pwa_data (pwa_id, db_name, table_name, data_id) VALUES ('p', 'd', 't', 'x')", [])
        .unwrap();
    let count: i64 = conn.query_row("SELECT COUNT(*) FROM pwa_data", [], |r| r.get(0)).unwrap();
    assert_eq!(count, 1);
}

#[test]
fn database_sizes_and_names() {
    let conn = rusqlite::Connection::open_in_memory().unwrap();
    assert!(get_db_data_size_for_app(&conn, "p").is_err());
    init_sqlite_kv(&conn).unwrap();
    conn.execute("CREATE TABLE kv_store (app_id TEXT, key TEXT, value TEXT)", []).unwrap();
    conn.execute("CREATE TABLE apps (id TEXT, name TEXT)", []).unwrap();
    conn.execute("INSERT INTO kv_store VALUES ('p', 'ab', 'cde')", []).unwrap();
    conn.execute("INSERT INTO pwa_data (pwa_id, db_name, table_name, data_id) VALUES ('p', 'db', 't', 'id')", [])
        .unwrap();
    conn.execute("INSERT INTO apps VALUES ('p', 'Player')", []).unwrap();
    assert_eq!(get_db_data_size_for_app(&conn, "p"), Ok((5, 6, 0)));
    assert_eq!(get_db_data_size_for_app(&conn, "q"), Ok((0, 0, 0)));
    assert_eq!(get_app_name_from_db(&conn, "p"), Some("Player".to_string()));
    assert_eq!(get_app_name_from_db(&conn, "q"), None);
}

fn raw(file: u64, sqlite: u64, kv: u64) -> RawUsage {
    RawUsage {
        file_bytes: file,
        sqlite_file_bytes: sqlite,
        cache_bytes: 1,
        persistent_cache_bytes: 2,
        opfs_bytes: 3,
        file_count: 4,
        kv_bytes: kv,
        eav_data_bytes: 10,
        eav_schema_bytes: 20,
    }
}

#[test]
fn usage_adds_database_rows() {
    let u = usage_info("app".to_string(), None, &raw(100, 50, 5));
    assert_eq!(u.app_name, "app");
    assert_eq!((u.total_bytes, u.sqlite_bytes), (135, 85));
    assert_eq!((u.cache_bytes, u.persistent_cache_bytes, u.opfs_bytes, u.file_count), (1, 2, 3, 4));
    let named = usage_info("app".to_string(), Some("Name".to_string()), &raw(0, 0, 0));
    assert_eq!(named.app_name, "Name");
}

#[test]
fn usage_sorted_largest_first() {
    let mk = |id: &str, total: u64| DataUsageInfo {
        app_id: id.to_string(),
        app_name: id.to_string(),
        total_bytes: total,
        sqlite_bytes: 0,
        cache_bytes: 0,
        persistent_cache_bytes: 0,
        opfs_bytes: 0,
        file_count: 0,
    };
    let sorted = sort_by_total_desc(vec![mk("a", 5), mk("b", 50), mk("c", 7)]);
    let ids: Vec<&str> = sorted.iter().map(|u| u.app_id.as_str()).collect();
    assert_eq!(ids, vec!["b", "c", "a"]);
}

#[test]
fn app_ids_collected_once() {
    let s = |v: &[&str]| v.iter().map(|x| x.to_string()).collect::<Vec<String>>();
    let mut ids = collect_app_ids(&s(&["a", "b"]), &s(&["b", "c"]), &s(&["a", "d", "d"]));
    ids.sort();
    assert_eq!(ids, vec!["a", "b", "c", "d"]);
}

#[test]
fn usage_and_cleanup_directories() {
    assert_eq!(
        usage_dirs("/d", "x"),
        vec!["/d/apps/x", "/d/apps/x/sqlite", "/d/apps/x/cache", "/d/apps/x/persistent_cache", "/d/apps/x/opfs"]
    );
    assert_eq!(cleared_dirs("/d", "x", true, false, false, true), vec!["/d/apps/x/sqlite", "/d/apps/x/opfs"]);
    assert!(cleared_dirs("/d", "x", false, false, false, false).is_empty());
}

#[test]
fn command_responses() {
    let ok: CommandResponse<u32> = CommandResponse::success(7);
    assert!(ok.success && ok.data == Some(7) && ok.error.is_none());
    let err: CommandResponse<u32> = CommandResponse::error("boom".to_string());
    assert!(!err.success && err.data.is_none() && err.error == Some("boom".to_string()));
}

fn empty_manifest() -> ManifestInfo {
    ManifestInfo {
        name: None,
        icon_url: None,
        manifest_url: None,
        start_url: None,
        scope: None,
        theme_color: None,
        background_color: None,
        display_mode: None,
    }
}

#[test]
fn page_hints_from_html() {
    let html = r#"<html><head><title>My App</title><link rel="manifest" href="/app.webmanifest"><link rel="icon" href="img/i.png"></head></html>"#;
    let info = page_info("https://site.org/start/", html);
    assert_eq!(info.name, Some("My App".to_string()));
    assert_eq!(info.manifest_url, Some("https://site.org/app.webmanifest".to_string()));
    assert_eq!(info.icon_url, Some("https://site.org/start/img/i.png".to_string()));
    assert_eq!(info.start_url, Some("https://site.org/start/".to_string()));
    let none = page_info("https://site.org/", "<html></html>");
    assert!(none.name.is_none() && none.manifest_url.is_none() && none.icon_url.is_none());
    let direct = page_hints("https://s.org/", Some("m.json".to_string()), None, Some("http://cdn/i.png".to_string()));
    assert_eq!(direct.manifest_url, Some("https://s.org/m.json".to_string()));
    assert_eq!(direct.icon_url, Some("http://cdn/i.png".to_string()));
}

#[test]
fn manifests_fill_in_the_app() {
    let m = ManifestData {
        name: None,
        short_name: Some("Short".to_string()),
        icons: Some(vec![
            ManifestIcon { src: Some("a.png".to_string()), sizes: Some("48x48".to_string()) },
            ManifestIcon { src: Some("b.png".to_string()), sizes: Some("192x192".to_string()) },
            ManifestIcon { src: Some("c.png".to_string()), sizes: Some("192x192".to_string()) },
            ManifestIcon { src: None, sizes: Some("512x512".to_string()) },
        ]),
        display: Some("fullscreen".to_string()),
        theme_color: Some("#fff".to_string()),
        background_color: None,
        start_url: Some("/go".to_string()),
    };
    let info = apply_manifest(empty_manifest(), &m, "https://s.org/m/site.webmanifest", "https://s.org/");
    assert_eq!(info.name, Some("Short".to_string()));
    assert_eq!(info.icon_url, Some("https://s.org/m/b.png".to_string()));
    assert_eq!(info.display_mode, Some("fullscreen".to_string()));
    assert_eq!(info.theme_color, Some("#fff".to_string()));
    assert_eq!(info.start_url, Some("https://s.org/go".to_string()));
    assert_eq!(info.manifest_url, None);
}

#[test]
fn new_apps_take_names_in_order() {
    let req = InstallRequest { url: "https://s.org/".to_string(), name: None };
    let app: AppInfo = new_app_info("id1".to_string(), req, empty_manifest(), 77);
    assert_eq!(app.name, "未知应用");
    assert_eq!(app.display_mode, "standalone");
    assert_eq!((app.installed_at, app.updated_at), (77, 77));
    let mut m = empty_manifest();
    m.name = Some("Site".to_string());
    let req2 = InstallRequest { url: "u".to_string(), name: Some("Mine".to_string()) };
    assert_eq!(new_app_info("i".to_string(), req2, m, 0).name, "Mine");
    let list = app_list(vec![app]);
    assert_eq!(list.total, 1);
}

#[test]
fn window_names_and_styles() {
    assert_eq!(window_label("abc"), "pwa_abc");
    assert_eq!(webview_label("pwa_abc"), "pwa_abc_webview");
    let labels: Vec<String> = vec!["main".to_string(), "pwa_x".to_string(), "pwa_y_webview".to_string()];
    assert_eq!(list_running_pwas(&labels), vec!["pwa_x", "pwa_y_webview"]);
    assert_eq!(backup_file_name("app", "20240101"), "app_20240101.zip");
    assert_eq!(window_style("standalone"), (1200, 800, true, true, false));
    assert_eq!(window_style("fullscreen"), (1920, 1080, true, true, true));
    assert_eq!(window_style("minimal-ui"), (800, 600, false, true, false));
    assert_eq!(site_cache_dir("/d", "https://h.org/x"), Some("/d/pwa_cache/h.org".to_string()));
    assert_eq!(site_cache_dir("/d", "not a url"), None);
}

#[test]
fn shortcuts_per_platform() {
    let (path, content) = shortcut_file("linux", "/home/u/Desktop", "/data", "id", "My App", "https://a/");
    assert_eq!(path, "/home/u/Desktop/pwa-id.desktop");
    assert_eq!(content, "[Desktop Entry]\nVersion=1.0\nType=Application\nName=My App\nExec=xdg-open https://a/\nIcon=web-browser\nTerminal=false\n");
    let (bat, text) = shortcut_file("windows", "/home/u/Desktop", "/data", "id", "My App", "https://a/");
    assert_eq!(bat, "/data/launch-id.bat");
    assert_eq!(text, "@echo off\nstart https://a/ \"My App\"");
}

#[test]
fn row_sizes_take_the_first_error() {
    assert_eq!(row_sizes(Ok(1), Ok(2), Ok(3)), Ok((1, 2, 3)));
    assert_eq!(row_sizes(Ok(-1), Ok(0), Ok(0)), Ok((u64::MAX, 0, 0)));
    assert_eq!(row_sizes(Ok(1), Err("b".to_string()), Err("c".to_string())), Err("b".to_string()));
    assert_eq!(row_sizes(Err("a".to_string()), Ok(2), Err("c".to_string())), Err("a".to_string()));
    assert_eq!(row_sizes(Ok(1), Ok(2), Err("c".to_string())), Err("c".to_string()));
}

#[test]
fn schema_steps_report_their_failures() {
    assert_eq!(schema_step_outcome(0, Ok(0)), Ok(()));
    assert_eq!(schema_step_outcome(0, Err("locked".to_string())), Err("创建 pwa_data 表失败: locked".to_string()));
    assert_eq!(schema_step_outcome(2, Err("x".to_string())), Err("创建索引失败: x".to_string()));
    let conn = rusqlite::Connection::open_in_memory().unwrap();
    conn.execute("CREATE TABLE pwa_data (x TEXT)", []).unwrap();
    let e = init_sqlite_kv(&conn).unwrap_err();
    assert!(e.starts_with("创建索引失败: "));
}

#[test]
fn filter_literals_double_their_quotes() {
    let filter = vec![("na'me".to_string(), FieldValue::Text("o'b' OR '1'='1".to_string()))];
    let sql = count_sql("app", "db", "t", &filter).unwrap();
    assert!(sql.ends_with("s.key = 'na''me' AND s.value = 'o''b'' OR ''1''=''1')"));
    let bad_order = QueryOptions { order_by: Some("id; DROP".to_string()), desc: None, limit: None, offset: None };
    assert_eq!(find_sql("app", "db", "t", &Vec::new(), &bad_order), Err("无效的标识符".to_string()));
}

#[test]
fn usage_queries_are_fixed() {
    let q = size_query_list();
    assert_eq!(q.len(), 3);
    assert!(q[0].contains("FROM kv_store WHERE app_id = ?"));
    assert!(q[2].contains("FROM pwa_schema_data"));
    assert_eq!(app_name_query(), "SELECT name FROM apps WHERE id = ?");
}
