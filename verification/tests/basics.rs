use pwa_container::b64::{base64_decode, base64_encode, standard_decode, standard_encode, url_safe_encode};
use pwa_container::num::{format_i64, format_u64, parse_i32, parse_u16, parse_u64};
use pwa_container::paths::{app_dirs, extension, file_name, get_app_data_dir, get_app_db_path, join, lower_extension};
use pwa_container::range::{content_range_value, parse_range_header, plan_file_slice};
use pwa_container::text::{contains, ends_with, find_str, replace, split_chars, split_once_chars, starts_with, trim};

#[test]
fn trim_drops_surrounding_whitespace() {
    assert_eq!(trim("  a b \t\n"), "a b");
    assert_eq!(trim(""), "");
    assert_eq!(trim("   "), "");
}

#[test]
fn prefixes_suffixes_and_search() {
    assert!(starts_with("bytes=0-1", "bytes="));
    assert!(!starts_with("byte", "bytes="));
    assert!(ends_with("index.html", ".html"));
    assert!(contains("a=b; c=d", "; "));
    assert_eq!(find_str("one two two", "two"), Some(4));
    assert_eq!(find_str("abc", "x"), None);
    assert_eq!(find_str("abc", ""), Some(0));
}

#[test]
fn replace_and_split_follow_std() {
    assert_eq!(replace("a-b-c", "-", "+"), "a+b+c");
    assert_eq!(replace("aaa", "aa", "b"), "ba");
    let chars: Vec<char> = "a,b,,c".chars().collect();
    let parts: Vec<String> = split_chars(&chars, ',').iter().map(|p| p.iter().collect()).collect();
    assert_eq!(parts, vec!["a", "b", "", "c"]);
    let once = split_once_chars(&"k=v=w".chars().collect::<Vec<char>>(), '=').unwrap();
    assert_eq!(once.0.iter().collect::<String>(), "k");
    assert_eq!(once.1.iter().collect::<String>(), "v=w");
    assert!(split_once_chars(&"kv".chars().collect::<Vec<char>>(), '=').is_none());
}

#[test]
fn integers_parse_like_std() {
    assert_eq!(parse_u64("42"), Some(42));
    assert_eq!(parse_u64("+7"), Some(7));
    assert_eq!(parse_u64(""), None);
    assert_eq!(parse_u64("-1"), None);
    assert_eq!(parse_u64("18446744073709551616"), None);
    assert_eq!(parse_u16("65535"), Some(65535));
    assert_eq!(parse_u16("65536"), None);
    assert_eq!(parse_i32("-2147483648"), Some(i32::MIN));
    assert_eq!(parse_i32("2147483648"), None);
    assert_eq!(parse_i32("12a"), None);
}

#[test]
fn integers_format_in_decimal() {
    assert_eq!(format_u64(0), "0");
    assert_eq!(format_u64(1234567890), "1234567890");
    assert_eq!(format_i64(-42), "-42");
    assert_eq!(format_i64(i64::MIN), i64::MIN.to_string());
}

#[test]
fn paths_join_like_std_path() {
    assert_eq!(join("/data", "pwa_data"), "/data/pwa_data");
    assert_eq!(join("/data/", "x"), "/data/x");
    assert_eq!(join("/data", "/abs"), "/abs");
    assert_eq!(get_app_data_dir("app1", "/base"), "/base/apps/app1");
    assert_ne!(get_app_data_dir("app1", "/base"), get_app_data_dir("app2", "/base"));
    assert_eq!(get_app_db_path("app1", "/base"), "/base/apps/app1/data.db");
    assert_eq!(app_dirs("a", "/b"), vec!["/b/apps/a", "/b/apps/a/files", "/b/apps/a/cache"]);
}

#[test]
fn file_names_and_extensions() {
    assert_eq!(file_name("/x/y/song.MP3"), Some("song.MP3".to_string()));
    assert_eq!(file_name("/x/y/"), Some("y".to_string()));
    assert_eq!(file_name("/x/.."), None);
    assert_eq!(extension("/a/b.tar.gz"), Some("gz".to_string()));
    assert_eq!(extension("/a/.hidden"), None);
    assert_eq!(extension("/a/noext"), None);
    assert_eq!(lower_extension("/v/Movie.MKV"), "mkv");
    assert_eq!(lower_extension("/v/none"), "");
}

#[test]
fn range_header_spans() {
    assert_eq!(parse_range_header("bytes=0-99", 1000), Some((0, 99)));
    assert_eq!(parse_range_header("bytes=500-", 1000), Some((500, 999)));
    assert_eq!(parse_range_header("bytes=900-5000", 1000), Some((900, 999)));
    assert_eq!(parse_range_header("bytes=1000-", 1000), None);
    assert_eq!(parse_range_header("items=0-1", 1000), None);
    assert_eq!(parse_range_header("bytes=1-2-3", 1000), None);
    assert_eq!(content_range_value(0, 99, 1000), "bytes 0-99/1000");
}

#[test]
fn file_slices_answer_206_or_200() {
    let s = plan_file_slice(Some("bytes=10-19"), 100);
    assert_eq!((s.status, s.start, s.length), (206, 10, 10));
    assert_eq!(s.content_range, Some("bytes 10-19/100".to_string()));
    let w = plan_file_slice(None, 100);
    assert_eq!((w.status, w.start, w.length), (200, 0, 100));
    assert!(w.content_range.is_none());
    let bad = plan_file_slice(Some("bytes=200-300"), 100);
    assert_eq!((bad.status, bad.start, bad.length), (200, 0, 100));
}

#[test]
fn base64_round_trip_and_lenient_decode() {
    let data = b"hello, world\x00\xff";
    let enc = base64_encode(data);
    assert_eq!(enc, "aGVsbG8sIHdvcmxkAP8=");
    assert_eq!(base64_decode(&enc), data.to_vec());
    assert_eq!(base64_encode(b""), "");
    assert_eq!(base64_encode(b"f"), "Zg==");
    assert_eq!(base64_encode(b"fo"), "Zm8=");
    assert_eq!(base64_decode("Zm9v"), b"foo".to_vec());
    assert_eq!(base64_decode("Zm 9v!"), b"foo".to_vec());
}

#[test]
fn standard_codec_wrappers() {
    assert_eq!(standard_encode(b"foobar"), "Zm9vYmFy");
    assert_eq!(standard_decode("Zm9vYmFy"), Ok(b"foobar".to_vec()));
    assert!(standard_decode("Zm9v!").is_err());
    assert!(standard_decode("Zg").is_err());
    assert_eq!(url_safe_encode(&[0xfb, 0xff]), "-_8");
}

#[test]
fn decimal_text_parses_back() {
    for n in [0u64, 9, 10, 4096, u64::MAX] {
        assert_eq!(parse_u64(&format_u64(n)), Some(n));
    }
}
