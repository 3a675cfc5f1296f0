//! Content types by file extension, one table for each handler that
//! serves files.

use vstd::prelude::*;
use crate::paths::lower_extension_spec;

verus! {

/// A table of `(extension, content type)` pairs, as text.
pub open spec fn table_view(t: Seq<(&str, &str)>) -> Seq<(Seq<char>, Seq<char>)> {
    t.map_values(|p: (&str, &str)| (p.0@, p.1@))
}

/// The content type of the first row of `t` whose extension is `ext`.
pub open spec fn lookup_spec(t: Seq<(Seq<char>, Seq<char>)>, ext: Seq<char>) -> Option<Seq<char>>
    decreases t.len(),
{
    if t.len() == 0 {
        None
    } else if t[0].0 == ext {
        Some(t[0].1)
    } else {
        lookup_spec(t.drop_first(), ext)
    }
}

/// The content type that `table` gives `ext`.
pub fn lookup(table: &[(&'static str, &'static str)], ext: &str) -> (r: Option<&'static str>)
    ensures
        match r {
            Some(m) => lookup_spec(table_view(table@), ext@) == Some(m@),
            None => lookup_spec(table_view(table@), ext@) is None,
        },
{
    let mut i: usize = 0;
    assert(table_view(table@).skip(0) == table_view(table@));
    while i < table.len()
        invariant
            i <= table.len(),
            lookup_spec(table_view(table@).skip(i as int), ext@) == lookup_spec(
                table_view(table@),
                ext@,
            ),
        decreases table.len() - i,
    {
        let (e, m) = table[i];
        assert(table_view(table@).skip(i as int)[0] == (e@, m@));
        assert(table_view(table@).skip(i as int).drop_first() == table_view(table@).skip(i + 1));
        if crate::text::eq_str(e, ext) {
            return Some(m);
        }
        i = i + 1;
    }
    None
}

/// The audio and video types that every media handler knows.
pub open spec fn media_rows() -> Seq<(Seq<char>, Seq<char>)> {
    seq![
        ("mp3"@, "audio/mpeg"@),
        ("flac"@, "audio/flac"@),
        ("wav"@, "audio/wav"@),
        ("ogg"@, "audio/ogg"@),
        ("m4a"@, "audio/mp4"@),
        ("aac"@, "audio/aac"@),
        ("mp4"@, "video/mp4"@),
        ("webm"@, "video/webm"@),
    ]
}

/// The table of the `static://` handler.
pub open spec fn static_rows() -> Seq<(Seq<char>, Seq<char>)> {
    media_rows() + seq![
        ("jpg"@, "image/jpeg"@),
        ("jpeg"@, "image/jpeg"@),
        ("png"@, "image/png"@),
        ("gif"@, "image/gif"@),
    ]
}

/// The table of the local server's `/local/file/` route.
pub open spec fn local_file_rows() -> Seq<(Seq<char>, Seq<char>)> {
    seq![
        ("mp3"@, "audio/mpeg"@),
        ("flac"@, "audio/flac"@),
        ("wav"@, "audio/wav"@),
        ("ogg"@, "audio/ogg"@),
        ("m4a"@, "audio/mp4"@),
        ("aac"@, "audio/aac"@),
        ("wma"@, "audio/x-ms-wma"@),
        ("mp4"@, "video/mp4"@),
        ("webm"@, "video/webm"@),
        ("mkv"@, "video/x-matroska"@),
        ("mov"@, "video/quicktime"@),
        ("avi"@, "video/x-msvideo"@),
        ("jpg"@, "image/jpeg"@),
        ("jpeg"@, "image/jpeg"@),
        ("png"@, "image/png"@),
        ("gif"@, "image/gif"@),
        ("webp"@, "image/webp"@),
        ("svg"@, "image/svg+xml"@),
        ("pdf"@, "application/pdf"@),
    ]
}

/// The table of the `pwa-resource://` handler, fonts aside.
pub open spec fn resource_rows() -> Seq<(Seq<char>, Seq<char>)> {
    seq![
        ("html"@, "text/html"@),
        ("htm"@, "text/html"@),
        ("js"@, "application/javascript"@),
        ("mjs"@, "application/javascript"@),
        ("cjs"@, "application/javascript"@),
        ("ts"@, "application/javascript"@),
        ("mts"@, "application/javascript"@),
        ("jsx"@, "application/javascript"@),
        ("tsx"@, "application/javascript"@),
        ("css"@, "text/css"@),
        ("json"@, "application/json"@),
        ("map"@, "application/json"@),
        ("png"@, "image/png"@),
        ("jpg"@, "image/jpeg"@),
        ("jpeg"@, "image/jpeg"@),
        ("svg"@, "image/svg+xml"@),
        ("webp"@, "image/webp"@),
    ]
}

/// The type that a table gives, or `application/octet-stream`.
pub open spec fn or_octet_stream(m: Option<Seq<char>>) -> Seq<char> {
    match m {
        Some(x) => x,
        None => "application/octet-stream"@,
    }
}

/// The type of a stream-protocol file with lowercased extension `ext`.
pub open spec fn stream_mime_spec(ext: Seq<char>) -> Seq<char> {
    or_octet_stream(lookup_spec(media_rows(), ext))
}

/// The type of a `static://` file with lowercased extension `ext`.
pub open spec fn static_mime_spec(ext: Seq<char>) -> Seq<char> {
    or_octet_stream(lookup_spec(static_rows(), ext))
}

/// The type of a local-server file with lowercased extension `ext`.
pub open spec fn local_file_mime_spec(ext: Seq<char>) -> Seq<char> {
    or_octet_stream(lookup_spec(local_file_rows(), ext))
}

/// Whether `ext` is a font extension, served as `font/{ext}`.
pub open spec fn is_font_ext(ext: Seq<char>) -> bool {
    ext == "woff"@ || ext == "woff2"@ || ext == "ttf"@ || ext == "otf"@
}

/// The type of a `pwa-resource://` file with lowercased extension `ext`.
pub open spec fn resource_mime_spec(ext: Seq<char>) -> Seq<char> {
    match lookup_spec(resource_rows(), ext) {
        Some(m) => m,
        None => if is_font_ext(ext) {
            "font/"@ + ext
        } else {
            "application/octet-stream"@
        },
    }
}

fn media_table() -> (t: Vec<(&'static str, &'static str)>)
    ensures
        table_view(t@) == media_rows(),
{
    let t = vec![
        ("mp3", "audio/mpeg"),
        ("flac", "audio/flac"),
        ("wav", "audio/wav"),
        ("ogg", "audio/ogg"),
        ("m4a", "audio/mp4"),
        ("aac", "audio/aac"),
        ("mp4", "video/mp4"),
        ("webm", "video/webm"),
    ];
    assert(table_view(t@) =~= media_rows());
    t
}

fn static_table() -> (t: Vec<(&'static str, &'static str)>)
    ensures
        table_view(t@) == static_rows(),
{
    let t = vec![
        ("mp3", "audio/mpeg"),
        ("flac", "audio/flac"),
        ("wav", "audio/wav"),
        ("ogg", "audio/ogg"),
        ("m4a", "audio/mp4"),
        ("aac", "audio/aac"),
        ("mp4", "video/mp4"),
        ("webm", "video/webm"),
        ("jpg", "image/jpeg"),
        ("jpeg", "image/jpeg"),
        ("png", "image/png"),
        ("gif", "image/gif"),
    ];
    assert(table_view(t@) =~= static_rows());
    t
}

fn local_file_table() -> (t: Vec<(&'static str, &'static str)>)
    ensures
        table_view(t@) == local_file_rows(),
{
    let t = vec![
        ("mp3", "audio/mpeg"),
        ("flac", "audio/flac"),
        ("wav", "audio/wav"),
        ("ogg", "audio/ogg"),
        ("m4a", "audio/mp4"),
        ("aac", "audio/aac"),
        ("wma", "audio/x-ms-wma"),
        ("mp4", "video/mp4"),
        ("webm", "video/webm"),
        ("mkv", "video/x-matroska"),
        ("mov", "video/quicktime"),
        ("avi", "video/x-msvideo"),
        ("jpg", "image/jpeg"),
        ("jpeg", "image/jpeg"),
        ("png", "image/png"),
        ("gif", "image/gif"),
        ("webp", "image/webp"),
        ("svg", "image/svg+xml"),
        ("pdf", "application/pdf"),
    ];
    assert(table_view(t@) =~= local_file_rows());
    t
}

fn resource_table() -> (t: Vec<(&'static str, &'static str)>)
    ensures
        table_view(t@) == resource_rows(),
{
    let t = vec![
        ("html", "text/html"),
        ("htm", "text/html"),
        ("js", "application/javascript"),
        ("mjs", "application/javascript"),
        ("cjs", "application/javascript"),
        ("ts", "application/javascript"),
        ("mts", "application/javascript"),
        ("jsx", "application/javascript"),
        ("tsx", "application/javascript"),
        ("css", "text/css"),
        ("json", "application/json"),
        ("map", "application/json"),
        ("png", "image/png"),
        ("jpg", "image/jpeg"),
        ("jpeg", "image/jpeg"),
        ("svg", "image/svg+xml"),
        ("webp", "image/webp"),
    ];
    assert(table_view(t@) =~= resource_rows());
    t
}

fn or_octet(m: Option<&'static str>) -> (r: &'static str)
    ensures
        r@ == or_octet_stream(
            match m {
                Some(x) => Some(x@),
                None => None,
            },
        ),
{
    match m {
        Some(x) => x,
        None => "application/octet-stream",
    }
}

/// The content type of a file served by the stream protocol.
pub fn stream_mime(path: &str) -> (r: &'static str)
    ensures
        r@ == stream_mime_spec(lower_extension_spec(path@)),
{
    let ext = crate::paths::lower_extension(path);
    let t = media_table();
    or_octet(lookup(t.as_slice(), ext.as_str()))
}

/// The content type of a file served by the `static://` protocol.
pub fn static_mime(path: &str) -> (r: &'static str)
    ensures
        r@ == static_mime_spec(lower_extension_spec(path@)),
{
    let ext = crate::paths::lower_extension(path);
    let t = static_table();
    or_octet(lookup(t.as_slice(), ext.as_str()))
}

/// The content type of a file served by the local server.
pub fn local_file_mime(path: &str) -> (r: &'static str)
    ensures
        r@ == local_file_mime_spec(lower_extension_spec(path@)),
{
    let ext = crate::paths::lower_extension(path);
    let t = local_file_table();
    or_octet(lookup(t.as_slice(), ext.as_str()))
}

/// The content type of a `pwa-resource://` response: the type the network
/// reported when there is one, else the type of the cached file's
/// extension.
pub fn resource_mime(path: &str, reported: Option<String>) -> (r: String)
    ensures
        r@ == match reported {
            Some(m) => m@,
            None => resource_mime_spec(lower_extension_spec(path@)),
        },
{
    match reported {
        Some(m) => m,
        None => {
            let ext = crate::paths::lower_extension(path);
            let t = resource_table();
            match lookup(t.as_slice(), ext.as_str()) {
                Some(m) => crate::text::owned(m),
                None => {
                    let e = ext.as_str();
                    if crate::text::eq_str(e, "woff") || crate::text::eq_str(e, "woff2")
                        || crate::text::eq_str(e, "ttf") || crate::text::eq_str(e, "otf") {
                        let mut r = crate::text::owned("font/");
                        crate::text::push_str(&mut r, e);
                        r
                    } else {
                        crate::text::owned("application/octet-stream")
                    }
                },
            }
        },
    }
}


/// A table gives the type of the first row with the extension.
pub proof fn lemma_lookup_at(t: Seq<(Seq<char>, Seq<char>)>, i: int, ext: Seq<char>)
    requires
        0 <= i < t.len(),
        t[i].0 == ext,
        forall|j: int| 0 <= j < i ==> t[j].0 != ext,
    ensures
        lookup_spec(t, ext) == Some(t[i].1),
    decreases i,
{
    if i > 0 {
        assert(t[0].0 != ext);
        lemma_lookup_at(t.drop_first(), i - 1, ext);
    }
}

/// Two extensions differ where their lengths, first, second or last
/// characters do.
pub open spec fn ext_differs(a: Seq<char>, b: Seq<char>) -> bool {
    a.len() != b.len() || a[0] != b[0] || (b.len() > 1 && a[1] != b[1]) || a[b.len() - 1] != b[b.len() - 1]
}

proof fn lemma_table_row(t: Seq<(Seq<char>, Seq<char>)>, i: int, ext: Seq<char>)
    requires
        0 <= i < t.len(),
        t[i].0 == ext,
        ext.len() > 0,
        forall|j: int| 0 <= j < i ==> ext_differs(t[j].0, ext),
    ensures
        lookup_spec(t, ext) == Some(t[i].1),
{
    assert forall|j: int| 0 <= j < i implies t[j].0 != ext by {
        if t[j].0 == ext {
        }
    }
    lemma_lookup_at(t, i, ext);
}

/// A table gives no type for an extension that no row has.
pub proof fn lemma_lookup_none(t: Seq<(Seq<char>, Seq<char>)>, ext: Seq<char>)
    requires
        forall|j: int| 0 <= j < t.len() ==> t[j].0 != ext,
    ensures
        lookup_spec(t, ext) is None,
    decreases t.len(),
{
    if t.len() > 0 {
        assert(t[0].0 != ext);
        lemma_lookup_none(t.drop_first(), ext);
    }
}

proof fn lemma_table_absent(t: Seq<(Seq<char>, Seq<char>)>, ext: Seq<char>)
    requires
        ext.len() > 1,
        forall|j: int| 0 <= j < t.len() ==> ext_differs(t[j].0, ext),
    ensures
        lookup_spec(t, ext) is None,
{
    assert forall|j: int| 0 <= j < t.len() implies t[j].0 != ext by {
        if t[j].0 == ext {
        }
    }
    lemma_lookup_none(t, ext);
}

/// The types the `pwa-resource://` handler serves by extension: pages as
/// `text/html`, scripts as `application/javascript`, stylesheets as
/// `text/css`, JSON and source maps as `application/json`, images by their
/// kind, and fonts as `font/{ext}`.
pub proof fn lemma_resource_types()
    ensures
        resource_mime_spec("html"@) == "text/html"@,
        resource_mime_spec("htm"@) == "text/html"@,
        resource_mime_spec("js"@) == "application/javascript"@,
        resource_mime_spec("mjs"@) == "application/javascript"@,
        resource_mime_spec("cjs"@) == "application/javascript"@,
        resource_mime_spec("ts"@) == "application/javascript"@,
        resource_mime_spec("mts"@) == "application/javascript"@,
        resource_mime_spec("jsx"@) == "application/javascript"@,
        resource_mime_spec("tsx"@) == "application/javascript"@,
        resource_mime_spec("css"@) == "text/css"@,
        resource_mime_spec("json"@) == "application/json"@,
        resource_mime_spec("map"@) == "application/json"@,
        resource_mime_spec("png"@) == "image/png"@,
        resource_mime_spec("jpg"@) == "image/jpeg"@,
        resource_mime_spec("jpeg"@) == "image/jpeg"@,
        resource_mime_spec("svg"@) == "image/svg+xml"@,
        resource_mime_spec("webp"@) == "image/webp"@,
        resource_mime_spec("woff"@) == "font/woff"@,
        resource_mime_spec("woff2"@) == "font/woff2"@,
        resource_mime_spec("ttf"@) == "font/ttf"@,
        resource_mime_spec("otf"@) == "font/otf"@,
{
    reveal_strlit("application/javascript");
    reveal_strlit("application/json");
    reveal_strlit("cjs");
    reveal_strlit("css");
    reveal_strlit("font/");
    reveal_strlit("font/otf");
    reveal_strlit("font/ttf");
    reveal_strlit("font/woff");
    reveal_strlit("font/woff2");
    reveal_strlit("htm");
    reveal_strlit("html");
    reveal_strlit("image/jpeg");
    reveal_strlit("image/png");
    reveal_strlit("image/svg+xml");
    reveal_strlit("image/webp");
    reveal_strlit("jpeg");
    reveal_strlit("jpg");
    reveal_strlit("js");
    reveal_strlit("json");
    reveal_strlit("jsx");
    reveal_strlit("map");
    reveal_strlit("mjs");
    reveal_strlit("mts");
    reveal_strlit("otf");
    reveal_strlit("png");
    reveal_strlit("svg");
    reveal_strlit("text/css");
    reveal_strlit("text/html");
    reveal_strlit("ts");
    reveal_strlit("tsx");
    reveal_strlit("ttf");
    reveal_strlit("webp");
    reveal_strlit("woff");
    reveal_strlit("woff2");
    lemma_table_row(resource_rows(), 0, "html"@);
    lemma_table_row(resource_rows(), 1, "htm"@);
    lemma_table_row(resource_rows(), 2, "js"@);
    lemma_table_row(resource_rows(), 3, "mjs"@);
    lemma_table_row(resource_rows(), 4, "cjs"@);
    lemma_table_row(resource_rows(), 5, "ts"@);
    lemma_table_row(resource_rows(), 6, "mts"@);
    lemma_table_row(resource_rows(), 7, "jsx"@);
    lemma_table_row(resource_rows(), 8, "tsx"@);
    lemma_table_row(resource_rows(), 9, "css"@);
    lemma_table_row(resource_rows(), 10, "json"@);
    lemma_table_row(resource_rows(), 11, "map"@);
    lemma_table_row(resource_rows(), 12, "png"@);
    lemma_table_row(resource_rows(), 13, "jpg"@);
    lemma_table_row(resource_rows(), 14, "jpeg"@);
    lemma_table_row(resource_rows(), 15, "svg"@);
    lemma_table_row(resource_rows(), 16, "webp"@);
    lemma_table_absent(resource_rows(), "woff"@);
    lemma_table_absent(resource_rows(), "woff2"@);
    lemma_table_absent(resource_rows(), "ttf"@);
    lemma_table_absent(resource_rows(), "otf"@);
}


/// The types the stream protocol serves by extension: each audio and video
/// extension it knows maps to its own type.
pub proof fn lemma_stream_types()
    ensures
        stream_mime_spec("mp3"@) == "audio/mpeg"@,
        stream_mime_spec("flac"@) == "audio/flac"@,
        stream_mime_spec("wav"@) == "audio/wav"@,
        stream_mime_spec("ogg"@) == "audio/ogg"@,
        stream_mime_spec("m4a"@) == "audio/mp4"@,
        stream_mime_spec("aac"@) == "audio/aac"@,
        stream_mime_spec("mp4"@) == "video/mp4"@,
        stream_mime_spec("webm"@) == "video/webm"@,
{
    reveal_strlit("aac");
    reveal_strlit("audio/aac");
    reveal_strlit("audio/flac");
    reveal_strlit("audio/mp4");
    reveal_strlit("audio/mpeg");
    reveal_strlit("audio/ogg");
    reveal_strlit("audio/wav");
    reveal_strlit("flac");
    reveal_strlit("m4a");
    reveal_strlit("mp3");
    reveal_strlit("mp4");
    reveal_strlit("ogg");
    reveal_strlit("video/mp4");
    reveal_strlit("video/webm");
    reveal_strlit("wav");
    reveal_strlit("webm");
    lemma_table_row(media_rows(), 0, "mp3"@);
    lemma_table_row(media_rows(), 1, "flac"@);
    lemma_table_row(media_rows(), 2, "wav"@);
    lemma_table_row(media_rows(), 3, "ogg"@);
    lemma_table_row(media_rows(), 4, "m4a"@);
    lemma_table_row(media_rows(), 5, "aac"@);
    lemma_table_row(media_rows(), 6, "mp4"@);
    lemma_table_row(media_rows(), 7, "webm"@);
}

/// The types the `static://` handler serves by extension: audio, video and
/// the common image kinds, each to its own type.
pub proof fn lemma_static_types()
    ensures
        static_mime_spec("mp3"@) == "audio/mpeg"@,
        static_mime_spec("flac"@) == "audio/flac"@,
        static_mime_spec("wav"@) == "audio/wav"@,
        static_mime_spec("ogg"@) == "audio/ogg"@,
        static_mime_spec("m4a"@) == "audio/mp4"@,
        static_mime_spec("aac"@) == "audio/aac"@,
        static_mime_spec("mp4"@) == "video/mp4"@,
        static_mime_spec("webm"@) == "video/webm"@,
        static_mime_spec("jpg"@) == "image/jpeg"@,
        static_mime_spec("jpeg"@) == "image/jpeg"@,
        static_mime_spec("png"@) == "image/png"@,
        static_mime_spec("gif"@) == "image/gif"@,
{
    reveal_strlit("aac");
    reveal_strlit("audio/aac");
    reveal_strlit("audio/flac");
    reveal_strlit("audio/mp4");
    reveal_strlit("audio/mpeg");
    reveal_strlit("audio/ogg");
    reveal_strlit("audio/wav");
    reveal_strlit("flac");
    reveal_strlit("gif");
    reveal_strlit("image/gif");
    reveal_strlit("image/jpeg");
    reveal_strlit("image/png");
    reveal_strlit("jpeg");
    reveal_strlit("jpg");
    reveal_strlit("m4a");
    reveal_strlit("mp3");
    reveal_strlit("mp4");
    reveal_strlit("ogg");
    reveal_strlit("png");
    reveal_strlit("video/mp4");
    reveal_strlit("video/webm");
    reveal_strlit("wav");
    reveal_strlit("webm");
    lemma_table_row(static_rows(), 0, "mp3"@);
    lemma_table_row(static_rows(), 1, "flac"@);
    lemma_table_row(static_rows(), 2, "wav"@);
    lemma_table_row(static_rows(), 3, "ogg"@);
    lemma_table_row(static_rows(), 4, "m4a"@);
    lemma_table_row(static_rows(), 5, "aac"@);
    lemma_table_row(static_rows(), 6, "mp4"@);
    lemma_table_row(static_rows(), 7, "webm"@);
    lemma_table_row(static_rows(), 8, "jpg"@);
    lemma_table_row(static_rows(), 9, "jpeg"@);
    lemma_table_row(static_rows(), 10, "png"@);
    lemma_table_row(static_rows(), 11, "gif"@);
}

/// The types the local server's file route serves by extension, each to its
/// own type.
pub proof fn lemma_local_file_types()
    ensures
        local_file_mime_spec("mp3"@) == "audio/mpeg"@,
        local_file_mime_spec("flac"@) == "audio/flac"@,
        local_file_mime_spec("wav"@) == "audio/wav"@,
        local_file_mime_spec("ogg"@) == "audio/ogg"@,
        local_file_mime_spec("m4a"@) == "audio/mp4"@,
        local_file_mime_spec("aac"@) == "audio/aac"@,
        local_file_mime_spec("wma"@) == "audio/x-ms-wma"@,
        local_file_mime_spec("mp4"@) == "video/mp4"@,
        local_file_mime_spec("webm"@) == "video/webm"@,
        local_file_mime_spec("mkv"@) == "video/x-matroska"@,
        local_file_mime_spec("mov"@) == "video/quicktime"@,
        local_file_mime_spec("avi"@) == "video/x-msvideo"@,
        local_file_mime_spec("jpg"@) == "image/jpeg"@,
        local_file_mime_spec("jpeg"@) == "image/jpeg"@,
        local_file_mime_spec("png"@) == "image/png"@,
        local_file_mime_spec("gif"@) == "image/gif"@,
        local_file_mime_spec("webp"@) == "image/webp"@,
        local_file_mime_spec("svg"@) == "image/svg+xml"@,
        local_file_mime_spec("pdf"@) == "application/pdf"@,
{
    reveal_strlit("aac");
    reveal_strlit("application/pdf");
    reveal_strlit("audio/aac");
    reveal_strlit("audio/flac");
    reveal_strlit("audio/mp4");
    reveal_strlit("audio/mpeg");
    reveal_strlit("audio/ogg");
    reveal_strlit("audio/wav");
    reveal_strlit("audio/x-ms-wma");
    reveal_strlit("avi");
    reveal_strlit("flac");
    reveal_strlit("gif");
    reveal_strlit("image/gif");
    reveal_strlit("image/jpeg");
    reveal_strlit("image/png");
    reveal_strlit("image/svg+xml");
    reveal_strlit("image/webp");
    reveal_strlit("jpeg");
    reveal_strlit("jpg");
    reveal_strlit("m4a");
    reveal_strlit("mkv");
    reveal_strlit("mov");
    reveal_strlit("mp3");
    reveal_strlit("mp4");
    reveal_strlit("ogg");
    reveal_strlit("pdf");
    reveal_strlit("png");
    reveal_strlit("svg");
    reveal_strlit("video/mp4");
    reveal_strlit("video/quicktime");
    reveal_strlit("video/webm");
    reveal_strlit("video/x-matroska");
    reveal_strlit("video/x-msvideo");
    reveal_strlit("wav");
    reveal_strlit("webm");
    reveal_strlit("webp");
    reveal_strlit("wma");
    lemma_table_row(local_file_rows(), 0, "mp3"@);
    lemma_table_row(local_file_rows(), 1, "flac"@);
    lemma_table_row(local_file_rows(), 2, "wav"@);
    lemma_table_row(local_file_rows(), 3, "ogg"@);
    lemma_table_row(local_file_rows(), 4, "m4a"@);
    lemma_table_row(local_file_rows(), 5, "aac"@);
    lemma_table_row(local_file_rows(), 6, "wma"@);
    lemma_table_row(local_file_rows(), 7, "mp4"@);
    lemma_table_row(local_file_rows(), 8, "webm"@);
    lemma_table_row(local_file_rows(), 9, "mkv"@);
    lemma_table_row(local_file_rows(), 10, "mov"@);
    lemma_table_row(local_file_rows(), 11, "avi"@);
    lemma_table_row(local_file_rows(), 12, "jpg"@);
    lemma_table_row(local_file_rows(), 13, "jpeg"@);
    lemma_table_row(local_file_rows(), 14, "png"@);
    lemma_table_row(local_file_rows(), 15, "gif"@);
    lemma_table_row(local_file_rows(), 16, "webp"@);
    lemma_table_row(local_file_rows(), 17, "svg"@);
    lemma_table_row(local_file_rows(), 18, "pdf"@);
}

/// A `pwa-resource://` file of any other extension is served as
/// `application/octet-stream`.
pub proof fn lemma_resource_other(ext: Seq<char>)
    requires
        ext != "html"@,
        ext != "htm"@,
        ext != "js"@,
        ext != "mjs"@,
        ext != "cjs"@,
        ext != "ts"@,
        ext != "mts"@,
        ext != "jsx"@,
        ext != "tsx"@,
        ext != "css"@,
        ext != "json"@,
        ext != "map"@,
        ext != "png"@,
        ext != "jpg"@,
        ext != "jpeg"@,
        ext != "svg"@,
        ext != "webp"@,
        ext != "woff"@,
        ext != "woff2"@,
        ext != "ttf"@,
        ext != "otf"@,
    ensures
        resource_mime_spec(ext) == "application/octet-stream"@,
{
    reveal_strlit("cjs");
    reveal_strlit("css");
    reveal_strlit("htm");
    reveal_strlit("html");
    reveal_strlit("jpeg");
    reveal_strlit("jpg");
    reveal_strlit("js");
    reveal_strlit("json");
    reveal_strlit("jsx");
    reveal_strlit("map");
    reveal_strlit("mjs");
    reveal_strlit("mts");
    reveal_strlit("otf");
    reveal_strlit("png");
    reveal_strlit("svg");
    reveal_strlit("ts");
    reveal_strlit("tsx");
    reveal_strlit("ttf");
    reveal_strlit("webp");
    reveal_strlit("woff");
    reveal_strlit("woff2");
    reveal_with_fuel(lookup_spec, 18);
}

} // verus!
