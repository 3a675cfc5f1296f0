//! Files for pages: the file dialog's filters, local file addresses, what
//! reading a file or a part of it answers, writing files, the private file
//! system of an app, and the audio player's addresses and state.

use vstd::prelude::*;
use vstd::utf8::encode_utf8;
use crate::b64::{encode_spec, lenient_decode_spec, standard_decode, standard_encode};
use crate::paths::{app_data_dir_spec, file_name, file_name_spec, get_app_data_dir, join, join_spec};
use crate::server::LOCAL_SERVER_PORT;
use crate::text::{
    chars_of, owned, push_str, rfind_char, rfind_char_spec, slice_vec, split_spec, starts_with,
    starts_with_spec, string_of, trim_start_char, trim_start_char_spec,
};
use crate::urls::opt_text;
use crate::web::{percent_encode_spec, url_encode};

verus! {

// ------------------------------------------------------------ dialog

/// A filter of the file dialog: its name and the extensions it admits.
pub struct FileFilter {
    pub name: String,
    pub extensions: Vec<String>,
}

/// What the file dialog is asked for.
pub struct OpenDialogOptions {
    pub title: Option<String>,
    pub multiple: Option<bool>,
    pub filters: Option<Vec<FileFilter>>,
    pub directory: Option<bool>,
}

/// What the file dialog answers: the paths picked.
pub struct OpenDialogResponse {
    pub paths: Vec<String>,
}

/// The texts of a list of strings.
pub open spec fn texts(v: Seq<String>) -> Seq<Seq<char>> {
    v.map_values(|x: String| x@)
}

/// The filters given to the dialog: each filter with its extensions
/// without their leading dots, those with no extensions left out.
pub open spec fn dialog_filters_spec(f: Seq<(Seq<char>, Seq<Seq<char>>)>) -> Seq<(Seq<char>, Seq<Seq<char>>)>
    decreases f.len(),
{
    if f.len() == 0 {
        Seq::empty()
    } else {
        let front = dialog_filters_spec(f.drop_last());
        if f.last().1.len() > 0 {
            front.push((f.last().0, f.last().1.map_values(|e: Seq<char>| trim_start_char_spec(e, '.'))))
        } else {
            front
        }
    }
}

/// The view of the filters.
pub open spec fn filters_view(f: Seq<FileFilter>) -> Seq<(Seq<char>, Seq<Seq<char>>)> {
    f.map_values(|x: FileFilter| (x.name@, texts(x.extensions@)))
}

fn undotted(exts: &Vec<String>) -> (r: Vec<String>)
    ensures
        texts(r@) == texts(exts@).map_values(|e: Seq<char>| trim_start_char_spec(e, '.')),
{
    let mut r: Vec<String> = Vec::new();
    let mut i: usize = 0;
    while i < exts.len()
        invariant
            i <= exts@.len(),
            texts(r@) == texts(exts@).map_values(|e: Seq<char>| trim_start_char_spec(e, '.')).take(
                i as int,
            ),
        decreases exts@.len() - i,
    {
        let v = chars_of(exts[i].as_str());
        let t = string_of(trim_start_char(v.as_slice(), '.').as_slice());
        let ghost before = r@;
        let ghost whole = texts(exts@).map_values(|e: Seq<char>| trim_start_char_spec(e, '.'));
        assert(t@ == trim_start_char_spec(exts@[i as int]@, '.'));
        assert(whole[i as int] == t@);
        r.push(t);
        assert(texts(r@) =~= texts(before).push(t@));
        assert(whole.take(i + 1) =~= whole.take(i as int).push(whole[i as int]));
        i = i + 1;
    }
    assert(texts(exts@).map_values(|e: Seq<char>| trim_start_char_spec(e, '.')).take(
        exts@.len() as int,
    ) =~= texts(exts@).map_values(|e: Seq<char>| trim_start_char_spec(e, '.')));
    r
}

/// The filters given to the dialog, as `dialog_filters_spec` says.
pub fn dialog_filters(filters: &Vec<FileFilter>) -> (r: Vec<(String, Vec<String>)>)
    ensures
        r@.map_values(|x: (String, Vec<String>)| (x.0@, texts(x.1@))) == dialog_filters_spec(
            filters_view(filters@),
        ),
{
    let ghost fv = filters_view(filters@);
    let mut r: Vec<(String, Vec<String>)> = Vec::new();
    let mut i: usize = 0;
    assert(fv.take(0) =~= Seq::<(Seq<char>, Seq<Seq<char>>)>::empty());
    while i < filters.len()
        invariant
            i <= filters@.len(),
            fv == filters_view(filters@),
            r@.map_values(|x: (String, Vec<String>)| (x.0@, texts(x.1@))) == dialog_filters_spec(
                fv.take(i as int),
            ),
        decreases filters@.len() - i,
    {
        proof {
            assert(fv.take(i + 1).drop_last() == fv.take(i as int));
            assert(fv.take(i + 1).last() == fv[i as int]);
        }
        if filters[i].extensions.len() > 0 {
            let exts = undotted(&filters[i].extensions);
            let ghost before = r@;
            r.push((filters[i].name.clone(), exts));
            assert(r@.map_values(|x: (String, Vec<String>)| (x.0@, texts(x.1@))) =~= before.map_values(
                |x: (String, Vec<String>)| (x.0@, texts(x.1@)),
            ).push(
                (
                    fv[i as int].0,
                    fv[i as int].1.map_values(|e: Seq<char>| trim_start_char_spec(e, '.')),
                ),
            ));
        }
        i = i + 1;
    }
    assert(fv.take(filters@.len() as int) == fv);
    r
}

// ------------------------------------------------------------ local files

/// The local server's address for a file:
/// `http://localhost:19315/local/file/{percent-encoded path}`.
pub open spec fn local_file_url_spec(path: Seq<char>) -> Seq<char> {
    "http://localhost:19315/local/file/"@ + percent_encode_spec(encode_utf8(path))
}

/// The local server's address for the file at `path`.
pub fn resolve_local_file_url(path: &str) -> (r: String)
    ensures
        r@ == local_file_url_spec(path@),
{
    let mut r = owned("http://localhost:19315/local/file/");
    let e = url_encode(path);
    push_str(&mut r, e.as_str());
    r
}

/// The name shown for a file: its file name, `unknown` where it has none.
pub open spec fn shown_name_spec(path: Seq<char>) -> Seq<char> {
    match file_name_spec(path) {
        Some(n) => n,
        None => "unknown"@,
    }
}

fn shown_name(path: &str) -> (r: String)
    ensures
        r@ == shown_name_spec(path@),
{
    match file_name(path) {
        Some(n) => n,
        None => owned("unknown"),
    }
}

/// The type `mime_guess` gives a path by its extension, or
/// `application/octet-stream`.
pub uninterp spec fn guessed_mime(path: Seq<char>) -> Seq<char>;

/// `mime_guess::from_path(path).first_or_octet_stream()` as text. Its table
/// is long; stated is only that the result is a function of the path.
#[verifier::external_body]
fn guess_mime(path: &str) -> (r: String)
    ensures
        r@ == guessed_mime(path@),
{
    mime_guess::from_path(path).first_or_octet_stream().to_string()
}

/// A whole file read for a page, its content in base64.
pub struct FileContentResponse {
    pub name: String,
    pub path: String,
    pub size: u64,
    pub mime_type: String,
    pub content: String,
}

/// What reading the file at `path` with the bytes `data` answers.
pub fn file_content_response(path: String, data: &Vec<u8>) -> (r: FileContentResponse)
    ensures
        r.name@ == shown_name_spec(path@),
        r.path == path,
        r.size == data@.len(),
        r.mime_type@ == guessed_mime(path@),
        r.content@ == encode_spec(data@, false, true),
{
    let name = shown_name(path.as_str());
    let mime = guess_mime(path.as_str());
    let content = standard_encode(data.as_slice());
    FileContentResponse { name, path, size: data.len() as u64, mime_type: mime, content }
}

/// A part of a file read for a page, its content in base64.
pub struct FileRangeResponse {
    pub name: String,
    pub path: String,
    pub size: u64,
    pub offset: u64,
    pub length: u64,
    pub content: String,
}

/// How many bytes a part read asks for: `length`, at most to the end of
/// the file. An offset past the end is left out (the size less the offset
/// would go below zero).
pub fn range_read_length(offset: u64, length: u64, file_size: u64) -> (r: u64)
    requires
        offset <= file_size,
    ensures
        r == if length < file_size - offset {
            length
        } else {
            (file_size - offset) as u64
        },
{
    let rest = file_size - offset;
    if length < rest {
        length
    } else {
        rest
    }
}

/// What reading a part of the file at `path` answers: the bytes read from
/// `offset` of a file of `file_size` bytes.
pub fn file_range_response(path: String, file_size: u64, offset: u64, data: &Vec<u8>) -> (r:
    FileRangeResponse)
    ensures
        r.name@ == shown_name_spec(path@),
        r.path == path,
        r.size == file_size,
        r.offset == offset,
        r.length == data@.len(),
        r.content@ == encode_spec(data@, false, true),
{
    let name = shown_name(path.as_str());
    let content = standard_encode(data.as_slice());
    FileRangeResponse { name, path, size: file_size, offset, length: data.len() as u64, content }
}

/// The name a file picked on Android is copied under: the part of the
/// address after its last `/`, and of that the part after its last `:`.
pub open spec fn content_uri_name_spec(uri: Seq<char>) -> Seq<char> {
    let a = match rfind_char_spec(uri, '/') {
        Some(i) => uri.skip(i + 1),
        None => uri,
    };
    match rfind_char_spec(a, ':') {
        Some(i) => a.skip(i + 1),
        None => a,
    }
}

fn after_last(v: &Vec<char>, c: char) -> (r: Vec<char>)
    ensures
        r@ == match rfind_char_spec(v@, c) {
            Some(i) => v@.skip(i + 1),
            None => v@,
        },
{
    match rfind_char(v.as_slice(), c) {
        Some(i) => slice_vec(v.as_slice(), i + 1, v.len()),
        None => slice_vec(v.as_slice(), 0, v.len()),
    }
}

/// The name a file picked on Android is copied under.
pub fn content_uri_file_name(uri: &str) -> (r: String)
    ensures
        r@ == content_uri_name_spec(uri@),
{
    let v = chars_of(uri);
    let a = after_last(&v, '/');
    let b = after_last(&a, ':');
    string_of(b.as_slice())
}

// ------------------------------------------------------------ writing

/// The bytes a write stores: the standard base64 content decoded for
/// binary content (an error with the decoder's description where it is no
/// base64), the text's UTF-8 bytes otherwise.
pub fn file_write_bytes(content: &str, is_binary: bool) -> (r: Result<Vec<u8>, String>)
    ensures
        is_binary ==> (r is Ok <==> exists|d: Seq<u8>| #[trigger] encode_spec(d, false, true)
            == content@),
        r matches Ok(b) ==> if is_binary {
            encode_spec(b@, false, true) == content@
        } else {
            b@ == encode_utf8(content@)
        },
{
    if is_binary {
        standard_decode(content)
    } else {
        Ok(vstd::slice::slice_to_vec(content.as_bytes()))
    }
}

/// An entry of a directory listing.
pub struct FsEntry {
    pub name: String,
    pub path: String,
    pub is_dir: bool,
    pub size: u64,
}

/// Whether the app may use shared storage, and whether it may ask.
pub struct StoragePermissionStatus {
    pub granted: bool,
    pub can_request: bool,
}

/// The permission answer: the app may ask exactly when it is not granted.
pub fn permission_status(granted: bool) -> (r: StoragePermissionStatus)
    ensures
        r.granted == granted,
        r.can_request == !granted,
{
    StoragePermissionStatus { granted, can_request: !granted }
}

// ------------------------------------------------------------ private files

/// The private file system of an app: `{app data dir}/opfs`.
pub open spec fn opfs_dir_spec(app_id: Seq<char>, base: Seq<char>) -> Seq<char> {
    join_spec(app_data_dir_spec(app_id, base), "opfs"@)
}

/// The path of `path` in the private file system of `app_id`.
pub fn opfs_path(app_id: &str, base: &str, path: &str) -> (r: String)
    ensures
        r@ == join_spec(opfs_dir_spec(app_id@, base@), path@),
{
    let d = get_app_data_dir(app_id, base);
    let o = join(d.as_str(), "opfs");
    join(o.as_str(), path)
}

// ------------------------------------------------------------ audio

/// The state of the audio player.
pub struct AudioState {
    pub current_url: String,
    pub position_ms: u64,
    pub duration_ms: u64,
    pub is_playing: bool,
    pub is_paused: bool,
}

/// The state of a player that plays nothing.
pub fn idle_audio_state() -> (r: AudioState)
    ensures
        r.current_url@ == Seq::<char>::empty(),
        r.position_ms == 0 && r.duration_ms == 0,
        !r.is_playing && r.is_paused,
{
    AudioState { current_url: String::new(), position_ms: 0, duration_ms: 0, is_playing: false, is_paused: true }
}

/// The state of a player at a position, paused or not.
pub fn audio_state(current_url: String, position_ms: u64, duration_ms: u64, paused: bool) -> (r:
    AudioState)
    ensures
        r.current_url == current_url,
        r.position_ms == position_ms && r.duration_ms == duration_ms,
        r.is_playing == !paused && r.is_paused == paused,
{
    AudioState { current_url, position_ms, duration_ms, is_playing: !paused, is_paused: paused }
}

/// The address the player loads: a path from `/` becomes a `file://`
/// address.
pub open spec fn audio_url_spec(url: Seq<char>) -> Seq<char> {
    if url.len() > 0 && url[0] == '/' {
        "file://"@ + url
    } else {
        url
    }
}

/// The address the player loads.
pub fn audio_url(url: &str) -> (r: String)
    ensures
        r@ == audio_url_spec(url@),
{
    let v = chars_of(url);
    if v.len() > 0 && v[0] == '/' {
        let mut r = owned("file://");
        push_str(&mut r, url);
        r
    } else {
        owned(url)
    }
}

/// The path the desktop player opens: the address without `file://`.
pub open spec fn player_path_spec(url: Seq<char>) -> Seq<char> {
    if starts_with_spec(url, "file://"@) {
        url.skip(7)
    } else {
        url
    }
}

/// The path the desktop player opens.
pub fn player_path(url: &str) -> (r: String)
    ensures
        r@ == player_path_spec(url@),
{
    proof {
        reveal_strlit("file://");
    }
    if starts_with(url, "file://") {
        let v = chars_of(url);
        string_of(slice_vec(v.as_slice(), 7, v.len()).as_slice())
    } else {
        owned(url)
    }
}

/// The player's loop setting: `inf` to loop, `no` otherwise.
pub fn loop_option(enabled: bool) -> (r: &'static str)
    ensures
        r@ == if enabled {
            "inf"@
        } else {
            "no"@
        },
{
    if enabled {
        "inf"
    } else {
        "no"
    }
}

/// The whole seconds a seek goes to.
pub fn seek_seconds(position_ms: u64) -> (r: u64)
    ensures
        r == position_ms / 1000,
{
    position_ms / 1000
}

} // verus!
