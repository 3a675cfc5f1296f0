//! Installed web apps: the records kept of them, what a site's page and
//! manifest say about an app, and the window, shortcut and backup names
//! derived from an app.

use vstd::prelude::*;
use crate::num::{parse_i32, parse_i32_spec};
use crate::paths::{join, join_spec};
use crate::text::{
    chars_of, contains_spec, eq_str, find_char, find_char_spec, owned, push_str, slice_vec,
    starts_with, starts_with_spec, string_of,
};
use crate::urls::{absolute_url, absolute_url_spec, host_of, opt_text, url_host};

verus! {

// ------------------------------------------------------------ records

/// The answer of every command: whether it succeeded, the data, the error.
pub struct CommandResponse<T> {
    pub success: bool,
    pub data: Option<T>,
    pub error: Option<String>,
}

impl<T> CommandResponse<T> {
    /// A successful answer carrying `data`.
    pub fn success(data: T) -> (r: Self)
        ensures
            r.success,
            r.data == Some(data),
            r.error is None,
    {
        CommandResponse { success: true, data: Some(data), error: None }
    }

    /// A failed answer carrying `message`.
    pub fn error(message: String) -> (r: Self)
        ensures
            !r.success,
            r.data is None,
            r.error == Some(message),
    {
        CommandResponse { success: false, data: None, error: Some(message) }
    }
}

/// An installed app.
pub struct AppInfo {
    pub id: String,
    pub name: String,
    pub url: String,
    pub icon_url: Option<String>,
    pub manifest_url: Option<String>,
    pub installed_at: i64,
    pub updated_at: i64,
    pub start_url: Option<String>,
    pub scope: Option<String>,
    pub theme_color: Option<String>,
    pub background_color: Option<String>,
    pub display_mode: String,
}

/// A request to install the site at `url`, optionally under a name.
pub struct InstallRequest {
    pub url: String,
    pub name: Option<String>,
}

/// A backup of an app's data.
pub struct BackupInfo {
    pub id: String,
    pub app_id: String,
    pub app_name: String,
    pub backup_path: String,
    pub created_at: i64,
    pub size_bytes: Option<u64>,
}

/// A list of apps with its length.
pub struct AppListResponse {
    pub apps: Vec<AppInfo>,
    pub total: usize,
}

/// The list answer for `apps`.
pub fn app_list(apps: Vec<AppInfo>) -> (r: AppListResponse)
    ensures
        r.apps@ == apps@,
        r.total == apps@.len(),
{
    let total = apps.len();
    AppListResponse { apps, total }
}

/// A desktop shortcut made for an app.
pub struct ShortcutInfo {
    pub app_id: String,
    pub shortcut_path: String,
    pub platform: String,
}

// ------------------------------------------------------------ manifest

/// What a site says about its app.
pub struct ManifestInfo {
    pub name: Option<String>,
    pub icon_url: Option<String>,
    pub manifest_url: Option<String>,
    pub start_url: Option<String>,
    pub scope: Option<String>,
    pub theme_color: Option<String>,
    pub background_color: Option<String>,
    pub display_mode: Option<String>,
}

/// One icon of a web app manifest: its `src` and `sizes` where they are
/// strings.
pub struct ManifestIcon {
    pub src: Option<String>,
    pub sizes: Option<String>,
}

/// The fields of a web app manifest that are read, each where it is a
/// string (the icons where `icons` is an array).
pub struct ManifestData {
    pub name: Option<String>,
    pub short_name: Option<String>,
    pub icons: Option<Vec<ManifestIcon>>,
    pub display: Option<String>,
    pub theme_color: Option<String>,
    pub background_color: Option<String>,
    pub start_url: Option<String>,
}

/// The link to the manifest in a page.
pub open spec fn manifest_link_pattern() -> Seq<char> {
    "<link\\s+rel=[\"']manifest[\"']\\s+href=[\"']([^\"']+)[\"']"@
}

/// The title of a page.
pub open spec fn title_pattern() -> Seq<char> {
    "<title>(.*?)</title>"@
}

/// The link to an icon in a page.
pub open spec fn icon_link_pattern() -> Seq<char> {
    "<link\\s+rel=[\"'](?:icon|shortcut icon|apple-touch-icon)[\"']\\s+href=[\"']([^\"']+)[\"']"@
}

/// The patterns the page is searched with.
pub open spec fn known_patterns() -> Seq<Seq<char>> {
    seq![manifest_link_pattern(), title_pattern(), icon_link_pattern()]
}

/// The first group of the first match of a regular expression in a text,
/// as the `regex` crate finds it.
pub uninterp spec fn regex_first_group(pattern: Seq<char>, text: Seq<char>) -> Option<Seq<char>>;

/// `regex::Regex::new(pattern)`, then `captures(text)` and its group 1 as
/// text. Only the three patterns the page is searched with are passed, and
/// they compile. Stated: the result is a function of the two texts and,
/// where found, a part of the text (a match is a substring of the
/// haystack).
#[verifier::external_body]
fn first_group(pattern: &str, text: &str) -> (r: Option<String>)
    requires
        known_patterns().contains(pattern@),
    ensures
        opt_text(r) == regex_first_group(pattern@, text@),
        r matches Some(g) ==> contains_spec(text@, g@),
{
    match regex::Regex::new(pattern) {
        Ok(re) => match re.captures(text) {
            Some(c) => match c.get(1) {
                Some(m) => Some(m.as_str().to_string()),
                None => None,
            },
            None => None,
        },
        Err(_) => None,
    }
}

/// The address made absolute against `base`, where there is one.
pub open spec fn absolute_opt(o: Option<Seq<char>>, base: Seq<char>) -> Option<Seq<char>> {
    match o {
        Some(x) => Some(absolute_url_spec(base, x)),
        None => None,
    }
}

/// What the page at `url` says before its manifest is read: the manifest's
/// address and an icon's (absolute against `url`), the page title as the
/// name, and `url` as the start address.
pub open spec fn page_hints_spec(url: Seq<char>, html: Seq<char>) -> (
    Option<Seq<char>>,
    Option<Seq<char>>,
    Option<Seq<char>>,
) {
    (
        absolute_opt(regex_first_group(manifest_link_pattern(), html), url),
        regex_first_group(title_pattern(), html),
        absolute_opt(regex_first_group(icon_link_pattern(), html), url),
    )
}

fn absolute_of(o: Option<String>, base: &str) -> (r: Option<String>)
    ensures
        opt_text(r) == absolute_opt(opt_text(o), base@),
{
    match o {
        Some(x) => Some(absolute_url(base, x.as_str())),
        None => None,
    }
}

/// What the page says of the app, given the three searches' results (the
/// manifest link, the title, the icon link): the two links made absolute
/// against `url`, the title as the name, and `url` as the start address.
pub fn page_hints(url: &str, manifest: Option<String>, title: Option<String>, icon: Option<String>) -> (r:
    ManifestInfo)
    ensures
        opt_text(r.manifest_url) == absolute_opt(opt_text(manifest), url@),
        opt_text(r.name) == opt_text(title),
        opt_text(r.icon_url) == absolute_opt(opt_text(icon), url@),
        opt_text(r.start_url) == Some(url@),
        r.scope is None && r.theme_color is None && r.background_color is None,
        r.display_mode is None,
{
    ManifestInfo {
        name: title,
        icon_url: absolute_of(icon, url),
        manifest_url: absolute_of(manifest, url),
        start_url: Some(owned(url)),
        scope: None,
        theme_color: None,
        background_color: None,
        display_mode: None,
    }
}

/// What the page says of the app, as `page_hints_spec` says; the manifest
/// is not read yet.
pub fn page_info(url: &str, html: &str) -> (r: ManifestInfo)
    ensures
        ({
            let (m, t, i) = page_hints_spec(url@, html@);
            &&& opt_text(r.manifest_url) == m
            &&& opt_text(r.name) == t
            &&& opt_text(r.icon_url) == i
            &&& opt_text(r.start_url) == Some(url@)
            &&& r.scope is None && r.theme_color is None && r.background_color is None
            &&& r.display_mode is None
        }),
{
    proof {
        assert(known_patterns()[0] == manifest_link_pattern());
        assert(known_patterns()[1] == title_pattern());
        assert(known_patterns()[2] == icon_link_pattern());
    }
    let manifest = first_group(
        "<link\\s+rel=[\"']manifest[\"']\\s+href=[\"']([^\"']+)[\"']",
        html,
    );
    let title = first_group("<title>(.*?)</title>", html);
    let icon = first_group(
        "<link\\s+rel=[\"'](?:icon|shortcut icon|apple-touch-icon)[\"']\\s+href=[\"']([^\"']+)[\"']",
        html,
    );
    page_hints(url, manifest, title, icon)
}

/// The width an icon's `sizes` gives: the number before its first `x`
/// (`0x0` where there is no `sizes`), 0 where that is no number.
pub open spec fn icon_width_spec(sizes: Option<Seq<char>>) -> i32 {
    let s = match sizes {
        Some(x) => x,
        None => "0x0"@,
    };
    let first = match find_char_spec(s, 'x') {
        Some(i) => s.take(i),
        None => s,
    };
    match parse_i32_spec(first) {
        Some(w) => w,
        None => 0,
    }
}

fn icon_width(sizes: &Option<String>) -> (r: i32)
    ensures
        r == icon_width_spec(opt_text(*sizes)),
{
    let s = match sizes {
        Some(x) => x.clone(),
        None => owned("0x0"),
    };
    let v = chars_of(s.as_str());
    let first = match find_char(v.as_slice(), 'x') {
        Some(i) => string_of(slice_vec(v.as_slice(), 0, i).as_slice()),
        None => s,
    };
    match parse_i32(first.as_str()) {
        Some(w) => w,
        None => 0,
    }
}

/// The icon of a manifest: among the icons with a `src`, the first of the
/// widest (a later icon replaces the chosen one only when it is strictly
/// wider), its address absolute against the manifest's.
pub open spec fn best_icon_spec(icons: Seq<(Option<Seq<char>>, Option<Seq<char>>)>) -> Option<(i32, Seq<char>)>
    decreases icons.len(),
{
    if icons.len() == 0 {
        None
    } else {
        let front = best_icon_spec(icons.drop_last());
        match icons.last().0 {
            Some(src) => {
                let w = icon_width_spec(icons.last().1);
                match front {
                    Some((bw, bs)) => if w > bw {
                        Some((w, src))
                    } else {
                        Some((bw, bs))
                    },
                    None => Some((w, src)),
                }
            },
            None => front,
        }
    }
}

/// The icons as `(src, sizes)` texts.
pub open spec fn icons_view(icons: Seq<ManifestIcon>) -> Seq<(Option<Seq<char>>, Option<Seq<char>>)> {
    icons.map_values(|i: ManifestIcon| (opt_text(i.src), opt_text(i.sizes)))
}

fn best_icon(icons: &Vec<ManifestIcon>) -> (r: Option<(i32, String)>)
    ensures
        match r {
            Some((w, s)) => best_icon_spec(icons_view(icons@)) == Some((w, s@)),
            None => best_icon_spec(icons_view(icons@)) is None,
        },
{
    let ghost iv = icons_view(icons@);
    let mut best: Option<(i32, String)> = None;
    let mut i: usize = 0;
    assert(iv.take(0) =~= Seq::<(Option<Seq<char>>, Option<Seq<char>>)>::empty());
    while i < icons.len()
        invariant
            i <= icons@.len(),
            iv == icons_view(icons@),
            match best {
                Some((w, s)) => best_icon_spec(iv.take(i as int)) == Some((w, s@)),
                None => best_icon_spec(iv.take(i as int)) is None,
            },
        decreases icons@.len() - i,
    {
        proof {
            assert(iv.take(i + 1).drop_last() == iv.take(i as int));
            assert(iv.take(i + 1).last() == iv[i as int]);
        }
        match &icons[i].src {
            Some(src) => {
                let w = icon_width(&icons[i].sizes);
                let replace = match &best {
                    Some((bw, _)) => w > *bw,
                    None => true,
                };
                if replace {
                    best = Some((w, src.clone()));
                }
            },
            None => {},
        }
        i = i + 1;
    }
    assert(iv.take(icons@.len() as int) == iv);
    best
}

/// The view of a manifest's icons, where it lists any.
pub open spec fn manifest_icons(m: ManifestData) -> Option<Seq<(Option<Seq<char>>, Option<Seq<char>>)>> {
    match m.icons {
        Some(v) => Some(icons_view(v@)),
        None => None,
    }
}

fn copy_text(o: &Option<String>) -> (r: Option<String>)
    ensures
        r == *o,
{
    match o {
        Some(s) => Some(s.clone()),
        None => None,
    }
}

/// What the manifest read from `manifest_url` adds to what the page at
/// `url` said: its `name` (else `short_name`) replaces the name where it
/// has one; its widest icon replaces the icon; its display mode, colours
/// and start address (absolute against `url`) are taken as they are, also
/// where it has none.
pub fn apply_manifest(info: ManifestInfo, m: &ManifestData, manifest_url: &str, url: &str) -> (r:
    ManifestInfo)
    ensures
        opt_text(r.name) == match opt_text(m.name) {
            Some(n) => Some(n),
            None => match opt_text(m.short_name) {
                Some(n) => Some(n),
                None => opt_text(info.name),
            },
        },
        opt_text(r.icon_url) == match manifest_icons(*m) {
            Some(icons) => match best_icon_spec(icons) {
                Some((_, src)) => Some(absolute_url_spec(manifest_url@, src)),
                None => opt_text(info.icon_url),
            },
            None => opt_text(info.icon_url),
        },
        r.manifest_url == info.manifest_url,
        r.scope == info.scope,
        opt_text(r.display_mode) == opt_text(m.display),
        opt_text(r.theme_color) == opt_text(m.theme_color),
        opt_text(r.background_color) == opt_text(m.background_color),
        opt_text(r.start_url) == absolute_opt(opt_text(m.start_url), url@),
{
    let name = match &m.name {
        Some(n) => Some(n.clone()),
        None => match &m.short_name {
            Some(n) => Some(n.clone()),
            None => info.name,
        },
    };
    let icon = match &m.icons {
        Some(icons) => match best_icon(icons) {
            Some((_, src)) => Some(absolute_url(manifest_url, src.as_str())),
            None => info.icon_url,
        },
        None => info.icon_url,
    };
    let start = match &m.start_url {
        Some(s) => Some(absolute_url(url, s.as_str())),
        None => None,
    };
    ManifestInfo {
        name,
        icon_url: icon,
        manifest_url: info.manifest_url,
        start_url: start,
        scope: info.scope,
        theme_color: copy_text(&m.theme_color),
        background_color: copy_text(&m.background_color),
        display_mode: copy_text(&m.display),
    }
}

// ------------------------------------------------------------ install

/// `未知应用`, the name of an app no one named.
pub open spec fn unknown_app_name() -> Seq<char> {
    "未知应用"@
}

/// The record of a newly installed app: the requested name, else the
/// site's, else `未知应用`; the site's details; installed and updated
/// `now`; the display mode `standalone` where the site names none.
pub fn new_app_info(id: String, request: InstallRequest, manifest: ManifestInfo, now: i64) -> (r: AppInfo)
    ensures
        r.id == id,
        r.name@ == match opt_text(request.name) {
            Some(n) => n,
            None => match opt_text(manifest.name) {
                Some(n) => n,
                None => unknown_app_name(),
            },
        },
        r.url == request.url,
        r.icon_url == manifest.icon_url,
        r.manifest_url == manifest.manifest_url,
        r.installed_at == now && r.updated_at == now,
        r.start_url == manifest.start_url,
        r.scope == manifest.scope,
        r.theme_color == manifest.theme_color,
        r.background_color == manifest.background_color,
        r.display_mode@ == match opt_text(manifest.display_mode) {
            Some(d) => d,
            None => "standalone"@,
        },
{
    let name = match request.name {
        Some(n) => n,
        None => match manifest.name {
            Some(n) => n,
            None => owned("未知应用"),
        },
    };
    let display = match manifest.display_mode {
        Some(d) => d,
        None => owned("standalone"),
    };
    AppInfo {
        id,
        name,
        url: request.url,
        icon_url: manifest.icon_url,
        manifest_url: manifest.manifest_url,
        installed_at: now,
        updated_at: now,
        start_url: manifest.start_url,
        scope: manifest.scope,
        theme_color: manifest.theme_color,
        background_color: manifest.background_color,
        display_mode: display,
    }
}

// ------------------------------------------------------------ windows

/// The label of an app's window: `pwa_{app_id}`.
pub open spec fn window_label_spec(app_id: Seq<char>) -> Seq<char> {
    "pwa_"@ + app_id
}

/// The label of an app's window.
pub fn window_label(app_id: &str) -> (r: String)
    ensures
        r@ == window_label_spec(app_id@),
{
    let mut r = owned("pwa_");
    push_str(&mut r, app_id);
    r
}

/// The label of the web view inside a window: `{window}_webview`.
pub fn webview_label(window: &str) -> (r: String)
    ensures
        r@ == window@ + "_webview"@,
{
    let mut r = owned(window);
    push_str(&mut r, "_webview");
    r
}

/// The windows that are app windows: those labelled `pwa_…`, in order.
pub open spec fn app_windows_spec(labels: Seq<Seq<char>>) -> Seq<Seq<char>>
    decreases labels.len(),
{
    if labels.len() == 0 {
        Seq::empty()
    } else {
        let front = app_windows_spec(labels.drop_last());
        if starts_with_spec(labels.last(), "pwa_"@) {
            front.push(labels.last())
        } else {
            front
        }
    }
}

/// The app windows among the open windows.
pub fn list_running_pwas(labels: &Vec<String>) -> (r: Vec<String>)
    ensures
        r@.map_values(|s: String| s@) == app_windows_spec(labels@.map_values(|s: String| s@)),
{
    let ghost lv = labels@.map_values(|s: String| s@);
    let mut r: Vec<String> = Vec::new();
    let mut i: usize = 0;
    assert(lv.take(0) =~= Seq::<Seq<char>>::empty());
    while i < labels.len()
        invariant
            i <= labels@.len(),
            lv == labels@.map_values(|s: String| s@),
            r@.map_values(|s: String| s@) == app_windows_spec(lv.take(i as int)),
        decreases labels@.len() - i,
    {
        proof {
            assert(lv.take(i + 1).drop_last() == lv.take(i as int));
            assert(lv.take(i + 1).last() == lv[i as int]);
        }
        if starts_with(labels[i].as_str(), "pwa_") {
            let ghost before = r@;
            r.push(labels[i].clone());
            assert(r@.map_values(|s: String| s@) =~= before.map_values(|s: String| s@).push(
                lv[i as int],
            ));
        }
        i = i + 1;
    }
    assert(lv.take(labels@.len() as int) == lv);
    r
}

/// The size and style of an app window for a display mode: width, height,
/// resizable, decorated, full screen.
pub open spec fn window_style_spec(display_mode: Seq<char>) -> (u32, u32, bool, bool, bool) {
    if display_mode == "fullscreen"@ {
        (1920, 1080, true, true, true)
    } else if display_mode == "minimal-ui"@ {
        (800, 600, false, true, false)
    } else if display_mode == "standalone"@ {
        (1200, 800, true, true, false)
    } else if display_mode == "window-controls-overlay"@ {
        (1200, 800, true, false, false)
    } else {
        (1200, 800, true, true, false)
    }
}

/// The size and style of an app window.
pub fn window_style(display_mode: &str) -> (r: (u32, u32, bool, bool, bool))
    ensures
        r == window_style_spec(display_mode@),
{
    if eq_str(display_mode, "fullscreen") {
        (1920, 1080, true, true, true)
    } else if eq_str(display_mode, "minimal-ui") {
        (800, 600, false, true, false)
    } else if eq_str(display_mode, "standalone") {
        (1200, 800, true, true, false)
    } else if eq_str(display_mode, "window-controls-overlay") {
        (1200, 800, true, false, false)
    } else {
        (1200, 800, true, true, false)
    }
}

/// The cache directory of an app's site: `{app data}/pwa_cache/{host}`,
/// where its address parses and has a host.
pub fn site_cache_dir(app_data_dir: &str, app_url: &str) -> (r: Option<String>)
    ensures
        opt_text(r) == match host_of(app_url@) {
            Some(h) => Some(join_spec(join_spec(app_data_dir@, "pwa_cache"@), h)),
            None => None,
        },
{
    match url_host(app_url) {
        Some(h) => {
            let d = join(app_data_dir, "pwa_cache");
            Some(join(d.as_str(), h.as_str()))
        },
        None => None,
    }
}

// ------------------------------------------------------------ shortcuts

/// The file a shortcut is written to and its text, by platform: a
/// `.desktop` entry on Linux (in `desktop_dir`), a batch file on Windows
/// and a shell script elsewhere (in the app data directory).
pub open spec fn shortcut_spec(
    platform: Seq<char>,
    desktop_dir: Seq<char>,
    app_data_dir: Seq<char>,
    app_id: Seq<char>,
    app_name: Seq<char>,
    app_url: Seq<char>,
) -> (Seq<char>, Seq<char>) {
    if platform == "linux"@ {
        (
            join_spec(desktop_dir, "pwa-"@ + app_id + ".desktop"@),
            "[Desktop Entry]\nVersion=1.0\nType=Application\nName="@ + app_name + "\nExec=xdg-open "@
                + app_url + "\nIcon=web-browser\nTerminal=false\n"@,
        )
    } else if platform == "windows"@ {
        (
            join_spec(app_data_dir, "launch-"@ + app_id + ".bat"@),
            "@echo off\nstart "@ + app_url + " \""@ + app_name + "\""@,
        )
    } else {
        (
            join_spec(app_data_dir, "launch-"@ + app_id + ".command"@),
            "#!/bin/bash\nopen \""@ + app_url + "\""@,
        )
    }
}

fn concat3(a: &str, b: &str, c: &str) -> (r: String)
    ensures
        r@ == a@ + b@ + c@,
{
    let mut r = owned(a);
    push_str(&mut r, b);
    push_str(&mut r, c);
    r
}

/// The shortcut file and text, as `shortcut_spec` says.
pub fn shortcut_file(
    platform: &str,
    desktop_dir: &str,
    app_data_dir: &str,
    app_id: &str,
    app_name: &str,
    app_url: &str,
) -> (r: (String, String))
    ensures
        (r.0@, r.1@) == shortcut_spec(
            platform@,
            desktop_dir@,
            app_data_dir@,
            app_id@,
            app_name@,
            app_url@,
        ),
{
    if eq_str(platform, "linux") {
        let name = concat3("pwa-", app_id, ".desktop");
        let path = join(desktop_dir, name.as_str());
        let mut text = concat3("[Desktop Entry]\nVersion=1.0\nType=Application\nName=", app_name, "\nExec=xdg-open ");
        push_str(&mut text, app_url);
        push_str(&mut text, "\nIcon=web-browser\nTerminal=false\n");
        assert(text@ =~= "[Desktop Entry]\nVersion=1.0\nType=Application\nName="@ + app_name@
            + "\nExec=xdg-open "@ + app_url@ + "\nIcon=web-browser\nTerminal=false\n"@);
        (path, text)
    } else if eq_str(platform, "windows") {
        let name = concat3("launch-", app_id, ".bat");
        let path = join(app_data_dir, name.as_str());
        let mut text = concat3("@echo off\nstart ", app_url, " \"");
        push_str(&mut text, app_name);
        push_str(&mut text, "\"");
        assert(text@ =~= "@echo off\nstart "@ + app_url@ + " \""@ + app_name@ + "\""@);
        (path, text)
    } else {
        let name = concat3("launch-", app_id, ".command");
        let path = join(app_data_dir, name.as_str());
        let text = concat3("#!/bin/bash\nopen \"", app_url, "\"");
        (path, text)
    }
}

/// The file name of a backup: `{app_id}_{stamp}.zip`, the stamp being the
/// time written as `%Y%m%d_%H%M%S`.
pub fn backup_file_name(app_id: &str, stamp: &str) -> (r: String)
    ensures
        r@ == app_id@ + "_"@ + stamp@ + ".zip"@,
{
    let mut r = concat3(app_id, "_", stamp);
    push_str(&mut r, ".zip");
    r
}

} // verus!
