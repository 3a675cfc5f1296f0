//! File-system paths as text: joining components as `PathBuf::join` does
//! on Unix, the file name and extension of a path, and the directory
//! layout of per-app data.

use vstd::prelude::*;
use crate::text::{chars_of, push_str, split_spec, starts_with_spec, ends_with_spec};

verus! {

/// `base` joined with `p` as `Path::join` does on Unix: an absolute `p`
/// replaces `base`; otherwise `p` is appended after a `/` unless `base` is
/// empty or already ends with one.
pub open spec fn join_spec(base: Seq<char>, p: Seq<char>) -> Seq<char> {
    if p.len() > 0 && p[0] == '/' {
        p
    } else if base.len() == 0 || base.last() == '/' {
        base + p
    } else {
        base + seq!['/'] + p
    }
}

/// `base` joined with `p`.
pub fn join(base: &str, p: &str) -> (r: String)
    ensures
        r@ == join_spec(base@, p@),
{
    let b = chars_of(base);
    let q = chars_of(p);
    if q.len() > 0 && q[0] == '/' {
        return crate::text::string_of(q.as_slice());
    }
    let mut r = crate::text::string_of(b.as_slice());
    if b.len() > 0 && b[b.len() - 1] != '/' {
        r.push('/');
    }
    crate::text::push_chars(&mut r, q.as_slice());
    r
}

/// The last normal component of a path: the pieces between `/` with the
/// empty ones and `.` left out, the last of them unless it is `..`
/// (`Path::file_name`).
pub open spec fn file_name_spec(path: Seq<char>) -> Option<Seq<char>> {
    let parts = normal_components(split_spec(path, '/'));
    if parts.len() == 0 || parts.last() == seq!['.', '.'] {
        None
    } else {
        Some(parts.last())
    }
}

/// Whether a path piece names something: neither empty nor `.`.
pub open spec fn is_normal_component(p: Seq<char>) -> bool {
    p.len() > 0 && p != seq!['.']
}

/// The pieces that name something, in order.
pub open spec fn normal_components(parts: Seq<Seq<char>>) -> Seq<Seq<char>> {
    parts.filter(|p: Seq<char>| is_normal_component(p))
}

proof fn lemma_normal_components_push(t: Seq<Seq<char>>)
    requires
        t.len() > 0,
    ensures
        normal_components(t) == if is_normal_component(t.last()) {
            normal_components(t.drop_last()).push(t.last())
        } else {
            normal_components(t.drop_last())
        },
{
    reveal(Seq::filter);
}

/// The extension of a file name: what follows its last `.`, unless that
/// dot is its first character or there is none (`Path::extension`).
pub open spec fn name_extension_spec(name: Seq<char>) -> Option<Seq<char>> {
    if name == seq!['.', '.'] {
        None
    } else {
        match last_dot(name) {
            Some(i) => if i == 0 { None } else { Some(name.skip(i + 1)) },
            None => None,
        }
    }
}

/// The index of the last `.` in `s`, if any.
pub open spec fn last_dot(s: Seq<char>) -> Option<int> {
    if exists|i: int| 0 <= i < s.len() && s[i] == '.' {
        Some(choose|i: int| 0 <= i < s.len() && s[i] == '.' && forall|j: int| i < j < s.len() ==> s[j] != '.')
    } else {
        None
    }
}

/// The extension of `path`.
pub open spec fn extension_spec(path: Seq<char>) -> Option<Seq<char>> {
    match file_name_spec(path) {
        Some(n) => name_extension_spec(n),
        None => None,
    }
}

/// The file name of `path`, if it has one.
pub fn file_name(path: &str) -> (r: Option<String>)
    ensures
        match r {
            Some(n) => file_name_spec(path@) == Some(n@),
            None => file_name_spec(path@) is None,
        },
{
    let v = chars_of(path);
    let pieces = crate::text::split_chars(v.as_slice(), '/');
    let ghost all = pieces@.map_values(|p: Vec<char>| p@);
    let mut k: usize = pieces.len();
    assert(all.take(k as int) == all);
    while k > 0 && !(pieces[k - 1].len() > 0 && !(pieces[k - 1].len() == 1 && pieces[k - 1][0]
        == '.'))
        invariant
            k <= pieces@.len(),
            all == pieces@.map_values(|p: Vec<char>| p@),
            normal_components(all) == normal_components(all.take(k as int)),
        decreases k,
    {
        proof {
            let t = all.take(k as int);
            assert(t.drop_last() == all.take(k - 1));
            assert(t.last() == pieces@[k - 1]@);
            let p = pieces@[k - 1]@;
            if p.len() == 1 {
                assert(p =~= seq!['.']);
            }
            assert(p.len() == 0 || p == seq!['.']);
            assert(!is_normal_component(p));
            lemma_normal_components_push(t);
        }
        k = k - 1;
    }
    if k == 0 {
        proof {
            assert(all.take(0) =~= Seq::<Seq<char>>::empty());
            assert(normal_components(all.take(0)) =~= Seq::<Seq<char>>::empty()) by {
                reveal(Seq::filter);
            }
        }
        return None;
    }
    let last = &pieces[k - 1];
    proof {
        let t = all.take(k as int);
        assert(t.last() == last@);
        if last@ == seq!['.'] {
            assert(last@.len() == 1 && last@[0] == '.');
        }
        assert(is_normal_component(t.last()));
        lemma_normal_components_push(t);
        assert(all == split_spec(v@, '/'));
    }
    if last.len() == 2 && last[0] == '.' && last[1] == '.' {
        assert(last@ =~= seq!['.', '.']);
        return None;
    }
    assert(last@ != seq!['.', '.']);
    Some(crate::text::string_of(last.as_slice()))
}

/// The extension of the file name `name`.
pub fn name_extension(name: &[char]) -> (r: Option<Vec<char>>)
    ensures
        match r {
            Some(e) => name_extension_spec(name@) == Some(e@),
            None => name_extension_spec(name@) is None,
        },
{
    if name.len() == 2 && name[0] == '.' && name[1] == '.' {
        assert(name@ =~= seq!['.', '.']);
        return None;
    }
    assert(name@ != seq!['.', '.']);
    match crate::text::rfind_char(name, '.') {
        Some(i) => {
            proof {
                let w = choose|k: int|
                    0 <= k < name@.len() && name@[k] == '.' && forall|j: int|
                        k < j < name@.len() ==> name@[j] != '.';
                assert(0 <= i < name@.len() && name@[i as int] == '.' && forall|j: int|
                    i < j < name@.len() ==> name@[j] != '.');
                if w < i {
                    assert(name@[i as int] != '.');
                } else if w > i {
                }
            }
            if i == 0 {
                None
            } else {
                Some(crate::text::slice_vec(name, i + 1, name.len()))
            }
        },
        None => None,
    }
}

/// The extension of `path`, if it has one.
pub fn extension(path: &str) -> (r: Option<String>)
    ensures
        match r {
            Some(e) => extension_spec(path@) == Some(e@),
            None => extension_spec(path@) is None,
        },
{
    match file_name(path) {
        Some(n) => {
            let v = chars_of(n.as_str());
            match name_extension(v.as_slice()) {
                Some(e) => Some(crate::text::string_of(e.as_slice())),
                None => None,
            }
        },
        None => None,
    }
}

/// The lowercased extension of `path`, or the empty text when it has
/// none, as the MIME lookups compute it.
pub open spec fn lower_extension_spec(path: Seq<char>) -> Seq<char> {
    crate::text::lowercase_of(
        match extension_spec(path) {
            Some(e) => e,
            None => Seq::empty(),
        },
    )
}

/// The lowercased extension of `path`.
pub fn lower_extension(path: &str) -> (r: String)
    ensures
        r@ == lower_extension_spec(path@),
{
    let e = match extension(path) {
        Some(e) => e,
        None => String::new(),
    };
    crate::text::to_lowercase(e.as_str())
}

// -------------------------------------------------------- per-app layout

/// `{base}/apps/{app_id}`, where an app keeps its own data.
pub open spec fn app_data_dir_spec(app_id: Seq<char>, base: Seq<char>) -> Seq<char> {
    join_spec(join_spec(base, "apps"@), app_id)
}

/// Each app has a data directory of its own: two different app ids, neither
/// starting with `/`, get different directories under the same base.
pub proof fn lemma_app_data_dirs_distinct(a: Seq<char>, b: Seq<char>, base: Seq<char>)
    requires
        a != b,
        !(a.len() > 0 && a[0] == '/'),
        !(b.len() > 0 && b[0] == '/'),
    ensures
        app_data_dir_spec(a, base) != app_data_dir_spec(b, base),
{
    reveal_strlit("apps");
    let x = join_spec(base, "apps"@);
    assert(x.len() > 0 && x.last() == 's');
    let pa = x + seq!['/'] + a;
    let pb = x + seq!['/'] + b;
    assert(app_data_dir_spec(a, base) == pa);
    assert(app_data_dir_spec(b, base) == pb);
    let n: int = x.len() as int + 1;
    assert(pa.skip(n) =~= a);
    assert(pb.skip(n) =~= b);
}

/// The data directory of app `app_id` under `base_dir`.
pub fn get_app_data_dir(app_id: &str, base_dir: &str) -> (r: String)
    ensures
        r@ == app_data_dir_spec(app_id@, base_dir@),
{
    let d = join(base_dir, "apps");
    join(d.as_str(), app_id)
}

/// `data.db` inside the app's data directory.
pub open spec fn app_db_path_spec(app_id: Seq<char>, base: Seq<char>) -> Seq<char> {
    join_spec(app_data_dir_spec(app_id, base), "data.db"@)
}

/// The database file of app `app_id` under `base_dir`.
pub fn get_app_db_path(app_id: &str, base_dir: &str) -> (r: String)
    ensures
        r@ == app_db_path_spec(app_id@, base_dir@),
{
    let d = get_app_data_dir(app_id, base_dir);
    join(d.as_str(), "data.db")
}

/// The directories that app `app_id` is given at install: its own
/// directory `{base}/apps/{app_id}` and the `files` and `cache` directories
/// in it, in the order they are created.
pub fn app_dirs(app_id: &str, base_dir: &str) -> (r: Vec<String>)
    ensures
        r@.len() == 3,
        r@[0]@ == app_data_dir_spec(app_id@, base_dir@),
        r@[1]@ == join_spec(r@[0]@, "files"@),
        r@[2]@ == join_spec(r@[0]@, "cache"@),
{
    let app_dir = get_app_data_dir(app_id, base_dir);
    let files = join(app_dir.as_str(), "files");
    let cache = join(app_dir.as_str(), "cache");
    let mut r = Vec::new();
    r.push(app_dir);
    r.push(files);
    r.push(cache);
    r
}

} // verus!
