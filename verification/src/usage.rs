//! Storage used by the apps: which apps have data, how their usage adds
//! up, the order it is listed in, and the directories a clean-up removes.

use vstd::prelude::*;
use crate::paths::{app_data_dir_spec, get_app_data_dir, join, join_spec};
use crate::text::eq_str;

verus! {

broadcast use vstd::seq_lib::to_multiset_build, vstd::seq_lib::to_multiset_insert;

/// How much one app stores.
pub struct DataUsageInfo {
    pub app_id: String,
    pub app_name: String,
    pub total_bytes: u64,
    pub sqlite_bytes: u64,
    pub cache_bytes: u64,
    pub persistent_cache_bytes: u64,
    pub opfs_bytes: u64,
    pub file_count: usize,
}

/// How much the container stores as a whole.
pub struct SystemDataInfo {
    pub database_bytes: u64,
    pub total_cache_bytes: u64,
    pub total_pwa_data_bytes: u64,
    pub webview_cache_bytes: u64,
}

/// The measured sizes of one app: its whole directory and its `sqlite`,
/// `cache`, `persistent_cache` and `opfs` directories, its file count, and
/// the estimated bytes of its key-value, record and field rows.
pub struct RawUsage {
    pub file_bytes: u64,
    pub sqlite_file_bytes: u64,
    pub cache_bytes: u64,
    pub persistent_cache_bytes: u64,
    pub opfs_bytes: u64,
    pub file_count: usize,
    pub kv_bytes: u64,
    pub eav_data_bytes: u64,
    pub eav_schema_bytes: u64,
}

/// The bytes of an app's database rows.
pub open spec fn db_bytes(r: RawUsage) -> int {
    r.kv_bytes + r.eav_data_bytes + r.eav_schema_bytes
}

/// The usage of an app: the database usage is its `sqlite` directory plus
/// its rows, the total its directory plus its rows; the name is the stored
/// one, else the id. The sums are taken to fit in `u64`.
pub fn usage_info(app_id: String, stored_name: Option<String>, raw: &RawUsage) -> (r: DataUsageInfo)
    requires
        raw.sqlite_file_bytes + db_bytes(*raw) <= u64::MAX,
        raw.file_bytes + db_bytes(*raw) <= u64::MAX,
    ensures
        r.app_id == app_id,
        r.app_name == match stored_name {
            Some(n) => n,
            None => app_id,
        },
        r.sqlite_bytes == raw.sqlite_file_bytes + db_bytes(*raw),
        r.total_bytes == raw.file_bytes + db_bytes(*raw),
        r.cache_bytes == raw.cache_bytes,
        r.persistent_cache_bytes == raw.persistent_cache_bytes,
        r.opfs_bytes == raw.opfs_bytes,
        r.file_count == raw.file_count,
{
    let sqlite = raw.sqlite_file_bytes + raw.kv_bytes + raw.eav_data_bytes + raw.eav_schema_bytes;
    let total = raw.file_bytes + raw.kv_bytes + raw.eav_data_bytes + raw.eav_schema_bytes;
    let name = match stored_name {
        Some(n) => n,
        None => app_id.clone(),
    };
    DataUsageInfo {
        app_id,
        app_name: name,
        total_bytes: total,
        sqlite_bytes: sqlite,
        cache_bytes: raw.cache_bytes,
        persistent_cache_bytes: raw.persistent_cache_bytes,
        opfs_bytes: raw.opfs_bytes,
        file_count: raw.file_count,
    }
}

/// The three queries whose sums estimate an app's rows, each with the app id
/// as its one parameter: key-value rows (key and value lengths), records
/// (the lengths of their four names) and the records' fields (key and value
/// lengths).
pub open spec fn size_queries() -> Seq<Seq<char>> {
    seq![
        "SELECT COALESCE(SUM(LENGTH(key) + LENGTH(value)), 0) FROM kv_store WHERE app_id = ?"@,
        "SELECT COALESCE(SUM(LENGTH(data_id) + LENGTH(pwa_id) + LENGTH(db_name) + LENGTH(table_name)), 0) \n         FROM pwa_data WHERE pwa_id = ?"@,
        "SELECT COALESCE(SUM(LENGTH(key) + LENGTH(value)), 0) \n         FROM pwa_schema_data \n         WHERE data_id IN (SELECT id FROM pwa_data WHERE pwa_id = ?)"@,
    ]
}

/// The query for the name an app was installed under, the app id as its
/// one parameter.
pub open spec fn name_query() -> Seq<char> {
    "SELECT name FROM apps WHERE id = ?"@
}

/// The three size queries, in the order of `size_queries`.
pub fn size_query_list() -> (r: Vec<&'static str>)
    ensures
        r@.map_values(|q: &str| q@) == size_queries(),
{
    let r = vec![
        "SELECT COALESCE(SUM(LENGTH(key) + LENGTH(value)), 0) FROM kv_store WHERE app_id = ?",
        "SELECT COALESCE(SUM(LENGTH(data_id) + LENGTH(pwa_id) + LENGTH(db_name) + LENGTH(table_name)), 0) \n         FROM pwa_data WHERE pwa_id = ?",
        "SELECT COALESCE(SUM(LENGTH(key) + LENGTH(value)), 0) \n         FROM pwa_schema_data \n         WHERE data_id IN (SELECT id FROM pwa_data WHERE pwa_id = ?)",
    ];
    assert(r@.map_values(|q: &str| q@) =~= size_queries());
    r
}

/// The name query, as `name_query` says.
pub fn app_name_query() -> (r: &'static str)
    ensures
        r@ == name_query(),
{
    "SELECT name FROM apps WHERE id = ?"
}

/// Reads one integer, the first column of the first row that `sql` gives
/// with `app_id` bound to its parameter, with
/// `rusqlite::Connection::query_row`; its error as text. Only the size
/// queries are handed to it. The value depends on what the database file
/// holds: nothing is stated of it.
#[verifier::external_body]
fn query_row_int(conn: &rusqlite::Connection, sql: &str, app_id: &str) -> (r: Result<i64, String>)
    requires
        size_queries().contains(sql@),
{
    match conn.query_row(sql, [app_id], |row| row.get(0)) {
        Ok(v) => Ok(v),
        Err(e) => Err(e.to_string()),
    }
}

/// Reads one text, the first column of the first row that `sql` gives with
/// `app_id` bound to its parameter, with `rusqlite::Connection::query_row`;
/// `None` where the query fails or finds no row. Only the name query is
/// handed to it. The value depends on what the database file holds:
/// nothing is stated of it.
#[verifier::external_body]
fn query_row_text(conn: &rusqlite::Connection, sql: &str, app_id: &str) -> (r: Option<String>)
    requires
        sql@ == name_query(),
{
    conn.query_row(sql, [app_id], |row| row.get(0)).ok()
}

/// The three answers combined: the first error where a query failed, else
/// each sum taken bit for bit as unsigned (`as u64`).
pub open spec fn combined_sizes(
    kv: Result<i64, String>,
    data: Result<i64, String>,
    schema: Result<i64, String>,
) -> Result<(u64, u64, u64), String> {
    match (kv, data, schema) {
        (Err(e), _, _) => Err(e),
        (Ok(_), Err(e), _) => Err(e),
        (Ok(_), Ok(_), Err(e)) => Err(e),
        (Ok(a), Ok(b), Ok(c)) => Ok((a as u64, b as u64, c as u64)),
    }
}

/// The sizes the three row queries give, combined as `combined_sizes` says.
pub fn row_sizes(kv: Result<i64, String>, data: Result<i64, String>, schema: Result<i64, String>) -> (r:
    Result<(u64, u64, u64), String>)
    ensures
        r == combined_sizes(kv, data, schema),
{
    let a = kv?;
    let b = data?;
    let c = schema?;
    Ok((a as u64, b as u64, c as u64))
}

/// The estimated bytes of an app's rows: the three `size_queries`, in
/// order, each run with `app_id` bound to its parameter, combined by
/// `row_sizes`. What the database answers depends on its file, so the
/// clause says only that the result is those three answers combined.
pub fn get_db_data_size_for_app(conn: &rusqlite::Connection, app_id: &str) -> (r: Result<
    (u64, u64, u64),
    String,
>)
    ensures
        exists|kv: Result<i64, String>, data: Result<i64, String>, schema: Result<i64, String>|
            r == combined_sizes(kv, data, schema),
{
    let q = size_query_list();
    proof {
        let v = q@.map_values(|x: &str| x@);
        assert(v.len() == 3);
        assert(v[0] == q@[0]@ && v[1] == q@[1]@ && v[2] == q@[2]@);
        assert(size_queries().contains(v[0]) && size_queries().contains(v[1]) && size_queries().contains(v[2]));
    }
    let kv = query_row_int(conn, q[0], app_id);
    let data = query_row_int(conn, q[1], app_id);
    let schema = query_row_int(conn, q[2], app_id);
    let r = row_sizes(kv, data, schema);
    assert(r == combined_sizes(kv, data, schema));
    r
}

/// The name an app was installed under: the `name_query` run with `app_id`
/// bound to its parameter. Whether the `apps` table holds a name depends on
/// the database file, so no clause can say what comes back.
pub fn get_app_name_from_db(conn: &rusqlite::Connection, app_id: &str) -> (r: Option<String>) {
    query_row_text(conn, app_name_query(), app_id)
}

/// Whether the list runs from the largest total to the smallest.
pub open spec fn sorted_desc(s: Seq<DataUsageInfo>) -> bool {
    forall|i: int, j: int| 0 <= i < j < s.len() ==> s[i].total_bytes >= s[j].total_bytes
}

/// The usages from the largest total to the smallest, the same entries.
pub fn sort_by_total_desc(v: Vec<DataUsageInfo>) -> (r: Vec<DataUsageInfo>)
    ensures
        r@.to_multiset() == v@.to_multiset(),
        sorted_desc(r@),
{
    let mut r: Vec<DataUsageInfo> = Vec::new();
    let mut rest = v;
    let ghost orig = rest@;
    let mut i: usize = 0;
    let n = rest.len();
    assert(orig.take(0) =~= Seq::<DataUsageInfo>::empty());
    while rest.len() > 0
        invariant
            rest@.len() + r@.len() == orig.len(),
            r@.to_multiset() == orig.take(r@.len() as int).to_multiset(),
            rest@ == orig.skip(r@.len() as int),
            sorted_desc(r@),
        decreases rest@.len(),
    {
        let ghost k: int = r@.len() as int;
        let x = rest.remove(0);
        assert(x == orig[k]);
        assert(rest@ =~= orig.skip(k + 1));
        let mut j: usize = 0;
        while j < r.len() && r[j].total_bytes >= x.total_bytes
            invariant
                j <= r@.len(),
                forall|a: int| 0 <= a < j ==> r@[a].total_bytes >= x.total_bytes,
            decreases r@.len() - j,
        {
            j = j + 1;
        }
        let ghost before = r@;
        r.insert(j, x);
        proof {
            assert(orig.take(k + 1) =~= orig.take(k).push(x));
            assert forall|a: int, b: int| 0 <= a < b < r@.len() implies r@[a].total_bytes
                >= r@[b].total_bytes by {
                if b < j {
                    assert(r@[a] == before[a] && r@[b] == before[b]);
                } else if b == j {
                    assert(r@[a] == before[a]);
                } else if a == j {
                    assert(r@[b] == before[b - 1]);
                    if j < before.len() {
                        assert(before[j as int].total_bytes < x.total_bytes);
                        if b - 1 > j {
                            assert(before[j as int].total_bytes >= before[b - 1].total_bytes);
                        }
                    }
                } else if a < j {
                    assert(r@[a] == before[a] && r@[b] == before[b - 1]);
                } else {
                    assert(r@[a] == before[a - 1] && r@[b] == before[b - 1]);
                }
            }
        }
    }
    assert(orig.take(orig.len() as int) == orig);
    r
}

/// The texts of a list of strings.
pub open spec fn texts(v: Seq<String>) -> Seq<Seq<char>> {
    v.map_values(|x: String| x@)
}

/// Whether `s` lists each text at most once.
pub open spec fn distinct_texts(s: Seq<Seq<char>>) -> bool {
    forall|i: int, j: int| 0 <= i < j < s.len() ==> s[i] != s[j]
}

fn contains_text(v: &Vec<String>, s: &str) -> (r: bool)
    ensures
        r == texts(v@).contains(s@),
{
    let ghost vv = texts(v@);
    let mut i: usize = 0;
    while i < v.len()
        invariant
            i <= v@.len(),
            vv == texts(v@),
            forall|j: int| 0 <= j < i ==> vv[j] != s@,
        decreases v@.len() - i,
    {
        if eq_str(v[i].as_str(), s) {
            assert(vv[i as int] == s@);
            return true;
        }
        i = i + 1;
    }
    false
}

fn add_new(r: &mut Vec<String>, from: &Vec<String>)
    requires
        distinct_texts(texts(old(r)@)),
    ensures
        distinct_texts(texts(final(r)@)),
        forall|t: Seq<char>|
            #[trigger] texts(final(r)@).contains(t) <==> texts(old(r)@).contains(t) || texts(from@).contains(t),
{
    let ghost fv = texts(from@);
    let ghost start = texts(r@);
    let mut i: usize = 0;
    while i < from.len()
        invariant
            i <= from@.len(),
            fv == texts(from@),
            distinct_texts(texts(r@)),
            forall|t: Seq<char>|
                #[trigger] texts(r@).contains(t) <==> start.contains(t)
                    || fv.take(i as int).contains(t),
        decreases from@.len() - i,
    {
        let ghost before = texts(r@);
        let present = contains_text(r, from[i].as_str());
        if !present {
            r.push(from[i].clone());
            assert(texts(r@) =~= before.push(fv[i as int]));
        }
        proof {
            let now = texts(r@);
            let f1 = fv.take(i + 1);
            let f0 = fv.take(i as int);
            let x = fv[i as int];
            assert(f1 =~= f0.push(x));
            assert(f1[i as int] == x);
            assert(f1.contains(x));
            if present {
                assert(now == before);
                assert(before.contains(x));
            } else {
                assert(now == before.push(x));
                assert(now[before.len() as int] == x);
                assert(now.contains(x));
                assert forall|a: int, b: int| 0 <= a < b < now.len() implies now[a] != now[b] by {
                    if b == before.len() {
                        assert(now[a] == before[a]);
                    } else {
                        assert(now[a] == before[a] && now[b] == before[b]);
                    }
                }
            }
            assert forall|t: Seq<char>| #[trigger] now.contains(t) <==> start.contains(t) || f1.contains(t) by {
                if f0.contains(t) {
                    let w = choose|w: int| 0 <= w < f0.len() && f0[w] == t;
                    assert(f1[w] == t);
                }
                if f1.contains(t) && t != x {
                    let w = choose|w: int| 0 <= w < f1.len() && f1[w] == t;
                    assert(w != i);
                    assert(f0[w] == t);
                }
                if before.contains(t) {
                    let w = choose|w: int| 0 <= w < before.len() && before[w] == t;
                    if !present {
                        assert(now[w] == t);
                    }
                }
                if now.contains(t) && t != x {
                    let w = choose|w: int| 0 <= w < now.len() && now[w] == t;
                    if !present {
                        assert(w < before.len());
                        assert(before[w] == t);
                    }
                }
            }
        }
        i = i + 1;
    }
    assert(fv.take(from@.len() as int) =~= fv);
}

/// The apps that have data, each once: those with a directory, with
/// key-value rows, or with records.
pub fn collect_app_ids(dirs: &Vec<String>, kv_apps: &Vec<String>, record_apps: &Vec<String>) -> (r:
    Vec<String>)
    ensures
        distinct_texts(texts(r@)),
        forall|t: Seq<char>|
            #[trigger] texts(r@).contains(t) <==> texts(dirs@).contains(t) || texts(kv_apps@).contains(t)
                || texts(record_apps@).contains(t),
{
    let mut r: Vec<String> = Vec::new();
    assert(texts(r@) =~= Seq::<Seq<char>>::empty());
    add_new(&mut r, dirs);
    add_new(&mut r, kv_apps);
    add_new(&mut r, record_apps);
    r
}

/// The directories of an app measured for its usage, under
/// `{app data}/apps/{app_id}`: the directory itself, then `sqlite`,
/// `cache`, `persistent_cache` and `opfs`.
pub fn usage_dirs(app_data_dir: &str, app_id: &str) -> (r: Vec<String>)
    ensures
        r@.len() == 5,
        r@[0]@ == app_data_dir_spec(app_id@, app_data_dir@),
        r@[1]@ == join_spec(r@[0]@, "sqlite"@),
        r@[2]@ == join_spec(r@[0]@, "cache"@),
        r@[3]@ == join_spec(r@[0]@, "persistent_cache"@),
        r@[4]@ == join_spec(r@[0]@, "opfs"@),
{
    let d = get_app_data_dir(app_id, app_data_dir);
    let a = join(d.as_str(), "sqlite");
    let b = join(d.as_str(), "cache");
    let c = join(d.as_str(), "persistent_cache");
    let e = join(d.as_str(), "opfs");
    let mut r = Vec::new();
    r.push(d);
    r.push(a);
    r.push(b);
    r.push(c);
    r.push(e);
    r
}

/// The directories a clean-up of an app removes, in order: `sqlite`,
/// `cache`, `persistent_cache` and `opfs`, each where asked (the database
/// rows of the app go with `sqlite`).
pub open spec fn cleared_dirs_spec(
    app_dir: Seq<char>,
    sqlite: bool,
    cache: bool,
    persistent_cache: bool,
    opfs: bool,
) -> Seq<Seq<char>> {
    let a = if sqlite {
        seq![join_spec(app_dir, "sqlite"@)]
    } else {
        Seq::empty()
    };
    let b = if cache {
        a.push(join_spec(app_dir, "cache"@))
    } else {
        a
    };
    let c = if persistent_cache {
        b.push(join_spec(app_dir, "persistent_cache"@))
    } else {
        b
    };
    if opfs {
        c.push(join_spec(app_dir, "opfs"@))
    } else {
        c
    }
}

/// The number of `true` among the flags.
pub open spec fn flag_count(a: bool, b: bool, c: bool, d: bool) -> nat {
    (if a { 1nat } else { 0nat }) + (if b { 1nat } else { 0nat }) + (if c { 1nat } else { 0nat }) + (
    if d { 1nat } else { 0nat })
}

/// A clean-up removes exactly the directories asked for: the app
/// directory's `sqlite` when `sqlite` is set, `cache` when `cache` is set,
/// `persistent_cache` when `persistent_cache` is set and `opfs` when `opfs`
/// is set, each once, and nothing else.
pub proof fn lemma_cleared_dirs(app_dir: Seq<char>, sqlite: bool, cache: bool, persistent_cache: bool, opfs: bool)
    ensures
        ({
            let r = cleared_dirs_spec(app_dir, sqlite, cache, persistent_cache, opfs);
            &&& r.contains(join_spec(app_dir, "sqlite"@)) == sqlite
            &&& r.contains(join_spec(app_dir, "cache"@)) == cache
            &&& r.contains(join_spec(app_dir, "persistent_cache"@)) == persistent_cache
            &&& r.contains(join_spec(app_dir, "opfs"@)) == opfs
            &&& r.len() == flag_count(sqlite, cache, persistent_cache, opfs)
            &&& forall|i: int|
                0 <= i < r.len() ==> #[trigger] r[i] == join_spec(app_dir, "sqlite"@) || r[i] == join_spec(
                    app_dir,
                    "cache"@,
                ) || r[i] == join_spec(app_dir, "persistent_cache"@) || r[i] == join_spec(app_dir, "opfs"@)
        }),
{
    reveal_strlit("sqlite");
    reveal_strlit("cache");
    reveal_strlit("persistent_cache");
    reveal_strlit("opfs");
    let ds = join_spec(app_dir, "sqlite"@);
    let dc = join_spec(app_dir, "cache"@);
    let dp = join_spec(app_dir, "persistent_cache"@);
    let d_o = join_spec(app_dir, "opfs"@);
    let extra: int = if app_dir.len() == 0 || app_dir.last() == '/' { 0 } else { 1 };
    assert(ds.len() == app_dir.len() + extra + 6);
    assert(dc.len() == app_dir.len() + extra + 5);
    assert(dp.len() == app_dir.len() + extra + 16);
    assert(d_o.len() == app_dir.len() + extra + 4);
    let r = cleared_dirs_spec(app_dir, sqlite, cache, persistent_cache, opfs);
    let a = if sqlite { seq![ds] } else { Seq::empty() };
    let b = if cache { a.push(dc) } else { a };
    let c = if persistent_cache { b.push(dp) } else { b };
    assert(r == if opfs { c.push(d_o) } else { c });
    assert forall|x: Seq<char>| #[trigger] r.contains(x) <==> (sqlite && x == ds) || (cache && x == dc) || (
    persistent_cache && x == dp) || (opfs && x == d_o) by {
        if r.contains(x) {
            let i = choose|i: int| 0 <= i < r.len() && r[i] == x;
            if opfs && i == c.len() {
            } else {
                assert(c[i] == x);
                if persistent_cache && i == b.len() {
                } else {
                    assert(b[i] == x);
                    if cache && i == a.len() {
                    } else {
                        assert(a[i] == x);
                    }
                }
            }
        }
        if sqlite && x == ds {
            assert(a[0] == x);
            assert(b[0] == x && c[0] == x && r[0] == x);
        }
        if cache && x == dc {
            assert(b[a.len() as int] == x);
            assert(c[a.len() as int] == x && r[a.len() as int] == x);
        }
        if persistent_cache && x == dp {
            assert(c[b.len() as int] == x);
            assert(r[b.len() as int] == x);
        }
        if opfs && x == d_o {
            assert(r[c.len() as int] == x);
        }
    }
    assert forall|i: int| 0 <= i < r.len() implies #[trigger] r[i] == ds || r[i] == dc || r[i] == dp || r[i] == d_o by {
        assert(r.contains(r[i]));
    }
}

/// The directories a clean-up of an app removes.
pub fn cleared_dirs(
    app_data_dir: &str,
    app_id: &str,
    sqlite: bool,
    cache: bool,
    persistent_cache: bool,
    opfs: bool,
) -> (r: Vec<String>)
    ensures
        texts(r@) == cleared_dirs_spec(
            app_data_dir_spec(app_id@, app_data_dir@),
            sqlite,
            cache,
            persistent_cache,
            opfs,
        ),
{
    let d = get_app_data_dir(app_id, app_data_dir);
    let mut r: Vec<String> = Vec::new();
    if sqlite {
        r.push(join(d.as_str(), "sqlite"));
    }
    if cache {
        r.push(join(d.as_str(), "cache"));
    }
    if persistent_cache {
        r.push(join(d.as_str(), "persistent_cache"));
    }
    if opfs {
        r.push(join(d.as_str(), "opfs"));
    }
    assert(texts(r@) =~= cleared_dirs_spec(d@, sqlite, cache, persistent_cache, opfs));
    r
}

} // verus!
