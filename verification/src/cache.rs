//! The persistent cache of an application: where its files lie, and the
//! index of its entries (what `_metadata.json` holds) with the rules for
//! storing, reading, expiring, listing and counting them.

use vstd::prelude::*;
use crate::b64::{
    encode_spec, lemma_unpadded_encode_injective, lemma_url_safe_chars, lemma_url_safe_no_slash, standard_decode,
    standard_encode, url_safe_char, url_safe_encode,
};
use crate::paths::{app_data_dir_spec, get_app_data_dir, join, join_spec};
use crate::strmap::StrMap;
use crate::text::{owned, push_str, starts_with_spec};

verus! {

// ------------------------------------------------------------ paths

/// `{app data dir}/persistent_cache`.
pub open spec fn cache_dir_spec(app_id: Seq<char>, base: Seq<char>) -> Seq<char> {
    join_spec(app_data_dir_spec(app_id, base), "persistent_cache"@)
}

/// The cache directory of `app_id` under `app_data_dir`.
pub fn get_cache_dir(app_id: &str, app_data_dir: &str) -> (r: String)
    ensures
        r@ == cache_dir_spec(app_id@, app_data_dir@),
{
    let d = get_app_data_dir(app_id, app_data_dir);
    join(d.as_str(), "persistent_cache")
}

/// The index file `_metadata.json` in the cache directory.
pub fn get_metadata_path(app_id: &str, app_data_dir: &str) -> (r: String)
    ensures
        r@ == join_spec(cache_dir_spec(app_id@, app_data_dir@), "_metadata.json"@),
{
    let d = get_cache_dir(app_id, app_data_dir);
    join(d.as_str(), "_metadata.json")
}

/// The name a key's file is stored under: the URL-safe unpadded base64 of
/// the key's UTF-8 bytes, so that any key makes a safe file name.
pub open spec fn sanitized_key(key: Seq<char>) -> Seq<char> {
    encode_spec(vstd::utf8::encode_utf8(key), true, false)
}

/// The key's file name, as `sanitized_key` says.
pub fn sanitize_key(key: &str) -> (r: String)
    ensures
        r@ == sanitized_key(key@),
{
    url_safe_encode(key.as_bytes())
}

/// `{cache dir}/{sanitized key}.bin`.
pub open spec fn cache_file_spec(app_id: Seq<char>, key: Seq<char>, base: Seq<char>) -> Seq<char> {
    join_spec(cache_dir_spec(app_id, base), sanitized_key(key) + ".bin"@)
}

/// The file that holds the data of `key`.
pub fn get_cache_file_path(app_id: &str, key: &str, app_data_dir: &str) -> (r: String)
    ensures
        r@ == cache_file_spec(app_id@, key@, app_data_dir@),
{
    let mut name = sanitize_key(key);
    push_str(&mut name, ".bin");
    let d = get_cache_dir(app_id, app_data_dir);
    join(d.as_str(), name.as_str())
}

// ------------------------------------------------------------ entries

/// What the index records of one cached item.
pub struct CacheEntry {
    pub key: String,
    pub mime_type: String,
    pub size: u64,
    pub created_at: i64,
    pub updated_at: i64,
    pub expires_at: Option<i64>,
    pub metadata: Option<Vec<(String, String)>>,
}

/// A cache entry as values.
pub struct EntryView {
    pub key: Seq<char>,
    pub mime_type: Seq<char>,
    pub size: u64,
    pub created_at: i64,
    pub updated_at: i64,
    pub expires_at: Option<i64>,
    pub metadata: Option<Seq<(Seq<char>, Seq<char>)>>,
}

impl View for CacheEntry {
    type V = EntryView;

    open spec fn view(&self) -> EntryView {
        EntryView {
            key: self.key@,
            mime_type: self.mime_type@,
            size: self.size,
            created_at: self.created_at,
            updated_at: self.updated_at,
            expires_at: self.expires_at,
            metadata: match self.metadata {
                Some(m) => Some(crate::cookies::pairs_text(m@)),
                None => None,
            },
        }
    }
}

/// How an item is stored: its MIME type, its lifetime in seconds (none:
/// it never expires), and extra data.
pub struct CacheSetOptions {
    pub mime_type: Option<String>,
    pub ttl: Option<i64>,
    pub metadata: Option<Vec<(String, String)>>,
}

/// What a read of the cache gives: the entry with its data as standard
/// base64.
pub struct CacheGetResult {
    pub key: String,
    pub data: String,
    pub mime_type: String,
    pub size: u64,
    pub created_at: i64,
    pub updated_at: i64,
    pub expires_at: Option<i64>,
}

/// A read's result as plain values.
pub struct GetResultView {
    pub key: Seq<char>,
    pub data: Seq<char>,
    pub mime_type: Seq<char>,
    pub size: u64,
    pub created_at: i64,
    pub updated_at: i64,
    pub expires_at: Option<i64>,
}

impl View for CacheGetResult {
    type V = GetResultView;

    open spec fn view(&self) -> GetResultView {
        GetResultView {
            key: self.key@,
            data: self.data@,
            mime_type: self.mime_type@,
            size: self.size,
            created_at: self.created_at,
            updated_at: self.updated_at,
            expires_at: self.expires_at,
        }
    }
}

/// What a read hands back for the entry `e` and the bytes of its file: the
/// entry's fields, with the bytes as standard base64.
pub open spec fn get_result_spec(e: EntryView, bytes: Seq<u8>) -> GetResultView {
    GetResultView {
        key: e.key,
        data: encode_spec(bytes, false, true),
        mime_type: e.mime_type,
        size: e.size,
        created_at: e.created_at,
        updated_at: e.updated_at,
        expires_at: e.expires_at,
    }
}

pub(crate) fn copy_pairs(v: &Vec<(String, String)>) -> (r: Vec<(String, String)>)
    ensures
        r@ == v@,
{
    let mut r: Vec<(String, String)> = Vec::new();
    let mut i: usize = 0;
    while i < v.len()
        invariant
            i <= v@.len(),
            r@ == v@.take(i as int),
        decreases v@.len() - i,
    {
        let k = v[i].0.clone();
        let w = v[i].1.clone();
        r.push((k, w));
        assert(v@.take(i + 1) == v@.take(i as int).push(v@[i as int]));
        i = i + 1;
    }
    assert(v@.take(v@.len() as int) == v@);
    r
}

impl CacheEntry {
    /// A copy of the entry.
    pub fn copy(&self) -> (r: CacheEntry)
        ensures
            r@ == self@,
    {
        CacheEntry {
            key: self.key.clone(),
            mime_type: self.mime_type.clone(),
            size: self.size,
            created_at: self.created_at,
            updated_at: self.updated_at,
            expires_at: self.expires_at,
            metadata: match &self.metadata {
                Some(m) => Some(copy_pairs(m)),
                None => None,
            },
        }
    }
}

/// Whether an entry is still valid at time `now`: it has no expiry, or
/// `now` is not past it.
pub open spec fn live(e: EntryView, now: i64) -> bool {
    match e.expires_at {
        Some(x) => now <= x,
        None => true,
    }
}

/// `application/octet-stream`.
pub open spec fn octet_stream() -> Seq<char> {
    "application/octet-stream"@
}

/// The entry stored for `key` with `size` bytes at time `now`: the given
/// MIME type (`application/octet-stream` by default), the creation time of
/// an earlier entry for the key (or `now`), updated `now`, expiring `ttl`
/// seconds after `now` where a lifetime is given, with no extra data.
pub open spec fn stored_entry(
    prev: Option<EntryView>,
    key: Seq<char>,
    size: u64,
    mime: Option<Seq<char>>,
    ttl: Option<i64>,
    now: i64,
) -> EntryView {
    EntryView {
        key,
        mime_type: match mime {
            Some(m) => m,
            None => octet_stream(),
        },
        size,
        created_at: match prev {
            Some(p) => p.created_at,
            None => now,
        },
        updated_at: now,
        expires_at: match ttl {
            Some(t) => Some((now + t) as i64),
            None => None,
        },
        metadata: None,
    }
}

// ------------------------------------------------------------ index

/// The index of an application's cache: key to entry.
pub struct CacheIndex {
    entries: StrMap<CacheEntry>,
}

impl View for CacheIndex {
    type V = Map<Seq<char>, EntryView>;

    closed spec fn view(&self) -> Map<Seq<char>, EntryView> {
        self.entries@
    }
}

/// The entry under `key`, if any.
pub open spec fn entry_of(m: Map<Seq<char>, EntryView>, key: Seq<char>) -> Option<EntryView> {
    if m.dom().contains(key) {
        Some(m[key])
    } else {
        None
    }
}

/// What a lookup finds.
pub enum CacheLookup {
    /// No entry for the key.
    Missing,
    /// An entry whose time has passed; it is to be deleted.
    Expired,
    /// A valid entry.
    Present(CacheEntry),
}

/// The entries that are valid at `now`, in order.
pub open spec fn live_entries(s: Seq<EntryView>, now: i64) -> Seq<EntryView>
    decreases s.len(),
{
    if s.len() == 0 {
        Seq::empty()
    } else if live(s.last(), now) {
        live_entries(s.drop_last(), now).push(s.last())
    } else {
        live_entries(s.drop_last(), now)
    }
}

/// The sum of the entries' sizes.
pub open spec fn size_sum(s: Seq<EntryView>) -> int
    decreases s.len(),
{
    if s.len() == 0 {
        0
    } else {
        size_sum(s.drop_last()) + s.last().size
    }
}

/// The counts of a cache: all entries, the valid and the expired ones, and
/// the total size of the valid ones.
pub struct CacheCounts {
    pub total_entries: usize,
    pub valid_entries: usize,
    pub expired_entries: usize,
    pub total_size_bytes: u64,
}

/// `解码 base64 失败: `, the start of the error for data that is no base64.
pub open spec fn decode_failure_prefix() -> Seq<char> {
    "解码 base64 失败: "@
}

impl CacheIndex {
    /// Each key is held once.
    pub closed spec fn wf(&self) -> bool {
        self.entries.wf()
    }

    /// The entries in the order the index holds them.
    pub closed spec fn entries(&self) -> Seq<EntryView> {
        self.entries.values().map_values(|e: CacheEntry| e@)
    }

    /// An empty index.
    pub fn new() -> (r: Self)
        ensures
            r.wf(),
            r@ == Map::<Seq<char>, EntryView>::empty(),
    {
        CacheIndex { entries: StrMap::new() }
    }

    /// Records `entry` under `key`, replacing an earlier entry.
    pub fn insert(&mut self, key: String, entry: CacheEntry)
        requires
            old(self).wf(),
        ensures
            final(self).wf(),
            final(self)@ == old(self)@.insert(key@, entry@),
    {
        self.entries.insert(key, entry);
    }

    /// Drops the entry of `key`, if any.
    pub fn remove(&mut self, key: &str)
        requires
            old(self).wf(),
        ensures
            final(self).wf(),
            final(self)@ == old(self)@.remove(key@),
    {
        self.entries.remove(key);
    }

    /// The number of entries.
    pub fn len(&self) -> (n: usize)
        requires
            self.wf(),
        ensures
            n == self@.dom().len(),
    {
        self.entries.len()
    }

    /// The key and a copy of the entry at position `i` of the index.
    pub fn entry_at(&self, i: usize) -> (r: (String, CacheEntry))
        requires
            self.wf(),
            i < self@.dom().len(),
        ensures
            self@.dom().contains(r.0@),
            self@[r.0@] == r.1@,
            r.1@ == self.entries()[i as int],
    {
        proof {
            self.entries.lemma_values_view();
        }
        let (k, e) = self.entries.entry_at(i);
        (k.clone(), e.copy())
    }

    /// The entries list every entry of the map, each at the position of its
    /// key in the index.
    pub proof fn lemma_entries(&self)
        requires
            self.wf(),
        ensures
            self.entries().len() == self@.dom().len(),
            forall|e: EntryView| #[trigger]
                self.entries().contains(e) ==> exists|k: Seq<char>|
                    self@.dom().contains(k) && self@[k] == e,
            forall|k: Seq<char>| #[trigger]
                self@.dom().contains(k) ==> self.entries().contains(self@[k]),
    {
        self.entries.lemma_values_view();
        self.entries.lemma_key_order();
        let ko = self.entries.key_order();
        let es = self.entries();
        assert forall|e: EntryView| #[trigger] es.contains(e) implies exists|k: Seq<char>|
            self@.dom().contains(k) && self@[k] == e by {
            let i = choose|i: int| 0 <= i < es.len() && es[i] == e;
            assert(self.entries.values()[i]@ == self@[ko[i]]);
        }
        assert forall|k: Seq<char>| #[trigger] self@.dom().contains(k) implies es.contains(
            self@[k],
        ) by {
            assert(ko.contains(k));
            let i = choose|i: int| 0 <= i < ko.len() && ko[i] == k;
            assert(self.entries.values()[i]@ == self@[ko[i]]);
            assert(es[i] == self@[k]);
        }
    }
}

/// Stores the data `data`, given as standard base64, under `key` at time
/// `now`, and hands back the decoded bytes to be written to the key's file.
/// Where `data` is no standard base64 the index is left as it was and an
/// error is returned. A lifetime that would carry the expiry time out of
/// `i64` is left out.
pub fn cache_set(
    index: &mut CacheIndex,
    key: &str,
    data: &str,
    options: Option<&CacheSetOptions>,
    now: i64,
) -> (r: Result<Vec<u8>, String>)
    requires
        old(index).wf(),
        options matches Some(o) ==> (o.ttl matches Some(t) ==> i64::MIN <= now + t <= i64::MAX),
    ensures
        final(index).wf(),
        r is Ok <==> exists|d: Seq<u8>| #[trigger] encode_spec(d, false, true) == data@,
        r matches Ok(bytes) ==> {
            &&& encode_spec(bytes@, false, true) == data@
            &&& final(index)@ == old(index)@.insert(
                key@,
                stored_entry(
                    entry_of(old(index)@, key@),
                    key@,
                    bytes@.len() as u64,
                    match options {
                        Some(o) => match o.mime_type {
                            Some(m) => Some(m@),
                            None => None,
                        },
                        None => None,
                    },
                    match options {
                        Some(o) => o.ttl,
                        None => None,
                    },
                    now,
                ),
            )
        },
        r matches Err(m) ==> final(index)@ == old(index)@ && starts_with_spec(
            m@,
            decode_failure_prefix(),
        ),
{
    let bytes = match standard_decode(data) {
        Ok(b) => b,
        Err(e) => {
            let mut m = String::new();
            proof {
                reveal_strlit("解码 base64 失败: ");
            }
            push_str(&mut m, "解码 base64 失败: ");
            let ghost p = m@;
            push_str(&mut m, e.as_str());
            assert(m@.subrange(0, p.len() as int) =~= p);
            return Err(m);
        },
    };
    let created = match index.entries.get(key) {
        Some(prev) => prev.created_at,
        None => now,
    };
    let mime = match options {
        Some(o) => match &o.mime_type {
            Some(m) => m.clone(),
            None => owned("application/octet-stream"),
        },
        None => owned("application/octet-stream"),
    };
    let expires = match options {
        Some(o) => match o.ttl {
            Some(t) => Some(now + t),
            None => None,
        },
        None => None,
    };
    let entry = CacheEntry {
        key: owned(key),
        mime_type: mime,
        size: bytes.len() as u64,
        created_at: created,
        updated_at: now,
        expires_at: expires,
        metadata: None,
    };
    index.entries.insert(owned(key), entry);
    Ok(bytes)
}

/// What reading `key` at time `now` finds: nothing; an entry past its
/// expiry; or a valid entry.
pub open spec fn lookup_spec(m: Map<Seq<char>, EntryView>, key: Seq<char>, now: i64) -> Option<
    Option<EntryView>,
> {
    match entry_of(m, key) {
        None => None,
        Some(e) => if live(e, now) {
            Some(Some(e))
        } else {
            Some(None)
        },
    }
}

/// Looks `key` up at time `now`.
pub fn cache_lookup(index: &CacheIndex, key: &str, now: i64) -> (r: CacheLookup)
    requires
        index.wf(),
    ensures
        match r {
            CacheLookup::Missing => lookup_spec(index@, key@, now) == None::<Option<EntryView>>,
            CacheLookup::Expired => lookup_spec(index@, key@, now) == Some(None::<EntryView>),
            CacheLookup::Present(e) => lookup_spec(index@, key@, now) == Some(Some(e@)),
        },
{
    match index.entries.get(key) {
        None => CacheLookup::Missing,
        Some(e) => {
            let expired = match e.expires_at {
                Some(x) => now > x,
                None => false,
            };
            if expired {
                CacheLookup::Expired
            } else {
                CacheLookup::Present(e.copy())
            }
        },
    }
}

/// What a read hands back for a valid entry and the bytes of its file: the
/// entry's fields, with the bytes as standard base64.
pub fn cache_get_result(entry: &CacheEntry, bytes: &[u8]) -> (r: CacheGetResult)
    ensures
        r@ == get_result_spec(entry@, bytes@),
        r.key@ == entry.key@,
        r.data@ == encode_spec(bytes@, false, true),
        r.mime_type@ == entry.mime_type@,
        r.size == entry.size,
        r.created_at == entry.created_at,
        r.updated_at == entry.updated_at,
        r.expires_at == entry.expires_at,
{
    CacheGetResult {
        key: entry.key.clone(),
        data: standard_encode(bytes),
        mime_type: entry.mime_type.clone(),
        size: entry.size,
        created_at: entry.created_at,
        updated_at: entry.updated_at,
        expires_at: entry.expires_at,
    }
}

/// Whether `key` has a valid entry at time `now` (the file is checked
/// apart).
pub fn cache_live(index: &CacheIndex, key: &str, now: i64) -> (r: bool)
    requires
        index.wf(),
    ensures
        r == (lookup_spec(index@, key@, now) matches Some(Some(_))),
{
    match cache_lookup(index, key, now) {
        CacheLookup::Present(_) => true,
        _ => false,
    }
}

/// The entries valid at time `now`, in index order.
pub fn cache_list(index: &CacheIndex, now: i64) -> (r: Vec<CacheEntry>)
    requires
        index.wf(),
    ensures
        r@.map_values(|e: CacheEntry| e@) == live_entries(index.entries(), now),
{
    let n = index.len();
    let ghost es = index.entries();
    proof {
        index.entries.lemma_values_view();
    }
    let mut r: Vec<CacheEntry> = Vec::new();
    let mut i: usize = 0;
    assert(es.take(0) =~= Seq::<EntryView>::empty());
    while i < n
        invariant
            index.wf(),
            n == index@.dom().len(),
            es == index.entries(),
            es.len() == n,
            i <= n,
            r@.map_values(|e: CacheEntry| e@) == live_entries(es.take(i as int), now),
        decreases n - i,
    {
        let (_, e) = index.entry_at(i);
        proof {
            assert(es.take(i + 1).drop_last() == es.take(i as int));
            assert(es.take(i + 1).last() == es[i as int]);
        }
        let keep = match e.expires_at {
            Some(x) => now <= x,
            None => true,
        };
        if keep {
            let ghost before = r@;
            r.push(e);
            assert(r@.map_values(|e: CacheEntry| e@) =~= before.map_values(|e: CacheEntry| e@).push(
                es[i as int],
            ));
        }
        i = i + 1;
    }
    assert(es.take(n as int) == es);
    r
}

proof fn lemma_live_len(s: Seq<EntryView>, now: i64)
    ensures
        live_entries(s, now).len() <= s.len(),
    decreases s.len(),
{
    if s.len() > 0 {
        lemma_live_len(s.drop_last(), now);
    }
}

/// The counts of the index at time `now`. The total size of the valid
/// entries is taken to fit in `u64`.
pub fn cache_counts(index: &CacheIndex, now: i64) -> (r: CacheCounts)
    requires
        index.wf(),
        size_sum(live_entries(index.entries(), now)) <= u64::MAX,
    ensures
        r.total_entries == index.entries().len(),
        r.valid_entries == live_entries(index.entries(), now).len(),
        r.expired_entries == index.entries().len() - live_entries(index.entries(), now).len(),
        r.total_size_bytes == size_sum(live_entries(index.entries(), now)),
        r.total_entries == r.valid_entries + r.expired_entries,
        r.total_entries == index@.dom().len(),
{
    let n = index.len();
    let ghost es = index.entries();
    proof {
        index.entries.lemma_values_view();
        lemma_live_len(es, now);
    }
    let mut total: u64 = 0;
    let mut valid: usize = 0;
    let mut expired: usize = 0;
    let mut i: usize = 0;
    assert(es.take(0) =~= Seq::<EntryView>::empty());
    while i < n
        invariant
            index.wf(),
            n == index@.dom().len(),
            es == index.entries(),
            es.len() == n,
            i <= n,
            valid == live_entries(es.take(i as int), now).len(),
            valid + expired == i,
            total == size_sum(live_entries(es.take(i as int), now)),
            size_sum(live_entries(es, now)) <= u64::MAX,
        decreases n - i,
    {
        let (_, e) = index.entry_at(i);
        proof {
            lemma_live_step(es, now, i as int);
            lemma_live_prefix_sum(es, now, i + 1);
        }
        let is_expired = match e.expires_at {
            Some(x) => now > x,
            None => false,
        };
        if is_expired {
            expired = expired + 1;
        } else {
            total = total + e.size;
            valid = valid + 1;
        }
        i = i + 1;
    }
    assert(es.take(n as int) == es);
    CacheCounts {
        total_entries: valid + expired,
        valid_entries: valid,
        expired_entries: expired,
        total_size_bytes: total,
    }
}

proof fn lemma_live_step(s: Seq<EntryView>, now: i64, k: int)
    requires
        0 <= k < s.len(),
    ensures
        live_entries(s.take(k + 1), now) == if live(s[k], now) {
            live_entries(s.take(k), now).push(s[k])
        } else {
            live_entries(s.take(k), now)
        },
        size_sum(live_entries(s.take(k + 1), now)) == size_sum(live_entries(s.take(k), now)) + if live(
            s[k],
            now,
        ) {
            s[k].size as int
        } else {
            0
        },
{
    let t = s.take(k + 1);
    assert(t.drop_last() == s.take(k));
    assert(t.last() == s[k]);
    let l = live_entries(s.take(k), now);
    assert(l.push(s[k]).drop_last() == l);
}

proof fn lemma_live_prefix_sum(s: Seq<EntryView>, now: i64, k: int)
    requires
        0 <= k <= s.len(),
    ensures
        size_sum(live_entries(s.take(k), now)) <= size_sum(live_entries(s, now)),
    decreases s.len() - k,
{
    if k < s.len() {
        lemma_live_prefix_sum(s, now, k + 1);
        lemma_live_step(s, now, k);
    } else {
        assert(s.take(k) == s);
    }
}

// ------------------------------------------------------------ laws

/// A read after a store hands back what was stored. After `cache_set` stored
/// the text `data`, the standard base64 of `bytes`, under `key` at time
/// `now` with the MIME type `mime` and the lifetime `ttl` (index `m`
/// before), with no later change to the key, a lookup at a time `later`
/// within the lifetime finds the stored entry, and the reply built from it
/// and the bytes of its file carries the key, `data` itself, the count of
/// the bytes, the MIME type given (else `application/octet-stream`), the
/// expiry `now + ttl`, and the creation time of the key's earlier entry
/// (else `now`).
pub proof fn lemma_set_then_get(
    m: Map<Seq<char>, EntryView>,
    key: Seq<char>,
    data: Seq<char>,
    bytes: Seq<u8>,
    mime: Option<Seq<char>>,
    ttl: Option<i64>,
    now: i64,
    later: i64,
)
    requires
        bytes.len() <= u64::MAX,
        encode_spec(bytes, false, true) == data,
        ttl matches Some(t) ==> i64::MIN <= now + t <= i64::MAX && later <= now + t,
    ensures
        ({
            let e = stored_entry(entry_of(m, key), key, bytes.len() as u64, mime, ttl, now);
            &&& lookup_spec(m.insert(key, e), key, later) == Some(Some(e))
            &&& get_result_spec(e, bytes) == GetResultView {
                key,
                data,
                mime_type: match mime {
                    Some(x) => x,
                    None => octet_stream(),
                },
                size: bytes.len() as u64,
                created_at: match entry_of(m, key) {
                    Some(p) => p.created_at,
                    None => now,
                },
                updated_at: now,
                expires_at: match ttl {
                    Some(t) => Some((now + t) as i64),
                    None => None,
                },
            }
        }),
{
}

/// Different keys of an app are kept in different files: the file name of a
/// key is the URL-safe encoding of its UTF-8 bytes, which no two keys share.
pub proof fn lemma_cache_files_distinct(app_id: Seq<char>, k1: Seq<char>, k2: Seq<char>, base: Seq<char>)
    requires
        k1 != k2,
    ensures
        cache_file_spec(app_id, k1, base) != cache_file_spec(app_id, k2, base),
{
    reveal_strlit("persistent_cache");
    reveal_strlit(".bin");
    let dir = cache_dir_spec(app_id, base);
    assert(dir.len() > 0 && dir.last() == 'e');
    let b1 = vstd::utf8::encode_utf8(k1);
    let b2 = vstd::utf8::encode_utf8(k2);
    let s1 = sanitized_key(k1);
    let s2 = sanitized_key(k2);
    let n1 = s1 + ".bin"@;
    let n2 = s2 + ".bin"@;
    if s1.len() > 0 {
        lemma_url_safe_no_slash(b1, 0);
    }
    if s2.len() > 0 {
        lemma_url_safe_no_slash(b2, 0);
    }
    assert(n1[0] != '/');
    assert(n2[0] != '/');
    let f1 = dir + seq!['/'] + n1;
    let f2 = dir + seq!['/'] + n2;
    assert(cache_file_spec(app_id, k1, base) == f1);
    assert(cache_file_spec(app_id, k2, base) == f2);
    if f1 == f2 {
        let m: int = dir.len() as int + 1;
        assert(f1.skip(m) =~= n1);
        assert(f2.skip(m) =~= n2);
        assert(n1.take(s1.len() as int) =~= s1);
        assert(n2.take(s2.len() as int) =~= s2);
        assert(s1 == s2);
        lemma_unpadded_encode_injective(b1, b2, true);
        vstd::utf8::encode_utf8_decode_utf8(k1);
        vstd::utf8::encode_utf8_decode_utf8(k2);
    }
}

/// A key's file name is made of URL-safe characters only (its sanitized
/// key) followed by `.bin`, and its file is never the index file.
pub proof fn lemma_cache_file_name(app_id: Seq<char>, key: Seq<char>, base: Seq<char>)
    ensures
        forall|j: int| 0 <= j < sanitized_key(key).len() ==> url_safe_char(#[trigger] sanitized_key(key)[j]),
        cache_file_spec(app_id, key, base) != join_spec(cache_dir_spec(app_id, base), "_metadata.json"@),
{
    reveal_strlit("persistent_cache");
    reveal_strlit(".bin");
    reveal_strlit("_metadata.json");
    let b = vstd::utf8::encode_utf8(key);
    let sk = sanitized_key(key);
    assert forall|j: int| 0 <= j < sk.len() implies url_safe_char(#[trigger] sk[j]) by {
        lemma_url_safe_chars(b, j);
    }
    let dir = cache_dir_spec(app_id, base);
    assert(dir.len() > 0 && dir.last() == 'e');
    let n = sk + ".bin"@;
    if sk.len() > 0 {
        lemma_url_safe_no_slash(b, 0);
    }
    assert(n[0] != '/');
    let f = dir + seq!['/'] + n;
    let meta = dir + seq!['/'] + "_metadata.json"@;
    assert(cache_file_spec(app_id, key, base) == f);
    assert(join_spec(dir, "_metadata.json"@) == meta);
    if f == meta {
        let m: int = dir.len() as int + 1;
        assert(f.skip(m) =~= n);
        assert(meta.skip(m) =~= "_metadata.json"@);
        assert(n.len() == 14);
        assert(n[10] == '.');
        assert("_metadata.json"@[10] == 'j');
    }
}

/// Storing a key again keeps the time it was first stored.
pub proof fn lemma_set_keeps_creation(
    m: Map<Seq<char>, EntryView>,
    key: Seq<char>,
    size: u64,
    mime: Option<Seq<char>>,
    ttl: Option<i64>,
    now: i64,
)
    requires
        m.dom().contains(key),
    ensures
        stored_entry(entry_of(m, key), key, size, mime, ttl, now).created_at == m[key].created_at,
{
}

/// The valid entries are exactly the entries that have not expired: each
/// listed entry is valid, and every valid entry is listed.
pub proof fn lemma_live_entries(s: Seq<EntryView>, now: i64, e: EntryView)
    ensures
        live_entries(s, now).contains(e) <==> s.contains(e) && live(e, now),
    decreases s.len(),
{
    if s.len() > 0 {
        let q = s.drop_last();
        let lq = live_entries(q, now);
        lemma_live_entries(q, now, e);
        let l = live_entries(s, now);
        if s.contains(e) && live(e, now) {
            let i = choose|i: int| 0 <= i < s.len() && s[i] == e;
            if i < q.len() {
                assert(q[i] == e);
                let j = choose|j: int| 0 <= j < lq.len() && lq[j] == e;
                if live(s.last(), now) {
                    assert(l[j] == e);
                } else {
                    assert(l == lq);
                }
            } else {
                assert(l == lq.push(e));
                assert(l[lq.len() as int] == e);
            }
        }
        if l.contains(e) {
            let j = choose|j: int| 0 <= j < l.len() && l[j] == e;
            if live(s.last(), now) && j == lq.len() {
                assert(s[s.len() - 1] == e);
            } else {
                if live(s.last(), now) {
                    assert(lq[j] == e);
                } else {
                    assert(l == lq);
                }
                assert(lq.contains(e));
                let k = choose|k: int| 0 <= k < q.len() && q[k] == e;
                assert(s[k] == e);
            }
        }
    }
}

} // verus!
