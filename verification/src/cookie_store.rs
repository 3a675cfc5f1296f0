//! The in-memory cookie store of the proxy: cookies kept apart per
//! application and, within one, per domain, as `name -> value`.

use vstd::prelude::*;
use crate::cookies::{
    assignment_spec, assignment_text, cookie_assignments, cookie_header_spec, joined_pairs_spec,
    pairs_text, parse_cookie_assignment, parse_joined_set_cookie,
};
use crate::strmap::{StrMap, lemma_listing, map_of, unique_keys};
use crate::text::split_spec;
use crate::urls::{domain_of, extract_domain};

verus! {

/// The store as a map: application id, then domain, then cookie name.
pub type StoreView = Map<Seq<char>, Map<Seq<char>, Map<Seq<char>, Seq<char>>>>;

/// The valid `name=value` entries of a list, in order.
pub open spec fn assignment_pairs(cs: Seq<Seq<char>>) -> Seq<(Seq<char>, Seq<char>)>
    decreases cs.len(),
{
    if cs.len() == 0 {
        Seq::empty()
    } else {
        let front = assignment_pairs(cs.drop_last());
        match assignment_spec(cs.last()) {
            Some(p) => front.push(p),
            None => front,
        }
    }
}

/// `m` with the pairs set one after the other, a later pair replacing an
/// earlier value of its name.
pub open spec fn insert_pairs(m: Map<Seq<char>, Seq<char>>, p: Seq<(Seq<char>, Seq<char>)>) -> Map<
    Seq<char>,
    Seq<char>,
>
    decreases p.len(),
{
    if p.len() == 0 {
        m
    } else {
        insert_pairs(m, p.drop_last()).insert(p.last().0, p.last().1)
    }
}

/// The cookies of one application, by domain (none when it has none).
pub open spec fn app_cookies(s: StoreView, app: Seq<char>) -> Map<Seq<char>, Map<Seq<char>, Seq<char>>> {
    if s.dom().contains(app) {
        s[app]
    } else {
        Map::empty()
    }
}

/// The cookies of one application for one domain.
pub open spec fn domain_cookies(s: StoreView, app: Seq<char>, domain: Seq<char>) -> Map<
    Seq<char>,
    Seq<char>,
> {
    let a = app_cookies(s, app);
    if a.dom().contains(domain) {
        a[domain]
    } else {
        Map::empty()
    }
}

/// The store after `pairs` were set for `domain` of `app`. The application
/// and the domain are present afterwards, even when no pair was given.
pub open spec fn add_cookies_spec(
    s: StoreView,
    app: Seq<char>,
    domain: Seq<char>,
    pairs: Seq<(Seq<char>, Seq<char>)>,
) -> StoreView {
    s.insert(app, app_cookies(s, app).insert(domain, insert_pairs(domain_cookies(s, app, domain), pairs)))
}

/// The store after clearing: one domain of `app` where a domain is given
/// and `app` is present, or all of `app`.
pub open spec fn clear_cookies_spec(s: StoreView, app: Seq<char>, domain: Option<Seq<char>>) -> StoreView {
    match domain {
        Some(d) => if s.dom().contains(app) {
            s.insert(app, s[app].remove(d))
        } else {
            s
        },
        None => s.remove(app),
    }
}

/// Whether `l` lists the pairs of `m`, each name once, in some order.
pub open spec fn lists_map<W>(l: Seq<(Seq<char>, W)>, m: Map<Seq<char>, W>) -> bool {
    unique_keys(l) && map_of(l) == m
}

/// Cookies kept per application and per domain.
pub struct CookieStore {
    apps: StrMap<StrMap<StrMap<String>>>,
}

impl View for CookieStore {
    type V = StoreView;

    closed spec fn view(&self) -> StoreView {
        self.apps@
    }
}

impl CookieStore {
    /// Each level of the store holds each key once.
    pub closed spec fn wf(&self) -> bool {
        &&& self.apps.wf()
        &&& forall|a: StrMap<StrMap<String>>| #[trigger]
            self.apps.values().contains(a) ==> inner_wf(a)
    }

    /// An empty store.
    pub fn new() -> (s: Self)
        ensures
            s.wf(),
            s@ == StoreView::empty(),
    {
        CookieStore { apps: StrMap::new() }
    }

    /// Sets `pairs` for `domain` of `app`, creating both where absent.
    fn add_pairs(&mut self, app: &str, domain: &str, pairs: &Vec<(String, String)>)
        requires
            old(self).wf(),
        ensures
            final(self).wf(),
            final(self)@ == add_cookies_spec(old(self)@, app@, domain@, pairs_text(pairs@)),
    {
        let ghost s0 = self@;
        let ghost apps0 = self.apps;
        let mut app_map = match self.apps.take(app) {
            Some(m) => m,
            None => StrMap::new(),
        };
        assert(app_map@ == app_cookies(s0, app@));
        assert(inner_wf(app_map)) by {
            if apps0.values().contains(app_map) {
            } else {
                assert(app_map.values() == Seq::<StrMap<String>>::empty());
            }
        }
        let ghost app0 = app_map;
        let mut dom_map = match app_map.take(domain) {
            Some(m) => m,
            None => StrMap::new(),
        };
        assert(dom_map@ == domain_cookies(s0, app@, domain@));
        assert(dom_map.wf()) by {
            if app0.values().contains(dom_map) {
            }
        }
        let ghost start = dom_map@;
        let ghost p = pairs_text(pairs@);
        let mut i: usize = 0;
        assert(p.take(0) =~= Seq::<(Seq<char>, Seq<char>)>::empty());
        while i < pairs.len()
            invariant
                i <= pairs@.len(),
                p == pairs_text(pairs@),
                dom_map.wf(),
                dom_map@ == insert_pairs(start, p.take(i as int)),
            decreases pairs@.len() - i,
        {
            let k = pairs[i].0.clone();
            let v = pairs[i].1.clone();
            dom_map.insert(k, v);
            proof {
                assert(p.take(i + 1).drop_last() == p.take(i as int));
                assert(p.take(i + 1).last() == p[i as int]);
            }
            i = i + 1;
        }
        assert(p.take(pairs@.len() as int) == p);
        let ghost dm = dom_map@;
        let d = crate::text::owned(domain);
        app_map.insert(d, dom_map);
        assert(app_map@ =~= app_cookies(s0, app@).insert(domain@, dm));
        assert(inner_wf(app_map));
        let a = crate::text::owned(app);
        self.apps.insert(a, app_map);
        assert(self@ =~= add_cookies_spec(s0, app@, domain@, p));
    }

    /// The cookies of one application and domain, as a list of pairs.
    fn domain_pairs(&self, app: &str, domain: &str) -> (r: Vec<(String, String)>)
        requires
            self.wf(),
        ensures
            lists_map(pairs_text(r@), domain_cookies(self@, app@, domain@)),
    {
        match self.apps.get(app) {
            Some(a) => {
                assert(inner_wf(*a));
                match a.get(domain) {
                    Some(d) => list_pairs(d),
                    None => no_pairs(),
                }
            },
            None => no_pairs(),
        }
    }
}

/// An empty list, which lists the empty map.
fn no_pairs() -> (r: Vec<(String, String)>)
    ensures
        lists_map(pairs_text(r@), Map::empty()),
{
    let r: Vec<(String, String)> = Vec::new();
    assert(pairs_text(r@) =~= Seq::empty());
    assert(map_of(Seq::<(Seq<char>, Seq<char>)>::empty()) =~= Map::empty());
    r
}

/// An application's map and each of its domain maps hold each key once.
pub closed spec fn inner_wf(a: StrMap<StrMap<String>>) -> bool {
    &&& a.wf()
    &&& forall|d: StrMap<String>| #[trigger] a.values().contains(d) ==> d.wf()
}

/// The pairs of `m`, each name once.
pub(crate) fn list_pairs(m: &StrMap<String>) -> (r: Vec<(String, String)>)
    requires
        m.wf(),
    ensures
        lists_map(pairs_text(r@), m@),
{
    proof {
        m.lemma_key_order();
    }
    let n = m.len();
    let mut r: Vec<(String, String)> = Vec::new();
    let mut i: usize = 0;
    while i < n
        invariant
            m.wf(),
            n == m@.dom().len(),
            m.key_order().len() == n,
            i <= n,
            r@.len() == i,
            forall|j: int|
                0 <= j < i ==> (#[trigger] r@[j]).0@ == m.key_order()[j] && r@[j].1@ == m@[m.key_order()[j]],
        decreases n - i,
    {
        let (k, v) = m.entry_at(i);
        r.push((k.clone(), v.clone()));
        i = i + 1;
    }
    proof {
        assert forall|j: int| 0 <= j < r@.len() implies #[trigger] pairs_text(r@)[j] == (
            m.key_order()[j],
            m@[m.key_order()[j]],
        ) by {
            assert(r@[j].0@ == m.key_order()[j]);
        }
        lemma_listing(pairs_text(r@), m@, m.key_order());
    }
    r
}

/// The `name=value` texts of the cookies that `app` keeps for the domain of
/// `url`, each once, in some order.
pub fn get_cookies(store: &CookieStore, url: &str, app_id: &str) -> (r: Vec<String>)
    requires
        store.wf(),
    ensures
        exists|l: Seq<(Seq<char>, Seq<char>)>|
            lists_map(l, domain_cookies(store@, app_id@, domain_of(url@))) && r@.map_values(
                |s: String| s@,
            ) == l.map_values(|p: (Seq<char>, Seq<char>)| assignment_text(p)),
{
    let domain = extract_domain(url);
    let pairs = store.domain_pairs(app_id, domain.as_str());
    cookie_assignments(&pairs)
}

/// The `Cookie` header for the domain of `url` in `app`: the cookies'
/// `name=value` texts joined by `; `.
pub fn cookie_header_for(store: &CookieStore, url: &str, app_id: &str) -> (r: String)
    requires
        store.wf(),
    ensures
        exists|l: Seq<(Seq<char>, Seq<char>)>|
            lists_map(l, domain_cookies(store@, app_id@, domain_of(url@))) && r@ == cookie_header_spec(
                l,
            ),
{
    let domain = extract_domain(url);
    let pairs = store.domain_pairs(app_id, domain.as_str());
    crate::cookies::cookie_header(&pairs)
}

/// The valid `name=value` entries of `cookies`.
fn valid_assignments(cookies: &Vec<String>) -> (r: Vec<(String, String)>)
    ensures
        pairs_text(r@) == assignment_pairs(cookies@.map_values(|s: String| s@)),
{
    let ghost views = cookies@.map_values(|s: String| s@);
    let mut r: Vec<(String, String)> = Vec::new();
    let mut i: usize = 0;
    assert(views.take(0) =~= Seq::<Seq<char>>::empty());
    while i < cookies.len()
        invariant
            i <= cookies@.len(),
            views == cookies@.map_values(|s: String| s@),
            pairs_text(r@) == assignment_pairs(views.take(i as int)),
        decreases cookies@.len() - i,
    {
        let a = parse_cookie_assignment(cookies[i].as_str());
        proof {
            assert(views.take(i + 1).drop_last() == views.take(i as int));
            assert(views.take(i + 1).last() == cookies@[i as int]@);
        }
        match a {
            Some((k, v)) => {
                assert(pairs_text(r@.push((k, v))) == pairs_text(r@).push((k@, v@)));
                r.push((k, v));
            },
            None => {},
        }
        i = i + 1;
    }
    assert(views.take(cookies@.len() as int) == views);
    r
}

/// Sets the valid `name=value` entries of `cookies` (split at the first
/// `=`, both sides trimmed and non-empty) for the domain of `url` in `app`.
pub fn set_cookies(store: &mut CookieStore, url: &str, app_id: &str, cookies: &Vec<String>)
    requires
        old(store).wf(),
    ensures
        final(store).wf(),
        final(store)@ == add_cookies_spec(
            old(store)@,
            app_id@,
            domain_of(url@),
            assignment_pairs(cookies@.map_values(|s: String| s@)),
        ),
{
    let domain = extract_domain(url);
    let pairs = valid_assignments(cookies);
    store.add_pairs(app_id, domain.as_str(), &pairs);
}

/// Keeps the cookies of a `Set-Cookie` header whose values arrive joined by
/// `,` for `domain` in `app`.
pub fn save_cookies(store: &mut CookieStore, app_id: &str, domain: &str, cookie_str: &str)
    requires
        old(store).wf(),
    ensures
        final(store).wf(),
        final(store)@ == add_cookies_spec(
            old(store)@,
            app_id@,
            domain@,
            joined_pairs_spec(split_spec(cookie_str@, ',')),
        ),
{
    let pairs = parse_joined_set_cookie(cookie_str);
    store.add_pairs(app_id, domain, &pairs);
}

/// Clears the cookies of one domain of `app`, or all of `app` where no
/// domain is given.
pub fn clear_cookies(store: &mut CookieStore, app_id: &str, domain: Option<&str>)
    requires
        old(store).wf(),
    ensures
        final(store).wf(),
        final(store)@ == clear_cookies_spec(
            old(store)@,
            app_id@,
            match domain {
                Some(d) => Some(d@),
                None => None,
            },
        ),
{
    match domain {
        Some(d) => {
            let ghost s0 = store@;
            match store.apps.take(app_id) {
                Some(mut a) => {
                    assert(inner_wf(a));
                    a.remove(d);
                    assert(inner_wf(a));
                    let k = crate::text::owned(app_id);
                    store.apps.insert(k, a);
                    assert(store@ =~= s0.insert(app_id@, s0[app_id@].remove(d@)));
                },
                None => {},
            }
        },
        None => {
            store.apps.remove(app_id);
        },
    }
}

/// Every cookie of `app`: each domain once, with its cookies each once.
pub fn get_all_cookies(store: &CookieStore, app_id: &str) -> (r: Vec<(String, Vec<(String, String)>)>)
    requires
        store.wf(),
    ensures
        forall|i: int| 0 <= i < r@.len() ==> unique_keys(#[trigger] pairs_text(r@[i].1@)),
        lists_map(
            r@.map_values(|x: (String, Vec<(String, String)>)| (x.0@, map_of(pairs_text(x.1@)))),
            app_cookies(store@, app_id@),
        ),
{
    let mut r: Vec<(String, Vec<(String, String)>)> = Vec::new();
    match store.apps.get(app_id) {
        Some(a) => {
            assert(inner_wf(*a));
            proof {
                a.lemma_key_order();
            }
            let n = a.len();
            let mut i: usize = 0;
            while i < n
                invariant
                    inner_wf(*a),
                    n == a@.dom().len(),
                    a.key_order().len() == n,
                    i <= n,
                    r@.len() == i,
                    forall|j: int| 0 <= j < i ==> unique_keys(#[trigger] pairs_text(r@[j].1@)),
                    forall|j: int|
                        0 <= j < i ==> (#[trigger] r@[j]).0@ == a.key_order()[j] && map_of(
                            pairs_text(r@[j].1@),
                        ) == a@[a.key_order()[j]],
                decreases n - i,
            {
                let (k, d) = a.entry_at(i);
                assert(a.values().contains(*d));
                let l = list_pairs(d);
                r.push((k.clone(), l));
                i = i + 1;
            }
            proof {
                let lv = r@.map_values(
                    |x: (String, Vec<(String, String)>)| (x.0@, map_of(pairs_text(x.1@))),
                );
                assert forall|j: int| 0 <= j < lv.len() implies #[trigger] lv[j] == (
                    a.key_order()[j],
                    a@[a.key_order()[j]],
                ) by {
                    assert(r@[j].0@ == a.key_order()[j]);
                }
                lemma_listing(lv, a@, a.key_order());
            }
        },
        None => {
            assert(r@.map_values(
                |x: (String, Vec<(String, String)>)| (x.0@, map_of(pairs_text(x.1@))),
            ) =~= Seq::empty());
            assert(map_of(Seq::<(Seq<char>, Map<Seq<char>, Seq<char>>)>::empty()) =~= Map::empty());
        },
    }
    r
}

// ------------------------------------------------------------------ laws

/// Setting cookies for one application leaves every other application's
/// cookies as they were, and within the application every other domain's.
pub proof fn lemma_add_cookies_isolated(
    s: StoreView,
    app: Seq<char>,
    domain: Seq<char>,
    pairs: Seq<(Seq<char>, Seq<char>)>,
    other_app: Seq<char>,
    other_domain: Seq<char>,
)
    ensures
        other_app != app ==> app_cookies(add_cookies_spec(s, app, domain, pairs), other_app)
            == app_cookies(s, other_app),
        other_domain != domain ==> domain_cookies(
            add_cookies_spec(s, app, domain, pairs),
            app,
            other_domain,
        ) == domain_cookies(s, app, other_domain),
{
}

/// After pairs are set, a name takes the value of its last pair.
pub proof fn lemma_insert_pairs_latest(
    m: Map<Seq<char>, Seq<char>>,
    p: Seq<(Seq<char>, Seq<char>)>,
    i: int,
)
    requires
        0 <= i < p.len(),
        forall|j: int| i < j < p.len() ==> p[j].0 != p[i].0,
    ensures
        insert_pairs(m, p).dom().contains(p[i].0),
        insert_pairs(m, p)[p[i].0] == p[i].1,
    decreases p.len(),
{
    if i < p.len() - 1 {
        let q = p.drop_last();
        assert(q[i] == p[i]);
        assert forall|j: int| i < j < q.len() implies q[j].0 != q[i].0 by {
            assert(q[j] == p[j]);
        }
        lemma_insert_pairs_latest(m, q, i);
        assert(p.last().0 != p[i].0);
    }
}

/// A name that no pair sets keeps its earlier value, or stays absent.
pub proof fn lemma_insert_pairs_untouched(
    m: Map<Seq<char>, Seq<char>>,
    p: Seq<(Seq<char>, Seq<char>)>,
    k: Seq<char>,
)
    requires
        forall|j: int| 0 <= j < p.len() ==> p[j].0 != k,
    ensures
        insert_pairs(m, p).dom().contains(k) == m.dom().contains(k),
        m.dom().contains(k) ==> insert_pairs(m, p)[k] == m[k],
    decreases p.len(),
{
    if p.len() > 0 {
        let q = p.drop_last();
        assert forall|j: int| 0 <= j < q.len() implies q[j].0 != k by {
            assert(q[j] == p[j]);
        }
        lemma_insert_pairs_untouched(m, q, k);
        assert(p[p.len() - 1].0 != k);
    }
}

/// Clearing a domain of an application empties that domain and keeps every
/// other domain and application; clearing a whole application empties all
/// its domains and keeps every other application.
pub proof fn lemma_clear_cookies(s: StoreView, app: Seq<char>, domain: Option<Seq<char>>, other_app: Seq<char>, d: Seq<char>)
    ensures
        match domain {
            Some(cleared) => {
                &&& domain_cookies(clear_cookies_spec(s, app, domain), app, cleared) == Map::<
                    Seq<char>,
                    Seq<char>,
                >::empty()
                &&& d != cleared ==> domain_cookies(clear_cookies_spec(s, app, domain), app, d)
                    == domain_cookies(s, app, d)
            },
            None => domain_cookies(clear_cookies_spec(s, app, domain), app, d) == Map::<
                Seq<char>,
                Seq<char>,
            >::empty(),
        },
        other_app != app ==> app_cookies(clear_cookies_spec(s, app, domain), other_app)
            == app_cookies(s, other_app),
{
}

} // verus!
