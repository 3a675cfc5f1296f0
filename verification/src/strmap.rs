//! A map keyed by text, kept as a list of entries with distinct keys; its
//! view is the `Map` from key text to the view of the value.

use vstd::prelude::*;

verus! {

/// The map that a list of `(key, value)` pairs with distinct keys stands
/// for.
pub open spec fn map_of<W>(p: Seq<(Seq<char>, W)>) -> Map<Seq<char>, W>
    decreases p.len(),
{
    if p.len() == 0 {
        Map::empty()
    } else {
        map_of(p.drop_last()).insert(p.last().0, p.last().1)
    }
}

/// Whether no two pairs of `p` share a key.
pub open spec fn unique_keys<W>(p: Seq<(Seq<char>, W)>) -> bool {
    forall|i: int, j: int| 0 <= i < j < p.len() ==> p[i].0 != p[j].0
}

/// The map a list of pairs with distinct keys stands for has exactly
/// their keys, each with the value of its pair.
pub proof fn lemma_map_of_dom<W>(p: Seq<(Seq<char>, W)>, k: Seq<char>)
    requires
        unique_keys(p),
    ensures
        map_of(p).dom().contains(k) <==> exists|i: int| 0 <= i < p.len() && p[i].0 == k,
        forall|i: int| 0 <= i < p.len() && p[i].0 == k ==> map_of(p)[k] == p[i].1,
    decreases p.len(),
{
    if p.len() > 0 {
        let q = p.drop_last();
        assert forall|a: int, b: int| 0 <= a < b < q.len() implies q[a].0 != q[b].0 by {
            assert(q[a] == p[a] && q[b] == p[b]);
        }
        lemma_map_of_dom(q, k);
        if exists|i: int| 0 <= i < p.len() && p[i].0 == k {
            let i = choose|i: int| 0 <= i < p.len() && p[i].0 == k;
            if i < p.len() - 1 {
                assert(q[i] == p[i]);
            }
            assert(map_of(p).dom().contains(k));
        }
        if map_of(p).dom().contains(k) {
            if k == p.last().0 {
                assert(p[p.len() - 1].0 == k);
            } else {
                assert(map_of(q).dom().contains(k));
                let i = choose|i: int| 0 <= i < q.len() && q[i].0 == k;
                assert(p[i] == q[i]);
            }
        }
        assert forall|i: int| 0 <= i < p.len() && p[i].0 == k implies map_of(p)[k] == p[i].1 by {
            if i < p.len() - 1 {
                assert(p[i] == q[i]);
                assert(p[i].0 != p.last().0);
            }
        }
    }
}

proof fn lemma_map_of_update<W>(p: Seq<(Seq<char>, W)>, i: int, w: W)
    requires
        unique_keys(p),
        0 <= i < p.len(),
    ensures
        map_of(p.update(i, (p[i].0, w))) == map_of(p).insert(p[i].0, w),
        unique_keys(p.update(i, (p[i].0, w))),
    decreases p.len(),
{
    let u = p.update(i, (p[i].0, w));
    assert forall|a: int, b: int| 0 <= a < b < u.len() implies u[a].0 != u[b].0 by {
        assert(u[a].0 == p[a].0 && u[b].0 == p[b].0);
    }
    if i == p.len() - 1 {
        assert(u.drop_last() == p.drop_last());
        assert(map_of(u) =~= map_of(p).insert(p[i].0, w));
    } else {
        let q = p.drop_last();
        assert(u.drop_last() == q.update(i, (q[i].0, w)));
        lemma_map_of_update(q, i, w);
        assert(p.last().0 != p[i].0);
        assert(map_of(u) =~= map_of(p).insert(p[i].0, w));
    }
}

proof fn lemma_map_of_remove<W>(p: Seq<(Seq<char>, W)>, i: int)
    requires
        unique_keys(p),
        0 <= i < p.len(),
    ensures
        map_of(p.remove(i)) == map_of(p).remove(p[i].0),
        unique_keys(p.remove(i)),
    decreases p.len(),
{
    let r = p.remove(i);
    assert forall|a: int, b: int| 0 <= a < b < r.len() implies r[a].0 != r[b].0 by {
        let a2 = if a < i { a } else { a + 1 };
        let b2 = if b < i { b } else { b + 1 };
        assert(r[a] == p[a2] && r[b] == p[b2]);
    }
    let q = p.drop_last();
    if i == p.len() - 1 {
        assert(r == q);
        lemma_map_of_dom(q, p[i].0);
        assert forall|j: int| 0 <= j < q.len() implies q[j].0 != p[i].0 by {
            assert(q[j] == p[j]);
        }
        assert(!map_of(q).dom().contains(p[i].0));
        assert(map_of(r) =~= map_of(p).remove(p[i].0));
    } else {
        assert(r.drop_last() == q.remove(i));
        assert(r.last() == p.last());
        lemma_map_of_remove(q, i);
        assert(q[i] == p[i]);
        assert(p.last().0 != p[i].0);
        assert(map_of(r) =~= map_of(p).remove(p[i].0));
    }
}

proof fn lemma_map_of_push<W>(p: Seq<(Seq<char>, W)>, k: Seq<char>, w: W)
    requires
        unique_keys(p),
        forall|i: int| 0 <= i < p.len() ==> p[i].0 != k,
    ensures
        map_of(p.push((k, w))) == map_of(p).insert(k, w),
        unique_keys(p.push((k, w))),
{
    let u = p.push((k, w));
    assert(u.drop_last() == p);
    assert forall|a: int, b: int| 0 <= a < b < u.len() implies u[a].0 != u[b].0 by {
        if b < p.len() {
            assert(u[a] == p[a] && u[b] == p[b]);
        } else {
            assert(u[a] == p[a]);
        }
    }
}

/// A list of pairs whose keys run through `ko`, a list of the keys of `m`
/// each once, with each key's value from `m`, stands for `m`.
pub proof fn lemma_listing<W>(l: Seq<(Seq<char>, W)>, m: Map<Seq<char>, W>, ko: Seq<Seq<char>>)
    requires
        ko.no_duplicates(),
        ko.len() == l.len(),
        forall|k: Seq<char>| m.dom().contains(k) <==> ko.contains(k),
        forall|i: int| 0 <= i < l.len() ==> #[trigger] l[i] == (ko[i], m[ko[i]]),
    ensures
        unique_keys(l),
        map_of(l) == m,
{
    assert forall|a: int, b: int| 0 <= a < b < l.len() implies l[a].0 != l[b].0 by {
        assert(l[a] == (ko[a], m[ko[a]]) && l[b] == (ko[b], m[ko[b]]));
    }
    assert forall|k: Seq<char>| #[trigger] map_of(l).dom().contains(k) <==> m.dom().contains(k) by {
        lemma_map_of_dom(l, k);
        if m.dom().contains(k) {
            assert(ko.contains(k));
            let i = choose|i: int| 0 <= i < ko.len() && ko[i] == k;
            assert(l[i] == (ko[i], m[ko[i]]));
        }
        if map_of(l).dom().contains(k) {
            let i = choose|i: int| 0 <= i < l.len() && l[i].0 == k;
            assert(l[i] == (ko[i], m[ko[i]]));
            assert(ko.contains(k));
        }
    }
    assert forall|k: Seq<char>| #[trigger] m.dom().contains(k) implies map_of(l)[k] == m[k] by {
        lemma_map_of_dom(l, k);
        assert(ko.contains(k));
        let i = choose|i: int| 0 <= i < ko.len() && ko[i] == k;
        assert(l[i] == (ko[i], m[ko[i]]));
    }
    assert(map_of(l) =~= m);
}

/// A map from text keys to values, each key present once.
pub struct StrMap<V> {
    entries: Vec<(String, V)>,
}

/// The entries of a `StrMap` as `(key text, value view)` pairs.
pub open spec fn pairs_view<V: View>(e: Seq<(String, V)>) -> Seq<(Seq<char>, V::V)> {
    e.map_values(|x: (String, V)| (x.0@, x.1@))
}

impl<V: View> View for StrMap<V> {
    type V = Map<Seq<char>, V::V>;

    closed spec fn view(&self) -> Map<Seq<char>, V::V> {
        map_of(pairs_view(self.entries@))
    }
}

impl<V: View> StrMap<V> {
    /// Whether the entries hold each key once.
    pub closed spec fn wf(&self) -> bool {
        unique_keys(pairs_view(self.entries@))
    }

    /// The values in the order the entries hold them.
    pub closed spec fn values(&self) -> Seq<V> {
        self.entries@.map_values(|x: (String, V)| x.1)
    }

    /// The keys in the order the entries hold them.
    pub closed spec fn key_order(&self) -> Seq<Seq<char>> {
        self.entries@.map_values(|x: (String, V)| x.0@)
    }

    /// An empty map.
    pub fn new() -> (m: Self)
        ensures
            m.wf(),
            m@ == Map::<Seq<char>, V::V>::empty(),
            m.values() == Seq::<V>::empty(),
    {
        let m = StrMap { entries: Vec::new() };
        assert(pairs_view(m.entries@) =~= Seq::<(Seq<char>, V::V)>::empty());
        assert(m.values() =~= Seq::<V>::empty());
        m
    }

    fn index_of(&self, key: &str) -> (r: Option<usize>)
        requires
            self.wf(),
        ensures
            match r {
                Some(i) => i < self.entries@.len() && self.entries@[i as int].0@ == key@,
                None => forall|j: int| 0 <= j < self.entries@.len() ==> self.entries@[j].0@ != key@,
            },
    {
        let mut i: usize = 0;
        while i < self.entries.len()
            invariant
                i <= self.entries@.len(),
                forall|j: int| 0 <= j < i ==> self.entries@[j].0@ != key@,
            decreases self.entries@.len() - i,
        {
            if crate::text::eq_str(self.entries[i].0.as_str(), key) {
                return Some(i);
            }
            i = i + 1;
        }
        None
    }

    proof fn lemma_view_index(&self, i: int)
        requires
            self.wf(),
            0 <= i < self.entries@.len(),
        ensures
            self@.dom().contains(self.entries@[i].0@),
            self@[self.entries@[i].0@] == self.entries@[i].1@,
    {
        let p = pairs_view(self.entries@);
        assert(p[i] == (self.entries@[i].0@, self.entries@[i].1@));
        lemma_map_of_dom(p, self.entries@[i].0@);
    }

    proof fn lemma_view_absent(&self, k: Seq<char>)
        requires
            self.wf(),
            forall|j: int| 0 <= j < self.entries@.len() ==> self.entries@[j].0@ != k,
        ensures
            !self@.dom().contains(k),
    {
        let p = pairs_view(self.entries@);
        lemma_map_of_dom(p, k);
        assert forall|j: int| 0 <= j < p.len() implies p[j].0 != k by {
            assert(p[j].0 == self.entries@[j].0@);
        }
    }

    /// The value under `key`, if any.
    pub fn get(&self, key: &str) -> (r: Option<&V>)
        requires
            self.wf(),
        ensures
            match r {
                Some(v) => self@.dom().contains(key@) && self@[key@] == v@ && self.values().contains(
                    *v,
                ),
                None => !self@.dom().contains(key@),
            },
    {
        match self.index_of(key) {
            Some(i) => {
                proof {
                    self.lemma_view_index(i as int);
                    assert(self.values()[i as int] == self.entries@[i as int].1);
                }
                Some(&self.entries[i].1)
            },
            None => {
                proof {
                    self.lemma_view_absent(key@);
                }
                None
            },
        }
    }

    /// Whether `key` is present.
    pub fn contains_key(&self, key: &str) -> (r: bool)
        requires
            self.wf(),
        ensures
            r == self@.dom().contains(key@),
    {
        match self.get(key) {
            Some(_) => true,
            None => false,
        }
    }

    /// Sets the value under `key`, replacing any earlier one.
    pub fn insert(&mut self, key: String, value: V)
        requires
            old(self).wf(),
        ensures
            final(self).wf(),
            final(self)@ == old(self)@.insert(key@, value@),
            forall|x: V| #[trigger] final(self).values().contains(x) ==> x == value || old(
                self,
            ).values().contains(x),
    {
        let ghost p = pairs_view(self.entries@);
        let ghost kv = key@;
        let ghost vv = value@;
        match self.index_of(key.as_str()) {
            Some(i) => {
                proof {
                    lemma_map_of_update(p, i as int, vv);
                    assert(pairs_view(self.entries@.update(i as int, (key, value))) =~= p.update(
                        i as int,
                        (p[i as int].0, vv),
                    ));
                }
                let ghost old_values = self.values();
                self.entries.set(i, (key, value));
                proof {
                    assert forall|x: V| #[trigger] self.values().contains(x) implies x == value
                        || old_values.contains(x) by {
                        let j = choose|j: int| 0 <= j < self.values().len() && self.values()[j] == x;
                        if j != i {
                            assert(old_values[j] == x);
                        }
                    }
                }
            },
            None => {
                proof {
                    assert forall|j: int| 0 <= j < p.len() implies p[j].0 != kv by {
                        assert(p[j].0 == self.entries@[j].0@);
                    }
                    lemma_map_of_push(p, kv, vv);
                    assert(pairs_view(self.entries@.push((key, value))) =~= p.push((kv, vv)));
                }
                let ghost old_values = self.values();
                self.entries.push((key, value));
                proof {
                    assert forall|x: V| #[trigger] self.values().contains(x) implies x == value
                        || old_values.contains(x) by {
                        let j = choose|j: int| 0 <= j < self.values().len() && self.values()[j] == x;
                        if j < old_values.len() {
                            assert(old_values[j] == x);
                        }
                    }
                }
            },
        }
    }

    /// Removes the entry under `key` and hands out its value, if any.
    pub fn take(&mut self, key: &str) -> (r: Option<V>)
        requires
            old(self).wf(),
        ensures
            final(self).wf(),
            final(self)@ == old(self)@.remove(key@),
            forall|x: V| #[trigger] final(self).values().contains(x) ==> old(self).values().contains(
                x,
            ),
            match r {
                Some(v) => old(self)@.dom().contains(key@) && old(self)@[key@] == v@ && old(
                    self,
                ).values().contains(v),
                None => !old(self)@.dom().contains(key@),
            },
    {
        let ghost p = pairs_view(self.entries@);
        let ghost old_values = self.values();
        match self.index_of(key) {
            Some(i) => {
                proof {
                    self.lemma_view_index(i as int);
                    lemma_map_of_remove(p, i as int);
                    assert(pairs_view(self.entries@.remove(i as int)) =~= p.remove(i as int));
                    assert(old_values[i as int] == self.entries@[i as int].1);
                }
                let (_, v) = self.entries.remove(i);
                proof {
                    assert forall|x: V| #[trigger] self.values().contains(x) implies old_values.contains(
                        x,
                    ) by {
                        let j = choose|j: int| 0 <= j < self.values().len() && self.values()[j] == x;
                        if j < i {
                            assert(old_values[j] == x);
                        } else {
                            assert(old_values[j + 1] == x);
                        }
                    }
                }
                Some(v)
            },
            None => {
                proof {
                    self.lemma_view_absent(key@);
                    assert(self@.remove(key@) =~= self@);
                }
                None
            },
        }
    }

    /// Removes the entry under `key`, if any.
    pub fn remove(&mut self, key: &str)
        requires
            old(self).wf(),
        ensures
            final(self).wf(),
            final(self)@ == old(self)@.remove(key@),
            forall|x: V| #[trigger] final(self).values().contains(x) ==> old(self).values().contains(
                x,
            ),
    {
        let _ = self.take(key);
    }

    /// The value at position `i` of the list.
    pub fn value_at(&self, i: usize) -> (r: &V)
        requires
            self.wf(),
            i < self@.dom().len(),
        ensures
            self.values().contains(*r),
            self@.dom().contains(self.key_order()[i as int]),
            self@[self.key_order()[i as int]] == r@,
    {
        proof {
            self.lemma_len();
            self.lemma_view_index(i as int);
            assert(self.values()[i as int] == self.entries@[i as int].1);
        }
        &self.entries[i].1
    }

    /// How many entries there are.
    pub fn len(&self) -> (n: usize)
        requires
            self.wf(),
        ensures
            n == self@.dom().len(),
    {
        proof {
            self.lemma_len();
        }
        self.entries.len()
    }

    proof fn lemma_len(&self)
        requires
            self.wf(),
        ensures
            self@.dom().len() == self.entries@.len(),
            self@.dom().finite(),
    {
        lemma_map_of_len(pairs_view(self.entries@));
    }

    /// The entry at position `i` of the list.
    pub fn entry_at(&self, i: usize) -> (r: (&String, &V))
        requires
            self.wf(),
            i < self@.dom().len(),
        ensures
            self@.dom().contains(r.0@),
            self@[r.0@] == r.1@,
            r.0@ == self.key_order()[i as int],
            self.values()[i as int] == *r.1,
            self.values().contains(*r.1),
    {
        proof {
            self.lemma_len();
            self.lemma_view_index(i as int);
            assert(self.values()[i as int] == self.entries@[i as int].1);
        }
        (&self.entries[i].0, &self.entries[i].1)
    }

    /// The values are listed in the same order as the keys: the value at
    /// each position is the map's value for the key at that position.
    pub proof fn lemma_values_view(&self)
        requires
            self.wf(),
        ensures
            self.values().len() == self.key_order().len(),
            self.values().len() == self@.dom().len(),
            forall|i: int|
                0 <= i < self.values().len() ==> #[trigger] self.values()[i]@ == self@[self.key_order()[i]]
                    && self@.dom().contains(self.key_order()[i]),
    {
        self.lemma_len();
        assert forall|i: int| 0 <= i < self.values().len() implies #[trigger] self.values()[i]@
            == self@[self.key_order()[i]] && self@.dom().contains(self.key_order()[i]) by {
            self.lemma_view_index(i);
        }
    }

    /// The key order lists each key of the map once.
    pub proof fn lemma_key_order(&self)
        requires
            self.wf(),
        ensures
            self.key_order().len() == self@.dom().len(),
            self.key_order().no_duplicates(),
            forall|k: Seq<char>| self@.dom().contains(k) <==> self.key_order().contains(k),
    {
        self.lemma_len();
        let p = pairs_view(self.entries@);
        assert forall|k: Seq<char>| self@.dom().contains(k) <==> self.key_order().contains(k) by {
            lemma_map_of_dom(p, k);
            if self@.dom().contains(k) {
                let i = choose|i: int| 0 <= i < p.len() && p[i].0 == k;
                assert(self.key_order()[i] == k);
            }
            if self.key_order().contains(k) {
                let i = choose|i: int| 0 <= i < self.key_order().len() && self.key_order()[i] == k;
                assert(p[i].0 == k);
            }
        }
        assert forall|a: int, b: int|
            0 <= a < self.key_order().len() && 0 <= b < self.key_order().len() && a != b implies
            self.key_order()[a] != self.key_order()[b] by {
            assert(p[a].0 == self.key_order()[a] && p[b].0 == self.key_order()[b]);
        }
    }
}

proof fn lemma_map_of_len<W>(p: Seq<(Seq<char>, W)>)
    requires
        unique_keys(p),
    ensures
        map_of(p).dom().finite(),
        map_of(p).dom().len() == p.len(),
    decreases p.len(),
{
    if p.len() > 0 {
        let q = p.drop_last();
        lemma_map_of_len(q);
        lemma_map_of_dom(q, p.last().0);
        assert forall|j: int| 0 <= j < q.len() implies q[j].0 != p.last().0 by {
            assert(q[j] == p[j]);
        }
    }
}

} // verus!
