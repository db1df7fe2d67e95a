//! Association lists with unique keys and the finite maps they denote.

use vstd::prelude::*;

verus! {

/// The map that an association list denotes: later entries win.
pub open spec fn pairs_to_map<K, V>(s: Seq<(K, V)>) -> Map<K, V>
    decreases s.len(),
{
    if s.len() == 0 {
        Map::empty()
    } else {
        pairs_to_map(s.drop_last()).insert(s.last().0, s.last().1)
    }
}

/// No key occurs twice in the association list.
pub open spec fn unique_keys<K, V>(s: Seq<(K, V)>) -> bool {
    forall|i: int, j: int| 0 <= i < s.len() && 0 <= j < s.len() && i != j ==> s[i].0 != s[j].0
}

pub proof fn lemma_pairs_dom<K, V>(s: Seq<(K, V)>, k: K)
    ensures
        pairs_to_map(s).dom().contains(k) <==> exists|i: int| 0 <= i < s.len() && s[i].0 == k,
    decreases s.len(),
{
    if s.len() > 0 {
        lemma_pairs_dom(s.drop_last(), k);
        if pairs_to_map(s.drop_last()).dom().contains(k) {
            let i = choose|i: int| 0 <= i < s.drop_last().len() && s.drop_last()[i].0 == k;
            assert(s[i].0 == k);
        }
        if exists|i: int| 0 <= i < s.len() && s[i].0 == k {
            let i = choose|i: int| 0 <= i < s.len() && s[i].0 == k;
            if i < s.len() - 1 {
                assert(s.drop_last()[i].0 == k);
            }
        }
    }
}

pub proof fn lemma_pairs_finite<K, V>(s: Seq<(K, V)>)
    ensures
        pairs_to_map(s).dom().finite(),
    decreases s.len(),
{
    if s.len() > 0 {
        lemma_pairs_finite(s.drop_last());
    }
}

pub proof fn lemma_pairs_value<K, V>(s: Seq<(K, V)>, i: int)
    requires
        unique_keys(s),
        0 <= i < s.len(),
    ensures
        pairs_to_map(s).dom().contains(s[i].0),
        pairs_to_map(s)[s[i].0] == s[i].1,
    decreases s.len(),
{
    if i < s.len() - 1 {
        assert(unique_keys(s.drop_last()));
        lemma_pairs_value(s.drop_last(), i);
        assert(s.drop_last()[i] == s[i]);
        assert(s.last().0 != s[i].0);
    }
}

pub proof fn lemma_pairs_len<K, V>(s: Seq<(K, V)>)
    requires
        unique_keys(s),
    ensures
        pairs_to_map(s).dom().len() == s.len(),
    decreases s.len(),
{
    if s.len() > 0 {
        let t = s.drop_last();
        assert(unique_keys(t));
        lemma_pairs_len(t);
        lemma_pairs_finite(t);
        lemma_pairs_dom(t, s.last().0);
        assert(!pairs_to_map(t).dom().contains(s.last().0)) by {
            if pairs_to_map(t).dom().contains(s.last().0) {
                let i = choose|i: int| 0 <= i < t.len() && t[i].0 == s.last().0;
                assert(s[i].0 == s[s.len() - 1].0);
            }
        }
    }
}

pub proof fn lemma_pairs_update<K, V>(s: Seq<(K, V)>, i: int, v: V)
    requires
        unique_keys(s),
        0 <= i < s.len(),
    ensures
        unique_keys(s.update(i, (s[i].0, v))),
        pairs_to_map(s.update(i, (s[i].0, v))) == pairs_to_map(s).insert(s[i].0, v),
    decreases s.len(),
{
    let u = s.update(i, (s[i].0, v));
    assert(unique_keys(u)) by {
        assert forall|a: int, b: int| 0 <= a < u.len() && 0 <= b < u.len() && a != b implies u[a].0
            != u[b].0 by {
            assert(u[a].0 == s[a].0);
            assert(u[b].0 == s[b].0);
        }
    }
    if i == s.len() - 1 {
        assert(u.drop_last() =~= s.drop_last());
    } else {
        let t = s.drop_last();
        assert(unique_keys(t));
        lemma_pairs_update(t, i, v);
        assert(u.drop_last() =~= t.update(i, (t[i].0, v)));
        assert(s.last().0 != s[i].0);
        assert(pairs_to_map(u) =~= pairs_to_map(s).insert(s[i].0, v));
    }
}

/// Appending an entry with a fresh key extends the denoted map and keeps keys unique.
pub proof fn lemma_pairs_push<K, V>(s: Seq<(K, V)>, k: K, v: V)
    requires
        unique_keys(s),
        !pairs_to_map(s).dom().contains(k),
    ensures
        unique_keys(s.push((k, v))),
        pairs_to_map(s.push((k, v))) == pairs_to_map(s).insert(k, v),
{
    let t = s.push((k, v));
    assert(t.drop_last() =~= s);
    lemma_pairs_dom(s, k);
    assert forall|a: int, b: int| 0 <= a < t.len() && 0 <= b < t.len() && a != b implies t[a].0
        != t[b].0 by {
        if a < s.len() && b < s.len() {
            assert(t[a] == s[a]);
            assert(t[b] == s[b]);
        } else if a < s.len() {
            assert(t[a] == s[a]);
        } else {
            assert(t[b] == s[b]);
        }
    }
}

/// Removing the entry at `i` removes its key from the denoted map.
pub proof fn lemma_pairs_remove<K, V>(s: Seq<(K, V)>, i: int)
    requires
        unique_keys(s),
        0 <= i < s.len(),
    ensures
        unique_keys(s.remove(i)),
        pairs_to_map(s.remove(i)) == pairs_to_map(s).remove(s[i].0),
    decreases s.len(),
{
    let r = s.remove(i);
    assert(unique_keys(r)) by {
        assert forall|a: int, b: int| 0 <= a < r.len() && 0 <= b < r.len() && a != b implies r[a].0
            != r[b].0 by {
            let a2 = if a < i { a } else { a + 1 };
            let b2 = if b < i { b } else { b + 1 };
            assert(r[a] == s[a2]);
            assert(r[b] == s[b2]);
        }
    }
    if i == s.len() - 1 {
        assert(r =~= s.drop_last());
        lemma_pairs_dom(r, s[i].0);
        assert(!pairs_to_map(r).dom().contains(s[i].0)) by {
            if pairs_to_map(r).dom().contains(s[i].0) {
                let j = choose|j: int| 0 <= j < r.len() && r[j].0 == s[i].0;
                assert(s[j].0 == s[i].0);
            }
        }
        assert(pairs_to_map(s).remove(s[i].0) =~= pairs_to_map(r));
    } else {
        let t = s.drop_last();
        assert(unique_keys(t));
        lemma_pairs_remove(t, i);
        assert(r.drop_last() =~= t.remove(i));
        assert(r.last() == s.last());
        assert(s.last().0 != s[i].0);
        assert(pairs_to_map(r) =~= pairs_to_map(s).remove(s[i].0));
    }
}

/// Keys of an association map: comparable in executable code by their deep view.
pub trait MapKey: DeepView + Sized {
    fn key_eq(&self, other: &Self) -> (b: bool)
        ensures
            b == (self.deep_view() == other.deep_view()),
    ;

    fn copy_key(&self) -> (r: Self)
        ensures
            r.deep_view() == self.deep_view(),
    ;
}

impl MapKey for u64 {
    fn key_eq(&self, other: &Self) -> (b: bool) {
        *self == *other
    }

    fn copy_key(&self) -> (r: Self) {
        *self
    }
}

impl MapKey for String {
    fn key_eq(&self, other: &Self) -> (b: bool) {
        *self == *other
    }

    fn copy_key(&self) -> (r: Self) {
        self.clone()
    }
}

/// Association map from `K` to `V`; every key occurs at most once.
/// Its model maps the deep view of each key to the deep view of its value.
#[derive(Debug)]
pub struct AssocMap<K: MapKey, V: DeepView> {
    entries: Vec<(K, V)>,
}

/// Map keyed by chain id.
pub type ChainMap<V> = AssocMap<u64, V>;

/// Map keyed by a string.
pub type StrMap<V> = AssocMap<String, V>;

impl<K: MapKey, V: DeepView> View for AssocMap<K, V> {
    type V = Map<K::V, V::V>;

    closed spec fn view(&self) -> Map<K::V, V::V> {
        pairs_to_map(self.entries.deep_view())
    }
}

impl<K: MapKey, V: DeepView> DeepView for AssocMap<K, V> {
    type V = Map<K::V, V::V>;

    open spec fn deep_view(&self) -> Map<K::V, V::V> {
        self@
    }
}

impl<K: MapKey, V: DeepView> AssocMap<K, V> {
    #[verifier::type_invariant]
    closed spec fn inv(self) -> bool {
        unique_keys(self.entries.deep_view())
    }

    pub fn new() -> (m: Self)
        ensures
            m@ == Map::<K::V, V::V>::empty(),
    {
        let m = AssocMap { entries: Vec::new() };
        assert(m.entries.deep_view() =~= Seq::<(K::V, V::V)>::empty());
        m
    }

    fn find(&self, k: &K) -> (r: Option<usize>)
        ensures
            match r {
                Some(i) => i < self.entries@.len() && self.entries.deep_view()[i as int].0 == k.deep_view(),
                None => !self@.dom().contains(k.deep_view()),
            },
    {
        let mut i: usize = 0;
        while i < self.entries.len()
            invariant
                i <= self.entries@.len(),
                forall|j: int| 0 <= j < i ==> self.entries.deep_view()[j].0 != k.deep_view(),
            decreases self.entries@.len() - i,
        {
            if self.entries[i].0.key_eq(k) {
                return Some(i);
            }
            i = i + 1;
        }
        proof {
            lemma_pairs_dom(self.entries.deep_view(), k.deep_view());
        }
        None
    }

    /// Number of entries in the map.
    pub fn len(&self) -> (n: usize)
        ensures
            n == self@.dom().len(),
            self@.dom().finite(),
            self.key_seq().len() == n,
            self.value_seq().len() == n,
            self.key_seq().no_duplicates(),
            forall|k: K::V| #[trigger] self@.dom().contains(k) <==> self.key_seq().contains(k),
            forall|i: int| 0 <= i < self.key_seq().len() ==> #[trigger] self@.dom().contains(self.key_seq()[i]),
    {
        proof {
            use_type_invariant(self);
            self.lemma_key_seq();
            lemma_pairs_len(self.entries.deep_view());
            lemma_pairs_finite(self.entries.deep_view());
        }
        self.entries.len()
    }

    pub fn is_empty(&self) -> (b: bool)
        ensures
            b <==> self@.dom().len() == 0,
    {
        self.len() == 0
    }

    pub fn contains_key(&self, k: &K) -> (b: bool)
        ensures
            b == self@.dom().contains(k.deep_view()),
    {
        proof {
            use_type_invariant(self);
        }
        match self.find(k) {
            Some(i) => {
                proof {
                    lemma_pairs_value(self.entries.deep_view(), i as int);
                }
                true
            },
            None => false,
        }
    }

    pub fn get(&self, k: &K) -> (r: Option<&V>)
        ensures
            match r {
                Some(v) => self@.dom().contains(k.deep_view()) && v.deep_view() == self@[k.deep_view()],
                None => !self@.dom().contains(k.deep_view()),
            },
    {
        proof {
            use_type_invariant(self);
        }
        match self.find(k) {
            Some(i) => {
                proof {
                    lemma_pairs_value(self.entries.deep_view(), i as int);
                }
                Some(&self.entries[i].1)
            },
            None => None,
        }
    }

    /// Associate `v` with `k`, replacing any earlier value.
    pub fn insert(&mut self, k: K, v: V)
        ensures
            final(self)@ == old(self)@.insert(k.deep_view(), v.deep_view()),
    {
        proof {
            use_type_invariant(&*self);
        }
        let ghost d = self.entries.deep_view();
        let ghost vd = v.deep_view();
        let ghost kd = k.deep_view();
        match self.find(&k) {
            Some(i) => {
                proof {
                    lemma_pairs_update(d, i as int, vd);
                }
                let mut e: Vec<(K, V)> = Vec::new();
                std::mem::swap(&mut e, &mut self.entries);
                e.set(i, (k, v));
                proof {
                    assert(e.deep_view() =~= d.update(i as int, (d[i as int].0, vd)));
                }
                self.entries = e;
            },
            None => {
                proof {
                    lemma_pairs_push(d, kd, vd);
                }
                let mut e: Vec<(K, V)> = Vec::new();
                std::mem::swap(&mut e, &mut self.entries);
                e.push((k, v));
                proof {
                    assert(e.deep_view() =~= d.push((kd, vd)));
                }
                self.entries = e;
            },
        }
    }

    /// The keys in the map, each once.
    pub fn keys(&self) -> (ks: Vec<K>)
        ensures
            ks.deep_view().no_duplicates(),
            forall|k: K::V| ks.deep_view().contains(k) <==> self@.dom().contains(k),
            ks@.len() == self@.dom().len(),
    {
        proof {
            use_type_invariant(self);
            lemma_pairs_len(self.entries.deep_view());
        }
        let ghost d = self.entries.deep_view();
        let mut ks: Vec<K> = Vec::new();
        let mut i: usize = 0;
        while i < self.entries.len()
            invariant
                i <= self.entries@.len(),
                d == self.entries.deep_view(),
                unique_keys(d),
                ks@.len() == i,
                forall|j: int| 0 <= j < i ==> ks.deep_view()[j] == d[j].0,
            decreases self.entries@.len() - i,
        {
            let ghost old_kv = ks.deep_view();
            let key = self.entries[i].0.copy_key();
            ks.push(key);
            proof {
                assert(ks.deep_view() =~= old_kv.push(key.deep_view()));
            }
            i = i + 1;
        }
        proof {
            let kv = ks.deep_view();
            assert forall|k: K::V| kv.contains(k) <==> self@.dom().contains(k) by {
                lemma_pairs_dom(d, k);
                if kv.contains(k) {
                    let j = choose|j: int| 0 <= j < kv.len() && kv[j] == k;
                    assert(d[j].0 == k);
                }
                if self@.dom().contains(k) {
                    let j = choose|j: int| 0 <= j < d.len() && d[j].0 == k;
                    assert(kv[j] == k);
                }
            }
            assert(kv.no_duplicates()) by {
                assert forall|a: int, b: int| 0 <= a < kv.len() && 0 <= b < kv.len() && a != b implies kv[a] != kv[b] by {
                    assert(kv[a] == d[a].0);
                    assert(kv[b] == d[b].0);
                }
            }
        }
        ks
    }
}

impl<K: MapKey> AssocMap<K, bool> {
    /// Number of keys other than `skip` in the map.
    pub fn count_except(&self, skip: &K) -> (n: usize)
        ensures
            n == self@.dom().remove(skip.deep_view()).len(),
    {
        proof {
            use_type_invariant(self);
        }
        let ghost d = self.entries.deep_view();
        let mut n: usize = 0;
        let mut i: usize = 0;
        while i < self.entries.len()
            invariant
                i <= self.entries@.len(),
                d == self.entries.deep_view(),
                unique_keys(d),
                n == pairs_to_map(d.subrange(0, i as int)).dom().remove(skip.deep_view()).len(),
                n <= i,
            decreases self.entries@.len() - i,
        {
            let ghost t = d.subrange(0, i as int);
            let ghost t2 = d.subrange(0, i as int + 1);
            proof {
                assert(t2.drop_last() =~= t);
                lemma_pairs_finite(t);
                lemma_pairs_dom(t, d[i as int].0);
                assert(!pairs_to_map(t).dom().contains(d[i as int].0)) by {
                    if pairs_to_map(t).dom().contains(d[i as int].0) {
                        let j = choose|j: int| 0 <= j < t.len() && t[j].0 == d[i as int].0;
                        assert(d[j].0 == d[i as int].0);
                    }
                }
                let dm = pairs_to_map(t).dom();
                let x = d[i as int].0;
                assert(pairs_to_map(t2).dom() =~= dm.insert(x));
                let sk = skip.deep_view();
                if x == sk {
                    assert(dm.insert(x).remove(sk) =~= dm.remove(sk));
                } else {
                    assert(dm.insert(x).remove(sk) =~= dm.remove(sk).insert(x));
                    assert(!dm.remove(sk).contains(x));
                }
            }
            if !self.entries[i].0.key_eq(skip) {
                n = n + 1;
            }
            i = i + 1;
        }
        proof {
            assert(d.subrange(0, d.len() as int) =~= d);
        }
        n
    }

    /// Whether every key other than `skip` maps to `true`.
    pub fn all_true_except(&self, skip: &K) -> (b: bool)
        ensures
            b == (forall|k: K::V| #[trigger] self@.dom().contains(k) && k != skip.deep_view() ==> self@[k]),
    {
        proof {
            use_type_invariant(self);
        }
        let ghost d = self.entries.deep_view();
        let mut i: usize = 0;
        while i < self.entries.len()
            invariant
                i <= self.entries@.len(),
                d == self.entries.deep_view(),
                unique_keys(d),
                forall|j: int| 0 <= j < i && d[j].0 != skip.deep_view() ==> d[j].1,
            decreases self.entries@.len() - i,
        {
            if !self.entries[i].0.key_eq(skip) && !self.entries[i].1 {
                proof {
                    lemma_pairs_value(d, i as int);
                    let k = d[i as int].0;
                    assert(self@.dom().contains(k) && k != skip.deep_view() && !self@[k]);
                }
                return false;
            }
            i = i + 1;
        }
        proof {
            assert forall|k: K::V| #[trigger] self@.dom().contains(k) && k != skip.deep_view() implies self@[k] by {
                lemma_pairs_dom(d, k);
                let j = choose|j: int| 0 <= j < d.len() && d[j].0 == k;
                lemma_pairs_value(d, j);
            }
        }
        true
    }
}

impl<K: MapKey, V: DeepView> AssocMap<K, V> {
    /// The keys in storage order; each key of the map occurs exactly once.
    pub closed spec fn key_seq(&self) -> Seq<K::V> {
        self.entries.deep_view().map_values(|p: (K::V, V::V)| p.0)
    }

    /// The values in storage order, the `i`-th belonging to `key_seq()[i]`.
    pub closed spec fn value_seq(&self) -> Seq<V> {
        self.entries@.map_values(|p: (K, V)| p.1)
    }

    proof fn lemma_key_seq(&self)
        requires
            unique_keys(self.entries.deep_view()),
        ensures
            self.key_seq().len() == self@.dom().len(),
            self.key_seq().no_duplicates(),
            self@.dom().finite(),
            forall|k: K::V| #[trigger] self@.dom().contains(k) <==> self.key_seq().contains(k),
            forall|i: int| 0 <= i < self.key_seq().len() ==> #[trigger] self@.dom().contains(self.key_seq()[i]),
    {
        let d = self.entries.deep_view();
        lemma_pairs_len(d);
        lemma_pairs_finite(d);
        let ks = self.key_seq();
        assert forall|a: int, b: int| 0 <= a < ks.len() && 0 <= b < ks.len() && a != b implies ks[a] != ks[b] by {
        }
        assert forall|k: K::V| #[trigger] self@.dom().contains(k) <==> ks.contains(k) by {
            lemma_pairs_dom(d, k);
            if ks.contains(k) {
                let j = choose|j: int| 0 <= j < ks.len() && ks[j] == k;
                assert(d[j].0 == k);
            }
            if self@.dom().contains(k) {
                let j = choose|j: int| 0 <= j < d.len() && d[j].0 == k;
                assert(ks[j] == k);
            }
        }
        assert forall|i: int| 0 <= i < ks.len() implies #[trigger] self@.dom().contains(ks[i]) by {
            assert(ks.contains(ks[i]));
        }
    }

    /// Key stored at position `i`.
    pub fn key_at(&self, i: usize) -> (k: &K)
        requires
            i < self@.dom().len(),
        ensures
            k.deep_view() == self.key_seq()[i as int],
    {
        proof {
            use_type_invariant(self);
            self.lemma_key_seq();
        }
        &self.entries[i].0
    }

    /// Value stored at position `i`.
    pub fn value_at(&self, i: usize) -> (v: &V)
        requires
            i < self@.dom().len(),
        ensures
            v.deep_view() == self@[self.key_seq()[i as int]],
            *v == self.value_seq()[i as int],
    {
        proof {
            use_type_invariant(self);
            self.lemma_key_seq();
            lemma_pairs_value(self.entries.deep_view(), i as int);
        }
        &self.entries[i].1
    }

    /// Remove `k`, returning its value if it was present.
    pub fn remove(&mut self, k: &K) -> (r: Option<V>)
        ensures
            final(self)@ == old(self)@.remove(k.deep_view()),
            match r {
                Some(v) => old(self)@.dom().contains(k.deep_view()) && v.deep_view() == old(self)@[k.deep_view()],
                None => !old(self)@.dom().contains(k.deep_view()),
            },
    {
        proof {
            use_type_invariant(&*self);
        }
        let ghost d = self.entries.deep_view();
        match self.find(k) {
            Some(i) => {
                proof {
                    lemma_pairs_remove(d, i as int);
                    lemma_pairs_value(d, i as int);
                }
                let mut e: Vec<(K, V)> = Vec::new();
                std::mem::swap(&mut e, &mut self.entries);
                let (_key, v) = e.remove(i);
                proof {
                    assert(e.deep_view() =~= d.remove(i as int));
                }
                self.entries = e;
                Some(v)
            },
            None => {
                proof {
                    assert(self@.remove(k.deep_view()) =~= self@);
                }
                None
            },
        }
    }

    /// Put `v` in place of the value of `k`, keeping the storage order, and
    /// return the value it replaced; a missing key leaves the map unchanged.
    pub fn replace(&mut self, k: &K, v: V) -> (r: Option<V>)
        ensures
            match r {
                Some(old_v) => {
                    &&& old(self)@.dom().contains(k.deep_view())
                    &&& old_v.deep_view() == old(self)@[k.deep_view()]
                    &&& final(self)@ == old(self)@.insert(k.deep_view(), v.deep_view())
                },
                None => !old(self)@.dom().contains(k.deep_view()) && final(self)@ == old(self)@,
            },
            final(self).key_seq() == old(self).key_seq(),
    {
        proof {
            use_type_invariant(&*self);
        }
        let ghost d = self.entries.deep_view();
        let ghost vd = v.deep_view();
        match self.find(k) {
            Some(i) => {
                proof {
                    lemma_pairs_update(d, i as int, vd);
                    lemma_pairs_value(d, i as int);
                }
                let mut e: Vec<(K, V)> = Vec::new();
                std::mem::swap(&mut e, &mut self.entries);
                let (key, old_v) = e.remove(i);
                e.insert(i, (key, v));
                proof {
                    assert(e.deep_view() =~= d.update(i as int, (d[i as int].0, vd)));
                    assert(e.deep_view().map_values(|p: (K::V, V::V)| p.0) =~= d.map_values(
                        |p: (K::V, V::V)| p.0,
                    ));
                }
                self.entries = e;
                Some(old_v)
            },
            None => None,
        }
    }
}

/// Values that can be copied with their model preserved.
pub trait DeepClone: DeepView + Sized {
    fn deep_clone(&self) -> (r: Self)
        ensures
            r.deep_view() == self.deep_view(),
    ;
}

impl DeepClone for bool {
    fn deep_clone(&self) -> (r: Self) {
        *self
    }
}

impl DeepClone for u8 {
    fn deep_clone(&self) -> (r: Self) {
        *self
    }
}

impl DeepClone for u64 {
    fn deep_clone(&self) -> (r: Self) {
        *self
    }
}

impl DeepClone for String {
    fn deep_clone(&self) -> (r: Self) {
        self.clone()
    }
}

impl<T: DeepClone> DeepClone for Option<T> {
    fn deep_clone(&self) -> (r: Self) {
        match self {
            Some(x) => Some(x.deep_clone()),
            None => None,
        }
    }
}

impl<T: DeepClone> DeepClone for Vec<T> {
    fn deep_clone(&self) -> (r: Self) {
        let mut r: Vec<T> = Vec::new();
        let mut i: usize = 0;
        while i < self.len()
            invariant
                i <= self@.len(),
                r.deep_view() =~= self.deep_view().subrange(0, i as int),
            decreases self@.len() - i,
        {
            let x = self[i].deep_clone();
            let ghost old_r = r.deep_view();
            r.push(x);
            proof {
                assert(r.deep_view() =~= old_r.push(x.deep_view()));
            }
            i = i + 1;
        }
        proof {
            assert(self.deep_view().subrange(0, self@.len() as int) =~= self.deep_view());
        }
        r
    }
}

impl<K: MapKey, V: DeepClone> DeepClone for AssocMap<K, V> {
    fn deep_clone(&self) -> (r: Self) {
        proof {
            use_type_invariant(self);
        }
        let ghost d = self.entries.deep_view();
        let mut e: Vec<(K, V)> = Vec::new();
        let mut i: usize = 0;
        while i < self.entries.len()
            invariant
                i <= self.entries@.len(),
                d == self.entries.deep_view(),
                e.deep_view() =~= d.subrange(0, i as int),
            decreases self.entries@.len() - i,
        {
            let k = self.entries[i].0.copy_key();
            let v = self.entries[i].1.deep_clone();
            let ghost old_e = e.deep_view();
            e.push((k, v));
            proof {
                assert(e.deep_view() =~= old_e.push((k.deep_view(), v.deep_view())));
            }
            i = i + 1;
        }
        proof {
            assert(d.subrange(0, d.len() as int) =~= d);
        }
        AssocMap { entries: e }
    }
}

impl<K: MapKey, V: DeepClone> AssocMap<K, V> {
    /// Copy every entry of `other` in, replacing the values of keys present in both.
    pub fn extend_from(&mut self, other: &AssocMap<K, V>)
        ensures
            final(self)@ == old(self)@.union_prefer_right(other@),
    {
        let n = other.len();
        let ghost ks = other.key_seq();
        let ghost m0 = self@;
        let mut i: usize = 0;
        while i < n
            invariant
                i <= n,
                n == other@.dom().len(),
                ks == other.key_seq(),
                ks.len() == n,
                forall|j: int| 0 <= j < ks.len() ==> #[trigger] other@.dom().contains(ks[j]),
                forall|k: K::V| #[trigger] other@.dom().contains(k) <==> ks.contains(k),
                self@ == m0.union_prefer_right(other@.restrict(ks.subrange(0, i as int).to_set())),
            decreases n - i,
        {
            let k = other.key_at(i).copy_key();
            let v = other.value_at(i).deep_clone();
            self.insert(k, v);
            proof {
                let s0 = ks.subrange(0, i as int).to_set();
                let s1 = ks.subrange(0, i as int + 1).to_set();
                assert(s1 =~= s0.insert(ks[i as int])) by {
                    assert forall|x: K::V| s1.contains(x) <==> s0.contains(x) || x == ks[i as int] by {
                        let t1 = ks.subrange(0, i as int + 1);
                        let t0 = ks.subrange(0, i as int);
                        if s1.contains(x) {
                            let j = choose|j: int| 0 <= j < t1.len() && #[trigger] t1[j] == x;
                            if j < i {
                                assert(t0[j] == x);
                            }
                        }
                        if s0.contains(x) {
                            let j = choose|j: int| 0 <= j < t0.len() && #[trigger] t0[j] == x;
                            assert(t1[j] == x);
                        }
                        if x == ks[i as int] {
                            assert(ks.subrange(0, i as int + 1)[i as int] == x);
                        }
                    }
                }
                assert(self@ =~= m0.union_prefer_right(other@.restrict(s1)));
            }
            i = i + 1;
        }
        proof {
            assert(ks.subrange(0, n as int) =~= ks);
            assert(other@.restrict(ks.to_set()) =~= other@);
        }
    }
}

} // verus!
