//! An ordered map kept as a vector of entries sorted by key.
//!
//! The models key their per-node and per-op state by totally ordered ids and
//! walk it in key order, so the map exposes both its abstract `Map` view and
//! the sorted sequence of its entries.

use vstd::prelude::*;

verus! {

/// A key with a total order that executable code can decide.
pub trait MapKey: Sized {
    /// The strict order on keys.
    spec fn key_lt(self, other: Self) -> bool;

    proof fn lemma_key_lt_irreflexive(a: Self)
        ensures
            !a.key_lt(a),
    ;

    proof fn lemma_key_lt_transitive(a: Self, b: Self, c: Self)
        requires
            a.key_lt(b),
            b.key_lt(c),
        ensures
            a.key_lt(c),
    ;

    proof fn lemma_key_lt_total(a: Self, b: Self)
        ensures
            a.key_lt(b) || b.key_lt(a) || a == b,
    ;

    fn key_less(&self, other: &Self) -> (r: bool)
        ensures
            r == self.key_lt(*other),
    ;

    fn key_same(&self, other: &Self) -> (r: bool)
        ensures
            r == (*self == *other),
    ;

    fn key_copy(&self) -> (r: Self)
        ensures
            r == *self,
    ;
}

impl MapKey for u32 {
    open spec fn key_lt(self, other: Self) -> bool {
        self < other
    }

    proof fn lemma_key_lt_irreflexive(a: Self) {
    }

    proof fn lemma_key_lt_transitive(a: Self, b: Self, c: Self) {
    }

    proof fn lemma_key_lt_total(a: Self, b: Self) {
    }

    fn key_less(&self, other: &Self) -> (r: bool) {
        *self < *other
    }

    fn key_same(&self, other: &Self) -> (r: bool) {
        *self == *other
    }

    fn key_copy(&self) -> (r: Self) {
        *self
    }
}

/// Keys strictly increase along the sequence.
pub open spec fn keys_sorted<K: MapKey, V>(s: Seq<(K, V)>) -> bool {
    forall|i: int, j: int|
        #![trigger s[i], s[j]]
        0 <= i < j < s.len() ==> s[i].0.key_lt(s[j].0)
}

/// Some entry of the sequence has key `k`.
pub open spec fn seq_has_key<K, V>(s: Seq<(K, V)>, k: K) -> bool {
    exists|i: int| 0 <= i < s.len() && s[i].0 == k
}

/// The map that a sequence of entries with distinct keys stands for.
pub open spec fn entries_map<K, V>(s: Seq<(K, V)>) -> Map<K, V> {
    Map::new(
        |k: K| seq_has_key(s, k),
        |k: K| s[choose|i: int| 0 <= i < s.len() && s[i].0 == k].1,
    )
}

/// In a sorted sequence, the entry at `i` is what the map holds for its key.
pub proof fn lemma_entries_map_at<K: MapKey, V>(s: Seq<(K, V)>, i: int)
    requires
        keys_sorted(s),
        0 <= i < s.len(),
    ensures
        entries_map(s).contains_key(s[i].0),
        entries_map(s)[s[i].0] == s[i].1,
{
    let k = s[i].0;
    assert(seq_has_key(s, k));
    let j = choose|j: int| 0 <= j < s.len() && s[j].0 == k;
    if j < i {
        assert(s[j].0.key_lt(s[i].0));
        K::lemma_key_lt_irreflexive(k);
    } else if i < j {
        assert(s[i].0.key_lt(s[j].0));
        K::lemma_key_lt_irreflexive(k);
    }
}

/// In a sorted sequence, two entries with the same key are the same entry.
pub proof fn lemma_sorted_key_unique<K: MapKey, V>(s: Seq<(K, V)>, i: int, j: int)
    requires
        keys_sorted(s),
        0 <= i < s.len(),
        0 <= j < s.len(),
        s[i].0 == s[j].0,
    ensures
        i == j,
{
    if i < j {
        assert(s[i].0.key_lt(s[j].0));
        K::lemma_key_lt_irreflexive(s[i].0);
    } else if j < i {
        assert(s[j].0.key_lt(s[i].0));
        K::lemma_key_lt_irreflexive(s[i].0);
    }
}

proof fn lemma_insert_sorted<K: MapKey, V>(s: Seq<(K, V)>, p: int, k: K, v: V)
    requires
        keys_sorted(s),
        0 <= p <= s.len(),
        forall|j: int| 0 <= j < p ==> (#[trigger] s[j]).0.key_lt(k),
        forall|j: int| p <= j < s.len() ==> k.key_lt((#[trigger] s[j]).0),
    ensures
        keys_sorted(s.insert(p, (k, v))),
        entries_map(s.insert(p, (k, v))) == entries_map(s).insert(k, v),
{
    let t = s.insert(p, (k, v));
    s.insert_ensures(p, (k, v));
    assert forall|a: int, b: int| 0 <= a < b < t.len() implies #[trigger] t[a].0.key_lt(
        #[trigger] t[b].0,
    ) by {
        if b < p {
            assert(t[a] == s[a] && t[b] == s[b]);
        } else if b == p {
            assert(t[a] == s[a]);
        } else if a < p {
            assert(t[a] == s[a] && t[b] == s[b - 1]);
            assert(s[a].0.key_lt(k));
            K::lemma_key_lt_transitive(s[a].0, k, s[b - 1].0);
        } else if a == p {
            assert(t[b] == s[b - 1]);
        } else {
            assert(t[a] == s[a - 1] && t[b] == s[b - 1]);
        }
    }
    let m = entries_map(s).insert(k, v);
    assert forall|kk: K| #[trigger] entries_map(t).contains_key(kk) <==> m.contains_key(kk) by {
        if entries_map(t).contains_key(kk) {
            let j = choose|j: int| 0 <= j < t.len() && t[j].0 == kk;
            if j < p {
                assert(s[j].0 == kk);
            } else if j > p {
                assert(s[j - 1].0 == kk);
            }
        }
        if m.contains_key(kk) && kk != k {
            let j = choose|j: int| 0 <= j < s.len() && s[j].0 == kk;
            if j < p {
                assert(t[j].0 == kk);
            } else {
                assert(t[j + 1].0 == kk);
            }
        }
        if kk == k {
            assert(t[p].0 == k);
        }
    }
    assert forall|kk: K| #[trigger] entries_map(t).contains_key(kk) implies entries_map(t)[kk]
        == m[kk] by {
        let j = choose|j: int| 0 <= j < t.len() && t[j].0 == kk;
        lemma_entries_map_at(t, j);
        if j < p {
            lemma_entries_map_at(s, j);
            K::lemma_key_lt_irreflexive(k);
        } else if j > p {
            lemma_entries_map_at(s, j - 1);
            K::lemma_key_lt_irreflexive(k);
        }
    }
    assert(entries_map(t) =~= m);
}

proof fn lemma_update_sorted<K: MapKey, V>(s: Seq<(K, V)>, p: int, v: V)
    requires
        keys_sorted(s),
        0 <= p < s.len(),
    ensures
        keys_sorted(s.update(p, (s[p].0, v))),
        entries_map(s.update(p, (s[p].0, v))) == entries_map(s).insert(s[p].0, v),
{
    let k = s[p].0;
    let t = s.update(p, (k, v));
    assert forall|a: int, b: int| 0 <= a < b < t.len() implies #[trigger] t[a].0.key_lt(
        #[trigger] t[b].0,
    ) by {
        assert(t[a].0 == s[a].0 && t[b].0 == s[b].0);
    }
    let m = entries_map(s).insert(k, v);
    assert forall|kk: K| #[trigger] entries_map(t).contains_key(kk) <==> m.contains_key(kk) by {
        if entries_map(t).contains_key(kk) {
            let j = choose|j: int| 0 <= j < t.len() && t[j].0 == kk;
            assert(s[j].0 == kk);
        }
        if m.contains_key(kk) && kk != k {
            let j = choose|j: int| 0 <= j < s.len() && s[j].0 == kk;
            assert(t[j].0 == kk);
        }
        if kk == k {
            assert(t[p].0 == k);
        }
    }
    assert forall|kk: K| #[trigger] entries_map(t).contains_key(kk) implies entries_map(t)[kk]
        == m[kk] by {
        let j = choose|j: int| 0 <= j < t.len() && t[j].0 == kk;
        lemma_entries_map_at(t, j);
        if kk == k {
            assert(t[p].0 == k);
            lemma_sorted_key_unique(t, j, p);
        } else {
            lemma_entries_map_at(s, j);
        }
    }
    assert(entries_map(t) =~= m);
}

proof fn lemma_remove_sorted<K: MapKey, V>(s: Seq<(K, V)>, p: int)
    requires
        keys_sorted(s),
        0 <= p < s.len(),
    ensures
        keys_sorted(s.remove(p)),
        entries_map(s.remove(p)) == entries_map(s).remove(s[p].0),
{
    let k = s[p].0;
    let t = s.remove(p);
    s.remove_ensures(p);
    assert forall|a: int, b: int| 0 <= a < b < t.len() implies #[trigger] t[a].0.key_lt(
        #[trigger] t[b].0,
    ) by {
        if b < p {
            assert(t[a] == s[a] && t[b] == s[b]);
        } else if a < p {
            assert(t[a] == s[a] && t[b] == s[b + 1]);
        } else {
            assert(t[a] == s[a + 1] && t[b] == s[b + 1]);
        }
    }
    let m = entries_map(s).remove(k);
    assert forall|kk: K| #[trigger] entries_map(t).contains_key(kk) <==> m.contains_key(kk) by {
        if entries_map(t).contains_key(kk) {
            let j = choose|j: int| 0 <= j < t.len() && t[j].0 == kk;
            if j < p {
                assert(s[j].0 == kk);
                if kk == k {
                    lemma_sorted_key_unique(s, j, p);
                }
            } else {
                assert(s[j + 1].0 == kk);
                if kk == k {
                    lemma_sorted_key_unique(s, j + 1, p);
                }
            }
        }
        if m.contains_key(kk) {
            let j = choose|j: int| 0 <= j < s.len() && s[j].0 == kk;
            if j < p {
                assert(t[j].0 == kk);
            } else {
                assert(t[j - 1].0 == kk);
            }
        }
    }
    assert forall|kk: K| #[trigger] entries_map(t).contains_key(kk) implies entries_map(t)[kk]
        == m[kk] by {
        let j = choose|j: int| 0 <= j < t.len() && t[j].0 == kk;
        lemma_entries_map_at(t, j);
        if j < p {
            lemma_entries_map_at(s, j);
        } else {
            lemma_entries_map_at(s, j + 1);
        }
    }
    assert(entries_map(t) =~= m);
}

/// Two sorted entry sequences that stand for the same map are equal.
pub proof fn lemma_sorted_canonical<K: MapKey, V>(s: Seq<(K, V)>, t: Seq<(K, V)>)
    requires
        keys_sorted(s),
        keys_sorted(t),
        entries_map(s) == entries_map(t),
    ensures
        s == t,
    decreases s.len(),
{
    if s.len() == 0 {
        if t.len() > 0 {
            lemma_entries_map_at(t, 0);
        }
    } else if t.len() == 0 {
        lemma_entries_map_at(s, 0);
    } else {
        // The first entries agree: both are the least key of the map.
        lemma_entries_map_at(s, 0);
        lemma_entries_map_at(t, 0);
        let js = choose|j: int| 0 <= j < s.len() && s[j].0 == t[0].0;
        let jt = choose|j: int| 0 <= j < t.len() && t[j].0 == s[0].0;
        assert(entries_map(s).contains_key(t[0].0));
        assert(entries_map(t).contains_key(s[0].0));
        if js != 0 {
            assert(s[0].0.key_lt(s[js].0));
            if jt != 0 {
                assert(t[0].0.key_lt(t[jt].0));
                K::lemma_key_lt_transitive(s[0].0, t[0].0, s[0].0);
                K::lemma_key_lt_irreflexive(s[0].0);
            }
        }
        if jt != 0 {
            assert(t[0].0.key_lt(t[jt].0));
            if js != 0 {
                assert(s[0].0.key_lt(s[js].0));
            }
        }
        assert(s[0].0 == t[0].0);
        let k = s[0].0;
        assert(s[0].1 == t[0].1);
        let s2 = s.remove(0);
        let t2 = t.remove(0);
        lemma_remove_sorted(s, 0);
        lemma_remove_sorted(t, 0);
        lemma_sorted_canonical(s2, t2);
        s.remove_ensures(0);
        t.remove_ensures(0);
        assert(s.len() == t.len());
        assert forall|i: int| 0 <= i < s.len() implies s[i] == t[i] by {
            if i > 0 {
                assert(s[i] == s2[i - 1]);
                assert(t[i] == t2[i - 1]);
            }
        }
        assert(s =~= t);
    }
}

/// A map from ordered keys to values, kept sorted by key.
pub struct SortedMap<K: MapKey, V> {
    entries: Vec<(K, V)>,
}

impl<K: MapKey, V> View for SortedMap<K, V> {
    type V = Map<K, V>;

    open spec fn view(&self) -> Map<K, V> {
        entries_map(self.entries())
    }
}

impl<K: MapKey, V> SortedMap<K, V> {
    /// The entries, in increasing key order.
    pub closed spec fn entries(&self) -> Seq<(K, V)> {
        self.entries@
    }

    /// The entries are strictly sorted by key.
    #[verifier::type_invariant]
    pub open spec fn wf(&self) -> bool {
        keys_sorted(self.entries())
    }

    /// An empty map.
    pub fn new() -> (m: Self)
        ensures
            m.entries() == Seq::<(K, V)>::empty(),
            m@ == Map::<K, V>::empty(),
    {
        let m = SortedMap { entries: Vec::new() };
        assert(m@ =~= Map::<K, V>::empty());
        m
    }

    /// The number of entries.
    pub fn len(&self) -> (n: usize)
        ensures
            n == self.entries().len(),
            n == self@.len(),
            self.wf(),
    {
        proof {
            use_type_invariant(self);
            lemma_entries_map_len(self.entries());
        }
        self.entries.len()
    }

    /// The entry at position `i` in key order.
    pub fn entry_at(&self, i: usize) -> (e: &(K, V))
        requires
            i < self.entries().len(),
        ensures
            *e == self.entries()[i as int],
            self.wf(),
    {
        proof {
            use_type_invariant(self);
        }
        &self.entries[i]
    }

    /// Position of `k`, or where it would be inserted.
    fn search(&self, k: &K) -> (r: (usize, bool))
        ensures
            self.wf(),
            r.0 <= self.entries().len(),
            forall|j: int| 0 <= j < r.0 ==> (#[trigger] self.entries()[j]).0.key_lt(*k),
            r.1 ==> r.0 < self.entries().len() && self.entries()[r.0 as int].0 == *k,
            !r.1 ==> forall|j: int|
                r.0 <= j < self.entries().len() ==> k.key_lt((#[trigger] self.entries()[j]).0),
            !r.1 ==> !self@.contains_key(*k),
            r.1 ==> self@.contains_key(*k) && self@[*k] == self.entries()[r.0 as int].1,
    {
        proof {
            use_type_invariant(self);
        }
        let n = self.entries.len();
        let mut i: usize = 0;
        while i < n && self.entries[i].0.key_less(k)
            invariant
                i <= n,
                n == self.entries().len(),
                forall|j: int| 0 <= j < i ==> (#[trigger] self.entries()[j]).0.key_lt(*k),
            decreases n - i,
        {
            i = i + 1;
        }
        if i < n && self.entries[i].0.key_same(k) {
            proof {
                lemma_entries_map_at(self.entries(), i as int);
            }
            (i, true)
        } else {
            proof {
                let s = self.entries();
                if i < n {
                    K::lemma_key_lt_total(s[i as int].0, *k);
                    assert forall|j: int| i <= j < s.len() implies k.key_lt((#[trigger] s[j]).0) by {
                        if j > i {
                            assert(s[i as int].0.key_lt(s[j].0));
                            K::lemma_key_lt_transitive(*k, s[i as int].0, s[j].0);
                        }
                    }
                }
                lemma_absent(s, k, i as int);
            }
            (i, false)
        }
    }

    /// Whether `k` has an entry.
    pub fn contains_key(&self, k: &K) -> (b: bool)
        ensures
            b == self@.contains_key(*k),
            self.wf(),
    {
        let (_, found) = self.search(k);
        found
    }

    /// The value held for `k`, if any.
    pub fn get(&self, k: &K) -> (r: Option<&V>)
        ensures
            r is Some <==> self@.contains_key(*k),
            r is Some ==> *r->0 == self@[*k],
            self.wf(),
    {
        let (i, found) = self.search(k);
        if found {
            Some(&self.entries[i].1)
        } else {
            None
        }
    }

    /// Sets the value of `k`, returning the value it replaced.
    pub fn insert(&mut self, k: K, v: V) -> (r: Option<V>)
        ensures
            final(self)@ == old(self)@.insert(k, v),
            r is Some <==> old(self)@.contains_key(k),
            r is Some ==> r->0 == old(self)@[k],
            final(self).wf(),
    {
        proof {
            use_type_invariant(&*self);
        }
        let (i, found) = self.search(&k);
        let ghost s = self.entries();
        let mut es: Vec<(K, V)> = Vec::new();
        std::mem::swap(&mut es, &mut self.entries);
        if found {
            proof {
                lemma_entries_map_at(s, i as int);
                lemma_update_sorted(s, i as int, v);
            }
            let (k0, old_v) = es.remove(i);
            es.insert(i, (k0, v));
            proof {
                assert(es@ =~= s.update(i as int, (s[i as int].0, v)));
            }
            self.entries = es;
            Some(old_v)
        } else {
            proof {
                lemma_insert_sorted(s, i as int, k, v);
            }
            es.insert(i, (k, v));
            self.entries = es;
            None
        }
    }

    /// Removes the entry of `k`, returning its value.
    pub fn remove(&mut self, k: &K) -> (r: Option<V>)
        ensures
            final(self)@ == old(self)@.remove(*k),
            r is Some <==> old(self)@.contains_key(*k),
            r is Some ==> r->0 == old(self)@[*k],
            final(self).wf(),
    {
        proof {
            use_type_invariant(&*self);
        }
        let (i, found) = self.search(k);
        let ghost s = self.entries();
        if found {
            proof {
                lemma_remove_sorted(s, i as int);
            }
            let mut es: Vec<(K, V)> = Vec::new();
            std::mem::swap(&mut es, &mut self.entries);
            let (_, v) = es.remove(i);
            self.entries = es;
            Some(v)
        } else {
            proof {
                assert(self@.remove(*k) =~= self@);
            }
            None
        }
    }
}

proof fn lemma_absent<K: MapKey, V>(s: Seq<(K, V)>, k: &K, i: int)
    requires
        keys_sorted(s),
        0 <= i <= s.len(),
        forall|j: int| 0 <= j < i ==> (#[trigger] s[j]).0.key_lt(*k),
        forall|j: int| i <= j < s.len() ==> k.key_lt((#[trigger] s[j]).0),
    ensures
        !entries_map(s).contains_key(*k),
{
    if entries_map(s).contains_key(*k) {
        let j = choose|j: int| 0 <= j < s.len() && s[j].0 == *k;
        K::lemma_key_lt_irreflexive(*k);
        if j < i {
            assert(s[j].0.key_lt(*k));
        } else {
            assert(k.key_lt(s[j].0));
        }
    }
}

/// The map of a sorted sequence has as many keys as the sequence has entries.
pub proof fn lemma_entries_map_len<K: MapKey, V>(s: Seq<(K, V)>)
    requires
        keys_sorted(s),
    ensures
        entries_map(s).dom().finite(),
        entries_map(s).len() == s.len(),
    decreases s.len(),
{
    if s.len() == 0 {
        assert(entries_map(s).dom() =~= Set::<K>::empty());
    } else {
        let t = s.remove(0);
        lemma_remove_sorted(s, 0);
        lemma_entries_map_len(t);
        lemma_entries_map_at(s, 0);
        assert(entries_map(s).dom() =~= entries_map(t).dom().insert(s[0].0));
    }
}

} // verus!
