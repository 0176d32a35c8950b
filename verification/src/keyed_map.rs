//! `StrMap`: a map keyed by strings that keeps its entries strictly sorted by
//! key, so that every document built from it comes out in one deterministic
//! order, the order in which `BTreeMap<String, _>` iterates.

use vstd::prelude::*;

use crate::text::{key_less, key_lt, lemma_key_lt_irreflexive, lemma_key_lt_total,
    lemma_key_lt_transitive, str_equal, strictly_sorted};

verus! {

/// The keys of a sequence of entries.
pub open spec fn seq_keys<V>(es: Seq<(Seq<char>, V)>) -> Seq<Seq<char>> {
    es.map_values(|e: (Seq<char>, V)| e.0)
}

/// Whether some entry has the key `k`.
pub open spec fn seq_has_key<V>(es: Seq<(Seq<char>, V)>, k: Seq<char>) -> bool {
    exists|i: int| 0 <= i < es.len() && #[trigger] es[i].0 == k
}

/// A position of an entry with the key `k`.
pub open spec fn seq_index_of<V>(es: Seq<(Seq<char>, V)>, k: Seq<char>) -> int {
    choose|i: int| 0 <= i < es.len() && #[trigger] es[i].0 == k
}

/// The map from each key of the entries to its value.
pub open spec fn seq_as_map<V>(es: Seq<(Seq<char>, V)>) -> Map<Seq<char>, V> {
    Map::new(|k: Seq<char>| seq_has_key(es, k), |k: Seq<char>| es[seq_index_of(es, k)].1)
}

/// In entries with strictly sorted keys, a key has exactly one position.
pub proof fn lemma_unique_index<V>(es: Seq<(Seq<char>, V)>, k: Seq<char>, i: int)
    requires
        strictly_sorted(seq_keys(es)),
        0 <= i < es.len(),
        es[i].0 == k,
    ensures
        seq_has_key(es, k),
        seq_index_of(es, k) == i,
        seq_as_map(es).contains_key(k),
        seq_as_map(es)[k] == es[i].1,
{
    assert(es[i].0 == k);
    let j = seq_index_of(es, k);
    if j != i {
        let ks = seq_keys(es);
        assert(ks[i] == k && ks[j] == k);
        lemma_key_lt_irreflexive(k);
        if i < j {
            assert(key_lt(ks[i], ks[j]));
        } else {
            assert(key_lt(ks[j], ks[i]));
        }
    }
}

proof fn lemma_map_update<V>(es: Seq<(Seq<char>, V)>, p: int, v: V)
    requires
        strictly_sorted(seq_keys(es)),
        0 <= p < es.len(),
    ensures
        seq_keys(es.update(p, (es[p].0, v))) == seq_keys(es),
        seq_as_map(es.update(p, (es[p].0, v))) == seq_as_map(es).insert(es[p].0, v),
{
    let ns = es.update(p, (es[p].0, v));
    assert(seq_keys(ns) =~= seq_keys(es));
    let m = seq_as_map(es).insert(es[p].0, v);
    assert forall|k: Seq<char>| #[trigger] seq_as_map(ns).contains_key(k) <==> m.contains_key(k) by {
        if seq_has_key(es, k) {
            let i = choose|i: int| 0 <= i < es.len() && #[trigger] es[i].0 == k;
            assert(ns[i].0 == k);
        }
        if seq_has_key(ns, k) {
            let i = choose|i: int| 0 <= i < ns.len() && #[trigger] ns[i].0 == k;
            assert(es[i].0 == k);
        }
    }
    assert forall|k: Seq<char>| #[trigger] seq_as_map(ns).contains_key(k) implies seq_as_map(
        ns,
    )[k] == m[k] by {
        let i = choose|i: int| 0 <= i < ns.len() && #[trigger] ns[i].0 == k;
        lemma_unique_index(ns, k, i);
        assert(es[i].0 == k);
        lemma_unique_index(es, k, i);
        lemma_unique_index(es, es[p].0, p);
        if k == es[p].0 {
            assert(i == p);
        } else {
            assert(i != p);
            assert(ns[i].1 == es[i].1);
        }
    }
    assert(seq_as_map(ns) =~= m);
}

proof fn lemma_map_insert<V>(es: Seq<(Seq<char>, V)>, p: int, k: Seq<char>, v: V)
    requires
        strictly_sorted(seq_keys(es.insert(p, (k, v)))),
        0 <= p <= es.len(),
    ensures
        seq_as_map(es.insert(p, (k, v))) == seq_as_map(es).insert(k, v),
{
    let ns = es.insert(p, (k, v));
    let m = seq_as_map(es).insert(k, v);
    assert(strictly_sorted(seq_keys(es))) by {
        assert forall|i: int, j: int| 0 <= i < j < seq_keys(es).len() implies key_lt(
            #[trigger] seq_keys(es)[i],
            #[trigger] seq_keys(es)[j],
        ) by {
            let (ni, nj) = (if i < p { i } else { i + 1 }, if j < p { j } else { j + 1 });
            assert(seq_keys(ns)[ni] == seq_keys(es)[i]);
            assert(seq_keys(ns)[nj] == seq_keys(es)[j]);
        }
    }
    assert forall|q: Seq<char>| #[trigger] seq_as_map(ns).contains_key(q) <==> m.contains_key(q) by {
        if seq_has_key(es, q) {
            let i = choose|i: int| 0 <= i < es.len() && #[trigger] es[i].0 == q;
            let ni = if i < p { i } else { i + 1 };
            assert(ns[ni].0 == q);
        }
        if q == k {
            assert(ns[p].0 == q);
        }
        if seq_has_key(ns, q) {
            let i = choose|i: int| 0 <= i < ns.len() && #[trigger] ns[i].0 == q;
            if i < p {
                assert(es[i].0 == q);
            } else if i > p {
                assert(es[i - 1].0 == q);
            }
        }
    }
    assert forall|q: Seq<char>| #[trigger] seq_as_map(ns).contains_key(q) implies seq_as_map(
        ns,
    )[q] == m[q] by {
        let i = choose|i: int| 0 <= i < ns.len() && #[trigger] ns[i].0 == q;
        lemma_unique_index(ns, q, i);
        if i < p {
            assert(es[i].0 == q);
            lemma_unique_index(es, q, i);
            lemma_unique_index(ns, k, p);
        } else if i > p {
            assert(es[i - 1].0 == q);
            lemma_unique_index(es, q, i - 1);
            lemma_unique_index(ns, k, p);
        }
    }
    assert(seq_as_map(ns) =~= m);
}

proof fn lemma_map_remove<V>(es: Seq<(Seq<char>, V)>, p: int)
    requires
        strictly_sorted(seq_keys(es)),
        0 <= p < es.len(),
    ensures
        strictly_sorted(seq_keys(es.remove(p))),
        seq_as_map(es.remove(p)) == seq_as_map(es).remove(es[p].0),
{
    let ns = es.remove(p);
    let k = es[p].0;
    assert forall|i: int, j: int| 0 <= i < j < seq_keys(ns).len() implies key_lt(
        #[trigger] seq_keys(ns)[i],
        #[trigger] seq_keys(ns)[j],
    ) by {
        let (oi, oj) = (if i < p { i } else { i + 1 }, if j < p { j } else { j + 1 });
        assert(seq_keys(ns)[i] == seq_keys(es)[oi]);
        assert(seq_keys(ns)[j] == seq_keys(es)[oj]);
    }
    let m = seq_as_map(es).remove(k);
    assert forall|q: Seq<char>| #[trigger] seq_as_map(ns).contains_key(q) <==> m.contains_key(q) by {
        if seq_has_key(ns, q) {
            let i = choose|i: int| 0 <= i < ns.len() && #[trigger] ns[i].0 == q;
            let oi = if i < p { i } else { i + 1 };
            assert(es[oi].0 == q);
            lemma_unique_index(es, q, oi);
            lemma_unique_index(es, k, p);
        }
        if seq_has_key(es, q) && q != k {
            let i = choose|i: int| 0 <= i < es.len() && #[trigger] es[i].0 == q;
            if i < p {
                assert(ns[i].0 == q);
            } else {
                assert(i != p);
                assert(ns[i - 1].0 == q);
            }
        }
    }
    assert forall|q: Seq<char>| #[trigger] seq_as_map(ns).contains_key(q) implies seq_as_map(
        ns,
    )[q] == m[q] by {
        let i = choose|i: int| 0 <= i < ns.len() && #[trigger] ns[i].0 == q;
        lemma_unique_index(ns, q, i);
        let oi = if i < p { i } else { i + 1 };
        assert(es[oi].0 == q);
        lemma_unique_index(es, q, oi);
    }
    assert(seq_as_map(ns) =~= m);
}

/// At the first position where two sorted entry lists with the same map
/// could differ, their keys agree.
proof fn lemma_same_key_at<V>(a: Seq<(Seq<char>, V)>, b: Seq<(Seq<char>, V)>, i: int)
    requires
        strictly_sorted(seq_keys(a)),
        strictly_sorted(seq_keys(b)),
        seq_as_map(a) == seq_as_map(b),
        0 <= i < a.len(),
        i < b.len(),
        forall|j: int| 0 <= j < i ==> #[trigger] a[j].0 == b[j].0,
    ensures
        a[i].0 == b[i].0,
{
    let (ka, kb) = (a[i].0, b[i].0);
    if ka != kb {
        lemma_key_lt_total(ka, kb);
        lemma_unique_index(a, ka, i);
        lemma_unique_index(b, kb, i);
        assert(seq_as_map(a).contains_key(ka));
        assert(seq_as_map(b).contains_key(kb));
        if key_lt(ka, kb) {
            let j = choose|j: int| 0 <= j < b.len() && #[trigger] b[j].0 == ka;
            lemma_key_lt_irreflexive(ka);
            if j < i {
                assert(a[j].0 == ka);
                assert(seq_keys(a)[j] == ka && seq_keys(a)[i] == ka);
            } else if j > i {
                assert(key_lt(seq_keys(b)[i], seq_keys(b)[j]));
            }
        } else {
            let j = choose|j: int| 0 <= j < a.len() && #[trigger] a[j].0 == kb;
            lemma_key_lt_irreflexive(kb);
            if j < i {
                assert(b[j].0 == kb);
                assert(seq_keys(b)[j] == kb && seq_keys(b)[i] == kb);
            } else if j > i {
                assert(key_lt(seq_keys(a)[i], seq_keys(a)[j]));
            }
        }
    }
}

proof fn lemma_same_keys_upto<V>(a: Seq<(Seq<char>, V)>, b: Seq<(Seq<char>, V)>, i: int)
    requires
        strictly_sorted(seq_keys(a)),
        strictly_sorted(seq_keys(b)),
        seq_as_map(a) == seq_as_map(b),
        0 <= i <= a.len(),
        i <= b.len(),
    ensures
        forall|j: int| 0 <= j < i ==> #[trigger] a[j].0 == b[j].0,
    decreases i,
{
    if i > 0 {
        lemma_same_keys_upto(a, b, i - 1);
        lemma_same_key_at(a, b, i - 1);
    }
}

/// Sorted entry lists with the same map are the same list.
pub proof fn lemma_sorted_same_map<V>(a: Seq<(Seq<char>, V)>, b: Seq<(Seq<char>, V)>)
    requires
        strictly_sorted(seq_keys(a)),
        strictly_sorted(seq_keys(b)),
        seq_as_map(a) == seq_as_map(b),
    ensures
        a == b,
{
    let n = if a.len() < b.len() { a.len() } else { b.len() };
    lemma_same_keys_upto(a, b, n as int);
    if a.len() < b.len() {
        let k = b[n as int].0;
        lemma_unique_index(b, k, n as int);
        let j = choose|j: int| 0 <= j < a.len() && #[trigger] a[j].0 == k;
        assert(b[j].0 == k);
        lemma_key_lt_irreflexive(k);
        assert(key_lt(seq_keys(b)[j], seq_keys(b)[n as int]));
    } else if b.len() < a.len() {
        let k = a[n as int].0;
        lemma_unique_index(a, k, n as int);
        let j = choose|j: int| 0 <= j < b.len() && #[trigger] b[j].0 == k;
        assert(a[j].0 == k);
        lemma_key_lt_irreflexive(k);
        assert(key_lt(seq_keys(a)[j], seq_keys(a)[n as int]));
    }
    assert forall|i: int| 0 <= i < a.len() implies a[i] == b[i] by {
        lemma_unique_index(a, a[i].0, i);
        lemma_unique_index(b, b[i].0, i);
    }
    assert(a =~= b);
}

/// A map from string keys to values whose entries are kept strictly sorted
/// by key.
#[derive(Debug, PartialEq)]
pub struct StrMap<V> {
    entries: Vec<(String, V)>,
}

/// The entries of a vector of keyed pairs, each key by its view.
pub open spec fn entry_views<V>(v: Seq<(String, V)>) -> Seq<(Seq<char>, V)> {
    v.map_values(|e: (String, V)| (e.0@, e.1))
}

impl<V> View for StrMap<V> {
    type V = Map<Seq<char>, V>;

    open spec fn view(&self) -> Map<Seq<char>, V> {
        seq_as_map(self.entries())
    }
}

impl<V> StrMap<V> {
    /// The keys are strictly increasing.
    #[verifier::type_invariant]
    pub open spec fn keys_sorted(self) -> bool {
        strictly_sorted(self.keys())
    }

    /// The entries, in key order: each key by its view, with its value.
    pub closed spec fn entries(self) -> Seq<(Seq<char>, V)> {
        entry_views(self.entries@)
    }

    /// Each value is structurally smaller than the map that holds it.
    pub proof fn lemma_values_decrease(self, i: int)
        requires
            0 <= i < self.entries().len(),
        ensures
            decreases_to!(self => self.entries()[i].1),
    {
        assert(decreases_to!(self => self.entries));
        assert(decreases_to!(self.entries => self.entries@));
        assert(decreases_to!(self.entries@ => self.entries@[i]));
        assert(decreases_to!(self.entries@[i] => self.entries@[i].1));
    }

    /// The keys, in order.
    pub open spec fn keys(self) -> Seq<Seq<char>> {
        seq_keys(self.entries())
    }

    /// The entries of a map are determined by its contents: two maps that map
    /// the same keys to the same values hold the same entries, in the same
    /// order, so whatever is built from them (such as their JSON form) is
    /// the same too.
    pub proof fn lemma_entries_determined(m1: Self, m2: Self)
        requires
            m1.keys_sorted(),
            m2.keys_sorted(),
            m1@ == m2@,
        ensures
            m1.entries() == m2.entries(),
    {
        lemma_sorted_same_map(m1.entries(), m2.entries());
    }

    /// An empty map.
    pub fn new() -> (m: Self)
        ensures
            m.entries() == Seq::<(Seq<char>, V)>::empty(),
            m@ == Map::<Seq<char>, V>::empty(),
    {
        let m = StrMap { entries: Vec::new() };
        assert(m.entries() =~= Seq::<(Seq<char>, V)>::empty());
        assert(m@ =~= Map::<Seq<char>, V>::empty());
        m
    }

    /// The map whose entries are `entries`, whose keys are strictly sorted.
    pub fn from_sorted(entries: Vec<(String, V)>) -> (m: Self)
        requires
            strictly_sorted(seq_keys(entry_views(entries@))),
        ensures
            m.entries() == entry_views(entries@),
    {
        StrMap { entries }
    }

    /// A map with the one entry `key` to `value`.
    pub fn singleton(key: String, value: V) -> (m: Self)
        ensures
            m.entries() == seq![(key@, value)],
            m@ == Map::<Seq<char>, V>::empty().insert(key@, value),
    {
        let ghost kv = key@;
        let mut entries: Vec<(String, V)> = Vec::new();
        entries.push((key, value));
        let m = StrMap { entries };
        proof {
            assert(m.entries() =~= seq![(kv, value)]);
            lemma_unique_index(m.entries(), kv, 0);
            assert(m@ =~= Map::<Seq<char>, V>::empty().insert(kv, value));
        }
        m
    }

    /// The number of entries.
    pub fn len(&self) -> (n: usize)
        ensures
            n == self.entries().len(),
    {
        self.entries.len()
    }

    /// Whether there is no entry.
    pub fn is_empty(&self) -> (r: bool)
        ensures
            r == (self.entries().len() == 0),
            r == (self@ == Map::<Seq<char>, V>::empty()),
    {
        proof {
            if self.entries().len() > 0 {
                assert(self@.dom().contains(self.entries()[0].0));
            } else {
                assert(self@ =~= Map::<Seq<char>, V>::empty());
            }
        }
        self.entries.len() == 0
    }

    /// The position of `key`, if it is a key of this map.
    fn find(&self, key: &str) -> (r: Option<usize>)
        ensures
            match r {
                Some(i) => i < self.entries().len() && self.entries()[i as int].0 == key@,
                None => !seq_has_key(self.entries(), key@),
            },
    {
        let mut i: usize = 0;
        while i < self.entries.len()
            invariant
                i <= self.entries@.len(),
                forall|j: int| 0 <= j < i ==> #[trigger] self.entries()[j].0 != key@,
            decreases self.entries@.len() - i,
        {
            if str_equal(self.entries[i].0.as_str(), key) {
                return Some(i);
            }
            i = i + 1;
        }
        None
    }

    /// The value of `key`, if it is a key of this map.
    pub fn get(&self, key: &str) -> (r: Option<&V>)
        ensures
            match r {
                Some(v) => self@.contains_key(key@) && self@[key@] == *v,
                None => !self@.contains_key(key@),
            },
    {
        proof {
            use_type_invariant(self);
        }
        match self.find(key) {
            Some(i) => {
                proof {
                    lemma_unique_index(self.entries(), key@, i as int);
                }
                Some(&self.entries[i].1)
            },
            None => None,
        }
    }

    /// Sets the value of `key` to `value`, in place of any value it had.
    pub fn insert(&mut self, key: String, value: V)
        ensures
            final(self)@ == old(self)@.insert(key@, value),
            strictly_sorted(final(self).keys()),
    {
        proof {
            use_type_invariant(&*self);
        }
        let ghost old_es = self.entries();
        let mut entries: Vec<(String, V)> = Vec::new();
        std::mem::swap(&mut entries, &mut self.entries);
        let ghost ks = seq_keys(old_es);
        // The first position whose key does not sort before `key`.
        let mut p: usize = 0;
        while p < entries.len() && key_less(entries[p].0.as_str(), key.as_str())
            invariant
                entry_views(entries@) == old_es,
                ks == seq_keys(old_es),
                strictly_sorted(ks),
                p <= entries@.len(),
                forall|j: int| 0 <= j < p ==> key_lt(#[trigger] ks[j], key@),
            decreases entries@.len() - p,
        {
            p = p + 1;
        }
        let ghost kv = key@;
        if p < entries.len() && entries[p].0 == key {
            entries.set(p, (key, value));
            proof {
                assert(entry_views(entries@) =~= old_es.update(p as int, (old_es[p as int].0, value)));
                lemma_map_update(old_es, p as int, value);
            }
            self.entries = entries;
        } else {
            proof {
                if p < entries@.len() {
                    assert(ks[p as int] == entries@[p as int].0@);
                    lemma_key_lt_total(ks[p as int], kv);
                }
            }
            entries.insert(p, (key, value));
            let ghost nes = old_es.insert(p as int, (kv, value));
            proof {
                assert(entry_views(entries@) =~= nes);
                let nks = seq_keys(nes);
                assert(nks =~= ks.insert(p as int, kv));
                assert forall|i: int, j: int| 0 <= i < j < nks.len() implies key_lt(
                    #[trigger] nks[i],
                    #[trigger] nks[j],
                ) by {
                    if j < p {
                    } else if j == p {
                        assert(nks[i] == ks[i]);
                    } else if i < p {
                        assert(nks[j] == ks[j - 1]);
                        if j - 1 == p {
                            lemma_key_lt_transitive(ks[i], kv, ks[j - 1]);
                        } else {
                            lemma_key_lt_transitive(ks[i], kv, ks[p as int]);
                            lemma_key_lt_transitive(ks[i], ks[p as int], ks[j - 1]);
                        }
                    } else if i == p {
                        assert(nks[j] == ks[j - 1]);
                        if j - 1 > p {
                            lemma_key_lt_transitive(kv, ks[p as int], ks[j - 1]);
                        }
                    } else {
                        assert(nks[i] == ks[i - 1] && nks[j] == ks[j - 1]);
                    }
                }
                lemma_map_insert(old_es, p as int, kv, value);
            }
            self.entries = entries;
        }
    }

    /// Removes `key` and hands back its value, if it had one.
    pub fn remove(&mut self, key: &str) -> (r: Option<V>)
        ensures
            final(self)@ == old(self)@.remove(key@),
            strictly_sorted(final(self).keys()),
            match r {
                Some(v) => old(self)@.contains_key(key@) && old(self)@[key@] == v,
                None => !old(self)@.contains_key(key@),
            },
    {
        proof {
            use_type_invariant(&*self);
        }
        let ghost old_es = self.entries();
        match self.find(key) {
            Some(i) => {
                proof {
                    lemma_unique_index(old_es, key@, i as int);
                    lemma_map_remove(old_es, i as int);
                }
                let mut entries: Vec<(String, V)> = Vec::new();
                std::mem::swap(&mut entries, &mut self.entries);
                let (_, v) = entries.remove(i);
                proof {
                    assert(entry_views(entries@) =~= old_es.remove(i as int));
                }
                self.entries = entries;
                Some(v)
            },
            None => {
                proof {
                    assert(self@ =~= self@.remove(key@));
                }
                None
            },
        }
    }

    /// The entries, in key order.
    pub fn as_slice(&self) -> (r: &[(String, V)])
        ensures
            entry_views(r@) == self.entries(),
    {
        self.entries.as_slice()
    }

    /// Hands out the entries, in key order.
    pub fn into_entries(self) -> (r: Vec<(String, V)>)
        ensures
            entry_views(r@) == self.entries(),
            strictly_sorted(seq_keys(entry_views(r@))),
    {
        proof {
            use_type_invariant(&self);
        }
        self.entries
    }
}

impl<V: Clone> Clone for StrMap<V> {
    /// A copy of the map: the same keys in the same order, each value a
    /// clone of the original's.
    fn clone(&self) -> (r: Self)
        ensures
            r.keys() == self.keys(),
            forall|i: int|
                0 <= i < self.entries().len() ==> cloned::<V>(
                    self.entries()[i].1,
                    #[trigger] r.entries()[i].1,
                ),
    {
        proof {
            use_type_invariant(self);
        }
        let mut out: Vec<(String, V)> = Vec::new();
        for i in 0..self.entries.len()
            invariant
                out@.len() == i,
                forall|j: int| 0 <= j < i ==> #[trigger] out@[j].0@ == self.entries@[j].0@,
                forall|j: int|
                    0 <= j < i ==> cloned::<V>(self.entries@[j].1, #[trigger] out@[j].1),
        {
            let k = self.entries[i].0.clone();
            let v = self.entries[i].1.clone();
            let ghost before = out@;
            out.push((k, v));
            proof {
                assert forall|j: int| 0 <= j < i + 1 implies #[trigger] out@[j].0@
                    == self.entries@[j].0@ by {
                    if j < i {
                        assert(out@[j] == before[j]);
                    }
                }
                assert forall|j: int| 0 <= j < i + 1 implies cloned::<V>(
                    self.entries@[j].1,
                    #[trigger] out@[j].1,
                ) by {
                    if j < i {
                        assert(out@[j] == before[j]);
                    }
                }
            }
        }
        proof {
            assert(seq_keys(entry_views(out@)) =~= self.keys()) by {
                assert forall|j: int| 0 <= j < out@.len() implies #[trigger] seq_keys(
                    entry_views(out@),
                )[j] == self.keys()[j] by {
                    assert(out@[j].0@ == self.entries@[j].0@);
                }
            }
        }
        let r = StrMap { entries: out };
        r
    }
}

} // verus!
