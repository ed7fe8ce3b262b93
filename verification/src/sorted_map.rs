//! A map from byte-string names to values, kept as a vector sorted by name.
use vstd::prelude::*;
use crate::order::{lemma_lex_order, lex_compare, lex_lt};

verus! {

/// Whether the names of `s` strictly increase.
pub open spec fn keys_sorted<V>(s: Seq<(Seq<u8>, V)>) -> bool {
    forall|i: int, j: int| 0 <= i < j < s.len() ==> lex_lt(#[trigger] s[i].0, #[trigger] s[j].0)
}

/// Whether `k` is a name in `s`.
pub open spec fn has_key<V>(s: Seq<(Seq<u8>, V)>, k: Seq<u8>) -> bool {
    exists|i: int| 0 <= i < s.len() && #[trigger] s[i].0 == k
}

/// A position of `k` in `s`.
pub open spec fn key_index<V>(s: Seq<(Seq<u8>, V)>, k: Seq<u8>) -> int {
    choose|i: int| 0 <= i < s.len() && #[trigger] s[i].0 == k
}

/// The map that `s` stands for.
pub open spec fn seq_map<V>(s: Seq<(Seq<u8>, V)>) -> Map<Seq<u8>, V> {
    Map::new(|k: Seq<u8>| has_key(s, k), |k: Seq<u8>| s[key_index(s, k)].1)
}

/// Sorted names are distinct.
pub proof fn lemma_sorted_distinct<V>(s: Seq<(Seq<u8>, V)>, i: int, j: int)
    requires
        keys_sorted(s),
        0 <= i < s.len(),
        0 <= j < s.len(),
        i != j,
    ensures
        s[i].0 != s[j].0,
{
    if i < j {
        lemma_lex_order(s[i].0, s[j].0, s[j].0);
    } else {
        lemma_lex_order(s[j].0, s[i].0, s[i].0);
    }
}

/// In a sorted sequence, the map holds at each name the value stored with it.
pub proof fn lemma_seq_map_at<V>(s: Seq<(Seq<u8>, V)>, i: int)
    requires
        keys_sorted(s),
        0 <= i < s.len(),
    ensures
        seq_map(s).contains_key(s[i].0),
        seq_map(s)[s[i].0] == s[i].1,
{
    let k = s[i].0;
    assert(has_key(s, k));
    let c = key_index(s, k);
    if c != i {
        lemma_sorted_distinct(s, c, i);
    }
}

/// Any two names of a sorted sequence at indices `i < j` are ordered.
pub proof fn lemma_sorted_pair<V>(s: Seq<(Seq<u8>, V)>, i: int, j: int)
    requires
        keys_sorted(s),
        0 <= i < j < s.len(),
    ensures
        lex_lt(s[i].0, s[j].0),
{
}

/// A sorted map of names to values.
pub struct SortedMap<V> {
    pub(crate) items: Vec<(Vec<u8>, V)>,
}

impl<V: View> SortedMap<V> {
    /// The names and values in order.
    pub closed spec fn spec_items(&self) -> Seq<(Seq<u8>, V::V)> {
        self.items@.map_values(|p: (Vec<u8>, V)| (p.0@, p.1@))
    }

    /// The names in order are strictly increasing.
    pub open spec fn wf(&self) -> bool {
        keys_sorted(self.spec_items())
    }

    /// The map.
    pub open spec fn spec_map(&self) -> Map<Seq<u8>, V::V> {
        seq_map(self.spec_items())
    }

    /// The number of names.
    pub fn len(&self) -> (r: usize)
        ensures
            r == self.spec_items().len(),
    {
        self.items.len()
    }

    /// A map with no names.
    pub fn new() -> (r: Self)
        ensures
            r.wf(),
            r.spec_items() == Seq::<(Seq<u8>, V::V)>::empty(),
            r.spec_map() == Map::<Seq<u8>, V::V>::empty(),
    {
        let r = SortedMap { items: Vec::new() };
        assert(r.spec_items() =~= Seq::<(Seq<u8>, V::V)>::empty());
        assert(r.spec_map() =~= Map::<Seq<u8>, V::V>::empty());
        r
    }

    /// The item at position `i`.
    pub fn get_at(&self, i: usize) -> (r: (&Vec<u8>, &V))
        requires
            i < self.spec_items().len(),
        ensures
            (r.0@, r.1@) == self.spec_items()[i as int],
    {
        let p = &self.items[i];
        (&p.0, &p.1)
    }

    /// The first position whose name does not sort before `key`, and whether
    /// the name there is `key`.
    fn find(&self, key: &[u8]) -> (r: (usize, bool))
        requires
            self.wf(),
        ensures
            r.0 <= self.spec_items().len(),
            forall|j: int| 0 <= j < r.0 ==> lex_lt(#[trigger] self.spec_items()[j].0, key@),
            r.0 < self.spec_items().len() ==> !lex_lt(self.spec_items()[r.0 as int].0, key@),
            r.1 == (r.0 < self.spec_items().len() && self.spec_items()[r.0 as int].0 == key@),
            r.1 == self.spec_map().contains_key(key@),
    {
        let ghost s = self.spec_items();
        let n = self.items.len();
        let mut i: usize = 0;
        loop
            invariant
                n == s.len(),
                s == self.spec_items(),
                i <= n,
                forall|j: int| 0 <= j < i ==> lex_lt(#[trigger] s[j].0, key@),
            ensures
                i <= n,
                forall|j: int| 0 <= j < i ==> lex_lt(#[trigger] s[j].0, key@),
                i < n ==> !lex_lt(s[i as int].0, key@),
            decreases n - i,
        {
            if i >= n {
                break;
            }
            let (lt, _eq) = lex_compare(self.items[i].0.as_slice(), key);
            if !lt {
                break;
            }
            i += 1;
        }
        let found = i < n && lex_compare(self.items[i].0.as_slice(), key).1;
        proof {
            if self.spec_map().contains_key(key@) {
                let c = choose|c: int| 0 <= c < s.len() && #[trigger] s[c].0 == key@;
                lemma_lex_order(key@, key@, key@);
                if c < i {
                    assert(lex_lt(s[c].0, key@));
                } else if c > i {
                    lemma_lex_order(s[i as int].0, key@, key@);
                    if s[i as int].0 != key@ {
                        lemma_lex_order(key@, s[i as int].0, s[c].0);
                        lemma_sorted_pair(s, i as int, c);
                        lemma_lex_order(s[i as int].0, s[c].0, s[c].0);
                    }
                }
            }
            if found {
                assert(s[i as int].0 == key@);
                assert(has_key(s, key@));
            }
        }
        (i, found)
    }

    /// Whether `key` is a name of the map.
    pub fn contains(&self, key: &[u8]) -> (r: bool)
        requires
            self.wf(),
        ensures
            r == self.spec_map().contains_key(key@),
    {
        self.find(key).1
    }

    /// Sets the value of `key`.
    pub fn insert(&mut self, key: Vec<u8>, value: V)
        requires
            old(self).wf(),
        ensures
            final(self).wf(),
            final(self).spec_map() == old(self).spec_map().insert(key@, value@),
    {
        let ghost s = self.spec_items();
        let ghost kv = (key@, value@);
        let (p, found) = self.find(key.as_slice());
        if found {
            self.items.set(p, (key, value));
            proof {
                let t = self.spec_items();
                assert(t =~= s.update(p as int, kv));
                assert forall|i: int, j: int| 0 <= i < j < t.len() implies lex_lt(#[trigger] t[i].0, #[trigger] t[j].0) by {
                    lemma_sorted_pair(s, i, j);
                }
                lemma_map_update(s, p as int, kv);
            }
        } else {
            self.items.insert(p, (key, value));
            proof {
                let t = self.spec_items();
                assert(t =~= s.insert(p as int, kv));
                assert forall|i: int, j: int| 0 <= i < j < t.len() implies lex_lt(#[trigger] t[i].0, #[trigger] t[j].0) by {
                    if j < p {
                        lemma_sorted_pair(s, i, j);
                    } else if j == p {
                        assert(lex_lt(s[i].0, kv.0));
                    } else if i == p {
                        lemma_lex_order(s[p as int].0, kv.0, kv.0);
                        lemma_lex_order(kv.0, s[p as int].0, s[j - 1].0);
                        if j - 1 > p {
                            lemma_sorted_pair(s, p as int, j - 1);
                        }
                    } else if i < p {
                        assert(lex_lt(s[i].0, kv.0));
                        lemma_lex_order(s[p as int].0, kv.0, kv.0);
                        lemma_lex_order(kv.0, s[p as int].0, s[j - 1].0);
                        if j - 1 > p {
                            lemma_sorted_pair(s, p as int, j - 1);
                        }
                        lemma_lex_order(s[i].0, kv.0, s[j - 1].0);
                    } else {
                        lemma_sorted_pair(s, i - 1, j - 1);
                    }
                }
                lemma_map_insert(s, p as int, kv);
            }
        }
    }

    /// Removes `key`, and gives back its value if it was there.
    pub fn remove(&mut self, key: &[u8]) -> (r: Option<V>)
        requires
            old(self).wf(),
        ensures
            final(self).wf(),
            final(self).spec_map() == old(self).spec_map().remove(key@),
            match r {
                Some(v) => old(self).spec_map().contains_key(key@) && old(self).spec_map()[key@] == v@,
                None => !old(self).spec_map().contains_key(key@),
            },
    {
        let ghost s = self.spec_items();
        let (p, found) = self.find(key);
        if found {
            let (_k, v) = self.items.remove(p);
            proof {
                let t = self.spec_items();
                assert(t =~= s.remove(p as int));
                assert forall|i: int, j: int| 0 <= i < j < t.len() implies lex_lt(#[trigger] t[i].0, #[trigger] t[j].0) by {
                    if j < p {
                        lemma_sorted_pair(s, i, j);
                    } else if i < p {
                        lemma_sorted_pair(s, i, j + 1);
                    } else {
                        lemma_sorted_pair(s, i + 1, j + 1);
                    }
                }
                lemma_map_remove(s, p as int);
                lemma_seq_map_at(s, p as int);
            }
            Some(v)
        } else {
            proof {
                assert(self.spec_map().remove(key@) =~= self.spec_map());
            }
            None
        }
    }
}

pub proof fn lemma_map_update<V>(s: Seq<(Seq<u8>, V)>, p: int, kv: (Seq<u8>, V))
    requires
        0 <= p < s.len(),
        keys_sorted(s),
        keys_sorted(s.update(p, kv)),
        s[p].0 == kv.0,
    ensures
        seq_map(s.update(p, kv)) == seq_map(s).insert(kv.0, kv.1),
{
    let t = s.update(p, kv);
    assert forall|k: Seq<u8>| #[trigger] seq_map(t).contains_key(k) == seq_map(s).insert(kv.0, kv.1).contains_key(k) by {
        if has_key(s, k) {
            let c = choose|c: int| 0 <= c < s.len() && #[trigger] s[c].0 == k;
            assert(t[c].0 == k);
        }
        if has_key(t, k) {
            let c = choose|c: int| 0 <= c < t.len() && #[trigger] t[c].0 == k;
            assert(s[c].0 == k);
        }
    }
    assert forall|k: Seq<u8>| #[trigger] seq_map(t).contains_key(k) implies seq_map(t)[k] == seq_map(s).insert(kv.0, kv.1)[k] by {
        let c = choose|c: int| 0 <= c < t.len() && #[trigger] t[c].0 == k;
        lemma_seq_map_at(t, c);
        if c != p {
            lemma_sorted_distinct(t, c, p);
            assert(k != kv.0);
            assert(s[c] == t[c]);
            lemma_seq_map_at(s, c);
        } else {
            assert(k == kv.0);
            assert(t[p].1 == kv.1);
        }
    }
    assert(seq_map(t) =~= seq_map(s).insert(kv.0, kv.1));
}

pub proof fn lemma_map_insert<V>(s: Seq<(Seq<u8>, V)>, p: int, kv: (Seq<u8>, V))
    requires
        0 <= p <= s.len(),
        keys_sorted(s),
        keys_sorted(s.insert(p, kv)),
    ensures
        seq_map(s.insert(p, kv)) == seq_map(s).insert(kv.0, kv.1),
{
    let t = s.insert(p, kv);
    assert forall|k: Seq<u8>| #[trigger] seq_map(t).contains_key(k) == seq_map(s).insert(kv.0, kv.1).contains_key(k) by {
        if has_key(s, k) {
            let c = choose|c: int| 0 <= c < s.len() && #[trigger] s[c].0 == k;
            if c < p {
                assert(t[c].0 == k);
            } else {
                assert(t[c + 1].0 == k);
            }
        }
        if k == kv.0 {
            assert(t[p].0 == k);
        }
        if has_key(t, k) {
            let c = choose|c: int| 0 <= c < t.len() && #[trigger] t[c].0 == k;
            if c < p {
                assert(s[c].0 == k);
            } else if c > p {
                assert(s[c - 1].0 == k);
            }
        }
    }
    assert forall|k: Seq<u8>| #[trigger] seq_map(t).contains_key(k) implies seq_map(t)[k] == seq_map(s).insert(kv.0, kv.1)[k] by {
        let c = choose|c: int| 0 <= c < t.len() && #[trigger] t[c].0 == k;
        lemma_seq_map_at(t, c);
        if c < p {
            lemma_seq_map_at(s, c);
            lemma_sorted_distinct(t, c, p);
        } else if c > p {
            lemma_seq_map_at(s, c - 1);
            lemma_sorted_distinct(t, c, p);
        }
    }
    assert(seq_map(t) =~= seq_map(s).insert(kv.0, kv.1));
}

pub proof fn lemma_map_remove<V>(s: Seq<(Seq<u8>, V)>, p: int)
    requires
        0 <= p < s.len(),
        keys_sorted(s),
        keys_sorted(s.remove(p)),
    ensures
        seq_map(s.remove(p)) == seq_map(s).remove(s[p].0),
{
    let t = s.remove(p);
    let k0 = s[p].0;
    assert forall|k: Seq<u8>| #[trigger] seq_map(t).contains_key(k) == seq_map(s).remove(k0).contains_key(k) by {
        if has_key(s, k) && k != k0 {
            let c = choose|c: int| 0 <= c < s.len() && #[trigger] s[c].0 == k;
            if c < p {
                assert(t[c].0 == k);
            } else {
                assert(t[c - 1].0 == k);
            }
        }
        if has_key(t, k) {
            let c = choose|c: int| 0 <= c < t.len() && #[trigger] t[c].0 == k;
            if c < p {
                assert(s[c].0 == k);
                lemma_sorted_distinct(s, c, p);
            } else {
                assert(s[c + 1].0 == k);
                lemma_sorted_distinct(s, c + 1, p);
            }
        }
    }
    assert forall|k: Seq<u8>| #[trigger] seq_map(t).contains_key(k) implies seq_map(t)[k] == seq_map(s).remove(k0)[k] by {
        let c = choose|c: int| 0 <= c < t.len() && #[trigger] t[c].0 == k;
        lemma_seq_map_at(t, c);
        if c < p {
            lemma_seq_map_at(s, c);
        } else {
            lemma_seq_map_at(s, c + 1);
        }
    }
    assert(seq_map(t) =~= seq_map(s).remove(k0));
}

} // verus!
