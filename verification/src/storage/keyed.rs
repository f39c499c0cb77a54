//! A map keyed by strings that also lists its keys, so that it can be
//! copied entry by entry.

use vstd::hash_map::StringHashMap;
use vstd::prelude::*;

use crate::protocol::views;
use crate::text::{copy_from, same_text};

verus! {

broadcast use vstd::hash_map::group_hash_map_axioms;

/// A map from string keys to values, with the list of its keys.
#[verifier::reject_recursive_types(V)]
pub struct KeyedMap<V> {
    map: StringHashMap<V>,
    names: Vec<String>,
}

impl<V> View for KeyedMap<V> {
    type V = Map<Seq<char>, V>;

    closed spec fn view(&self) -> Map<Seq<char>, V> {
        self.map@
    }
}

impl<V> KeyedMap<V> {
    /// The list holds each key of the map once, and nothing else.
    #[verifier::type_invariant]
    closed spec fn listed(&self) -> bool {
        &&& views(self.names@).no_duplicates()
        &&& forall|k: Seq<char>| #[trigger] self.map@.contains_key(k) == views(self.names@).contains(k)
    }

    /// The keys are finitely many, as many as listed.
    proof fn lemma_len(&self)
        requires
            self.listed(),
        ensures
            self@.dom().finite(),
            self@.len() == self.names@.len(),
    {
        let n = views(self.names@);
        assert(self@.dom() =~= n.to_set());
        n.unique_seq_to_set();
    }

    /// An empty map.
    pub fn new() -> (m: Self)
        ensures
            m@ == Map::<Seq<char>, V>::empty(),
            m@.dom().finite(),
    {
        let names: Vec<String> = Vec::new();
        proof {
            assert(views(names@) =~= Seq::<Seq<char>>::empty());
        }
        KeyedMap { map: StringHashMap::new(), names }
    }

    /// The number of keys.
    pub fn len(&self) -> (n: usize)
        ensures
            n == self@.len(),
            self@.dom().finite(),
    {
        proof {
            use_type_invariant(self);
            self.lemma_len();
        }
        self.names.len()
    }

    /// The keys, each once.
    pub fn key_list(&self) -> (v: Vec<String>)
        ensures
            views(v@).no_duplicates(),
            forall|k: Seq<char>| #[trigger] self@.contains_key(k) == views(v@).contains(k),
    {
        proof {
            use_type_invariant(self);
        }
        let v = copy_from(&self.names, 0);
        proof {
            assert(views(self.names@).subrange(0, self.names@.len() as int) =~= views(self.names@));
        }
        v
    }

    /// Whether the key is in the map.
    pub fn contains_key(&self, k: &str) -> (r: bool)
        ensures
            r == self@.contains_key(k@),
    {
        self.map.contains_key(k)
    }

    /// The value of the key, or nothing where it is absent.
    pub fn get<'a>(&'a self, k: &str) -> (r: Option<&'a V>)
        ensures
            match r {
                Some(v) => self@.contains_key(k@) && *v == self@[k@],
                None => !self@.contains_key(k@),
            },
    {
        self.map.get(k)
    }

    /// Sets the value of the key.
    pub fn insert(&mut self, k: String, v: V)
        ensures
            final(self)@ == old(self)@.insert(k@, v),
            final(self)@.dom().finite(),
    {
        proof {
            use_type_invariant(&*self);
        }
        let present = self.map.contains_key(k.as_str());
        let mut whole: KeyedMap<V> = KeyedMap::new();
        std::mem::swap(&mut whole, self);
        let KeyedMap { mut map, mut names } = whole;
        let ghost n0 = views(names@);
        let ghost m0 = map@;
        if !present {
            let name = k.clone();
            names.push(name);
            proof {
                assert(views(names@) =~= n0.push(k@));
                assert forall|a: int, b: int| 0 <= a < b < views(names@).len() implies views(names@)[a] != views(names@)[b] by {
                    if b == n0.len() {
                        assert(views(names@)[a] == n0[a]);
                    }
                }
            }
        }
        map.insert(k, v);
        proof {
            assert forall|q: Seq<char>| #[trigger] map@.contains_key(q) == views(names@).contains(q) by {
                if !present {
                    if q == k@ {
                        assert(views(names@)[n0.len() as int] == q);
                    } else if n0.contains(q) {
                        let j = choose|j: int| 0 <= j < n0.len() && n0[j] == q;
                        assert(views(names@)[j] == q);
                    } else if views(names@).contains(q) {
                        let j = choose|j: int| 0 <= j < views(names@).len() && views(names@)[j] == q;
                        assert(j < n0.len());
                        assert(n0[j] == q);
                    }
                }
            }
        }
        *self = KeyedMap { map, names };
        proof {
            use_type_invariant(&*self);
            self.lemma_len();
        }
    }

    /// The position of the key in the list, or nothing where it is not
    /// listed.
    fn find(&self, k: &str) -> (r: Option<usize>)
        ensures
            match r {
                Some(i) => i < self.names@.len() && self.names@[i as int]@ == k@,
                None => forall|j: int| 0 <= j < self.names@.len() ==> #[trigger] self.names@[j]@ != k@,
            },
    {
        let mut i: usize = 0;
        while i < self.names.len()
            invariant
                i <= self.names@.len(),
                forall|j: int| 0 <= j < i ==> #[trigger] self.names@[j]@ != k@,
            decreases self.names@.len() - i,
        {
            if same_text(&self.names[i], k) {
                return Some(i);
            }
            i = i + 1;
        }
        None
    }

    /// Removes the key, where it is present.
    pub fn remove(&mut self, k: &str)
        ensures
            final(self)@ == old(self)@.remove(k@),
            final(self)@.dom().finite(),
    {
        proof {
            use_type_invariant(&*self);
        }
        let i = match self.find(k) {
            Some(i) => i,
            None => {
                proof {
                    let n = views(self.names@);
                    if n.contains(k@) {
                        let j = choose|j: int| 0 <= j < n.len() && n[j] == k@;
                        assert(self.names@[j]@ == k@);
                    }
                    assert(self@.remove(k@) =~= self@);
                    self.lemma_len();
                }
                return;
            },
        };
        let mut whole: KeyedMap<V> = KeyedMap::new();
        std::mem::swap(&mut whole, self);
        let KeyedMap { mut map, mut names } = whole;
        let ghost on = views(names@);
        let ghost onames = names@;
        let _ = names.remove(i);
        map.remove(k);
        proof {
            let n = views(names@);
            onames.remove_ensures(i as int);
            assert(on[i as int] == k@);
            assert(n.len() == on.len() - 1);
            assert forall|j: int| 0 <= j < n.len() implies #[trigger] n[j] == (if j < i { on[j] } else { on[j + 1] }) by {
                assert(n[j] == names@[j]@);
            }
            assert forall|a: int, b: int| 0 <= a < b < n.len() implies n[a] != n[b] by {
                let a2 = if a < i { a } else { a + 1 };
                let b2 = if b < i { b } else { b + 1 };
                assert(n[a] == on[a2]);
                assert(n[b] == on[b2]);
            }
            assert forall|q: Seq<char>| #[trigger] map@.contains_key(q) == n.contains(q) by {
                if n.contains(q) {
                    let j = choose|j: int| 0 <= j < n.len() && n[j] == q;
                    let j2 = if j < i { j } else { j + 1 };
                    assert(on[j2] == q);
                    assert(j2 != i);
                } else if q != k@ && on.contains(q) {
                    let j = choose|j: int| 0 <= j < on.len() && on[j] == q;
                    assert(j != i);
                    let j1 = if j < i { j } else { j - 1 };
                    assert(n[j1] == q);
                }
            }
        }
        *self = KeyedMap { map, names };
        proof {
            use_type_invariant(&*self);
            self.lemma_len();
        }
    }
}

impl<V: Clone> Clone for KeyedMap<V> {
    /// A copy with the same keys, each value a clone of the original's.
    fn clone(&self) -> (c: Self)
        ensures
            c@.dom() == self@.dom(),
            forall|k: Seq<char>| #[trigger] c@.contains_key(k) ==> cloned::<V>(self@[k], c@[k]),
    {
        proof {
            use_type_invariant(self);
        }
        let ghost all = views(self.names@);
        let mut map: StringHashMap<V> = StringHashMap::new();
        let mut names: Vec<String> = Vec::new();
        let mut i: usize = 0;
        while i < self.names.len()
            invariant
                i <= self.names@.len(),
                all == views(self.names@),
                all.no_duplicates(),
                forall|k: Seq<char>| #[trigger] self.map@.contains_key(k) == all.contains(k),
                views(names@) == all.take(i as int),
                forall|k: Seq<char>| #[trigger] map@.contains_key(k) == all.take(i as int).contains(k),
                forall|k: Seq<char>| #[trigger] map@.contains_key(k) ==> cloned::<V>(self.map@[k], map@[k]),
            decreases self.names@.len() - i,
        {
            let name = self.names[i].clone();
            proof {
                assert(all[i as int] == name@);
                assert(all.contains(name@));
            }
            match self.map.get(name.as_str()) {
                Some(v) => {
                    let value = v.clone();
                    map.insert(name.clone(), value);
                },
                None => {},
            }
            names.push(name);
            proof {
                assert(all.take(i + 1) =~= all.take(i as int).push(all[i as int]));
                assert(views(names@) =~= all.take(i + 1));
                let t0 = all.take(i as int);
                let t1 = all.take(i + 1);
                assert forall|k: Seq<char>| #[trigger] map@.contains_key(k) == t1.contains(k) by {
                    if t1.contains(k) && k != all[i as int] {
                        let j = choose|j: int| 0 <= j < t1.len() && t1[j] == k;
                        assert(j < i);
                        assert(t0[j] == k);
                    }
                    if t0.contains(k) {
                        let j = choose|j: int| 0 <= j < t0.len() && t0[j] == k;
                        assert(t1[j] == k);
                    }
                    if k == all[i as int] {
                        assert(t1[i as int] == k);
                    }
                }
            }
            i = i + 1;
        }
        proof {
            assert(all.take(i as int) =~= all);
            assert(map@.dom() =~= self.map@.dom());
        }
        KeyedMap { map, names }
    }
}

} // verus!
