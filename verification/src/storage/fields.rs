//! The fields of one hash value: a map from field name to value.

use vstd::prelude::*;

use crate::storage::keyed::KeyedMap;

verus! {

/// The fields of one hash value.
pub struct FieldMap {
    entries: KeyedMap<String>,
}

impl View for FieldMap {
    type V = Map<Seq<char>, Seq<char>>;

    closed spec fn view(&self) -> Map<Seq<char>, Seq<char>> {
        self.entries@.map_values(|v: String| v@)
    }
}

impl FieldMap {
    /// No fields.
    pub fn new() -> (m: Self)
        ensures
            m@ == Map::<Seq<char>, Seq<char>>::empty(),
    {
        let m = FieldMap { entries: KeyedMap::new() };
        proof {
            assert(m@ =~= Map::<Seq<char>, Seq<char>>::empty());
        }
        m
    }

    /// The number of fields; they are finitely many.
    pub fn len(&self) -> (n: usize)
        ensures
            n == self@.len(),
            self@.dom().finite(),
    {
        let n = self.entries.len();
        proof {
            assert(self@.dom() =~= self.entries@.dom());
        }
        n
    }

    /// The value of a field, or nothing where it is absent.
    pub fn get(&self, name: &str) -> (r: Option<&String>)
        ensures
            match r {
                Some(v) => self@.contains_key(name@) && v@ == self@[name@],
                None => !self@.contains_key(name@),
            },
    {
        self.entries.get(name)
    }

    /// Sets a field and says whether it is new.
    pub fn insert(&mut self, name: String, value: String) -> (fresh: bool)
        ensures
            fresh == !old(self)@.contains_key(name@),
            final(self)@ == old(self)@.insert(name@, value@),
            final(self)@.dom().finite(),
            final(self)@.len() > 0,
    {
        let ghost k = name@;
        let ghost v = value@;
        let fresh = !self.entries.contains_key(name.as_str());
        self.entries.insert(name, value);
        proof {
            assert(self@ =~= old(self)@.insert(k, v));
            assert(self@.dom() =~= self.entries@.dom());
            assert(self@.dom().contains(k));
        }
        fresh
    }

    /// Removes a field and says whether it was there.
    pub fn remove(&mut self, name: &str) -> (was: bool)
        ensures
            was == old(self)@.contains_key(name@),
            final(self)@ == old(self)@.remove(name@),
            final(self)@.dom().finite(),
    {
        let was = self.entries.contains_key(name);
        self.entries.remove(name);
        proof {
            assert(self@ =~= old(self)@.remove(name@));
            assert(self@.dom() =~= self.entries@.dom());
        }
        was
    }
}

impl Clone for FieldMap {
    /// A copy of the fields.
    fn clone(&self) -> (m: Self)
        ensures
            m@ == self@,
    {
        let m = FieldMap { entries: self.entries.clone() };
        proof {
            assert forall|k: Seq<char>| #[trigger] m.entries@.contains_key(k) implies m.entries@[k] == self.entries@[k] by {
                assert(cloned::<String>(self.entries@[k], m.entries@[k]));
            }
            assert(m@ =~= self@);
        }
        m
    }
}

} // verus!
