//! The hash values: a map from key to a map from field to value.

use vstd::prelude::*;

use crate::protocol::views;
use crate::storage::fields::FieldMap;
use crate::storage::keyed::KeyedMap;
use crate::text::{bulk_reply, bulk_reply_string, int_reply, int_reply_string, nil_reply};

verus! {

/// The fields of a key, none where the key holds no hash.
pub open spec fn fields_of(h: Map<Seq<char>, Map<Seq<char>, Seq<char>>>, key: Seq<char>) -> Map<Seq<char>, Seq<char>> {
    if h.contains_key(key) {
        h[key]
    } else {
        Map::empty()
    }
}

/// The hash values after `HSET key field value`.
pub open spec fn hset_model(
    h: Map<Seq<char>, Map<Seq<char>, Seq<char>>>,
    key: Seq<char>,
    field: Seq<char>,
    value: Seq<char>,
) -> Map<Seq<char>, Map<Seq<char>, Seq<char>>> {
    h.insert(key, fields_of(h, key).insert(field, value))
}

/// The reply of `HSET key field value`: 1 where the field is new, 0 where
/// it was overwritten.
pub open spec fn hset_reply(h: Map<Seq<char>, Map<Seq<char>, Seq<char>>>, key: Seq<char>, field: Seq<char>) -> Seq<char> {
    int_reply(if fields_of(h, key).contains_key(field) { 0 } else { 1 })
}

/// The reply of `HGET key field`: the value, or nil.
pub open spec fn hget_reply(h: Map<Seq<char>, Map<Seq<char>, Seq<char>>>, key: Seq<char>, field: Seq<char>) -> Seq<char> {
    if fields_of(h, key).contains_key(field) {
        bulk_reply(fields_of(h, key)[field])
    } else {
        nil_reply()
    }
}

/// Removes the fields one after the other; gives the fields left and how
/// many removals found their field.
pub open spec fn remove_fields(m: Map<Seq<char>, Seq<char>>, fields: Seq<Seq<char>>) -> (Map<Seq<char>, Seq<char>>, nat)
    decreases fields.len(),
{
    if fields.len() == 0 {
        (m, 0)
    } else {
        let (m1, c) = remove_fields(m, fields.drop_last());
        if m1.contains_key(fields.last()) {
            (m1.remove(fields.last()), c + 1)
        } else {
            (m1, c)
        }
    }
}

/// The hash values after `HDEL key fields...` and its reply, the number of
/// fields removed. A key left without fields is removed.
pub open spec fn hdel_model(
    h: Map<Seq<char>, Map<Seq<char>, Seq<char>>>,
    key: Seq<char>,
    fields: Seq<Seq<char>>,
) -> (Map<Seq<char>, Map<Seq<char>, Seq<char>>>, Seq<char>) {
    if !h.contains_key(key) || h[key].len() == 0 {
        (h, int_reply(0))
    } else {
        let (m, c) = remove_fields(h[key], fields);
        (if m.len() == 0 { h.remove(key) } else { h.insert(key, m) }, int_reply(c))
    }
}

/// The hash values.
pub struct THash {
    pub inner: KeyedMap<FieldMap>,
}

impl View for THash {
    type V = Map<Seq<char>, Map<Seq<char>, Seq<char>>>;

    open spec fn view(&self) -> Map<Seq<char>, Map<Seq<char>, Seq<char>>> {
        self.inner@.map_values(|m: FieldMap| m@)
    }
}

impl THash {
    /// Every key holds finitely many fields, and none is left without.
    pub open spec fn wf(&self) -> bool {
        forall|k: Seq<char>| #[trigger] self.inner@.contains_key(k) ==> self.inner@[k]@.dom().finite() && self.inner@[k]@.len() > 0
    }

    /// No hash values.
    pub fn new() -> (h: Self)
        ensures
            h.wf(),
            h@ == Map::<Seq<char>, Map<Seq<char>, Seq<char>>>::empty(),
    {
        let h = THash { inner: KeyedMap::new() };
        proof {
            assert(h@ =~= Map::<Seq<char>, Map<Seq<char>, Seq<char>>>::empty());
        }
        h
    }

    /// A copy of the fields of a key, none where it holds no hash.
    fn fields_copy(&self, key: &str) -> (m: FieldMap)
        requires
            self.wf(),
        ensures
            m@.dom().finite(),
            m@ == fields_of(self@, key@),
    {
        match self.inner.get(key) {
            Some(x) => x.clone(),
            None => FieldMap::new(),
        }
    }

    /// `HSET key field value`: sets the field; replies 1 where it is new.
    pub fn set(&mut self, key: String, field: String, value: String) -> (r: Result<String, ()>)
        requires
            old(self).wf(),
        ensures
            final(self).wf(),
            final(self)@ == hset_model(old(self)@, key@, field@, value@),
            r matches Ok(s) && s@ == hset_reply(old(self)@, key@, field@),
    {
        let ghost k = key@;
        let mut map = self.fields_copy(key.as_str());
        let mut count: usize = 0;
        if map.insert(field, value) {
            count = count + 1;
        }
        self.inner.insert(key, map);
        proof {
            assert(self@ =~= hset_model(old(self)@, k, field@, value@));
        }
        Ok(int_reply_string(count))
    }

    /// `HGET key field`: the value of the field, or nil.
    pub fn get(&self, key: String, field: String) -> (r: Result<String, ()>)
        requires
            self.wf(),
        ensures
            r matches Ok(s) && s@ == hget_reply(self@, key@, field@),
    {
        let resp = match self.inner.get(key.as_str()) {
            None => "$-1\r\n".to_owned(),
            Some(map) => match map.get(field.as_str()) {
                None => "$-1\r\n".to_owned(),
                Some(x) => bulk_reply_string(x),
            },
        };
        Ok(resp)
    }

    /// `HDEL key fields...`: removes the fields; replies how many were there.
    pub fn del(&mut self, key: String, fields: Vec<String>) -> (r: Result<String, ()>)
        requires
            old(self).wf(),
        ensures
            final(self).wf(),
            final(self)@ == hdel_model(old(self)@, key@, views(fields@)).0,
            r matches Ok(s) && s@ == hdel_model(old(self)@, key@, views(fields@)).1,
    {
        let ghost k = key@;
        let ghost fs = views(fields@);
        let existing = match self.inner.get(key.as_str()) {
            None => None,
            Some(map) => Some(map.clone()),
        };
        let resp = match existing {
            None => int_reply_string(0),
            Some(mut map) => {
                if map.len() <= 0 {
                    int_reply_string(0)
                } else {
                    let ghost m0 = map@;
                    let mut count: usize = 0;
                    let mut i: usize = 0;
                    while i < fields.len()
                        invariant
                            i <= fields@.len(),
                            fs == views(fields@),
                            map@.dom().finite(),
                            count <= i,
                            (map@, count as nat) == remove_fields(m0, fs.take(i as int)),
                        decreases fields@.len() - i,
                    {
                        proof {
                            assert(fs.take(i + 1).drop_last() =~= fs.take(i as int));
                            assert(fs.take(i + 1).last() == fields@[i as int]@);
                        }
                        if map.remove(fields[i].as_str()) {
                            count = count + 1;
                        }
                        i = i + 1;
                    }
                    proof {
                        assert(fs.take(fields@.len() as int) =~= fs);
                    }
                    if map.len() <= 0 {
                        self.remove(key.as_str());
                    } else {
                        self.inner.insert(key, map);
                    }
                    int_reply_string(count)
                }
            },
        };
        proof {
            assert(self@ =~= hdel_model(old(self)@, k, fs).0);
        }
        Ok(resp)
    }

    /// Removes the key and says whether it was there.
    pub fn remove(&mut self, key: &str) -> (r: bool)
        requires
            old(self).wf(),
        ensures
            final(self).wf(),
            r == old(self)@.contains_key(key@),
            final(self)@ == old(self)@.remove(key@),
    {
        let present = self.inner.contains_key(key);
        self.inner.remove(key);
        proof {
            assert(self@ =~= old(self)@.remove(key@));
        }
        present
    }
}

impl Clone for THash {
    /// A copy of the hash values.
    fn clone(&self) -> (c: Self)
        ensures
            self.wf() ==> c.wf(),
            c@ == self@,
    {
        let c = THash { inner: self.inner.clone() };
        proof {
            assert forall|k: Seq<char>| #[trigger] c.inner@.contains_key(k) implies c.inner@[k]@ == self.inner@[k]@ by {
                assert(cloned::<FieldMap>(self.inner@[k], c.inner@[k]));
            }
            assert(c@ =~= self@);
        }
        c
    }
}

proof fn lemma_removed_field_absent(m: Map<Seq<char>, Seq<char>>, fields: Seq<Seq<char>>, f: Seq<char>)
    requires
        fields.contains(f),
    ensures
        !remove_fields(m, fields).0.contains_key(f),
    decreases fields.len(),
{
    if fields.last() != f {
        let i = choose|i: int| 0 <= i < fields.len() && fields[i] == f;
        assert(fields.drop_last()[i] == f);
        lemma_removed_field_absent(m, fields.drop_last(), f);
    }
}

/// After `HDEL key fields...`, an `HGET` of any of those fields of the key
/// finds nothing.
pub proof fn law_hget_after_hdel(
    h: Map<Seq<char>, Map<Seq<char>, Seq<char>>>,
    key: Seq<char>,
    fields: Seq<Seq<char>>,
    field: Seq<char>,
)
    requires
        fields.contains(field),
        h.contains_key(key) ==> h[key].dom().finite(),
    ensures
        hget_reply(hdel_model(h, key, fields).0, key, field) == nil_reply(),
{
    if h.contains_key(key) {
        if h[key].len() == 0 {
            h[key].dom().lemma_len0_is_empty();
            assert(!h[key].contains_key(field));
        } else {
            lemma_removed_field_absent(h[key], fields, field);
        }
    }
}

} // verus!
