//! The string values: a map from key to string, and the moments at which
//! values set with an expiry expire.

use vstd::prelude::*;

use crate::protocol::{Lock, TTL};
use crate::storage::keyed::KeyedMap;
use crate::text::{bulk_reply, bulk_reply_string, nil_reply, ok_reply};

verus! {

/// The reply of `GET key` on the string values `m`: the value, or nil.
pub open spec fn string_get_reply(m: Map<Seq<char>, Seq<char>>, key: Seq<char>) -> Seq<char> {
    if m.contains_key(key) {
        bulk_reply(m[key])
    } else {
        nil_reply()
    }
}

/// Whether `SET` with the condition `lock` stores its value: `NX` only where
/// the key is absent, `XX` only where it is present, no condition always.
pub open spec fn set_applies(m: Map<Seq<char>, Seq<char>>, key: Seq<char>, lock: Option<Lock>) -> bool {
    match lock {
        None => true,
        Some(Lock::NX) => !m.contains_key(key),
        Some(Lock::XX) => m.contains_key(key),
    }
}

/// The string values after `SET key value` with the condition `lock`.
pub open spec fn string_set_model(
    m: Map<Seq<char>, Seq<char>>,
    key: Seq<char>,
    value: Seq<char>,
    lock: Option<Lock>,
) -> Map<Seq<char>, Seq<char>> {
    if set_applies(m, key, lock) {
        m.insert(key, value)
    } else {
        m
    }
}

/// The reply of `SET`: `+OK` where the value is stored, nil where the
/// condition kept it from being stored.
pub open spec fn string_set_reply(m: Map<Seq<char>, Seq<char>>, key: Seq<char>, lock: Option<Lock>) -> Seq<char> {
    if set_applies(m, key, lock) {
        ok_reply()
    } else {
        nil_reply()
    }
}

/// How long an expiry lasts, in milliseconds: `EX` counts seconds, `PX`
/// milliseconds.
pub open spec fn ttl_millis(unit: TTL, amount: usize) -> int {
    match unit {
        TTL::EX => amount * 1000,
        TTL::PX => amount as int,
    }
}

/// The moment, in milliseconds, at which a value set at `now` with the
/// expiry `ttl` expires: none without an expiry, nor where that moment lies
/// beyond what a `u64` counts.
pub open spec fn deadline_of(ttl: Option<(TTL, usize)>, now: u64) -> Option<u64> {
    match ttl {
        None => None,
        Some((unit, amount)) => if now + ttl_millis(unit, amount) <= u64::MAX {
            Some((now + ttl_millis(unit, amount)) as u64)
        } else {
            None
        },
    }
}

/// The expiry moments after `SET key value` at `now`: a stored value takes
/// the moment its expiry gives, or loses any it had; a refused `SET` changes
/// nothing.
pub open spec fn string_deadlines_model(
    m: Map<Seq<char>, Seq<char>>,
    d: Map<Seq<char>, u64>,
    key: Seq<char>,
    ttl: Option<(TTL, usize)>,
    lock: Option<Lock>,
    now: u64,
) -> Map<Seq<char>, u64> {
    if set_applies(m, key, lock) {
        match deadline_of(ttl, now) {
            Some(t) => d.insert(key, t),
            None => d.remove(key),
        }
    } else {
        d
    }
}

/// The moment at which a value set at `now` with the expiry `ttl` expires.
pub fn deadline(ttl: Option<(TTL, usize)>, now: u64) -> (d: Option<u64>)
    ensures
        d == deadline_of(ttl, now),
{
    match ttl {
        None => None,
        Some((unit, amount)) => {
            let a = amount as u64;
            let ms = match unit {
                TTL::EX => a.checked_mul(1000),
                TTL::PX => Some(a),
            };
            match ms {
                None => None,
                Some(ms) => now.checked_add(ms),
            }
        },
    }
}

/// The string values, with the moments at which those set with an expiry
/// expire; the database drops a value once its moment has come.
pub struct TString {
    pub inner: KeyedMap<String>,
    pub expiry: KeyedMap<u64>,
}

impl View for TString {
    type V = Map<Seq<char>, Seq<char>>;

    open spec fn view(&self) -> Map<Seq<char>, Seq<char>> {
        self.inner@.map_values(|v: String| v@)
    }
}

impl TString {
    /// The moments, in milliseconds, at which values expire.
    pub open spec fn deadlines(&self) -> Map<Seq<char>, u64> {
        self.expiry@
    }

    /// No string values.
    pub fn new() -> (s: Self)
        ensures
            s@ == Map::<Seq<char>, Seq<char>>::empty(),
            s.deadlines() == Map::<Seq<char>, u64>::empty(),
    {
        let s = TString { inner: KeyedMap::new(), expiry: KeyedMap::new() };
        proof {
            assert(s@ =~= Map::<Seq<char>, Seq<char>>::empty());
        }
        s
    }

    /// `SET key value` at the moment `now`, in milliseconds: stores the
    /// value where the condition allows (`NX` only for an absent key, `XX`
    /// only for a present one), with the moment its expiry ends, if any.
    pub fn set(
        &mut self,
        key: String,
        value: String,
        ttl: Option<(TTL, usize)>,
        lock: Option<Lock>,
        now: u64,
    ) -> (r: Result<String, ()>)
        ensures
            final(self)@ == string_set_model(old(self)@, key@, value@, lock),
            final(self).deadlines() == string_deadlines_model(old(self)@, old(self).deadlines(), key@, ttl, lock, now),
            r matches Ok(s) && s@ == string_set_reply(old(self)@, key@, lock),
    {
        let ghost k = key@;
        let ghost v = value@;
        let present = self.inner.contains_key(key.as_str());
        let refused = match lock {
            Some(Lock::NX) => present,
            Some(Lock::XX) => !present,
            None => false,
        };
        if refused {
            return Ok("$-1\r\n".to_owned());
        }
        match deadline(ttl, now) {
            Some(t) => self.expiry.insert(key.clone(), t),
            None => self.expiry.remove(key.as_str()),
        }
        self.inner.insert(key, value);
        proof {
            assert(self@ =~= old(self)@.insert(k, v));
        }
        Ok("+OK\r\n".to_owned())
    }

    /// `GET key`: the value stored under the key, or nil.
    pub fn get(&self, key: String) -> (r: Result<String, ()>)
        ensures
            r matches Ok(s) && s@ == string_get_reply(self@, key@),
    {
        let resp = match self.inner.get(key.as_str()) {
            Some(val) => bulk_reply_string(val),
            None => "$-1\r\n".to_owned(),
        };
        Ok(resp)
    }

    /// Removes the key, with its expiry, and says whether it was there.
    pub fn remove(&mut self, key: &str) -> (r: bool)
        ensures
            r == old(self)@.contains_key(key@),
            final(self)@ == old(self)@.remove(key@),
            final(self).deadlines() == if r {
                old(self).deadlines().remove(key@)
            } else {
                old(self).deadlines()
            },
    {
        let present = self.inner.contains_key(key);
        if present {
            self.inner.remove(key);
            self.expiry.remove(key);
        }
        proof {
            assert(self@ =~= old(self)@.remove(key@));
        }
        present
    }
}

impl Clone for TString {
    /// A copy of the string values.
    fn clone(&self) -> (c: Self)
        ensures
            c@ == self@,
            c.deadlines() == self.deadlines(),
    {
        let c = TString { inner: self.inner.clone(), expiry: self.expiry.clone() };
        proof {
            assert forall|k: Seq<char>| #[trigger] c.inner@.contains_key(k) implies c.inner@[k] == self.inner@[k] by {
                assert(cloned::<String>(self.inner@[k], c.inner@[k]));
            }
            assert(c@ =~= self@);
            assert forall|k: Seq<char>| #[trigger] c.expiry@.contains_key(k) implies c.expiry@[k] == self.expiry@[k] by {
                assert(cloned::<u64>(self.expiry@[k], c.expiry@[k]));
            }
            assert(c.expiry@ =~= self.expiry@);
        }
        c
    }
}

} // verus!
