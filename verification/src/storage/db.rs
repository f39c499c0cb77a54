//! The database: every key with the kind of value it holds, the string
//! values with the moments at which they expire, the hash values, and the
//! execution of commands on them.

use vstd::prelude::*;
use vstd::set::axiom_set_intersect_finite;

use crate::protocol::{KeyType, Lock, Message, MessageModel, Protocol, ProtocolModel, TTL, views};
use crate::storage::keyed::KeyedMap;
use crate::storage::hash::{hdel_model, hget_reply, hset_model, hset_reply, remove_fields, THash};
use crate::storage::string::{
    string_deadlines_model, ttl_millis, string_get_reply, string_set_model, string_set_reply, TString,
};
use crate::storage::types::{is_write_cmd, write_command};
use crate::text::{bulk_reply, int_reply, int_reply_string, nil_reply, ok_reply, same_text};

verus! {

/// The database as maps: the kind of each recorded key, the string values,
/// the moments (in milliseconds) at which string values expire, and the hash
/// values.
pub struct InnerModel {
    pub keys: Map<Seq<char>, KeyType>,
    pub strings: Map<Seq<char>, Seq<char>>,
    pub deadlines: Map<Seq<char>, u64>,
    pub hashes: Map<Seq<char>, Map<Seq<char>, Seq<char>>>,
}

/// The reply to a command on a key that holds another kind of value.
pub open spec fn wrongtype_reply() -> Seq<char> {
    "-WRONGTYPE Operation against a key holding the wrong kind of value\r\n"@
}

/// The commands that run whatever kind of value their key holds.
pub open spec fn unchecked_command(cmd: Seq<char>) -> bool {
    cmd == "DEL"@ || cmd == "FLUSHALL"@ || cmd == "FLUSHDB"@
}

/// Whether a command on `key` that works on values of kind `typ` may run:
/// the key is unrecorded, recorded with that kind, or the command runs on
/// any kind.
pub open spec fn type_agrees(keys: Map<Seq<char>, KeyType>, cmd: Seq<char>, key: Seq<char>, typ: KeyType) -> bool {
    unchecked_command(cmd) || !keys.contains_key(key) || keys[key] == typ
}

/// Deleting one key: a recorded string or hash key whose value is there
/// is removed with its record, and counts 1; anything else counts 0.
pub open spec fn del_key(s: InnerModel, key: Seq<char>) -> (InnerModel, nat) {
    if !s.keys.contains_key(key) {
        (s, 0)
    } else if s.keys[key] == KeyType::String {
        if s.strings.contains_key(key) {
            (
                InnerModel {
                    keys: s.keys.remove(key),
                    strings: s.strings.remove(key),
                    deadlines: s.deadlines.remove(key),
                    ..s
                },
                1,
            )
        } else {
            (s, 0)
        }
    } else if s.keys[key] == KeyType::Hash {
        if s.hashes.contains_key(key) {
            (InnerModel { keys: s.keys.remove(key), hashes: s.hashes.remove(key), ..s }, 1)
        } else {
            (s, 0)
        }
    } else {
        (s, 0)
    }
}

/// Deleting the keys one after the other, with the number deleted.
pub open spec fn del_keys(s: InnerModel, keys: Seq<Seq<char>>) -> (InnerModel, nat)
    decreases keys.len(),
{
    if keys.len() == 0 {
        (s, 0)
    } else {
        let (s1, c) = del_keys(s, keys.drop_last());
        let (s2, d) = del_key(s1, keys.last());
        (s2, c + d)
    }
}

/// The database after `DEL keys...` and its reply, the number of keys
/// deleted.
pub open spec fn del_model(s: InnerModel, keys: Seq<Seq<char>>) -> (InnerModel, Seq<char>) {
    if s.keys.len() == 0 {
        (s, int_reply(0))
    } else {
        let (s1, c) = del_keys(s, keys);
        (s1, int_reply(c))
    }
}

/// The database after a command runs on it at `now`, and the reply.
pub open spec fn execute_model(s: InnerModel, p: ProtocolModel, now: u64) -> (InnerModel, Seq<char>) {
    match p {
        ProtocolModel::StrSet { key, value, ttl, lock, .. } => (
            InnerModel {
                strings: string_set_model(s.strings, key, value, lock),
                deadlines: string_deadlines_model(s.strings, s.deadlines, key, ttl, lock, now),
                ..s
            },
            string_set_reply(s.strings, key, lock),
        ),
        ProtocolModel::Get { key, .. } => (s, string_get_reply(s.strings, key)),
        ProtocolModel::HSet { key, field, value, .. } => (
            InnerModel { hashes: hset_model(s.hashes, key, field, value), ..s },
            hset_reply(s.hashes, key, field),
        ),
        ProtocolModel::HGet { key, field, .. } => (s, hget_reply(s.hashes, key, field)),
        ProtocolModel::HDel { key, fields, .. } => (
            InnerModel { hashes: hdel_model(s.hashes, key, fields).0, ..s },
            hdel_model(s.hashes, key, fields).1,
        ),
        ProtocolModel::Del { keys, .. } => del_model(s, keys),
        _ => (s, ok_reply()),
    }
}

/// Whether the key holds a value of kind `typ`.
pub open spec fn holds(s: InnerModel, key: Seq<char>, typ: KeyType) -> bool {
    ||| typ == KeyType::String && s.strings.contains_key(key)
    ||| typ == KeyType::Hash && s.hashes.contains_key(key)
}

/// The record of a key that `HDEL` left without fields is dropped with it.
pub open spec fn drop_emptied_hash(s: InnerModel, key: Seq<char>) -> InnerModel {
    if s.keys.contains_key(key) && s.keys[key] == KeyType::Hash && !s.hashes.contains_key(key) {
        InnerModel { keys: s.keys.remove(key), ..s }
    } else {
        s
    }
}

/// Whether the value of `key` has expired at `now`.
pub open spec fn expired(s: InnerModel, key: Seq<char>, now: u64) -> bool {
    s.deadlines.contains_key(key) && s.deadlines[key] <= now
}

/// The database with the values among `ks` that expired at `now` dropped,
/// each with its expiry and its key's record.
pub open spec fn expire_among(s: InnerModel, now: u64, ks: Seq<Seq<char>>) -> InnerModel {
    let gone = Set::new(|k: Seq<char>| expired(s, k, now) && ks.contains(k));
    InnerModel {
        keys: s.keys.remove_keys(gone),
        strings: s.strings.remove_keys(gone),
        deadlines: s.deadlines.remove_keys(gone),
        hashes: s.hashes,
    }
}

/// The database as it stands at `now`: every value whose expiry has ended
/// is gone, with its key's record.
pub open spec fn expire_model(s: InnerModel, now: u64) -> InnerModel {
    let gone = Set::new(|k: Seq<char>| expired(s, k, now));
    InnerModel {
        keys: s.keys.remove_keys(gone),
        strings: s.strings.remove_keys(gone),
        deadlines: s.deadlines.remove_keys(gone),
        hashes: s.hashes,
    }
}

/// The database after a message is handled at `now`, and the reply: values
/// whose expiry has ended are dropped first; then a command on a key of
/// another kind is refused; otherwise it runs, a writing command that
/// stored a value records its key with the kind of that value, and a key
/// that `HDEL` left without fields loses its record, so that it may take
/// another kind of value.
pub open spec fn handle_model(s0: InnerModel, m: MessageModel, now: u64) -> (InnerModel, Seq<char>) {
    let s = expire_model(s0, now);
    let typ = m.protocol.key_type();
    if !type_agrees(s.keys, m.cmd, m.key, typ) {
        (s, wrongtype_reply())
    } else {
        let (s1, reply) = execute_model(s, m.protocol, now);
        let s2 = if write_command(m.cmd) && holds(s1, m.key, typ) {
            InnerModel { keys: s1.keys.insert(m.key, typ), ..s1 }
        } else {
            s1
        };
        match m.protocol {
            ProtocolModel::HDel { key, .. } => (drop_emptied_hash(s2, key), reply),
            _ => (s2, reply),
        }
    }
}

/// The database.
pub struct Inner {
    pub keys: KeyedMap<KeyType>,
    pub t_string: TString,
    pub t_hash: THash,
}

impl View for Inner {
    type V = InnerModel;

    open spec fn view(&self) -> InnerModel {
        InnerModel {
            keys: self.keys@,
            strings: self.t_string@,
            deadlines: self.t_string.deadlines(),
            hashes: self.t_hash@,
        }
    }
}

impl Inner {
    /// The hash values are well formed.
    pub open spec fn inv(&self) -> bool {
        self.t_hash.wf()
    }

    /// An empty database.
    pub fn new() -> (db: Self)
        ensures
            db.inv(),
            consistent(db@),
            db@.keys == Map::<Seq<char>, KeyType>::empty(),
            db@.strings == Map::<Seq<char>, Seq<char>>::empty(),
            db@.deadlines == Map::<Seq<char>, u64>::empty(),
            db@.hashes == Map::<Seq<char>, Map<Seq<char>, Seq<char>>>::empty(),
    {
        Inner { keys: KeyedMap::new(), t_string: TString::new(), t_hash: THash::new() }
    }

    /// Runs a command that the database executes at the moment `now`, in
    /// milliseconds, and gives its reply.
    pub fn handle(&mut self, message: Message, now: u64) -> (r: Result<String, ()>)
        requires
            old(self).inv(),
            message@.protocol.executes(),
        ensures
            final(self).inv(),
            final(self)@ == handle_model(old(self)@, message@, now).0,
            r matches Ok(s) && s@ == handle_model(old(self)@, message@, now).1,
    {
        let ghost m = message@;
        self.expire(now);
        let key = message.key;
        let cmd = message.cmd;
        let protocol = message.protocol;
        let key_type = KeyType::of(&protocol);
        let hdel_key = match &protocol {
            Protocol::HDel { key: k, .. } => Some(k.clone()),
            _ => None,
        };
        if !self.check_typ_unanimous(&cmd, &key, &key_type) {
            return Ok("-WRONGTYPE Operation against a key holding the wrong kind of value\r\n".to_owned());
        }
        let resp = match protocol {
            Protocol::StrSet { typ: _, key: k, value, ttl, lock } => self.t_string.set(k, value, ttl, lock, now),
            Protocol::Get { typ: _, key: k } => self.t_string.get(k),
            Protocol::HSet { typ: _, key: k, field, value } => self.t_hash.set(k, field, value),
            Protocol::HGet { typ: _, key: k, field } => self.t_hash.get(k, field),
            Protocol::HDel { typ: _, key: k, fields } => self.t_hash.del(k, fields),
            Protocol::Del { typ: _, keys } => self.del(keys),
            _ => Ok("+OK\r\n".to_owned()),
        };
        if is_write_cmd(&cmd) {
            if resp.is_ok() {
                let stored = match key_type {
                    KeyType::String => self.t_string.inner.contains_key(key.as_str()),
                    KeyType::Hash => self.t_hash.inner.contains_key(key.as_str()),
                    _ => false,
                };
                if stored {
                    self.keys.insert(key, key_type);
                }
            }
        }
        if let Some(k) = hdel_key {
            let ghost before = self@;
            let emptied = !self.t_hash.inner.contains_key(k.as_str()) && match self.keys.get(k.as_str()) {
                Some(KeyType::Hash) => true,
                _ => false,
            };
            if emptied {
                self.keys.remove(k.as_str());
            }
            proof {
                assert(self@ == drop_emptied_hash(before, k@));
            }
        }
        resp
    }

    /// Drops every value whose expiry has ended at `now`, with its key's
    /// record.
    pub fn expire(&mut self, now: u64)
        requires
            old(self).inv(),
        ensures
            final(self).inv(),
            final(self)@ == expire_model(old(self)@, now),
    {
        let ghost s0 = self@;
        let names = self.t_string.expiry.key_list();
        let ghost all = views(names@);
        proof {
            assert(all.take(0) =~= Seq::<Seq<char>>::empty());
            let e0 = expire_among(s0, now, all.take(0));
            assert(e0.keys =~= s0.keys);
            assert(e0.strings =~= s0.strings);
            assert(e0.deadlines =~= s0.deadlines);
        }
        let mut i: usize = 0;
        while i < names.len()
            invariant
                i <= names@.len(),
                all == views(names@),
                all.no_duplicates(),
                forall|k: Seq<char>| #[trigger] s0.deadlines.contains_key(k) == all.contains(k),
                self.inv(),
                self@ == expire_among(s0, now, all.take(i as int)),
            decreases names@.len() - i,
        {
            let name = &names[i];
            let ghost prev = self@;
            let ghost t0 = all.take(i as int);
            let ghost t1 = all.take(i + 1);
            proof {
                assert(all[i as int] == name@);
                assert(!t0.contains(name@)) by {
                    if t0.contains(name@) {
                        let j = choose|j: int| 0 <= j < t0.len() && t0[j] == name@;
                        assert(all[j] == all[i as int]);
                    }
                }
                assert(all.contains(name@));
            }
            let due = match self.t_string.expiry.get(name.as_str()) {
                Some(t) => *t <= now,
                None => false,
            };
            if due {
                self.t_string.inner.remove(name.as_str());
                self.t_string.expiry.remove(name.as_str());
                self.keys.remove(name.as_str());
                proof {
                    assert(self.t_string@ =~= prev.strings.remove(name@));
                }
            }
            proof {
                assert(due == expired(s0, name@, now));
                assert forall|k: Seq<char>| #[trigger] t1.contains(k) == (t0.contains(k) || k == name@) by {
                    if t1.contains(k) {
                        let j = choose|j: int| 0 <= j < t1.len() && t1[j] == k;
                        if j < i {
                            assert(t0[j] == k);
                        }
                    }
                    if t0.contains(k) {
                        let j = choose|j: int| 0 <= j < t0.len() && t0[j] == k;
                        assert(t1[j] == k);
                    }
                    if k == name@ {
                        assert(t1[i as int] == k);
                    }
                }
                let e1 = expire_among(s0, now, t1);
                assert(self@.keys =~= e1.keys);
                assert(self@.strings =~= e1.strings);
                assert(self@.deadlines =~= e1.deadlines);
            }
            i = i + 1;
        }
        proof {
            assert(all.take(names@.len() as int) =~= all);
            let e = expire_model(s0, now);
            let ea = expire_among(s0, now, all);
            assert(ea.keys =~= e.keys);
            assert(ea.strings =~= e.strings);
            assert(ea.deadlines =~= e.deadlines);
        }
    }

    /// `DEL keys...`: deletes the string and hash keys among them; replies
    /// how many were deleted.
    pub fn del(&mut self, keys: Vec<String>) -> (r: Result<String, ()>)
        requires
            old(self).inv(),
        ensures
            final(self).inv(),
            final(self)@ == del_model(old(self)@, views(keys@)).0,
            r matches Ok(s) && s@ == del_model(old(self)@, views(keys@)).1,
    {
        let mut count: usize = 0;
        if self.keys.len() <= 0 {
            return Ok(int_reply_string(count));
        }
        let ghost ks = views(keys@);
        let ghost s0 = self@;
        let mut i: usize = 0;
        while i < keys.len()
            invariant
                i <= keys@.len(),
                ks == views(keys@),
                self.inv(),
                count <= i,
                (self@, count as nat) == del_keys(s0, ks.take(i as int)),
            decreases keys@.len() - i,
        {
            proof {
                assert(ks.take(i + 1).drop_last() =~= ks.take(i as int));
                assert(ks.take(i + 1).last() == keys@[i as int]@);
            }
            let key = &keys[i];
            let ghost prev = self@;
            match self.keys.get(key.as_str()) {
                Some(key_type) => {
                    match key_type {
                        KeyType::String => {
                            if self.t_string.remove(key.as_str()) {
                                let present = self.keys.contains_key(key.as_str());
                                self.keys.remove(key.as_str());
                                if present {
                                    count = count + 1;
                                }
                            }
                        },
                        KeyType::Hash => {
                            if self.t_hash.remove(key.as_str()) {
                                let present = self.keys.contains_key(key.as_str());
                                self.keys.remove(key.as_str());
                                if present {
                                    count = count + 1;
                                }
                            }
                        },
                        KeyType::List => {},
                        KeyType::PlainSet => {},
                        KeyType::ZSet => {},
                    }
                },
                None => {},
            }
            proof {
                let exp = del_key(prev, key@).0;
                assert(self@.keys =~= exp.keys);
                assert(self@.strings =~= exp.strings);
                assert(self@.deadlines =~= exp.deadlines);
                assert(self@.hashes =~= exp.hashes);
                assert(self@ == del_key(del_keys(s0, ks.take(i as int)).0, ks.take(i + 1).last()).0);
            }
            i = i + 1;
        }
        proof {
            assert(ks.take(keys@.len() as int) =~= ks);
        }
        Ok(int_reply_string(count))
    }

    /// Whether a command on `key` that works on values of kind `cmd_typ` may
    /// run.
    pub fn check_typ_unanimous(&self, cmd: &String, key: &String, cmd_typ: &KeyType) -> (r: bool)
        ensures
            r == type_agrees(self@.keys, cmd@, key@, *cmd_typ),
    {
        if same_text(cmd, "DEL") || same_text(cmd, "FLUSHALL") || same_text(cmd, "FLUSHDB") {
            return true;
        }
        match self.keys.get(key.as_str()) {
            Some(real_typ) => *real_typ == *cmd_typ,
            None => true,
        }
    }
}

impl Clone for Inner {
    /// A copy of the database.
    fn clone(&self) -> (c: Self)
        ensures
            self.inv() ==> c.inv(),
            c@ == self@,
    {
        let c = Inner { keys: self.keys.clone(), t_string: self.t_string.clone(), t_hash: self.t_hash.clone() };
        proof {
            assert forall|k: Seq<char>| #[trigger] c.keys@.contains_key(k) implies c.keys@[k] == self.keys@[k] by {
                assert(cloned::<KeyType>(self.keys@[k], c.keys@[k]));
            }
            assert(c.keys@ =~= self.keys@);
        }
        c
    }
}

/// Only a stored string value has an expiry, and every stored value's key is
/// recorded with the kind of that value, so that no key holds a string and a
/// hash at once.
pub open spec fn consistent(s: InnerModel) -> bool {
    &&& forall|k: Seq<char>| #[trigger] s.deadlines.contains_key(k) ==> s.strings.contains_key(k)
    &&& forall|k: Seq<char>| #[trigger] s.strings.contains_key(k) ==> s.keys.contains_key(k) && s.keys[k] == KeyType::String
    &&& forall|k: Seq<char>| #[trigger] s.hashes.contains_key(k) ==> s.keys.contains_key(k) && s.keys[k] == KeyType::Hash
    &&& forall|k: Seq<char>| #[trigger] s.keys.contains_key(k) ==> holds(s, k, s.keys[k])
}

/// A message as the parser makes it: the command name matches the command,
/// the command works on the kind of value its name implies, and the key of
/// the message is the command's (first) key.
pub open spec fn coherent(m: MessageModel) -> bool {
    match m.protocol {
        ProtocolModel::StrSet { typ, key, .. } => typ == KeyType::String && m.cmd == "SET"@ && m.key == key,
        ProtocolModel::Get { typ, key } => typ == KeyType::String && m.cmd == "GET"@ && m.key == key,
        ProtocolModel::HSet { typ, key, .. } => typ == KeyType::Hash && m.cmd == "HSET"@ && m.key == key,
        ProtocolModel::HGet { typ, key, .. } => typ == KeyType::Hash && m.cmd == "HGET"@ && m.key == key,
        ProtocolModel::HDel { typ, key, .. } => typ == KeyType::Hash && m.cmd == "HDEL"@ && m.key == key,
        ProtocolModel::Del { typ, keys } => typ == KeyType::String && m.cmd == "DEL"@ && keys.len() > 0
            && m.key == keys[0],
        _ => true,
    }
}

proof fn lemma_command_names()
    ensures
        !unchecked_command("SET"@),
        !unchecked_command("GET"@),
        !unchecked_command("HSET"@),
        !unchecked_command("HGET"@),
        !unchecked_command("HDEL"@),
        unchecked_command("DEL"@),
        write_command("SET"@),
        write_command("HSET"@),
        !write_command("GET"@),
        !write_command("HGET"@),
        !write_command("HDEL"@),
        !write_command("DEL"@),
{
    reveal_strlit("SET");
    reveal_strlit("GET");
    reveal_strlit("HSET");
    reveal_strlit("HGET");
    reveal_strlit("HDEL");
    reveal_strlit("DEL");
    reveal_strlit("FLUSHALL");
    reveal_strlit("FLUSHDB");
    assert("SET"@[0] != "DEL"@[0]);
    assert("GET"@[0] != "DEL"@[0]);
    assert("GET"@[0] != "SET"@[0]);
    assert("HGET"@[1] != "HSET"@[1]);
    assert("HDEL"@[1] != "HSET"@[1]);
    assert("DEL"@[0] != "SET"@[0]);
    assert("SET"@.len() != "FLUSHALL"@.len() && "SET"@.len() != "FLUSHDB"@.len() && "SET"@.len() != "HSET"@.len());
    assert("HSET"@.len() != "DEL"@.len() && "HSET"@.len() != "FLUSHALL"@.len() && "HSET"@.len() != "FLUSHDB"@.len());
    assert("HGET"@.len() != "DEL"@.len() && "HGET"@.len() != "FLUSHALL"@.len() && "HGET"@.len() != "FLUSHDB"@.len());
    assert("HDEL"@.len() != "DEL"@.len() && "HDEL"@.len() != "FLUSHALL"@.len() && "HDEL"@.len() != "FLUSHDB"@.len());
    assert("HGET"@.len() != "SET"@.len() && "HDEL"@.len() != "SET"@.len());
}

proof fn lemma_del_keys_consistent(s: InnerModel, keys: Seq<Seq<char>>)
    requires
        consistent(s),
    ensures
        consistent(del_keys(s, keys).0),
    decreases keys.len(),
{
    if keys.len() > 0 {
        lemma_del_keys_consistent(s, keys.drop_last());
    }
}

/// Dropping the values whose expiry has ended keeps the database
/// consistent.
proof fn lemma_expire_consistent(s: InnerModel, now: u64)
    requires
        consistent(s),
    ensures
        consistent(expire_model(s, now)),
{
}

/// Handling a message as the parser makes it keeps every key to one kind of
/// value, keeps a record only for a key that holds a value, and an expiry
/// only for a stored string value: what holds of the database before holds
/// after.
pub proof fn law_handle_keeps_kinds(s0: InnerModel, m: MessageModel, now: u64)
    requires
        consistent(s0),
        coherent(m),
        m.protocol.executes(),
    ensures
        consistent(handle_model(s0, m, now).0),
{
    lemma_command_names();
    lemma_expire_consistent(s0, now);
    let s = expire_model(s0, now);
    let typ = m.protocol.key_type();
    if type_agrees(s.keys, m.cmd, m.key, typ) {
        match m.protocol {
            ProtocolModel::Del { keys, .. } => {
                lemma_del_keys_consistent(s, keys);
            },
            ProtocolModel::HDel { key, fields, .. } => {
                let h = hdel_model(s.hashes, key, fields).0;
                assert forall|k: Seq<char>| #[trigger] h.contains_key(k) implies s.hashes.contains_key(k) by {}
                assert forall|k: Seq<char>| k != key && #[trigger] s.hashes.contains_key(k) implies h.contains_key(k) by {}
            },
            _ => {},
        }
    }
}

/// Every stored value's key is recorded with the kind of that value, and
/// only a stored string value has an expiry.
pub open spec fn kinds_recorded(s: InnerModel) -> bool {
    &&& forall|k: Seq<char>| #[trigger] s.deadlines.contains_key(k) ==> s.strings.contains_key(k)
    &&& forall|k: Seq<char>| #[trigger] s.strings.contains_key(k) ==> s.keys.contains_key(k) && s.keys[k] == KeyType::String
    &&& forall|k: Seq<char>| #[trigger] s.hashes.contains_key(k) ==> s.keys.contains_key(k) && s.keys[k] == KeyType::Hash
}

proof fn lemma_del_keys_kinds(s: InnerModel, keys: Seq<Seq<char>>)
    requires
        kinds_recorded(s),
    ensures
        kinds_recorded(del_keys(s, keys).0),
    decreases keys.len(),
{
    if keys.len() > 0 {
        lemma_del_keys_kinds(s, keys.drop_last());
    }
}

/// Handling a message as the parser makes it keeps each stored value's key
/// recorded with that value's kind, so that no key ever holds a string and
/// a hash at once.
pub proof fn law_handle_records_kinds(s0: InnerModel, m: MessageModel, now: u64)
    requires
        kinds_recorded(s0),
        coherent(m),
        m.protocol.executes(),
    ensures
        kinds_recorded(handle_model(s0, m, now).0),
        forall|k: Seq<char>| #[trigger] handle_model(s0, m, now).0.strings.contains_key(k)
            ==> !handle_model(s0, m, now).0.hashes.contains_key(k),
{
    lemma_command_names();
    let s = expire_model(s0, now);
    assert(kinds_recorded(s));
    let typ = m.protocol.key_type();
    if type_agrees(s.keys, m.cmd, m.key, typ) {
        match m.protocol {
            ProtocolModel::Del { keys, .. } => {
                lemma_del_keys_kinds(s, keys);
            },
            ProtocolModel::HDel { key, fields, .. } => {
                let h = hdel_model(s.hashes, key, fields).0;
                assert forall|k: Seq<char>| #[trigger] h.contains_key(k) implies s.hashes.contains_key(k) by {}
            },
            _ => {},
        }
    }
}

/// A `SET` message for `key` and `value`, as the parser makes it.
pub open spec fn set_message(key: Seq<char>, value: Seq<char>) -> MessageModel {
    MessageModel {
        protocol: ProtocolModel::StrSet { typ: KeyType::String, key, value, ttl: None, lock: None },
        key,
        cmd: "SET"@,
    }
}

/// A `GET` message for `key`, as the parser makes it.
pub open spec fn get_message(key: Seq<char>) -> MessageModel {
    MessageModel { protocol: ProtocolModel::Get { typ: KeyType::String, key }, key, cmd: "GET"@ }
}

/// An `HSET` message, as the parser makes it.
pub open spec fn hset_message(key: Seq<char>, field: Seq<char>, value: Seq<char>) -> MessageModel {
    MessageModel {
        protocol: ProtocolModel::HSet { typ: KeyType::Hash, key, field, value },
        key,
        cmd: "HSET"@,
    }
}

/// An `HGET` message, as the parser makes it.
pub open spec fn hget_message(key: Seq<char>, field: Seq<char>) -> MessageModel {
    MessageModel { protocol: ProtocolModel::HGet { typ: KeyType::Hash, key, field }, key, cmd: "HGET"@ }
}

/// A `DEL` message for one key, as the parser makes it.
pub open spec fn del_message(key: Seq<char>) -> MessageModel {
    MessageModel {
        protocol: ProtocolModel::Del { typ: KeyType::String, keys: seq![key] },
        key,
        cmd: "DEL"@,
    }
}

/// A `SET` message with an expiry of `amount` in `unit`, as the parser makes
/// it.
pub open spec fn set_ttl_message(key: Seq<char>, value: Seq<char>, unit: TTL, amount: usize) -> MessageModel {
    MessageModel {
        protocol: ProtocolModel::StrSet { typ: KeyType::String, key, value, ttl: Some((unit, amount)), lock: None },
        key,
        cmd: "SET"@,
    }
}

/// A `GET` after a `SET` of the same key gives back the value set, at any
/// moment after, where the key did not hold another kind of value.
pub proof fn law_get_after_set(s: InnerModel, key: Seq<char>, value: Seq<char>, now: u64, later: u64)
    requires
        !s.keys.contains_key(key) || s.keys[key] == KeyType::String,
    ensures
        handle_model(s, set_message(key, value), now).1 == ok_reply(),
        handle_model(handle_model(s, set_message(key, value), now).0, get_message(key), later).1 == bulk_reply(
            value,
        ),
{
    lemma_command_names();
}

/// A value set with an expiry is given back until the expiry ends, and not
/// from then on: after `SET key value EX n` (or `PX n`) at `now`, a `GET` at
/// `later` gives the value where `later` comes before `now` plus the expiry,
/// and nil where it does not, where the key did not hold another kind of
/// value.
pub proof fn law_set_expires(
    s: InnerModel,
    key: Seq<char>,
    value: Seq<char>,
    unit: TTL,
    amount: usize,
    now: u64,
    later: u64,
)
    requires
        !s.keys.contains_key(key) || s.keys[key] == KeyType::String,
    ensures
        handle_model(s, set_ttl_message(key, value, unit, amount), now).1 == ok_reply(),
        handle_model(handle_model(s, set_ttl_message(key, value, unit, amount), now).0, get_message(key), later).1
            == (if now + ttl_millis(unit, amount) <= later { nil_reply() } else { bulk_reply(value) }),
{
    lemma_command_names();
}

/// An `HGET` after an `HSET` of the same key and field gives back the value
/// set, at any moment after, where the key did not hold another kind of
/// value.
pub proof fn law_hget_after_hset(
    s: InnerModel,
    key: Seq<char>,
    field: Seq<char>,
    value: Seq<char>,
    now: u64,
    later: u64,
)
    requires
        !s.keys.contains_key(key) || s.keys[key] == KeyType::Hash,
    ensures
        handle_model(handle_model(s, hset_message(key, field, value), now).0, hget_message(key, field), later).1
            == bulk_reply(value),
{
    lemma_command_names();
}

/// A command on a key that holds another kind of value is refused with
/// `WRONGTYPE` and changes nothing but dropping the values whose expiry has
/// ended.
pub proof fn law_wrong_kind_refused(s: InnerModel, m: MessageModel, now: u64)
    requires
        coherent(m),
        m.protocol.executes(),
        !(m.protocol is Del),
        expire_model(s, now).keys.contains_key(m.key),
        expire_model(s, now).keys[m.key] != m.protocol.key_type(),
    ensures
        handle_model(s, m, now) == (expire_model(s, now), wrongtype_reply()),
{
    lemma_command_names();
}

/// After `DEL key`, a `GET` of the key finds nothing, at any moment after,
/// where the key held no other kind of value.
pub proof fn law_get_after_del(s0: InnerModel, key: Seq<char>, now: u64, later: u64)
    requires
        consistent(s0),
        s0.keys.dom().finite(),
        !s0.keys.contains_key(key) || s0.keys[key] == KeyType::String,
    ensures
        handle_model(handle_model(s0, del_message(key), now).0, get_message(key), later).1 == nil_reply(),
{
    lemma_command_names();
    lemma_expire_consistent(s0, now);
    let s = expire_model(s0, now);
    let gone = Set::new(|k: Seq<char>| expired(s0, k, now));
    assert(s.keys.dom() =~= s0.keys.dom().difference(gone));
    let ks = seq![key];
    assert(ks.drop_last() =~= Seq::<Seq<char>>::empty());
    assert(ks.last() == key);
    assert(del_keys(s, ks.drop_last()) == (s, 0nat));
    assert(del_keys(s, ks).0 == del_key(s, key).0);
    let s1 = handle_model(s0, del_message(key), now).0;
    if s.keys.len() == 0 {
        s.keys.dom().lemma_len0_is_empty();
        assert(!s.keys.contains_key(key));
    }
    assert(!s1.strings.contains_key(key));
    assert(!s1.keys.contains_key(key) || s1.keys[key] == KeyType::String);
    assert(!expire_model(s1, later).strings.contains_key(key));
}

/// An `HDEL` message, as the parser makes it.
pub open spec fn hdel_message(key: Seq<char>, fields: Seq<Seq<char>>) -> MessageModel {
    MessageModel { protocol: ProtocolModel::HDel { typ: KeyType::Hash, key, fields }, key, cmd: "HDEL"@ }
}

/// A `SET` message with a condition, as the parser makes it.
pub open spec fn set_when_message(key: Seq<char>, value: Seq<char>, lock: Lock) -> MessageModel {
    MessageModel {
        protocol: ProtocolModel::StrSet { typ: KeyType::String, key, value, ttl: None, lock: Some(lock) },
        key,
        cmd: "SET"@,
    }
}

/// When `HDEL` removes the last fields of a hash, the key goes with them:
/// it is no longer recorded, and a `SET` of it then succeeds.
pub proof fn law_hdel_frees_emptied_key(
    s: InnerModel,
    key: Seq<char>,
    fields: Seq<Seq<char>>,
    value: Seq<char>,
    now: u64,
    later: u64,
)
    requires
        consistent(s),
        s.hashes.contains_key(key),
        s.hashes[key].len() > 0,
        remove_fields(s.hashes[key], fields).0.len() == 0,
    ensures
        !handle_model(s, hdel_message(key, fields), now).0.keys.contains_key(key),
        handle_model(handle_model(s, hdel_message(key, fields), now).0, set_message(key, value), later).1
            == ok_reply(),
{
    lemma_command_names();
}

/// `SET ... NX` leaves a present key's value as it is and replies nil;
/// `SET ... XX` stores nothing for an absent key and replies nil; a key is
/// present at `now` where its value has not expired.
pub proof fn law_set_conditions(s0: InnerModel, key: Seq<char>, value: Seq<char>, now: u64)
    requires
        consistent(s0),
    ensures
        ({
            let s = expire_model(s0, now);
            &&& s.strings.contains_key(key) ==> handle_model(s0, set_when_message(key, value, Lock::NX), now).0.strings
                == s.strings && handle_model(s0, set_when_message(key, value, Lock::NX), now).1 == nil_reply()
            &&& !s.keys.contains_key(key) ==> handle_model(s0, set_when_message(key, value, Lock::XX), now).0 == s
                && handle_model(s0, set_when_message(key, value, Lock::XX), now).1 == nil_reply()
            &&& !s.keys.contains_key(key) ==> handle_model(s0, set_when_message(key, value, Lock::NX), now).1
                == ok_reply() && handle_model(s0, set_when_message(key, value, Lock::NX), now).0.strings[key] == value
        }),
{
    lemma_command_names();
    lemma_expire_consistent(s0, now);
}

/// A stored `SET` without an expiry leaves no expiry behind, whatever its
/// condition: where `SET key value NX` (or `XX`) is answered `+OK`, a `GET`
/// of the key at any later moment gives back the value.
pub proof fn law_set_without_expiry_keeps(
    s: InnerModel,
    key: Seq<char>,
    value: Seq<char>,
    lock: Lock,
    now: u64,
    later: u64,
)
    ensures
        handle_model(s, set_when_message(key, value, lock), now).1 == ok_reply() ==> handle_model(
            handle_model(s, set_when_message(key, value, lock), now).0,
            get_message(key),
            later,
        ).1 == bulk_reply(value),
{
    lemma_command_names();
    reveal_strlit("$-1\r\n");
    reveal_strlit("+OK\r\n");
    reveal_strlit("-WRONGTYPE Operation against a key holding the wrong kind of value\r\n");
    assert(ok_reply()[0] != nil_reply()[0]);
    assert(ok_reply()[0] != wrongtype_reply()[0]);
}

/// `HSET key field value` sets that one field: afterwards the key holds a
/// hash whose field has the value, every other field of the key is as it
/// was, every other key's hash is as it was, and the reply is 1 where the
/// field is new and 0 where it was there; this where the key held no other
/// kind of value.
pub proof fn law_hset_sets_one_field(
    s: InnerModel,
    key: Seq<char>,
    field: Seq<char>,
    value: Seq<char>,
    now: u64,
)
    requires
        !s.keys.contains_key(key) || s.keys[key] == KeyType::Hash,
    ensures
        ({
            let (s1, r) = handle_model(s, hset_message(key, field, value), now);
            &&& s1.hashes.contains_key(key)
            &&& s1.hashes[key].contains_key(field)
            &&& s1.hashes[key][field] == value
            &&& forall|f: Seq<char>| f != field ==> (#[trigger] s1.hashes[key].contains_key(f) <==> (
                s.hashes.contains_key(key) && s.hashes[key].contains_key(f)))
            &&& forall|f: Seq<char>| f != field && #[trigger] s1.hashes[key].contains_key(f) ==> s1.hashes[key][f]
                == s.hashes[key][f]
            &&& s1.hashes.remove(key) == s.hashes.remove(key)
            &&& r == int_reply(
                if s.hashes.contains_key(key) && s.hashes[key].contains_key(field) {
                    0
                } else {
                    1
                },
            )
        }),
{
    lemma_command_names();
    let (s1, r) = handle_model(s, hset_message(key, field, value), now);
    assert(s1.hashes.remove(key) =~= s.hashes.remove(key));
}

/// The seq as a set: one more element adds it to the set.
proof fn lemma_to_set_push(fs: Seq<Seq<char>>)
    requires
        fs.len() > 0,
    ensures
        fs.to_set() == fs.drop_last().to_set().insert(fs.last()),
        fs.to_set().finite(),
    decreases fs.len(),
{
    let d = fs.drop_last();
    assert forall|x: Seq<char>| #[trigger] fs.contains(x) == (d.contains(x) || x == fs.last()) by {
        if fs.contains(x) && x != fs.last() {
            let i = choose|i: int| 0 <= i < fs.len() && fs[i] == x;
            assert(i < fs.len() - 1);
            assert(d[i] == x);
        }
        if d.contains(x) {
            let i = choose|i: int| 0 <= i < d.len() && d[i] == x;
            assert(fs[i] == x);
        }
        if x == fs.last() {
            assert(fs[fs.len() - 1] == x);
        }
    }
    assert(fs.to_set() =~= d.to_set().insert(fs.last()));
    if d.len() > 0 {
        lemma_to_set_push(d);
    } else {
        assert(d.to_set() =~= Set::<Seq<char>>::empty());
    }
}

/// Removing fields one after the other removes the fields listed, and counts
/// each listed field that was there once.
proof fn lemma_remove_fields(m: Map<Seq<char>, Seq<char>>, fs: Seq<Seq<char>>)
    requires
        m.dom().finite(),
    ensures
        remove_fields(m, fs).0 == m.remove_keys(fs.to_set()),
        remove_fields(m, fs).1 == fs.to_set().intersect(m.dom()).len(),
        fs.to_set().finite(),
    decreases fs.len(),
{
    if fs.len() == 0 {
        assert(fs.to_set() =~= Set::<Seq<char>>::empty());
        assert(m.remove_keys(fs.to_set()) =~= m);
        assert(fs.to_set().intersect(m.dom()) =~= Set::<Seq<char>>::empty());
    } else {
        let d = fs.drop_last();
        let f = fs.last();
        lemma_remove_fields(m, d);
        lemma_to_set_push(fs);
        let a = d.to_set();
        let m1 = m.remove_keys(a);
        let i0 = a.intersect(m.dom());
        axiom_set_intersect_finite(a, m.dom());
        if m1.contains_key(f) {
            assert(m.remove_keys(fs.to_set()) =~= m1.remove(f));
            assert(fs.to_set().intersect(m.dom()) =~= i0.insert(f));
            assert(!i0.contains(f));
        } else {
            assert(m.remove_keys(fs.to_set()) =~= m1);
            assert(fs.to_set().intersect(m.dom()) =~= i0);
        }
    }
}

/// `HDEL key fields...` removes just the fields listed: afterwards none of
/// them is a field of the key, every field of the key not listed is there
/// with its value (so the key stays while one is left), no field is added,
/// every other key's hash is as it was, and the reply counts the listed
/// fields that were there, each once; this where the key held no other kind
/// of value.
pub proof fn law_hdel_removes_listed_fields(
    s: InnerModel,
    key: Seq<char>,
    fields: Seq<Seq<char>>,
    now: u64,
)
    requires
        !s.keys.contains_key(key) || s.keys[key] == KeyType::Hash,
        s.hashes.contains_key(key) ==> s.hashes[key].dom().finite(),
    ensures
        ({
            let (s1, r) = handle_model(s, hdel_message(key, fields), now);
            &&& forall|f: Seq<char>| #[trigger] fields.contains(f) ==> !(s1.hashes.contains_key(key)
                && s1.hashes[key].contains_key(f))
            &&& forall|f: Seq<char>|
                !fields.contains(f) && s.hashes.contains_key(key) && #[trigger] s.hashes[key].contains_key(f)
                    ==> s1.hashes.contains_key(key) && s1.hashes[key].contains_key(f) && s1.hashes[key][f]
                    == s.hashes[key][f]
            &&& s1.hashes.contains_key(key) ==> s.hashes.contains_key(key) && forall|f: Seq<char>|
                #[trigger] s1.hashes[key].contains_key(f) ==> s.hashes[key].contains_key(f)
            &&& s1.hashes.remove(key) == s.hashes.remove(key)
            &&& r == int_reply(
                if s.hashes.contains_key(key) {
                    fields.to_set().intersect(s.hashes[key].dom()).len()
                } else {
                    0
                },
            )
        }),
{
    lemma_command_names();
    let (s1, r) = handle_model(s, hdel_message(key, fields), now);
    if s.hashes.contains_key(key) {
        let m = s.hashes[key];
        lemma_remove_fields(m, fields);
        axiom_set_intersect_finite(fields.to_set(), m.dom());
        if m.len() == 0 {
            m.dom().lemma_len0_is_empty();
            assert(fields.to_set().intersect(m.dom()) =~= Set::<Seq<char>>::empty());
        } else {
            let m2 = m.remove_keys(fields.to_set());
            assert(m2.dom() =~= m.dom().difference(fields.to_set()));
            assert forall|f: Seq<char>|
                !fields.contains(f) && #[trigger] m.contains_key(f) implies m2.len() > 0 by {
                assert(m2.dom().contains(f));
            }
        }
    }
    assert(s1.hashes.remove(key) =~= s.hashes.remove(key));
}

/// The keys that hold a value, a string or a hash.
pub open spec fn held_keys(s: InnerModel) -> Set<Seq<char>> {
    s.strings.dom().union(s.hashes.dom())
}

/// The database without the keys in `gone`: their values, expiries and
/// records are dropped, and nothing else changes.
pub open spec fn without_keys(s: InnerModel, gone: Set<Seq<char>>) -> InnerModel {
    InnerModel {
        keys: s.keys.remove_keys(gone),
        strings: s.strings.remove_keys(gone),
        deadlines: s.deadlines.remove_keys(gone),
        hashes: s.hashes.remove_keys(gone),
    }
}

/// A `DEL` message for the keys, as the parser makes it.
pub open spec fn del_keys_message(keys: Seq<Seq<char>>) -> MessageModel {
    MessageModel { protocol: ProtocolModel::Del { typ: KeyType::String, keys }, key: keys[0], cmd: "DEL"@ }
}

proof fn lemma_del_keys_effect(s: InnerModel, ks: Seq<Seq<char>>)
    requires
        consistent(s),
        s.keys.dom().finite(),
    ensures
        del_keys(s, ks).0 == without_keys(s, ks.to_set()),
        del_keys(s, ks).1 == ks.to_set().intersect(s.keys.dom()).len(),
    decreases ks.len(),
{
    if ks.len() == 0 {
        assert(ks.to_set() =~= Set::<Seq<char>>::empty());
        let w = without_keys(s, ks.to_set());
        assert(w.keys =~= s.keys);
        assert(w.strings =~= s.strings);
        assert(w.deadlines =~= s.deadlines);
        assert(w.hashes =~= s.hashes);
        assert(ks.to_set().intersect(s.keys.dom()) =~= Set::<Seq<char>>::empty());
    } else {
        let d = ks.drop_last();
        let k = ks.last();
        lemma_del_keys_effect(s, d);
        lemma_del_keys_consistent(s, d);
        lemma_to_set_push(ks);
        let a = d.to_set();
        let s1 = without_keys(s, a);
        assert(del_keys(s, d).0 == s1);
        let i0 = a.intersect(s.keys.dom());
        axiom_set_intersect_finite(a, s.keys.dom());
        let w = without_keys(s, ks.to_set());
        let s2 = del_key(s1, k).0;
        if s1.keys.contains_key(k) {
            assert(holds(s1, k, s1.keys[k]));
            assert(s2.keys =~= w.keys);
            assert(s2.strings =~= w.strings);
            assert(s2.deadlines =~= w.deadlines);
            assert(s2.hashes =~= w.hashes);
            assert(ks.to_set().intersect(s.keys.dom()) =~= i0.insert(k));
            assert(!i0.contains(k));
        } else {
            assert(!s1.strings.contains_key(k));
            assert(!s1.hashes.contains_key(k));
            assert(s2.keys =~= w.keys);
            assert(s2.strings =~= w.strings);
            assert(s2.deadlines =~= w.deadlines);
            assert(s2.hashes =~= w.hashes);
            assert(ks.to_set().intersect(s.keys.dom()) =~= i0);
        }
    }
}

/// `DEL keys...` deletes exactly the keys listed that hold a value, whatever
/// kinds of value the database holds: afterwards none of them holds a
/// value, a record or an expiry, nothing else has changed (but for values
/// whose expiry has ended, which are dropped first), and the reply counts
/// the listed keys that held a value, each once.
pub proof fn law_del_deletes_listed_keys(s: InnerModel, keys: Seq<Seq<char>>, now: u64)
    requires
        consistent(s),
        s.keys.dom().finite(),
    ensures
        ({
            let e = expire_model(s, now);
            let (s1, r) = handle_model(s, del_keys_message(keys), now);
            &&& s1 == without_keys(e, keys.to_set())
            &&& r == int_reply(keys.to_set().intersect(held_keys(e)).len())
        }),
{
    lemma_command_names();
    lemma_expire_consistent(s, now);
    let e = expire_model(s, now);
    let gone = Set::new(|k: Seq<char>| expired(s, k, now));
    assert(e.keys.dom() =~= s.keys.dom().difference(gone));
    assert(held_keys(e) =~= e.keys.dom()) by {
        assert forall|k: Seq<char>| #[trigger] e.keys.contains_key(k) implies held_keys(e).contains(k) by {
            assert(holds(e, k, e.keys[k]));
        }
    }
    if e.keys.len() == 0 {
        e.keys.dom().lemma_len0_is_empty();
        let w = without_keys(e, keys.to_set());
        assert(w.keys =~= e.keys);
        assert(w.strings =~= e.strings);
        assert(w.deadlines =~= e.deadlines);
        assert(w.hashes =~= e.hashes);
        assert(keys.to_set().intersect(held_keys(e)) =~= Set::<Seq<char>>::empty());
    } else {
        lemma_del_keys_effect(e, keys);
    }
}

} // verus!
