//! The commands the server understands, as parsed from a package, and the
//! message that carries a parsed command to the database.

use vstd::prelude::*;

verus! {

/// The two units of a `SET` expiry: `EX` seconds or `PX` milliseconds.
#[derive(Clone, Copy, Debug, PartialEq, Eq, Structural)]
pub enum TTL {
    EX,
    PX,
}

/// The `SET` conditions: `NX` sets only an absent key, `XX` only a present one.
#[derive(Clone, Copy, Debug, PartialEq, Eq, Structural)]
pub enum Lock {
    NX,
    XX,
}

/// The five kinds of value a key can hold.
#[derive(Clone, Copy, Debug, PartialEq, Eq, Structural)]
pub enum KeyType {
    String,
    Hash,
    List,
    PlainSet,
    ZSet,
}

/// A parsed command.
#[derive(Debug, Clone)]
pub enum Protocol {
    /// `COMMAND`: answered with `+OK`, used by clients when they connect.
    Command,
    /// `set key value [EX seconds] [PX milliseconds] [NX|XX]`
    StrSet { typ: KeyType, key: String, value: String, ttl: Option<(TTL, usize)>, lock: Option<Lock> },
    /// `get key`
    Get { typ: KeyType, key: String },
    /// `hset key field value`
    HSet { typ: KeyType, key: String, field: String, value: String },
    /// `hget key field`
    HGet { typ: KeyType, key: String, field: String },
    /// `hdel key field [field ...]`
    HDel { typ: KeyType, key: String, fields: Vec<String> },
    /// `del key [key ...]`
    Del { typ: KeyType, keys: Vec<String> },
    UnSupport,
    /// A command that was recognised but malformed; the text is the error reply.
    Error(String),
}

/// A `Protocol` with its strings taken as character sequences.
pub enum ProtocolModel {
    Command,
    StrSet { typ: KeyType, key: Seq<char>, value: Seq<char>, ttl: Option<(TTL, usize)>, lock: Option<Lock> },
    Get { typ: KeyType, key: Seq<char> },
    HSet { typ: KeyType, key: Seq<char>, field: Seq<char>, value: Seq<char> },
    HGet { typ: KeyType, key: Seq<char>, field: Seq<char> },
    HDel { typ: KeyType, key: Seq<char>, fields: Seq<Seq<char>> },
    Del { typ: KeyType, keys: Seq<Seq<char>> },
    UnSupport,
    Error(Seq<char>),
}

/// The character sequences of a list of strings.
pub open spec fn views(v: Seq<String>) -> Seq<Seq<char>> {
    v.map_values(|s: String| s@)
}

impl View for Protocol {
    type V = ProtocolModel;

    open spec fn view(&self) -> ProtocolModel {
        match self {
            Protocol::Command => ProtocolModel::Command,
            Protocol::StrSet { typ, key, value, ttl, lock } => ProtocolModel::StrSet {
                typ: *typ,
                key: key@,
                value: value@,
                ttl: *ttl,
                lock: *lock,
            },
            Protocol::Get { typ, key } => ProtocolModel::Get { typ: *typ, key: key@ },
            Protocol::HSet { typ, key, field, value } => ProtocolModel::HSet {
                typ: *typ,
                key: key@,
                field: field@,
                value: value@,
            },
            Protocol::HGet { typ, key, field } => ProtocolModel::HGet {
                typ: *typ,
                key: key@,
                field: field@,
            },
            Protocol::HDel { typ, key, fields } => ProtocolModel::HDel {
                typ: *typ,
                key: key@,
                fields: views(fields@),
            },
            Protocol::Del { typ, keys } => ProtocolModel::Del { typ: *typ, keys: views(keys@) },
            Protocol::UnSupport => ProtocolModel::UnSupport,
            Protocol::Error(e) => ProtocolModel::Error(e@),
        }
    }
}

impl ProtocolModel {
    /// The commands that the database executes (the others are answered
    /// without touching it).
    pub open spec fn executes(self) -> bool {
        ||| self is StrSet
        ||| self is Get
        ||| self is HSet
        ||| self is HGet
        ||| self is HDel
        ||| self is Del
    }

    /// The kind of value that an executed command works on.
    pub open spec fn key_type(self) -> KeyType
        recommends
            self.executes(),
    {
        match self {
            ProtocolModel::StrSet { typ, .. } => typ,
            ProtocolModel::Get { typ, .. } => typ,
            ProtocolModel::HSet { typ, .. } => typ,
            ProtocolModel::HGet { typ, .. } => typ,
            ProtocolModel::HDel { typ, .. } => typ,
            ProtocolModel::Del { typ, .. } => typ,
            _ => KeyType::String,
        }
    }
}

impl KeyType {
    /// The kind of value that an executed command works on; the other
    /// commands never reach the database and have none.
    pub fn from(msg: Protocol) -> (typ: KeyType)
        requires
            msg@.executes(),
        ensures
            typ == msg@.key_type(),
    {
        KeyType::of(&msg)
    }

    /// The kind of value that an executed command works on.
    pub fn of(msg: &Protocol) -> (typ: KeyType)
        requires
            msg@.executes(),
        ensures
            typ == msg@.key_type(),
    {
        match msg {
            Protocol::StrSet { typ, .. } => *typ,
            Protocol::Get { typ, .. } => *typ,
            Protocol::HSet { typ, .. } => *typ,
            Protocol::HGet { typ, .. } => *typ,
            Protocol::HDel { typ, .. } => *typ,
            Protocol::Del { typ, .. } => *typ,
            _ => KeyType::String,
        }
    }
}

/// What travels from a connection's reader to its writer: a parsed command,
/// the first argument (the key) and the upper-cased command name.
#[derive(Debug, Clone)]
pub struct Message {
    pub protocol: Protocol,
    pub key: String,
    pub cmd: String,
}

/// A `Message` with its strings taken as character sequences.
pub struct MessageModel {
    pub protocol: ProtocolModel,
    pub key: Seq<char>,
    pub cmd: Seq<char>,
}

impl View for Message {
    type V = MessageModel;

    open spec fn view(&self) -> MessageModel {
        MessageModel { protocol: self.protocol@, key: self.key@, cmd: self.cmd@ }
    }
}

/// What a failed parse says of the connection.
#[derive(Debug)]
pub enum StreamStatus {
    Online,
    Offline,
}

} // verus!
