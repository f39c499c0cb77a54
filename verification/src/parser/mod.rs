//! Turns the lines of a package into a `Message`.

pub mod command;
pub mod del;
pub mod get;
pub mod hdel;
pub mod hget;
pub mod hset;
pub mod set;

use vstd::prelude::*;

use crate::config::{parse_with, parsed_command};
use crate::protocol::{views, KeyType, Message, MessageModel, ProtocolModel, StreamStatus};
use crate::storage::db::coherent;
use crate::text::{to_uppercase, uppercase};

verus! {

/// The lines of a package that carry its words: a package reads
/// `*n`, `$len1`, `word1`, `$len2`, `word2`, ... and the words are the
/// lines at positions 2, 4, 6, ...
pub open spec fn package_words(lines: Seq<Seq<char>>) -> Seq<Seq<char>> {
    Seq::new(((lines.len() - 1) / 2) as nat, |k: int| lines[2 + 2 * k])
}

/// The message that the lines of a package stand for: the command name is
/// the first word upper-cased, the key the second word (empty where there
/// is none), and the command what the name's parser makes of the words.
/// Nothing where there are fewer than three lines (no command name) or the
/// name has no parser.
pub open spec fn entry_message(lines: Seq<Seq<char>>) -> Option<MessageModel> {
    if lines.len() < 3 {
        None
    } else {
        let words = package_words(lines);
        let name = uppercase(words[0]);
        let key = if words.len() > 1 { words[1] } else { Seq::empty() };
        match parsed_command(name, words) {
            Some(p) => Some(MessageModel { protocol: p, key, cmd: name }),
            None => None,
        }
    }
}

/// Parses the lines of a package into a message; too few lines, or a name
/// without a parser, is a syntax error.
pub fn entry(param: Vec<String>) -> (r: Result<Message, StreamStatus>)
    ensures
        match r {
            Ok(m) => entry_message(views(param@)) == Some(m@),
            Err(s) => entry_message(views(param@)) is None && s is Online,
        },
{
    if param.len() < 3 {
        return Err(StreamStatus::Online);
    }
    let ghost lines = views(param@);
    let mut param_filter: Vec<String> = Vec::new();
    let mut j: usize = 2;
    while j < param.len()
        invariant
            2 <= j <= param.len(),
            lines == views(param@),
            param_filter@.len() == (j - 1) / 2,
            forall|k: int| 0 <= k < param_filter@.len() ==> #[trigger] param_filter@[k]@ == lines[2 + 2 * k],
        decreases param.len() - j,
    {
        if (j - 2) % 2 == 0 {
            let p = param[j].clone();
            param_filter.push(p);
        }
        j = j + 1;
    }
    let ghost words = views(param_filter@);
    proof {
        assert(words =~= package_words(lines));
    }
    let cmd = to_uppercase(param_filter[0].as_str());
    let key = if param_filter.len() > 1 {
        param_filter[1].clone()
    } else {
        "".to_owned()
    };
    proof {
        reveal_strlit("");
        assert(words[0] == param_filter@[0]@);
        assert(cmd@ == uppercase(package_words(lines)[0]));
        if words.len() > 1 {
            assert(key@ == package_words(lines)[1]);
        } else {
            assert(key@ =~= Seq::<char>::empty());
        }
    }
    match parse_with(&cmd, param_filter) {
        Some(protocol) => Ok(Message { protocol, cmd, key }),
        None => Err(StreamStatus::Online),
    }
}

/// What the parser makes of a package and sends to the database is
/// coherent: its name, kind, command and key agree, so that handling it keeps
/// every key to one kind of value.
pub proof fn law_entry_coherent(lines: Seq<Seq<char>>)
    requires
        entry_message(lines) is Some,
        entry_message(lines)->0.protocol.executes(),
    ensures
        coherent(entry_message(lines)->0),
{
}

proof fn lemma_parser_names()
    ensures
        "SET"@ != "GET"@,
        "SET"@ != "HSET"@ && "GET"@ != "HSET"@,
        "SET"@ != "HGET"@ && "GET"@ != "HGET"@ && "HSET"@ != "HGET"@,
        "SET"@ != "HDEL"@ && "GET"@ != "HDEL"@ && "HSET"@ != "HDEL"@ && "HGET"@ != "HDEL"@,
        "SET"@ != "DEL"@ && "GET"@ != "DEL"@ && "HSET"@ != "DEL"@ && "HGET"@ != "DEL"@ && "HDEL"@ != "DEL"@,
{
    reveal_strlit("SET");
    reveal_strlit("GET");
    reveal_strlit("HSET");
    reveal_strlit("HGET");
    reveal_strlit("HDEL");
    reveal_strlit("DEL");
    assert("SET"@[0] != "GET"@[0]);
    assert("SET"@.len() != "HSET"@.len() && "GET"@.len() != "HSET"@.len());
    assert("SET"@.len() != "HGET"@.len() && "GET"@.len() != "HGET"@.len() && "HSET"@[1] != "HGET"@[1]);
    assert("SET"@.len() != "HDEL"@.len() && "GET"@.len() != "HDEL"@.len());
    assert("HSET"@[1] != "HDEL"@[1] && "HGET"@[1] != "HDEL"@[1]);
    assert("SET"@[0] != "DEL"@[0] && "GET"@[0] != "DEL"@[0]);
    assert("HSET"@.len() != "DEL"@.len() && "HGET"@.len() != "DEL"@.len() && "HDEL"@.len() != "DEL"@.len());
}

/// Each command takes the arguments its grammar gives: `GET key`,
/// `HGET key field`, `HSET key field value`, `HDEL key field...`,
/// `DEL key...`, `SET key value ...`. A package with another number of
/// words is answered with the command's error and never reaches the
/// database; with the right number, the key and the other arguments are the
/// words in their places.
pub proof fn law_arity(lines: Seq<Seq<char>>)
    requires
        lines.len() >= 3,
    ensures
        ({
            let words = package_words(lines);
            let name = uppercase(words[0]);
            let r = entry_message(lines);
            &&& name == "GET"@ ==> r is Some && r->0.protocol == if words.len() == 2 {
                ProtocolModel::Get { typ: KeyType::String, key: words[1] }
            } else {
                ProtocolModel::Error("ERR syntax error"@)
            }
            &&& name == "HGET"@ ==> r is Some && r->0.protocol == if words.len() == 3 {
                ProtocolModel::HGet { typ: KeyType::Hash, key: words[1], field: words[2] }
            } else {
                ProtocolModel::Error("ERR wrong number of arguments for 'hget' command"@)
            }
            &&& name == "HSET"@ ==> r is Some && r->0.protocol == if words.len() == 4 {
                ProtocolModel::HSet { typ: KeyType::Hash, key: words[1], field: words[2], value: words[3] }
            } else {
                ProtocolModel::Error("ERR wrong number of arguments for 'hset' command"@)
            }
            &&& name == "HDEL"@ ==> r is Some && r->0.protocol == if words.len() >= 3 {
                ProtocolModel::HDel {
                    typ: KeyType::Hash,
                    key: words[1],
                    fields: words.subrange(2, words.len() as int),
                }
            } else {
                ProtocolModel::Error("ERR wrong number of arguments for 'hdel' command"@)
            }
            &&& name == "DEL"@ ==> r is Some && r->0.protocol == if words.len() >= 2 {
                ProtocolModel::Del { typ: KeyType::String, keys: words.subrange(1, words.len() as int) }
            } else {
                ProtocolModel::Error("ERR wrong number of arguments for 'del' command"@)
            }
            &&& name == "SET"@ && words.len() < 3 ==> r is Some && r->0.protocol == ProtocolModel::Error(
                "ERR wrong number of arguments for 'set' command"@,
            )
            &&& r is Some && r->0.protocol is Error ==> !r->0.protocol.executes()
        }),
{
    lemma_parser_names();
}

} // verus!
