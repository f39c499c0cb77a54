//! `hdel key field [field ...]`

use vstd::prelude::*;

use crate::protocol::{views, KeyType, Protocol, ProtocolModel};
use crate::text::copy_from;

verus! {

/// The command that `hdel` arguments (the name first) stand for.
pub open spec fn hdel_command(args: Seq<Seq<char>>) -> ProtocolModel {
    if args.len() < 3 {
        ProtocolModel::Error("ERR wrong number of arguments for 'hdel' command"@)
    } else {
        ProtocolModel::HDel {
            typ: KeyType::Hash,
            key: args[1],
            fields: args.subrange(2, args.len() as int),
        }
    }
}

/// Parses the arguments of `hdel` (the command name first).
pub fn transform(param: Vec<String>) -> (p: Protocol)
    ensures
        p@ == hdel_command(views(param@)),
{
    if param.len() < 3 {
        return Protocol::Error("ERR wrong number of arguments for 'hdel' command".to_owned());
    }
    Protocol::HDel { typ: KeyType::Hash, key: param[1].clone(), fields: copy_from(&param, 2) }
}

} // verus!
