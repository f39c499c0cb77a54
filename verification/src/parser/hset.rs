//! `hset key field value`

use vstd::prelude::*;

use crate::protocol::{views, KeyType, Protocol, ProtocolModel};

verus! {

/// The command that `hset` arguments (the name first) stand for.
pub open spec fn hset_command(args: Seq<Seq<char>>) -> ProtocolModel {
    if args.len() != 4 {
        ProtocolModel::Error("ERR wrong number of arguments for 'hset' command"@)
    } else {
        ProtocolModel::HSet { typ: KeyType::Hash, key: args[1], field: args[2], value: args[3] }
    }
}

/// Parses the arguments of `hset` (the command name first).
pub fn transform(param: Vec<String>) -> (p: Protocol)
    ensures
        p@ == hset_command(views(param@)),
{
    if param.len() != 4 {
        return Protocol::Error("ERR wrong number of arguments for 'hset' command".to_owned());
    }
    Protocol::HSet {
        typ: KeyType::Hash,
        key: param[1].clone(),
        field: param[2].clone(),
        value: param[3].clone(),
    }
}

} // verus!
