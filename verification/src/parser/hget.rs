//! `hget key field`

use vstd::prelude::*;

use crate::protocol::{views, KeyType, Protocol, ProtocolModel};

verus! {

/// The command that `hget` arguments (the name first) stand for.
pub open spec fn hget_command(args: Seq<Seq<char>>) -> ProtocolModel {
    if args.len() != 3 {
        ProtocolModel::Error("ERR wrong number of arguments for 'hget' command"@)
    } else {
        ProtocolModel::HGet { typ: KeyType::Hash, key: args[1], field: args[2] }
    }
}

/// Parses the arguments of `hget` (the command name first).
pub fn transform(param: Vec<String>) -> (p: Protocol)
    ensures
        p@ == hget_command(views(param@)),
{
    if param.len() != 3 {
        return Protocol::Error("ERR wrong number of arguments for 'hget' command".to_owned());
    }
    Protocol::HGet { typ: KeyType::Hash, key: param[1].clone(), field: param[2].clone() }
}

} // verus!
