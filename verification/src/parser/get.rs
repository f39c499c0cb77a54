//! `get key`

use vstd::prelude::*;

use crate::protocol::{views, KeyType, Protocol, ProtocolModel};

verus! {

/// The command that `get` arguments (the name first) stand for.
pub open spec fn get_command(args: Seq<Seq<char>>) -> ProtocolModel {
    if args.len() != 2 {
        ProtocolModel::Error("ERR syntax error"@)
    } else {
        ProtocolModel::Get { typ: KeyType::String, key: args[1] }
    }
}

/// Parses the arguments of `get` (the command name first).
pub fn transform(param: Vec<String>) -> (p: Protocol)
    ensures
        p@ == get_command(views(param@)),
{
    if param.len() != 2 {
        return Protocol::Error("ERR syntax error".to_owned());
    }
    Protocol::Get { typ: KeyType::String, key: param[1].clone() }
}

} // verus!
