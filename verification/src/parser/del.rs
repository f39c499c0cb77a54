//! `del key [key ...]`

use vstd::prelude::*;

use crate::protocol::{views, KeyType, Protocol, ProtocolModel};
use crate::text::copy_from;

verus! {

/// The command that `del` arguments (the name first) stand for.
pub open spec fn del_command(args: Seq<Seq<char>>) -> ProtocolModel {
    if args.len() < 2 {
        ProtocolModel::Error("ERR wrong number of arguments for 'del' command"@)
    } else {
        ProtocolModel::Del { typ: KeyType::String, keys: args.subrange(1, args.len() as int) }
    }
}

/// Parses the arguments of `del` (the command name first).
pub fn transform(param: Vec<String>) -> (p: Protocol)
    ensures
        p@ == del_command(views(param@)),
{
    if param.len() < 2 {
        return Protocol::Error("ERR wrong number of arguments for 'del' command".to_owned());
    }
    Protocol::Del { typ: KeyType::String, keys: copy_from(&param, 1) }
}

} // verus!
