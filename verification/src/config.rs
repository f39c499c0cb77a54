//! Which command names the server parses, and with which parser.

use vstd::prelude::*;

use crate::parser::del::del_command;
use crate::parser::get::get_command;
use crate::parser::hdel::hdel_command;
use crate::parser::hget::hget_command;
use crate::parser::hset::hset_command;
use crate::parser::set::set_command;
use crate::parser::{command, del, get, hdel, hget, hset};
use crate::protocol::{views, Protocol, ProtocolModel};
use crate::text::same_text;

verus! {

/// The command that the arguments of an upper-cased command name stand for,
/// or nothing where the name has no parser.
pub open spec fn parsed_command(name: Seq<char>, args: Seq<Seq<char>>) -> Option<ProtocolModel> {
    if name == "SET"@ {
        Some(set_command(args))
    } else if name == "GET"@ {
        Some(get_command(args))
    } else if name == "HSET"@ {
        Some(hset_command(args))
    } else if name == "HGET"@ {
        Some(hget_command(args))
    } else if name == "HDEL"@ {
        Some(hdel_command(args))
    } else if name == "DEL"@ {
        Some(del_command(args))
    } else if name == "COMMAND"@ {
        Some(ProtocolModel::Command)
    } else {
        None
    }
}

/// Runs the parser registered for the upper-cased command name `name` on the
/// arguments (the name first), or gives nothing where none is registered.
pub fn parse_with(name: &String, args: Vec<String>) -> (r: Option<Protocol>)
    ensures
        r is Some <==> parsed_command(name@, views(args@)) is Some,
        r matches Some(p) ==> parsed_command(name@, views(args@)) == Some(p@),
{
    if same_text(name, "SET") {
        Some(crate::parser::set::transform(args))
    } else if same_text(name, "GET") {
        Some(get::transform(args))
    } else if same_text(name, "HSET") {
        Some(hset::transform(args))
    } else if same_text(name, "HGET") {
        Some(hget::transform(args))
    } else if same_text(name, "HDEL") {
        Some(hdel::transform(args))
    } else if same_text(name, "DEL") {
        Some(del::transform(args))
    } else if same_text(name, "COMMAND") {
        Some(command::transform(args))
    } else {
        None
    }
}

} // verus!
