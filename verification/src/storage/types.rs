//! The kinds of value, and which commands write a key.

pub use crate::protocol::KeyType;

use vstd::prelude::*;

use crate::text::same_text;

verus! {

/// The commands that create the key they name: after one of them succeeds,
/// the key is recorded with the kind of value the command works on.
pub open spec fn write_command(cmd: Seq<char>) -> bool {
    cmd == "SET"@ || cmd == "HSET"@
}

/// Whether the upper-cased command name creates the key it names.
pub fn is_write_cmd(cmd: &String) -> (r: bool)
    ensures
        r == write_command(cmd@),
{
    same_text(cmd, "SET") || same_text(cmd, "HSET")
}

} // verus!
