//! `command`: what clients send first when they connect.

use vstd::prelude::*;

use crate::protocol::Protocol;

verus! {

/// Parses `command`, whatever its arguments.
pub fn transform(param: Vec<String>) -> (p: Protocol)
    ensures
        p is Command,
{
    Protocol::Command
}

} // verus!
