//! Commands defined as types: each names itself; running one is done by
//! the binary, which has the connections.
use vstd::prelude::*;

verus! {

/// A command defined as a type.
pub trait Command {
    /// The command's name.
    fn name() -> String;
}

/// The `server` command, which lists the servers or switches to one.
pub struct CommandServer {}

impl Command for CommandServer {
    fn name() -> (r: String)
        ensures
            r@ == "server"@,
    {
        "server".to_owned()
    }
}

} // verus!
