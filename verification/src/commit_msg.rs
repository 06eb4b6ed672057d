//! The arguments of the `commit-msg` hook.

use vstd::prelude::*;

verus! {

/// What git hands to the `commit-msg` hook: the path of the file that holds
/// the commit message.
#[derive(Debug)]
pub struct CommitMsgArgs {
    pub filename: String,
}

/// The arguments of the hook, taken from the program's arguments `args`,
/// of which the first is the program's own name.
pub fn process_args(args: &Vec<String>) -> (parsed: CommitMsgArgs)
    requires
        args@.len() >= 2,
    ensures
        parsed.filename@ == args@[1]@,
{
    CommitMsgArgs { filename: args[1].clone() }
}

} // verus!
