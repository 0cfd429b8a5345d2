//! How the daemon deals with a connection.
use crate::common::ipc::{Command, Response};
use crate::names::NameMap;
use crate::text::{concat3, copy_text};
use vstd::prelude::*;

verus! {

/// The script whose output a client wants to follow after the answer to its command.
pub fn follow_name(command: &Command) -> (r: Option<String>)
    ensures
        r == (match *command {
            Command::Logs { name, tail, follow } => if follow {
                name
            } else {
                None
            },
            _ => None,
        }),
{
    match command {
        Command::Logs { name, tail: _, follow } => if *follow {
            copy_text(name)
        } else {
            None
        },
        _ => None,
    }
}

/// The answer to a client that wants to follow a script, where the script has
/// no channel for its output; none where it has one.
pub fn refuse_follow(channels: &NameMap<()>, name: &str) -> (r: Option<Response>)
    ensures
        match r {
            None => channels@.contains_key(name@),
            Some(response) => !channels@.contains_key(name@) && (response matches Response::Error(
                text,
            ) && text@ == "No active log channel for '"@ + name@ + "'"@),
        },
{
    if channels.contains_key(name) {
        None
    } else {
        Some(Response::Error(concat3("No active log channel for '", name, "'")))
    }
}

} // verus!
