//! How the client deals with the daemon's answers.
use crate::common::error::{Error, IoFailure, IoKind};
use crate::common::ipc::Response;
use vstd::prelude::*;

verus! {

/// How long the client waits for an answer, in seconds.
pub const RESPONSE_TIMEOUT_SECS: u64 = 30;

/// What came of a command: what was received, or nothing where the time ran out.
pub fn send_command(received: Option<Result<Response, Error>>) -> (r: Result<Response, Error>)
    ensures
        r == (match received {
            Some(result) => result,
            None => Err(Error::CommandTimeout),
        }),
{
    match received {
        Some(result) => result,
        None => Err(Error::CommandTimeout),
    }
}

/// What is shown of the first answer to a client that follows a script, or why
/// it cannot be followed.
pub fn begin_follow(received: Option<Result<Response, Error>>) -> (r: Result<Option<String>, Error>)
    ensures
        r == (match received {
            None => Err(Error::CommandTimeout),
            Some(Err(e)) => Err(e),
            Some(Ok(Response::Logs(content))) => Ok(Some(content)),
            Some(Ok(Response::Error(e))) => Err(
                Error::Io(IoFailure { kind: IoKind::Other, message: e }),
            ),
            Some(Ok(_)) => Ok(None),
        }),
{
    match send_command(received) {
        Err(e) => Err(e),
        Ok(Response::Logs(content)) => Ok(Some(content)),
        Ok(Response::Error(e)) => Err(Error::Io(IoFailure { kind: IoKind::Other, message: e })),
        Ok(_) => Ok(None),
    }
}

/// What a client that follows a script does about what it received.
#[derive(Debug)]
pub enum FollowStep {
    /// Show a piece of output, and go on.
    Show(String),
    /// Go on.
    Ignore,
    /// Stop, with what the daemon says, if it says anything.
    Stop(Option<String>),
}

/// What a client that follows a script does about what it received.
pub fn send_command_follow(received: Result<Response, Error>) -> (r: FollowStep)
    ensures
        r == (match received {
            Ok(Response::Logs(chunk)) => FollowStep::Show(chunk),
            Ok(Response::Error(e)) => FollowStep::Stop(Some(e)),
            Ok(_) => FollowStep::Ignore,
            Err(_) => FollowStep::Stop(None),
        }),
{
    match received {
        Ok(Response::Logs(chunk)) => FollowStep::Show(chunk),
        Ok(Response::Error(e)) => FollowStep::Stop(Some(e)),
        Ok(_) => FollowStep::Ignore,
        Err(_) => FollowStep::Stop(None),
    }
}

} // verus!
