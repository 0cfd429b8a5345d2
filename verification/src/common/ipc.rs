//! The messages between the client and the daemon, and how they are framed.
use crate::common::error::Error;
use crate::common::paths::{socket_location, socket_path, Directories};
use crate::text::copy_text;
use crate::time::Duration;
use vstd::prelude::*;

verus! {

/// The size that a message may have, in bytes.
pub const MAX_MESSAGE_SIZE: u32 = 10_485_760;

/// How the program was built.
#[derive(Clone, Copy, Debug, PartialEq, Eq, Structural)]
pub enum Profile {
    Development,
    Production,
}

impl Profile {
    /// The profile of a build with or without debug assertions.
    pub fn current(debug_assertions: bool) -> (r: Self)
        ensures
            r == (if debug_assertions {
                Profile::Development
            } else {
                Profile::Production
            }),
    {
        if debug_assertions {
            Profile::Development
        } else {
            Profile::Production
        }
    }
}

/// The socket on which a client reaches the daemon: the one on which it listens.
pub fn get_socket_path(profile: Profile, dirs: &Directories) -> (r: String)
    requires
        profile is Production && !(dirs.platform is Linux && dirs.runtime is Some) ==> dirs.data
            is Some,
    ensures
        r@ == socket_location(profile, *dirs),
{
    socket_path(profile, dirs)
}

/// What a client asks of the daemon.
#[allow(inconsistent_fields)]
#[derive(Debug)]
pub enum Command {
    Up { name: Option<String>, config_path: String },
    Down { name: Option<String>, config_path: String },
    Ps { config_path: Option<String> },
    Logs { name: Option<String>, tail: u32, follow: bool },
    Reload { config_path: String },
}

/// What the daemon answers.
#[derive(Debug)]
pub enum Response {
    Success,
    Error(String),
    ProcessList(Vec<ProcessInfo>),
    Logs(String),
}

/// One script as the daemon reports it.
#[derive(Debug)]
pub struct ProcessInfo {
    pub name: String,
    pub pid: u32,
    pub status: ProcessStatus,
    pub uptime: Duration,
    pub restart_count: u32,
    pub exit_code: Option<i32>,
    pub config_path: Option<String>,
}

impl Clone for ProcessInfo {
    fn clone(&self) -> (r: Self)
        ensures
            r == *self,
    {
        ProcessInfo {
            name: self.name.clone(),
            pid: self.pid,
            status: self.status,
            uptime: self.uptime,
            restart_count: self.restart_count,
            exit_code: self.exit_code,
            config_path: copy_text(&self.config_path),
        }
    }
}

/// How a script fares.
#[derive(Clone, Copy, Debug, PartialEq, Eq, Structural)]
pub enum ProcessStatus {
    Running,
    Stopped,
    Failed,
}

/// A number below two to the thirty-second power as four bytes, the lowest first.
pub open spec fn le_bytes(n: int) -> Seq<u8> {
    seq![
        (n % 256) as u8,
        (n / 256 % 256) as u8,
        (n / 65536 % 256) as u8,
        (n / 16777216 % 256) as u8,
    ]
}

/// The number that four bytes stand for, the lowest byte first.
pub open spec fn le_value(b: Seq<u8>) -> int {
    b[0] + 256 * b[1] + 65536 * b[2] + 16777216 * b[3]
}

/// A message with its length, modulo two to the thirty-second power, before it.
pub open spec fn frame(payload: Seq<u8>) -> Seq<u8> {
    le_bytes(payload.len() as int % 4294967296) + payload
}

/// Puts the length of a message before it.
pub fn encode_frame(payload: &Vec<u8>) -> (r: Vec<u8>)
    ensures
        r@ == frame(payload@),
{
    let size: u64 = payload.len() as u64 % 4294967296;
    let mut out: Vec<u8> = Vec::new();
    out.push((size % 256) as u8);
    out.push((size / 256 % 256) as u8);
    out.push((size / 65536 % 256) as u8);
    out.push((size / 16777216 % 256) as u8);
    let ghost head = out@;
    assert(head =~= le_bytes(size as int));
    let mut i: usize = 0;
    while i < payload.len()
        invariant
            i <= payload@.len(),
            out@ == head + payload@.take(i as int),
        decreases payload.len() - i,
    {
        out.push(payload[i]);
        i = i + 1;
        assert(out@ =~= head + payload@.take(i as int));
    }
    assert(payload@.take(i as int) =~= payload@);
    out
}

/// The size of the message that follows the four bytes of a header, unless
/// it is over the limit.
pub fn frame_size(header: &[u8; 4]) -> (r: Result<u32, Error>)
    ensures
        r == (if le_value(header@) <= MAX_MESSAGE_SIZE {
            Ok::<u32, Error>(le_value(header@) as u32)
        } else {
            Err(Error::MessageTooLarge { size: le_value(header@) as u32, max: MAX_MESSAGE_SIZE })
        }),
        0 <= le_value(header@) <= u32::MAX,
{
    let size: u32 = header[0] as u32 + 256 * header[1] as u32 + 65536 * header[2] as u32 + 16777216
        * header[3] as u32;
    if size > MAX_MESSAGE_SIZE {
        Err(Error::MessageTooLarge { size, max: MAX_MESSAGE_SIZE })
    } else {
        Ok(size)
    }
}

/// Whoever reads a frame of a message that is not over the limit learns the
/// length of the message from the first four bytes, the lowest first, and finds the
/// message behind them.
pub proof fn law_frame_round_trip(payload: Seq<u8>)
    requires
        payload.len() <= MAX_MESSAGE_SIZE,
    ensures
        frame(payload).len() == payload.len() + 4,
        le_value(frame(payload).take(4)) == payload.len(),
        frame(payload).skip(4) == payload,
        frame(payload)[0] == payload.len() % 256,
        frame(payload)[1] == payload.len() / 256 % 256,
        frame(payload)[2] == payload.len() / 65536 % 256,
        frame(payload)[3] == payload.len() / 16777216 % 256,
{
    let n = payload.len() as int;
    assert(frame(payload).take(4) =~= le_bytes(n));
    assert(frame(payload).skip(4) =~= payload);
    assert(n == n % 256 + 256 * (n / 256 % 256) + 65536 * (n / 65536 % 256) + 16777216 * (n
        / 16777216 % 256)) by {
        assert(n / 65536 == n / 256 / 256);
        assert(n / 16777216 == n / 65536 / 256);
    }
}

/// The answer to a command that either succeeds or fails.
pub fn respond(result: Result<(), Error>) -> (r: Response)
    ensures
        match result {
            Ok(_) => r is Success,
            Err(e) => r matches Response::Error(text) && text@ == e.text(),
        },
{
    match result {
        Ok(_) => Response::Success,
        Err(e) => Response::Error(e.message()),
    }
}

/// A message of up to ten mebibytes is within the limit, and a larger one is not.
pub proof fn law_message_limit(payload: Seq<u8>)
    requires
        payload.len() < 4_294_967_296,
    ensures
        le_value(frame(payload).take(4)) == payload.len(),
        le_value(frame(payload).take(4)) <= MAX_MESSAGE_SIZE <==> payload.len() <= 10_485_760,
{
    let n = payload.len() as int;
    assert(frame(payload).take(4) =~= le_bytes(n));
    assert(n == n % 256 + 256 * (n / 256 % 256) + 65536 * (n / 65536 % 256) + 16777216 * (n
        / 16777216 % 256)) by {
        assert(n / 65536 == n / 256 / 256);
        assert(n / 16777216 == n / 65536 / 256);
    }
}

} // verus!
