//! A process that the daemon manages.
use crate::common::ipc::ProcessStatus;
use crate::time::Timestamp;
use vstd::prelude::*;

verus! {

/// A process that runs a script.
#[derive(Clone, Copy, Debug)]
pub struct ManagedProcess {
    pub pid: u32,
    pub status: ProcessStatus,
    pub start_time: Option<Timestamp>,
    pub restart_count: u32,
}

impl ManagedProcess {
    /// The time of the start is one.
    pub open spec fn wf(self) -> bool {
        self.start_time is Some ==> self.start_time->0.wf()
    }
}

/// How a process ended. There is no code where a signal ended it.
#[derive(Clone, Copy, Debug, PartialEq, Eq, Structural)]
pub struct ExitStatus {
    pub code: Option<i32>,
}

impl ExitStatus {
    /// Whether the process ended well.
    pub open spec fn ok(self) -> bool {
        self.code == Some(0i32)
    }

    /// Whether the process ended well.
    pub fn success(&self) -> (r: bool)
        ensures
            r == self.ok(),
    {
        match self.code {
            Some(code) => code == 0,
            None => false,
        }
    }
}

/// Whether it is known that a process ended well.
pub open spec fn ended_well(status: Option<ExitStatus>) -> bool {
    status is Some && status->0.ok()
}

/// The code with which a process is known to have ended.
pub open spec fn ended_with(status: Option<ExitStatus>) -> Option<i32> {
    match status {
        Some(s) => s.code,
        None => None,
    }
}

/// What came of an attempt to start a script.
#[derive(Clone, Copy, Debug, PartialEq, Eq, Structural)]
pub enum ScriptStartResult {
    Started,
    AlreadyRunning,
}

/// Whether a process is alive, by what the system answered to a signal that
/// only asks for the process. No process has the number zero.
pub fn is_process_alive(pid: u32, answer: i32) -> (r: bool)
    ensures
        r == (pid != 0 && answer == 0),
{
    if pid == 0 {
        return false;
    }
    answer == 0
}

} // verus!
