//! The health of scripts, as the daemon reports it.
use crate::common::ipc::ProcessStatus;
use crate::daemon::process::{ended_well, ended_with, ExitStatus};
use crate::daemon::state::ScriptState;
use crate::names::NameMap;
use crate::time::Timestamp;
use vstd::prelude::*;

verus! {

/// What a script last did.
#[derive(Clone, Copy, Debug, PartialEq, Eq, Structural)]
pub enum ScriptHealthState {
    Running,
    Succeeded,
    Failed,
    NeverRan,
}

/// The health of one script.
#[derive(Debug)]
pub struct ScriptHealth {
    pub name: String,
    pub healthy: bool,
    pub state: ScriptHealthState,
    pub last_exit_code: Option<i32>,
    pub last_run_at: Option<Timestamp>,
    pub last_finished_at: Option<Timestamp>,
    pub pid: Option<u32>,
    pub restart_count: u32,
}

/// The health of each script, under its name.
pub type HealthSnapshot = NameMap<ScriptHealth>;

/// The health of no script.
pub fn new_health_snapshot() -> (r: HealthSnapshot)
    ensures
        r.wf(),
        r.names().len() == 0,
        r@ == Map::<Seq<char>, ScriptHealth>::empty(),
{
    NameMap::new()
}

impl Clone for ScriptHealth {
    fn clone(&self) -> (r: Self)
        ensures
            r == *self,
    {
        ScriptHealth {
            name: self.name.clone(),
            healthy: self.healthy,
            state: self.state,
            last_exit_code: self.last_exit_code,
            last_run_at: self.last_run_at,
            last_finished_at: self.last_finished_at,
            pid: self.pid,
            restart_count: self.restart_count,
        }
    }
}

/// The health of a script that never ran.
pub open spec fn fresh(name: String) -> ScriptHealth {
    ScriptHealth {
        name,
        healthy: true,
        state: ScriptHealthState::NeverRan,
        last_exit_code: None,
        last_run_at: None,
        last_finished_at: None,
        pid: None,
        restart_count: 0,
    }
}

/// The health of a script whose process ended.
pub open spec fn after_exit(
    h: ScriptHealth,
    status: Option<ExitStatus>,
    now: Timestamp,
) -> ScriptHealth {
    ScriptHealth {
        state: if ended_well(status) {
            ScriptHealthState::Succeeded
        } else {
            ScriptHealthState::Failed
        },
        healthy: ended_well(status),
        last_exit_code: ended_with(status),
        last_finished_at: Some(now),
        pid: None,
        ..h
    }
}

/// The health of a script whose process started.
pub open spec fn after_start(
    h: ScriptHealth,
    pid: u32,
    restart_count: u32,
    now: Timestamp,
) -> ScriptHealth {
    ScriptHealth {
        state: ScriptHealthState::Running,
        healthy: true,
        last_run_at: Some(now),
        pid: Some(pid),
        restart_count,
        ..h
    }
}

/// What a remembered script last did.
pub open spec fn remembered_state(script: ScriptState) -> ScriptHealthState {
    match script.status {
        ProcessStatus::Running => ScriptHealthState::Running,
        ProcessStatus::Failed => ScriptHealthState::Failed,
        ProcessStatus::Stopped => if script.exit_code is None || script.exit_code == Some(0i32) {
            ScriptHealthState::Succeeded
        } else {
            ScriptHealthState::Failed
        },
    }
}

/// The health of a script as it is remembered.
pub open spec fn remembered_health(script: ScriptState) -> ScriptHealth {
    ScriptHealth {
        name: script.name,
        healthy: !(remembered_state(script) is Failed),
        state: remembered_state(script),
        last_exit_code: script.exit_code,
        last_run_at: script.last_started,
        last_finished_at: script.last_stopped,
        pid: None,
        restart_count: script.restart_count,
    }
}

impl ScriptHealth {
    /// The health of a script that never ran.
    pub fn never_ran(name: String) -> (r: Self)
        ensures
            r == fresh(name),
    {
        ScriptHealth {
            name,
            healthy: true,
            state: ScriptHealthState::NeverRan,
            last_exit_code: None,
            last_run_at: None,
            last_finished_at: None,
            pid: None,
            restart_count: 0,
        }
    }

    /// Notes that the script's process ended.
    pub fn exited(self, status: Option<ExitStatus>, now: Timestamp) -> (r: Self)
        ensures
            r == after_exit(self, status, now),
    {
        let (ok, code) = match status {
            Some(s) => (s.success(), s.code),
            None => (false, None),
        };
        ScriptHealth {
            name: self.name,
            healthy: ok,
            state: if ok {
                ScriptHealthState::Succeeded
            } else {
                ScriptHealthState::Failed
            },
            last_exit_code: code,
            last_run_at: self.last_run_at,
            last_finished_at: Some(now),
            pid: None,
            restart_count: self.restart_count,
        }
    }

    /// Notes that the script's process started.
    pub fn started(self, pid: u32, restart_count: u32, now: Timestamp) -> (r: Self)
        ensures
            r == after_start(self, pid, restart_count, now),
    {
        ScriptHealth {
            name: self.name,
            healthy: true,
            state: ScriptHealthState::Running,
            last_exit_code: self.last_exit_code,
            last_run_at: Some(now),
            last_finished_at: self.last_finished_at,
            pid: Some(pid),
            restart_count,
        }
    }

    /// The health of a script as it is remembered.
    pub fn restored(script: &ScriptState) -> (r: Self)
        ensures
            r == remembered_health(*script),
    {
        let state = match script.status {
            ProcessStatus::Running => ScriptHealthState::Running,
            ProcessStatus::Failed => ScriptHealthState::Failed,
            ProcessStatus::Stopped => match script.exit_code {
                None => ScriptHealthState::Succeeded,
                Some(code) => if code == 0 {
                    ScriptHealthState::Succeeded
                } else {
                    ScriptHealthState::Failed
                },
            },
        };
        let healthy = state != ScriptHealthState::Failed;
        ScriptHealth {
            name: script.name.clone(),
            healthy,
            state,
            last_exit_code: script.exit_code,
            last_run_at: script.last_started,
            last_finished_at: script.last_stopped,
            pid: None,
            restart_count: script.restart_count,
        }
    }
}

/// A script is unhealthy just if it last failed: after a start it is healthy,
/// after an end it is healthy just if it ended well, and as it is remembered
/// it is healthy unless it failed.
pub proof fn law_health_follows_state(
    h: ScriptHealth,
    script: ScriptState,
    status: Option<ExitStatus>,
    pid: u32,
    restart_count: u32,
    now: Timestamp,
)
    ensures
        after_start(h, pid, restart_count, now).healthy == !(after_start(
            h,
            pid,
            restart_count,
            now,
        ).state is Failed),
        after_exit(h, status, now).healthy == !(after_exit(h, status, now).state is Failed),
        after_exit(h, status, now).healthy == ended_well(status),
        remembered_health(script).healthy == !(remembered_health(script).state is Failed),
{
}

/// A script whose process ended with the code zero succeeded and is healthy;
/// with any other code, by a signal or in a way that is not known it failed and is
/// not. The code and the time are noted, and nothing runs any more.
pub proof fn law_exit_is_noted(h: ScriptHealth, status: Option<ExitStatus>, now: Timestamp)
    ensures
        ({
            let after = after_exit(h, status, now);
            let well = status is Some && status->0.code == Some(0i32);
            &&& well ==> after.state is Succeeded && after.healthy
            &&& !well ==> after.state is Failed && !after.healthy
            &&& status is Some ==> after.last_exit_code == status->0.code
            &&& status is None ==> after.last_exit_code is None
            &&& after.last_finished_at == Some(now)
            &&& after.pid is None
            &&& after.name == h.name
            &&& after.last_run_at == h.last_run_at
            &&& after.restart_count == h.restart_count
        }),
{
}

/// A script that was started runs and is healthy, whatever it did before; how
/// its last process ended stays noted.
pub proof fn law_start_is_noted(h: ScriptHealth, pid: u32, restart_count: u32, now: Timestamp)
    ensures
        ({
            let after = after_start(h, pid, restart_count, now);
            &&& after.state is Running && after.healthy
            &&& after.pid == Some(pid)
            &&& after.last_run_at == Some(now)
            &&& after.restart_count == restart_count
            &&& after.name == h.name
            &&& after.last_exit_code == h.last_exit_code
            &&& after.last_finished_at == h.last_finished_at
        }),
{
}

/// A script that never ran is healthy.
pub proof fn law_fresh_is_healthy(name: String)
    ensures
        fresh(name).name == name,
        fresh(name).healthy,
        fresh(name).state is NeverRan,
        fresh(name).pid is None,
        fresh(name).last_exit_code is None,
        fresh(name).restart_count == 0,
{
}

/// A script that is remembered as failed comes back as failed and not healthy,
/// one that is remembered as running as running, and one that is remembered as
/// stopped by the code with which it ended: as failed just if that is known and
/// not zero.
pub proof fn law_remembered_health(script: ScriptState)
    ensures
        ({
            let h = remembered_health(script);
            &&& script.status is Failed ==> h.state is Failed && !h.healthy
            &&& script.status is Running ==> h.state is Running && h.healthy
            &&& script.status is Stopped && (script.exit_code is None || script.exit_code->0 == 0)
                ==> h.state is Succeeded && h.healthy
            &&& script.status is Stopped && script.exit_code is Some && script.exit_code->0 != 0
                ==> h.state is Failed && !h.healthy
            &&& h.name == script.name
            &&& h.last_exit_code == script.exit_code
            &&& h.last_run_at == script.last_started
            &&& h.last_finished_at == script.last_stopped
            &&& h.restart_count == script.restart_count
            &&& h.pid is None
        }),
{
}

} // verus!
