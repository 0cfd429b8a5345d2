//! What the end of a process leads to for scripts that carry their own definition.
use crate::common::config::RestartPolicy;
use crate::common::ipc::ProcessStatus;
use crate::daemon::process::{ended_well, ExitStatus};
use crate::daemon::process_manager::{
    record_of, ManagedProcess, ProcessManager, ScriptDefinition,
};
use crate::text::copy_text;
use crate::time::Timestamp;
use vstd::prelude::*;

verus! {

/// The end of a process.
#[derive(Debug)]
pub struct ProcessExitEvent {
    pub name: String,
    pub status: Option<ExitStatus>,
}

/// Whether it is known that the process failed.
pub open spec fn failed(event: ProcessExitEvent) -> bool {
    event.status is Some && !ended_well(event.status)
}

/// Whether a process that failed is followed by another.
pub open spec fn may_restart(process: ManagedProcess) -> bool {
    process.restart_policy is Always && process.restart_count < process.max_restarts
}

/// The definition by which the script of a process is started again.
pub open spec fn definition_of(process: ManagedProcess) -> ScriptDefinition {
    ScriptDefinition {
        command: process.command,
        restart_policy: process.restart_policy,
        max_restarts: process.max_restarts,
        cron: process.cron,
    }
}

/// By what a script is started again when its process ended, and how often it
/// has been restarted then; nothing where it is not started again.
pub open spec fn restart_after(manager: ProcessManager, event: ProcessExitEvent) -> Option<
    (ScriptDefinition, u32),
> {
    match manager.process(event.name@) {
        Some(process) => if failed(event) && may_restart(process) {
            Some((definition_of(process), (process.restart_count + 1) as u32))
        } else {
            None
        },
        None => None,
    }
}

/// Whether a manager becomes another when it is noted that a process ended. A
/// process that failed is given up. A script that is not started again is remembered
/// as stopped where its process ended well, and as failed where it did not.
pub open spec fn notes_exit(
    before: ProcessManager,
    after: ProcessManager,
    event: ProcessExitEvent,
    now: Timestamp,
) -> bool {
    &&& after.log_dir == before.log_dir
    &&& after.processes@ == (if failed(event) {
        before.processes@.remove(event.name@)
    } else {
        before.processes@
    })
    &&& after.records@ == (match before.process(event.name@) {
        Some(process) => if event.status is Some && restart_after(before, event) is None {
            before.records@.insert(
                event.name@,
                record_of(
                    event.name,
                    process,
                    if failed(event) {
                        ProcessStatus::Failed
                    } else {
                        ProcessStatus::Stopped
                    },
                    false,
                    process.cron,
                    now,
                ),
            )
        } else {
            before.records@
        },
        None => before.records@,
    })
}

/// What the end of a process leads to: a process that failed is given up, and
/// its script is started again, where its policy says so and it was not restarted
/// too often. A script that is not started again is remembered as stopped or
/// failed. Gives the definition to start it by, and how often it will have been
/// restarted then.
pub fn monitor_exits(
    manager: &mut ProcessManager,
    event: &ProcessExitEvent,
    now: Timestamp,
) -> (r: Option<(ScriptDefinition, u32)>)
    requires
        old(manager).wf(),
    ensures
        final(manager).wf(),
        notes_exit(*old(manager), *final(manager), *event, now),
        r == restart_after(*old(manager), *event),
{
    let failed = match event.status {
        None => {
            return None;
        },
        Some(status) => !status.success(),
    };
    let (restart, cron) = match manager.processes.get(event.name.as_str()) {
        None => {
            assert(manager.processes@.remove(event.name@) =~= manager.processes@);
            return None;
        },
        Some(process) => (
            failed && process.restart_policy == RestartPolicy::Always && process.restart_count
                < process.max_restarts,
            copy_text(&process.cron),
        ),
    };
    if !restart {
        let status = if failed {
            ProcessStatus::Failed
        } else {
            ProcessStatus::Stopped
        };
        let _ = manager.update_script_state(&event.name, status, false, cron, now);
    }
    if !failed {
        return None;
    }
    match manager.processes.remove(event.name.as_str()) {
        Some(process) if restart => {
            let count: u32 = process.restart_count + 1;
            Some(
                (
                    ScriptDefinition {
                        command: process.command,
                        restart_policy: process.restart_policy,
                        max_restarts: process.max_restarts,
                        cron: process.cron,
                    },
                    count,
                ),
            )
        },
        _ => None,
    }
}

/// Whether the process that a script has in one manager is followed by the one
/// that it has in another: the first one ended so, and the script was started again
/// by what came of that, whatever else happened in between.
pub open spec fn follows(
    before: ProcessManager,
    event: ProcessExitEvent,
    next: ProcessManager,
) -> bool {
    match restart_after(before, event) {
        Some((definition, count)) => exists|
            between: ProcessManager,
            after: ProcessManager,
            pid: u32,
            now: Timestamp,
        | #[trigger]
            between.notes_start(after, event.name, definition, count, pid, now) && next.process(
                event.name@,
            ) == after.process(event.name@),
        None => false,
    }
}

/// A script that failed and was started again runs by the definition that it
/// had, and has been restarted once more than before, but not more often than its
/// limit says.
pub proof fn law_restart_counts_up(
    before: ProcessManager,
    event: ProcessExitEvent,
    next: ProcessManager,
)
    requires
        follows(before, event, next),
    ensures
        before.process(event.name@) is Some,
        next.process(event.name@) is Some,
        definition_of(next.process(event.name@)->0) == definition_of(
            before.process(event.name@)->0,
        ),
        next.process(event.name@)->0.restart_count == before.process(
            event.name@,
        )->0.restart_count + 1,
        next.process(event.name@)->0.restart_count <= next.process(event.name@)->0.max_restarts,
{
}

/// A script that was restarted as often as its limit says is not started again,
/// however it fails: its process is given up, and it is remembered as failed.
pub proof fn law_restarts_run_out(
    before: ProcessManager,
    after: ProcessManager,
    event: ProcessExitEvent,
    now: Timestamp,
)
    requires
        before.process(event.name@) is Some,
        before.process(event.name@)->0.restart_count >= before.process(
            event.name@,
        )->0.max_restarts,
        failed(event),
        notes_exit(before, after, event, now),
    ensures
        restart_after(before, event) is None,
        after.process(event.name@) is None,
        after.records@.contains_key(event.name@),
        after.records@[event.name@].status is Failed,
{
}

/// After a script was started anew it is restarted at most as often as its
/// limit says, however often its processes fail: of a row of managers, in each of
/// which the script's process is the one that followed the one before, not more than
/// that many come after the first.
pub proof fn law_restarts_are_limited(
    managers: Seq<ProcessManager>,
    events: Seq<ProcessExitEvent>,
    name: Seq<char>,
)
    requires
        managers.len() == events.len() + 1,
        managers[0].process(name) is Some,
        managers[0].process(name)->0.restart_count == 0,
        forall|i: int| #![trigger events[i]]
            0 <= i < events.len() ==> events[i].name@ == name && follows(
                managers[i],
                events[i],
                managers[i + 1],
            ),
    ensures
        events.len() <= managers[0].process(name)->0.max_restarts,
        managers.last().process(name) is Some,
        managers.last().process(name)->0.restart_count == events.len(),
        definition_of(managers.last().process(name)->0) == definition_of(
            managers[0].process(name)->0,
        ),
    decreases events.len(),
{
    if events.len() > 0 {
        let n = events.len() - 1;
        let fewer_managers = managers.drop_last();
        let fewer_events = events.drop_last();
        assert forall|i: int| #![trigger fewer_events[i]]
            0 <= i < fewer_events.len() implies fewer_events[i].name@ == name && follows(
            fewer_managers[i],
            fewer_events[i],
            fewer_managers[i + 1],
        ) by {
            assert(fewer_events[i] == events[i]);
        }
        law_restarts_are_limited(fewer_managers, fewer_events, name);
        assert(events[n].name@ == name);
        law_restart_counts_up(managers[n], events[n], managers[n + 1]);
    }
}

/// A script whose process is known to have ended in any other way than with the
/// code zero is started again by its own definition, as one more restart, where its
/// policy is always to be and it was restarted less often than its limit says.
pub proof fn law_failures_are_restarted(manager: ProcessManager, event: ProcessExitEvent)
    requires
        event.status is Some,
        event.status->0.code is None || event.status->0.code->0 != 0,
        manager.processes@.contains_key(event.name@),
        manager.processes@[event.name@].restart_policy == RestartPolicy::Always,
        manager.processes@[event.name@].restart_count
            < manager.processes@[event.name@].max_restarts,
    ensures
        ({
            let process = manager.processes@[event.name@];
            match restart_after(manager, event) {
                Some((definition, count)) => {
                    &&& count == process.restart_count + 1
                    &&& definition.command == process.command
                    &&& definition.restart_policy == process.restart_policy
                    &&& definition.max_restarts == process.max_restarts
                    &&& definition.cron == process.cron
                },
                None => false,
            }
        }),
{
}

/// A script whose process ended with the code zero, or in a way that is not
/// known, is not started again and keeps its process; in the first case it is
/// remembered as stopped, though not on purpose. One that failed and is not started
/// again is remembered as failed and has no process. No other script is touched.
pub proof fn law_exit_is_remembered(
    before: ProcessManager,
    after: ProcessManager,
    event: ProcessExitEvent,
    now: Timestamp,
    other: Seq<char>,
)
    requires
        notes_exit(before, after, event, now),
        before.processes@.contains_key(event.name@),
    ensures
        event.status is None ==> after.processes@ == before.processes@ && after.records@
            == before.records@ && restart_after(before, event) is None,
        event.status is Some && event.status->0.code == Some(0i32) ==> {
            &&& restart_after(before, event) is None
            &&& after.processes@ == before.processes@
            &&& after.records@[event.name@].status is Stopped
            &&& !after.records@[event.name@].explicitly_stopped
            &&& after.records@[event.name@].last_stopped == Some(now)
        },
        event.status is Some && event.status->0.code != Some(0i32) ==> {
            &&& !after.processes@.contains_key(event.name@)
            &&& restart_after(before, event) is None ==> {
                &&& after.records@[event.name@].status is Failed
                &&& !after.records@[event.name@].explicitly_stopped
                &&& after.records@[event.name@].last_stopped == Some(now)
            }
        },
        other != event.name@ ==> {
            &&& after.processes@.contains_key(other) == before.processes@.contains_key(other)
            &&& before.processes@.contains_key(other) ==> after.processes@[other]
                == before.processes@[other]
            &&& after.records@.contains_key(other) == before.records@.contains_key(other)
            &&& before.records@.contains_key(other) ==> after.records@[other]
                == before.records@[other]
        },
{
}

} // verus!
