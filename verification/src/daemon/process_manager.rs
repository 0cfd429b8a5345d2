//! Scripts that carry their own definition: they are run without a loaded
//! configuration, and remembered with what is needed to run them again.
use crate::common::config::RestartPolicy;
use crate::common::error::Error;
use crate::common::ipc::{ProcessInfo, ProcessStatus};
use crate::daemon::log_monitor::{get_log_path, log_path};
use crate::daemon::process_supervisor::StopAction;
use crate::names::NameMap;
use crate::text::{concat2, concat3, concat4, copy_text, holds, lemma_holds, texts};
use crate::time::{elapsed, since, span, Duration, Timestamp};
use vstd::prelude::*;

verus! {

/// A process, and the definition of the script that it runs.
#[derive(Debug)]
pub struct ManagedProcess {
    pub pid: u32,
    pub command: String,
    pub status: ProcessStatus,
    pub start_time: Option<Timestamp>,
    pub restart_count: u32,
    pub log_file: String,
    pub restart_policy: RestartPolicy,
    pub max_restarts: u32,
    pub cron: Option<String>,
}

impl ManagedProcess {
    /// The time of the start is one.
    pub open spec fn wf(self) -> bool {
        self.start_time is Some ==> self.start_time->0.wf()
    }
}

/// What is remembered of a script.
#[derive(Debug)]
pub struct ScriptRecord {
    pub name: String,
    pub command: String,
    pub restart_policy: RestartPolicy,
    pub max_restarts: u32,
    pub status: ProcessStatus,
    pub last_started: Option<Timestamp>,
    pub last_stopped: Option<Timestamp>,
    pub exit_code: Option<i32>,
    pub explicitly_stopped: bool,
    pub cron: Option<String>,
}

impl Clone for ScriptRecord {
    fn clone(&self) -> (r: Self)
        ensures
            r == *self,
    {
        ScriptRecord {
            name: self.name.clone(),
            command: self.command.clone(),
            restart_policy: self.restart_policy,
            max_restarts: self.max_restarts,
            status: self.status,
            last_started: self.last_started,
            last_stopped: self.last_stopped,
            exit_code: self.exit_code,
            explicitly_stopped: self.explicitly_stopped,
            cron: copy_text(&self.cron),
        }
    }
}

/// The definition of a script.
#[derive(Debug)]
pub struct ScriptDefinition {
    pub command: String,
    pub restart_policy: RestartPolicy,
    pub max_restarts: u32,
    pub cron: Option<String>,
}

/// The processes of scripts, and what is remembered of scripts, by their names.
#[derive(Debug)]
pub struct ProcessManager {
    pub processes: NameMap<ManagedProcess>,
    pub records: NameMap<ScriptRecord>,
    pub log_dir: String,
}

/// What came of an attempt to start a script.
#[derive(Debug)]
pub enum ScriptStartResult {
    Started,
    AlreadyRunning,
    Error(Error),
}

/// What the scheduler is told.
#[derive(Debug)]
pub enum SchedulerMessage {
    /// A script is to be scheduled anew.
    ScriptUpdated(String),
    /// A script is to be scheduled no more.
    ScriptRemoved(String),
}

/// How the process of a script is started.
#[derive(Debug)]
pub struct LaunchPlan {
    pub program: String,
    pub arguments: Vec<String>,
    pub log_path: String,
}

/// What is remembered of a script whose status changed.
pub open spec fn record_of(
    name: String,
    process: ManagedProcess,
    status: ProcessStatus,
    explicitly_stopped: bool,
    cron: Option<String>,
    now: Timestamp,
) -> ScriptRecord {
    ScriptRecord {
        name,
        command: process.command,
        restart_policy: process.restart_policy,
        max_restarts: process.max_restarts,
        status,
        last_started: process.start_time,
        last_stopped: if status is Running {
            None
        } else {
            Some(now)
        },
        exit_code: None,
        explicitly_stopped,
        cron,
    }
}

/// Those of some records whose scripts are started again.
pub open spec fn to_restore(records: Seq<ScriptRecord>) -> Seq<ScriptRecord>
    decreases records.len(),
{
    if records.len() == 0 {
        records
    } else if records.last().status is Running && !records.last().explicitly_stopped {
        to_restore(records.drop_last()).push(records.last())
    } else {
        to_restore(records.drop_last())
    }
}

/// What came of reading the log of a script.
#[derive(Debug)]
pub enum LogSource {
    Content(String),
    Missing,
    Failed(String),
}

/// How the log of a script is shown among those of others.
pub open spec fn log_section(name: Seq<char>, log: LogSource) -> Seq<char> {
    match log {
        LogSource::Content(text) => "\n=== Logs for "@ + name + " ===\n"@ + text@,
        LogSource::Missing => "\n=== No logs for "@ + name + " ===\n"@,
        LogSource::Failed(e) => "\n=== Error reading logs for "@ + name + ": "@ + (e@ + " ===\n"@),
    }
}

/// How the logs of some scripts are shown.
pub open spec fn log_sections(logs: Seq<(String, LogSource)>) -> Seq<char>
    decreases logs.len(),
{
    if logs.len() == 0 {
        Seq::empty()
    } else {
        log_sections(logs.drop_last()) + log_section(logs.last().0@, logs.last().1)
    }
}

impl ProcessManager {
    /// No script has two processes or two records.
    pub open spec fn wf(self) -> bool {
        &&& self.processes.wf()
        &&& self.records.wf()
        &&& forall|name: Seq<char>| #[trigger]
            self.processes@.contains_key(name) ==> self.processes@[name].wf()
    }

    /// The process of a script.
    pub open spec fn process(self, name: Seq<char>) -> Option<ManagedProcess> {
        if self.processes@.contains_key(name) {
            Some(self.processes@[name])
        } else {
            None
        }
    }

    /// Whether this manager becomes the other when it is noted that a script
    /// was started: the script has a process that knows how often it was restarted,
    /// and is remembered as running.
    pub open spec fn notes_start(
        self,
        after: Self,
        name: String,
        definition: ScriptDefinition,
        restart_count: u32,
        pid: u32,
        now: Timestamp,
    ) -> bool {
        let process = after.processes@[name@];
        &&& after.log_dir == self.log_dir
        &&& after.processes@.remove(name@) == self.processes@.remove(name@)
        &&& after.processes@.contains_key(name@)
        &&& process == (ManagedProcess {
            pid,
            command: definition.command,
            status: ProcessStatus::Running,
            start_time: Some(now),
            restart_count,
            log_file: process.log_file,
            restart_policy: definition.restart_policy,
            max_restarts: definition.max_restarts,
            cron: definition.cron,
        })
        &&& process.log_file@ == log_path(self.log_dir@, name@)
        &&& after.records@ == self.records@.insert(
            name@,
            record_of(name, process, ProcessStatus::Running, false, definition.cron, now),
        )
    }

    /// A manager that remembers what it is given, and has no processes.
    pub fn new(records: NameMap<ScriptRecord>, log_dir: String) -> (r: Self)
        requires
            records.wf(),
        ensures
            r.wf(),
            r.records == records,
            r.log_dir == log_dir,
            r.processes@ == Map::<Seq<char>, ManagedProcess>::empty(),
    {
        ProcessManager { processes: NameMap::new(), records, log_dir }
    }

    /// What is remembered of all scripts.
    pub fn get_state(&self) -> (r: Vec<ScriptRecord>)
        ensures
            r@ == self.records.values(),
    {
        let mut out: Vec<ScriptRecord> = Vec::new();
        let mut i: usize = 0;
        let n = self.records.len();
        while i < n
            invariant
                n == self.records.names().len(),
                n == self.records.values().len(),
                i <= n,
                out@ == self.records.values().take(i as int),
            decreases n - i,
        {
            out.push(self.records.value_at(i).clone());
            i = i + 1;
            assert(out@ =~= self.records.values().take(i as int));
        }
        assert(self.records.values().take(n as int) =~= self.records.values());
        out
    }

    /// The scripts that are started again when the daemon starts.
    pub fn restore_state(&self) -> (r: Vec<ScriptRecord>)
        ensures
            r@ == to_restore(self.records.values()),
    {
        let all = self.get_state();
        let mut out: Vec<ScriptRecord> = Vec::new();
        let mut i: usize = 0;
        assert(all@.take(0) =~= Seq::<ScriptRecord>::empty());
        while i < all.len()
            invariant
                i <= all@.len(),
                out@ == to_restore(all@.take(i as int)),
            decreases all.len() - i,
        {
            assert(all@.take(i as int + 1).drop_last() =~= all@.take(i as int));
            if all[i].status == ProcessStatus::Running && !all[i].explicitly_stopped {
                out.push(all[i].clone());
            }
            i = i + 1;
        }
        assert(all@.take(i as int) =~= all@);
        out
    }

    /// Remembers that the status of a script that has a process changed.
    pub(crate) fn update_script_state(
        &mut self,
        name: &String,
        status: ProcessStatus,
        explicitly_stopped: bool,
        cron: Option<String>,
        now: Timestamp,
    ) -> (r: Result<(), Error>)
        requires
            old(self).wf(),
        ensures
            final(self).wf(),
            final(self).processes == old(self).processes,
            final(self).log_dir == old(self).log_dir,
            match r {
                Ok(_) => old(self).processes@.contains_key(name@) && final(self).records@
                    == old(self).records@.insert(
                    name@,
                    record_of(
                        *name,
                        old(self).processes@[name@],
                        status,
                        explicitly_stopped,
                        cron,
                        now,
                    ),
                ),
                Err(e) => !old(self).processes@.contains_key(name@) && *final(self) == *old(self)
                    && (e matches Error::ScriptNotFound { name: n } && n == *name),
            },
    {
        let record = match self.processes.get(name.as_str()) {
            None => {
                return Err(Error::ScriptNotFound { name: name.clone() });
            },
            Some(process) => ScriptRecord {
                name: name.clone(),
                command: process.command.clone(),
                restart_policy: process.restart_policy,
                max_restarts: process.max_restarts,
                status,
                last_started: process.start_time,
                last_stopped: match status {
                    ProcessStatus::Running => None,
                    _ => Some(now),
                },
                exit_code: None,
                explicitly_stopped,
                cron,
            },
        };
        self.records.insert(name.clone(), record);
        Ok(())
    }

    /// Makes room for a new process of a script, unless its old one is alive.
    pub fn check_process_alive(&mut self, name: &str, alive: bool) -> (r: Option<ScriptStartResult>)
        requires
            old(self).wf(),
        ensures
            final(self).wf(),
            final(self).records == old(self).records,
            final(self).log_dir == old(self).log_dir,
            ({
                let occupied = old(self).processes@.contains_key(name@)
                    && old(self).processes@[name@].pid > 0 && alive;
                &&& r is Some == occupied
                &&& r is Some ==> r->0 is AlreadyRunning
                &&& final(self).processes@ == (if occupied {
                    old(self).processes@
                } else {
                    old(self).processes@.remove(name@)
                })
            }),
    {
        if let Some(process) = self.processes.get(name) {
            if process.pid > 0 && alive {
                return Some(ScriptStartResult::AlreadyRunning);
            }
        }
        self.processes.remove(name);
        None
    }

    /// How the process of a script is started.
    pub fn launch_plan(&self, name: &str, definition: &ScriptDefinition) -> (r: LaunchPlan)
        ensures
            r.program@ == "sh"@,
            texts(r.arguments@) == seq!["-c"@, definition.command@],
            r.log_path@ == log_path(self.log_dir@, name@),
    {
        let mut arguments: Vec<String> = Vec::new();
        arguments.push("-c".to_owned());
        arguments.push(definition.command.clone());
        assert(texts(arguments@) =~= seq!["-c"@, definition.command@]);
        LaunchPlan {
            program: "sh".to_owned(),
            arguments,
            log_path: get_log_path(self.log_dir.as_str(), name),
        }
    }

    /// Notes that a script was started, as the given restart or, where that is
    /// none, anew: it has a process, and is remembered as running. Gives what the
    /// scheduler is told.
    pub fn start_script(
        &mut self,
        name: &String,
        definition: ScriptDefinition,
        restart_count: u32,
        pid: u32,
        now: Timestamp,
    ) -> (r: (ScriptStartResult, SchedulerMessage))
        requires
            old(self).wf(),
            now.wf(),
        ensures
            final(self).wf(),
            old(self).notes_start(*final(self), *name, definition, restart_count, pid, now),
            r.0 is Started,
            r.1 == SchedulerMessage::ScriptUpdated(*name),
    {
        let log_file = get_log_path(self.log_dir.as_str(), name.as_str());
        let cron = copy_text(&definition.cron);
        self.processes.insert(
            name.clone(),
            ManagedProcess {
                pid,
                command: definition.command,
                status: ProcessStatus::Running,
                start_time: Some(now),
                restart_count,
                log_file,
                restart_policy: definition.restart_policy,
                max_restarts: definition.max_restarts,
                cron: definition.cron,
            },
        );
        assert(self.processes@.remove(name@) =~= old(self).processes@.remove(name@));
        let result = match self.update_script_state(
            name,
            ProcessStatus::Running,
            false,
            cron,
            now,
        ) {
            Ok(_) => ScriptStartResult::Started,
            Err(e) => ScriptStartResult::Error(e),
        };
        (result, SchedulerMessage::ScriptUpdated(name.clone()))
    }

    /// Prepares the stop of a script that is remembered and has a process: it
    /// is remembered as stopped on purpose, with the schedule that it had.
    pub fn begin_stop(&mut self, name: &String, now: Timestamp) -> (r: Result<(), Error>)
        requires
            old(self).wf(),
        ensures
            final(self).wf(),
            final(self).processes == old(self).processes,
            final(self).log_dir == old(self).log_dir,
            r is Ok == (old(self).records@.contains_key(name@)
                && old(self).processes@.contains_key(name@)),
            match r {
                Ok(_) => final(self).records@ == old(self).records@.insert(
                    name@,
                    record_of(
                        *name,
                        old(self).processes@[name@],
                        ProcessStatus::Stopped,
                        true,
                        old(self).records@[name@].cron,
                        now,
                    ),
                ),
                Err(e) => *final(self) == *old(self) && (e matches Error::ScriptNotFound {
                    name: n,
                } && n == *name),
            },
    {
        let cron = match self.records.get(name.as_str()) {
            None => {
                return Err(Error::ScriptNotFound { name: name.clone() });
            },
            Some(record) => copy_text(&record.cron),
        };
        self.update_script_state(name, ProcessStatus::Stopped, true, cron, now)
    }

    /// Gives a script's process up, and tells what is to be done about it and
    /// what the scheduler is told.
    pub fn stop_script(&mut self, name: &String, alive: bool) -> (r: (StopAction, SchedulerMessage))
        requires
            old(self).wf(),
        ensures
            final(self).wf(),
            final(self).records == old(self).records,
            final(self).log_dir == old(self).log_dir,
            final(self).processes@ == old(self).processes@.remove(name@),
            r.1 == SchedulerMessage::ScriptRemoved(*name),
            r.0 == (if !old(self).processes@.contains_key(name@) {
                StopAction::Nothing
            } else if old(self).processes@[name@].pid > 0 && alive {
                StopAction::Terminate { pid: old(self).processes@[name@].pid }
            } else {
                StopAction::Unwatch
            }),
    {
        let action = match self.processes.remove(name.as_str()) {
            None => StopAction::Nothing,
            Some(process) => if process.pid > 0 && alive {
                StopAction::Terminate { pid: process.pid }
            } else {
                StopAction::Unwatch
            },
        };
        (action, SchedulerMessage::ScriptRemoved(name.clone()))
    }

    /// The names of the scripts that have a process: all that are stopped when
    /// no script is named.
    pub fn stop_all(&self) -> (r: Vec<String>)
        ensures
            texts(r@) == self.processes.names(),
    {
        self.processes.keys()
    }

    /// Gives all processes up; tells which there were.
    pub fn shutdown(&mut self) -> (r: Vec<(String, u32)>)
        requires
            old(self).wf(),
        ensures
            final(self).wf(),
            final(self).records == old(self).records,
            final(self).log_dir == old(self).log_dir,
            final(self).processes@ == Map::<Seq<char>, ManagedProcess>::empty(),
            r@.len() == old(self).processes.names().len(),
            forall|i: int|
                0 <= i < r@.len() ==> (#[trigger] r@[i]).0@ == old(self).processes.names()[i]
                    && r@[i].1 == old(self).processes@[r@[i].0@].pid,
    {
        let mut out: Vec<(String, u32)> = Vec::new();
        let mut i: usize = 0;
        let n = self.processes.len();
        while i < n
            invariant
                self.wf(),
                n == self.processes.names().len(),
                i <= n,
                out@.len() == i,
                forall|j: int|
                    0 <= j < i ==> (#[trigger] out@[j]).0@ == self.processes.names()[j]
                        && out@[j].1 == self.processes@[out@[j].0@].pid,
            decreases n - i,
        {
            proof {
                self.processes.lemma_at(i as int);
            }
            out.push((self.processes.name_at(i).clone(), self.processes.value_at(i).pid));
            i = i + 1;
        }
        self.processes.clear();
        out
    }

    /// What is reported of all processes.
    pub fn get_status(&self, now: Timestamp) -> (r: Vec<ProcessInfo>)
        requires
            self.wf(),
            now.wf(),
        ensures
            r@.len() == self.processes.names().len(),
            forall|i: int|
                #![trigger r@[i]]
                0 <= i < r@.len() ==> ({
                    let process = self.processes@[self.processes.names()[i]];
                    &&& r@[i].name@ == self.processes.names()[i]
                    &&& r@[i].pid == process.pid
                    &&& r@[i].status == process.status
                    &&& r@[i].uptime == (match process.start_time {
                        Some(start) => since(start, now),
                        None => span(0),
                    })
                    &&& r@[i].restart_count == process.restart_count
                    &&& r@[i].exit_code is None
                    &&& r@[i].config_path is None
                }),
    {
        let mut out: Vec<ProcessInfo> = Vec::new();
        let mut i: usize = 0;
        let n = self.processes.len();
        while i < n
            invariant
                self.wf(),
                now.wf(),
                n == self.processes.names().len(),
                i <= n,
                out@.len() == i,
                forall|j: int|
                    #![trigger out@[j]]
                    0 <= j < i ==> ({
                        let process = self.processes@[self.processes.names()[j]];
                        &&& out@[j].name@ == self.processes.names()[j]
                        &&& out@[j].pid == process.pid
                        &&& out@[j].status == process.status
                        &&& out@[j].uptime == (match process.start_time {
                            Some(start) => since(start, now),
                            None => span(0),
                        })
                        &&& out@[j].restart_count == process.restart_count
                        &&& out@[j].exit_code is None
                        &&& out@[j].config_path is None
                    }),
            decreases n - i,
        {
            proof {
                self.processes.lemma_at(i as int);
            }
            let process = self.processes.value_at(i);
            out.push(
                ProcessInfo {
                    name: self.processes.name_at(i).clone(),
                    pid: process.pid,
                    status: process.status,
                    uptime: match process.start_time {
                        Some(start) => elapsed(start, now),
                        None => Duration::zero(),
                    },
                    restart_count: process.restart_count,
                    exit_code: None,
                    config_path: None,
                },
            );
            i = i + 1;
        }
        out
    }
}

/// What is shown of the log of one script.
pub fn read_logs(content: Option<String>) -> (r: String)
    ensures
        r@ == (match content {
            Some(text) => text@,
            None => "No logs available yet."@,
        }),
{
    match content {
        Some(text) => text,
        None => "No logs available yet.".to_owned(),
    }
}

/// What is shown of the logs of some scripts.
pub fn read_all_logs(logs: &Vec<(String, LogSource)>) -> (r: String)
    ensures
        r@ == log_sections(logs@),
{
    let mut out = String::new();
    let mut i: usize = 0;
    assert(out@ =~= log_sections(logs@.take(0)));
    while i < logs.len()
        invariant
            i <= logs@.len(),
            out@ == log_sections(logs@.take(i as int)),
        decreases logs.len() - i,
    {
        assert(logs@.take(i as int + 1).drop_last() =~= logs@.take(i as int));
        let name = logs[i].0.as_str();
        let section = match &logs[i].1 {
            LogSource::Content(text) => concat4(
                "\n=== Logs for ",
                name,
                " ===\n",
                text.as_str(),
            ),
            LogSource::Missing => concat3("\n=== No logs for ", name, " ===\n"),
            LogSource::Failed(e) => {
                let end = concat2(e.as_str(), " ===\n");
                concat4("\n=== Error reading logs for ", name, ": ", end.as_str())
            },
        };
        out.append(section.as_str());
        i = i + 1;
    }
    assert(logs@.take(i as int) =~= logs@);
    out
}

/// After a stop the script is remembered as stopped on purpose, so that it is
/// not started again.
pub proof fn law_stopped_is_not_restored(records: Seq<ScriptRecord>, i: int)
    requires
        0 <= i < to_restore(records).len(),
    ensures
        to_restore(records)[i].status is Running,
        !to_restore(records)[i].explicitly_stopped,
        records.contains(to_restore(records)[i]),
    decreases records.len(),
{
    if records.len() > 0 {
        let front = records.drop_last();
        let inner = to_restore(front);
        if i < inner.len() {
            law_stopped_is_not_restored(front, i);
            let k = front.index_of(inner[i]);
            assert(records[k] == inner[i]);
        } else {
            assert(records[records.len() - 1] == to_restore(records)[i]);
        }
    }
}

/// Just the scripts that are remembered as running and not as stopped on purpose
/// are started again.
pub proof fn law_running_is_restored(records: Seq<ScriptRecord>, record: ScriptRecord)
    ensures
        to_restore(records).contains(record) <==> {
            &&& records.contains(record)
            &&& record.status == ProcessStatus::Running
            &&& !record.explicitly_stopped
        },
    decreases records.len(),
{
    let outer = to_restore(records);
    if records.len() > 0 {
        let front = records.drop_last();
        let inner = to_restore(front);
        law_running_is_restored(front, record);
        if outer.contains(record) {
            let i = outer.index_of(record);
            law_stopped_is_not_restored(records, i);
        }
        if records.contains(record) && record.status == ProcessStatus::Running
            && !record.explicitly_stopped {
            let i = records.index_of(record);
            if i < front.len() {
                assert(front[i] == record);
                let j = inner.index_of(record);
                assert(outer[j] == record);
            } else {
                assert(outer[outer.len() - 1] == record);
            }
        }
    }
}

/// What is remembered of a script is what it is run by, since when it ran, and,
/// unless it runs, when it ended.
pub proof fn law_record(
    name: String,
    process: ManagedProcess,
    status: ProcessStatus,
    explicitly_stopped: bool,
    cron: Option<String>,
    now: Timestamp,
)
    ensures
        ({
            let record = record_of(name, process, status, explicitly_stopped, cron, now);
            &&& record.name == name
            &&& record.command == process.command
            &&& record.restart_policy == process.restart_policy
            &&& record.max_restarts == process.max_restarts
            &&& record.cron == cron
            &&& record.status == status
            &&& record.explicitly_stopped == explicitly_stopped
            &&& record.last_started == process.start_time
            &&& status == ProcessStatus::Running ==> record.last_stopped is None
            &&& status != ProcessStatus::Running ==> record.last_stopped == Some(now)
        }),
{
}

/// A script that was started has a process that runs it by its definition since
/// then, and is remembered with that definition; no other script is touched.
pub proof fn law_started(
    before: ProcessManager,
    after: ProcessManager,
    name: String,
    definition: ScriptDefinition,
    restart_count: u32,
    pid: u32,
    now: Timestamp,
    other: Seq<char>,
)
    requires
        before.notes_start(after, name, definition, restart_count, pid, now),
    ensures
        ({
            let process = after.processes@[name@];
            let record = after.records@[name@];
            &&& after.processes@.contains_key(name@)
            &&& process.pid == pid
            &&& process.command == definition.command
            &&& process.status is Running
            &&& process.start_time == Some(now)
            &&& process.restart_count == restart_count
            &&& process.restart_policy == definition.restart_policy
            &&& process.max_restarts == definition.max_restarts
            &&& after.records@.contains_key(name@)
            &&& record.command == definition.command
            &&& record.restart_policy == definition.restart_policy
            &&& record.max_restarts == definition.max_restarts
            &&& record.cron == definition.cron
            &&& record.status is Running
            &&& !record.explicitly_stopped
        }),
        other != name@ ==> {
            &&& after.processes@.contains_key(other) == before.processes@.contains_key(other)
            &&& before.processes@.contains_key(other) ==> after.processes@[other]
                == before.processes@[other]
            &&& after.records@.contains_key(other) == before.records@.contains_key(other)
            &&& before.records@.contains_key(other) ==> after.records@[other]
                == before.records@[other]
        },
{
    if other != name@ {
        assert(after.processes@.remove(name@).contains_key(other)
            == after.processes@.contains_key(other));
        assert(before.processes@.remove(name@).contains_key(other)
            == before.processes@.contains_key(other));
        if before.processes@.contains_key(other) {
            assert(after.processes@.remove(name@)[other] == after.processes@[other]);
            assert(before.processes@.remove(name@)[other] == before.processes@[other]);
        }
    }
}

/// The log of each script is shown behind those before it, with its name and,
/// where it could be read, all of it.
pub proof fn law_log_sections(logs: Seq<(String, LogSource)>, name: String, log: LogSource)
    ensures
        ({
            let before = log_sections(logs);
            let after = log_sections(logs.push((name, log)));
            let added = after.skip(before.len() as int);
            &&& after.take(before.len() as int) == before
            &&& holds(added, name@)
            &&& log matches LogSource::Content(text) ==> holds(added, text@)
            &&& log matches LogSource::Failed(e) ==> holds(added, e@)
        }),
        log_sections(Seq::empty()).len() == 0,
{
    let none = Seq::<char>::empty();
    let more = logs.push((name, log));
    let before = log_sections(logs);
    let section = log_section(name@, log);
    assert(more.drop_last() =~= logs);
    assert(log_sections(more).take(before.len() as int) =~= before);
    assert(log_sections(more).skip(before.len() as int) =~= section);
    match log {
        LogSource::Content(text) => {
            lemma_holds("\n=== Logs for "@, name@, " ===\n"@ + text@);
            assert("\n=== Logs for "@ + name@ + (" ===\n"@ + text@) =~= section);
            lemma_holds("\n=== Logs for "@ + name@ + " ===\n"@, text@, none);
            assert("\n=== Logs for "@ + name@ + " ===\n"@ + text@ + none =~= section);
        },
        LogSource::Missing => {
            lemma_holds("\n=== No logs for "@, name@, " ===\n"@);
        },
        LogSource::Failed(e) => {
            let head = "\n=== Error reading logs for "@;
            lemma_holds(head, name@, ": "@ + (e@ + " ===\n"@));
            assert(head + name@ + (": "@ + (e@ + " ===\n"@)) =~= section);
            lemma_holds(head + name@ + ": "@, e@, " ===\n"@);
            assert(head + name@ + ": "@ + e@ + " ===\n"@ =~= section);
        },
    }
}

} // verus!
