//! The processes that run scripts.
use crate::common::config::{byte_map, law_environment, Script};
use crate::common::ipc::{ProcessInfo, ProcessStatus};
use crate::daemon::log_monitor::{get_log_path, log_path};
use crate::daemon::process::{ManagedProcess, ScriptStartResult};
use crate::names::{without, NameMap};
use crate::path::join;
use crate::text::texts;
use crate::time::{elapsed, law_since, since, span, Duration, Timestamp};
use vstd::prelude::*;
use vstd::utf8::encode_utf8;

verus! {

/// How long a process is given to end by itself, in seconds.
pub const STOP_TIMEOUT_SECS: u64 = 5;

/// How long a process is given to end by itself when the daemon ends, in milliseconds.
pub const SHUTDOWN_GRACE_MS: u64 = 100;

/// The processes that run scripts, each under the name of its script.
#[derive(Debug)]
pub struct ProcessSupervisor {
    pub processes: NameMap<ManagedProcess>,
    pub log_dir: String,
    pub loki: bool,
}

/// How a script's process is started.
#[derive(Debug)]
pub struct LaunchPlan {
    pub program: String,
    pub arguments: Vec<String>,
    pub working_dir: String,
    pub env: NameMap<Vec<u8>>,
    pub log_path: String,
}

/// What is done about a process that is to be stopped.
#[derive(Clone, Copy, Debug, PartialEq, Eq, Structural)]
pub enum StopAction {
    /// There is no process.
    Nothing,
    /// The process is alive: ask its group to end, wait, and then force it.
    Terminate { pid: u32 },
    /// The process has ended: only stop watching it.
    Unwatch,
}

/// How long a process has been running.
pub open spec fn uptime(process: ManagedProcess, now: Timestamp) -> Duration {
    match process.start_time {
        Some(start) => since(start, now),
        None => span(0),
    }
}

/// Whether `info` is what is reported of a process.
pub open spec fn reports(
    info: ProcessInfo,
    name: Seq<char>,
    process: ManagedProcess,
    now: Timestamp,
) -> bool {
    &&& info.name@ == name
    &&& info.pid == process.pid
    &&& info.status == process.status
    &&& info.uptime == uptime(process, now)
    &&& info.restart_count == process.restart_count
    &&& info.exit_code is None
    &&& info.config_path is None
}

/// What is done about a process that is to be stopped.
pub open spec fn stop_action(process: Option<ManagedProcess>, alive: bool) -> StopAction {
    match process {
        None => StopAction::Nothing,
        Some(p) => if p.pid > 0 && alive {
            StopAction::Terminate { pid: p.pid }
        } else {
            StopAction::Unwatch
        },
    }
}

/// The characters of a text that may be given.
pub open spec fn given_text(t: Option<&str>) -> Option<Seq<char>> {
    match t {
        Some(s) => Some(s@),
        None => None,
    }
}

impl LaunchPlan {
    /// Whether a script is run so: by a shell, in its directory, with its
    /// variables. The command is the canonical path of it, where there is one, and
    /// else as it was written.
    pub open spec fn runs(
        self,
        script: Script,
        config_dir: Seq<char>,
        canonical_command: Option<Seq<char>>,
        env_file: Option<Seq<char>>,
        current_path: Seq<u8>,
    ) -> bool {
        &&& self.program@ == "sh"@
        &&& self.arguments@.len() == 2
        &&& self.arguments@[0]@ == "-c"@
        &&& self.arguments@[1]@ == (match canonical_command {
            Some(path) => path,
            None => script.command@,
        })
        &&& self.working_dir@ == script.base_dir(config_dir)
        &&& self.env.wf()
        &&& byte_map(self.env@) == script.environment(config_dir, env_file, current_path)
    }
}

impl ProcessSupervisor {
    /// No script has two processes.
    pub open spec fn wf(self) -> bool {
        &&& self.processes.wf()
        &&& forall|name: Seq<char>| #[trigger]
            self.processes@.contains_key(name) ==> self.processes@[name].wf()
    }

    /// The process of a script.
    pub open spec fn process(self, name: Seq<char>) -> Option<ManagedProcess> {
        if self.processes@.contains_key(name) {
            Some(self.processes@[name])
        } else {
            None
        }
    }

    /// Whether a script must not be started: it has a process, and the process is alive.
    pub open spec fn occupied(self, name: Seq<char>, alive: bool) -> bool {
        self.processes@.contains_key(name) && self.processes@[name].pid > 0 && alive
    }

    /// No processes.
    pub fn new(log_dir: String) -> (r: Self)
        ensures
            r.wf(),
            r.processes@ == Map::<Seq<char>, ManagedProcess>::empty(),
            r.log_dir == log_dir,
            !r.loki,
    {
        ProcessSupervisor { processes: NameMap::new(), log_dir, loki: false }
    }

    /// Sets where logs are kept from now on.
    pub fn set_log_dir(&mut self, log_dir: String)
        ensures
            *final(self) == (ProcessSupervisor { log_dir, ..*old(self) }),
    {
        self.log_dir = log_dir;
    }

    /// Has script output shipped from now on.
    pub fn set_loki(&mut self)
        ensures
            *final(self) == (ProcessSupervisor { loki: true, ..*old(self) }),
    {
        self.loki = true;
    }

    /// Where logs are kept.
    pub fn log_dir(&self) -> (r: &String)
        ensures
            *r == self.log_dir,
    {
        &self.log_dir
    }

    /// Makes room for a new process of a script, unless its old one is alive.
    pub fn begin_start(&mut self, name: &str, alive: bool) -> (r: ScriptStartResult)
        requires
            old(self).wf(),
        ensures
            final(self).wf(),
            final(self).log_dir == old(self).log_dir,
            final(self).loki == old(self).loki,
            r is AlreadyRunning == old(self).occupied(name@, alive),
            r is AlreadyRunning ==> *final(self) == *old(self),
            r is Started ==> final(self).processes@ == old(self).processes@.remove(name@),
    {
        if let Some(process) = self.processes.get(name) {
            if process.pid > 0 && alive {
                return ScriptStartResult::AlreadyRunning;
            }
        }
        self.cleanup_process(name);
        ScriptStartResult::Started
    }

    /// How the process of a script is started. The command is the given
    /// canonical path where there is one, and else as it was written.
    pub fn launch_plan(
        &self,
        name: &str,
        script: &Script,
        config_dir: &str,
        canonical_command: Option<&str>,
        env_file: Option<&str>,
        current_path: &[u8],
    ) -> (r: LaunchPlan)
        requires
            script.wf(),
        ensures
            r.program@ == "sh"@,
            texts(r.arguments@) == seq![
                "-c"@,
                (match canonical_command {
                    Some(path) => path@,
                    None => script.command@,
                }),
            ],
            r.working_dir@ == script.base_dir(config_dir@),
            r.env.wf(),
            byte_map(r.env@) == script.environment(
                config_dir@,
                (match env_file {
                    Some(s) => Some(s@),
                    None => None,
                }),
                current_path@,
            ),
            r.runs(
                *script,
                config_dir@,
                given_text(canonical_command),
                given_text(env_file),
                current_path@,
            ),
            r.log_path@ == log_path(self.log_dir@, name@),
    {
        let command = match canonical_command {
            Some(path) => path.to_owned(),
            None => script.command.clone(),
        };
        let mut arguments: Vec<String> = Vec::new();
        arguments.push("-c".to_owned());
        arguments.push(command);
        let r = LaunchPlan {
            program: "sh".to_owned(),
            arguments,
            working_dir: script.working_dir(config_dir),
            env: script.resolved_env(config_dir, env_file, current_path),
            log_path: get_log_path(self.log_dir.as_str(), name),
        };
        proof {
            let command = match canonical_command {
                Some(path) => path@,
                None => script.command@,
            };
            assert(texts(r.arguments@) =~= seq!["-c"@, command]);
        }
        r
    }

    /// Notes that the process of a script started.
    pub fn finish_start(&mut self, name: &str, pid: u32, restart_count: u32, now: Timestamp)
        requires
            old(self).wf(),
            now.wf(),
        ensures
            final(self).wf(),
            final(self).log_dir == old(self).log_dir,
            final(self).loki == old(self).loki,
            final(self).processes@ == old(self).processes@.insert(
                name@,
                ManagedProcess {
                    pid,
                    status: ProcessStatus::Running,
                    start_time: Some(now),
                    restart_count,
                },
            ),
    {
        self.processes.insert(
            name.to_owned(),
            ManagedProcess {
                pid,
                status: ProcessStatus::Running,
                start_time: Some(now),
                restart_count,
            },
        );
    }

    /// Sets how often a script was restarted.
    pub fn set_restart_count(&mut self, name: &str, restart_count: u32)
        requires
            old(self).wf(),
        ensures
            final(self).wf(),
            final(self).log_dir == old(self).log_dir,
            final(self).loki == old(self).loki,
            final(self).processes@ == (match old(self).process(name@) {
                Some(p) => old(self).processes@.insert(name@, ManagedProcess { restart_count, ..p }),
                None => old(self).processes@,
            }),
    {
        let updated = match self.processes.get(name) {
            Some(p) => Some(
                ManagedProcess {
                    pid: p.pid,
                    status: p.status,
                    start_time: p.start_time,
                    restart_count,
                },
            ),
            None => None,
        };
        if let Some(p) = updated {
            self.processes.insert(name.to_owned(), p);
        }
    }

    /// Gives a script's process up, and tells what is to be done about it.
    pub fn stop_script(&mut self, name: &str, alive: bool) -> (r: StopAction)
        requires
            old(self).wf(),
        ensures
            final(self).wf(),
            final(self).log_dir == old(self).log_dir,
            final(self).loki == old(self).loki,
            final(self).processes@ == old(self).processes@.remove(name@),
            final(self).processes.names() == without(old(self).processes.names(), name@),
            r == stop_action(old(self).process(name@), alive),
    {
        match self.processes.remove(name) {
            None => StopAction::Nothing,
            Some(process) => if process.pid > 0 && alive {
                StopAction::Terminate { pid: process.pid }
            } else {
                StopAction::Unwatch
            },
        }
    }

    /// Gives a script's process up without a signal; tells whether there was one.
    pub fn cleanup_process(&mut self, name: &str) -> (r: bool)
        requires
            old(self).wf(),
        ensures
            final(self).wf(),
            final(self).log_dir == old(self).log_dir,
            final(self).loki == old(self).loki,
            final(self).processes@ == old(self).processes@.remove(name@),
            r == old(self).processes@.contains_key(name@),
    {
        self.processes.remove(name).is_some()
    }

    /// Gives all processes up; tells which there were.
    pub fn shutdown_all(&mut self) -> (r: Vec<(String, u32)>)
        requires
            old(self).wf(),
        ensures
            final(self).wf(),
            final(self).log_dir == old(self).log_dir,
            final(self).loki == old(self).loki,
            final(self).processes@ == Map::<Seq<char>, ManagedProcess>::empty(),
            r@.len() == old(self).processes.names().len(),
            forall|i: int|
                0 <= i < r@.len() ==> (#[trigger] r@[i]).0@ == old(self).processes.names()[i]
                    && r@[i].1 == old(self).processes@[r@[i].0@].pid,
    {
        let mut out: Vec<(String, u32)> = Vec::new();
        let mut i: usize = 0;
        let n = self.processes.len();
        while i < n
            invariant
                self.wf(),
                n == self.processes.names().len(),
                i <= n,
                out@.len() == i,
                forall|j: int|
                    0 <= j < i ==> (#[trigger] out@[j]).0@ == self.processes.names()[j]
                        && out@[j].1 == self.processes@[out@[j].0@].pid,
            decreases n - i,
        {
            proof {
                self.processes.lemma_at(i as int);
            }
            out.push((self.processes.name_at(i).clone(), self.processes.value_at(i).pid));
            i = i + 1;
        }
        self.processes.clear();
        out
    }

    /// What is reported of all processes.
    pub fn status_list(&self, now: Timestamp) -> (r: Vec<ProcessInfo>)
        requires
            self.wf(),
            now.wf(),
        ensures
            r@.len() == self.processes.names().len(),
            forall|i: int|
                0 <= i < r@.len() ==> reports(
                    #[trigger] r@[i],
                    self.processes.names()[i],
                    self.processes@[self.processes.names()[i]],
                    now,
                ),
    {
        let mut out: Vec<ProcessInfo> = Vec::new();
        let mut i: usize = 0;
        let n = self.processes.len();
        while i < n
            invariant
                self.wf(),
                now.wf(),
                n == self.processes.names().len(),
                i <= n,
                out@.len() == i,
                forall|j: int|
                    0 <= j < i ==> reports(
                        #[trigger] out@[j],
                        self.processes.names()[j],
                        self.processes@[self.processes.names()[j]],
                        now,
                    ),
            decreases n - i,
        {
            proof {
                self.processes.lemma_at(i as int);
            }
            let process = self.processes.value_at(i);
            let uptime = match process.start_time {
                Some(start) => elapsed(start, now),
                None => Duration::zero(),
            };
            out.push(
                ProcessInfo {
                    name: self.processes.name_at(i).clone(),
                    pid: process.pid,
                    status: process.status,
                    uptime,
                    restart_count: process.restart_count,
                    exit_code: None,
                    config_path: None,
                },
            );
            i = i + 1;
        }
        out
    }

    /// Whether a script has a process.
    pub fn contains(&self, name: &str) -> (r: bool)
        ensures
            r == self.processes@.contains_key(name@),
    {
        self.processes.contains_key(name)
    }

    /// The process of a script.
    pub fn get(&self, name: &str) -> (r: Option<ManagedProcess>)
        requires
            self.wf(),
        ensures
            r == self.process(name@),
            r is Some ==> r->0.wf(),
    {
        match self.processes.get(name) {
            Some(p) => Some(*p),
            None => None,
        }
    }

    /// The names of the scripts that have a process.
    pub fn names(&self) -> (r: Vec<String>)
        ensures
            texts(r@) == self.processes.names(),
    {
        self.processes.keys()
    }
}

/// A script that was stopped has no process, and can be started at once; what
/// other scripts do is not touched.
pub proof fn law_stop_makes_room(
    before: ProcessSupervisor,
    after: ProcessSupervisor,
    name: Seq<char>,
    other: Seq<char>,
    alive: bool,
)
    requires
        before.wf(),
        after.wf(),
        after.processes@ == before.processes@.remove(name),
    ensures
        after.process(name) is None,
        !after.occupied(name, alive),
        stop_action(after.process(name), alive) is Nothing,
        other != name ==> after.process(other) == before.process(other),
{
}

/// A process is asked to end just if it is alive, and then the one that the
/// script has; one that has ended is only watched no longer.
pub proof fn law_stop_action(supervisor: ProcessSupervisor, name: Seq<char>, alive: bool)
    ensures
        ({
            let action = stop_action(supervisor.process(name), alive);
            let process = supervisor.processes@[name];
            if !supervisor.processes@.contains_key(name) {
                action is Nothing
            } else if alive && process.pid != 0 {
                action == StopAction::Terminate { pid: process.pid }
            } else {
                action is Unwatch
            }
        }),
{
}

/// What is reported of a process is what is known of it, and how long it has
/// run: the time from its start on.
pub proof fn law_report(info: ProcessInfo, name: Seq<char>, process: ManagedProcess, now: Timestamp)
    requires
        reports(info, name, process, now),
        process.wf(),
        now.wf(),
    ensures
        info.name@ == name,
        info.pid == process.pid,
        info.status == process.status,
        info.restart_count == process.restart_count,
        process.start_time is None ==> info.uptime.secs == 0 && info.uptime.nanos == 0,
        process.start_time is Some && process.start_time->0.total() <= now.total()
            ==> process.start_time->0.total() + info.uptime.total() == now.total(),
        process.start_time is Some && process.start_time->0.total() > now.total()
            ==> info.uptime.total() == 0,
{
    if process.start_time is Some {
        law_since(process.start_time->0, now);
    }
}

/// A script is run by a shell that is handed its whole command, in the directory
/// that its configuration names or else in that of the configuration, and with the
/// variables that its configuration sets.
pub proof fn law_launch(
    plan: LaunchPlan,
    script: Script,
    config_dir: Seq<char>,
    canonical_command: Option<Seq<char>>,
    env_file: Option<Seq<char>>,
    current_path: Seq<u8>,
    variable: Seq<char>,
)
    requires
        plan.runs(script, config_dir, canonical_command, env_file, current_path),
    ensures
        plan.program@ == "sh"@,
        plan.arguments@.len() == 2,
        plan.arguments@[0]@ == "-c"@,
        canonical_command is None ==> plan.arguments@[1]@ == script.command@,
        canonical_command is Some ==> plan.arguments@[1]@ == canonical_command->0,
        script.context is None ==> plan.working_dir@ == config_dir,
        script.context is Some ==> plan.working_dir@ == join(config_dir, script.context->0@),
        script.venv is None && script.env is Some && script.env->0@.contains_key(variable)
            ==> plan.env@.contains_key(variable) && plan.env@[variable]@ == encode_utf8(
            script.env->0@[variable]@,
        ),
{
    if script.venv is None && script.env is Some && script.env->0@.contains_key(variable) {
        law_environment(
            script,
            config_dir,
            match env_file {
                Some(s) => s,
                None => Seq::empty(),
            },
            current_path,
            variable,
        );
        assert(byte_map(plan.env@).contains_key(variable));
        assert(byte_map(plan.env@)[variable] == plan.env@[variable]@);
    }
}

} // verus!
