//! The daemon's core: what becomes of scripts when clients ask, processes end
//! and schedules are due.
//!
//! Starting and stopping a process takes work outside of the core. The core
//! decides what is to be done before it and notes what came of it after; the
//! functions that do so begin with `begin` and `finish`.
use crate::common::config::{byte_map, RestartPolicy, Script};
use crate::common::error::Error;
use crate::common::ipc::ProcessStatus;
use crate::daemon::config_manager::{first_with, law_configured, ConfigManager};
use crate::daemon::cron_manager::CronManager;
use crate::daemon::health::{
    after_exit, after_start, fresh, new_health_snapshot, remembered_health, HealthSnapshot,
    ScriptHealth,
};
use crate::daemon::log_monitor::log_path;
use crate::daemon::process::{
    ended_well, ended_with, ExitStatus, ManagedProcess, ScriptStartResult,
};
use crate::daemon::process_supervisor::{
    given_text, stop_action, LaunchPlan, ProcessSupervisor, StopAction,
};
use crate::daemon::scheduler::{cron_complaint, cron_reading, schedule_of};
use crate::daemon::state::{
    law_recall_after_update, migrated, recall, removed, updated, RunningState, ScriptState,
    StateSource, STATE_VERSION,
};
use crate::names::NameMap;
use crate::path::{key, parent};
use crate::text::{copy_text, texts};
use crate::time::{Duration, Timestamp};
use cron::Schedule;
use vstd::arithmetic::power2::{lemma2_to64, lemma_pow2_strictly_increases, pow2};
use vstd::prelude::*;

verus! {

/// How long a script that failed waits before its first restart, in seconds.
pub const BACKOFF_BASE_SECS: u64 = 15;

/// How long a script that failed waits at most before a restart, in seconds.
pub const BACKOFF_MAX_SECS: u64 = 300;

/// How many events may wait for the core.
pub const EVENT_BUFFER: usize = 256;

/// Everything that the daemon keeps.
#[derive(Debug)]
pub struct DaemonCore {
    pub supervisor: ProcessSupervisor,
    pub config: ConfigManager,
    pub cron: CronManager,
    pub state: RunningState,
    pub health: HealthSnapshot,
    pub log_channels: NameMap<()>,
}

/// A restart that is due after a while.
#[derive(Clone, Copy, Debug, PartialEq, Eq, Structural)]
pub struct Backoff {
    pub restart_count: u32,
    pub delay: Duration,
}

/// What a schedule that is due leads to.
#[derive(Debug)]
pub enum CronTick {
    /// The script is not configured any more.
    Skip,
    /// The script's last process is alive.
    AlreadyRunning,
    /// Start the script, from the configuration at the given path.
    Launch(String),
}

/// How many seconds a script waits before a restart: twice as long each time, up to a limit.
pub open spec fn backoff_secs(attempt: nat) -> nat {
    let exponent = if attempt == 0 {
        0
    } else {
        (attempt - 1) as nat
    };
    let secs = BACKOFF_BASE_SECS as nat * pow2(exponent);
    if secs < BACKOFF_MAX_SECS {
        secs
    } else {
        BACKOFF_MAX_SECS as nat
    }
}

/// From the sixth attempt on the limit is reached.
proof fn lemma_backoff_limit(attempt: nat)
    requires
        attempt >= 6,
    ensures
        backoff_secs(attempt) == BACKOFF_MAX_SECS,
{
    lemma2_to64();
    if attempt > 6 {
        lemma_pow2_strictly_increases(5, (attempt - 1) as nat);
    }
    assert(BACKOFF_BASE_SECS as nat * pow2((attempt - 1) as nat) >= BACKOFF_MAX_SECS);
}

/// How long a script waits before a restart.
pub fn backoff_delay(attempt: u32) -> (r: Duration)
    ensures
        r == (Duration { secs: backoff_secs(attempt as nat) as u64, nanos: 0 }),
{
    proof {
        lemma2_to64();
        if attempt >= 6 {
            lemma_backoff_limit(attempt as nat);
        }
    }
    let secs: u64 = if attempt <= 1 {
        BACKOFF_BASE_SECS
    } else if attempt == 2 {
        BACKOFF_BASE_SECS * 2
    } else if attempt == 3 {
        BACKOFF_BASE_SECS * 4
    } else if attempt == 4 {
        BACKOFF_BASE_SECS * 8
    } else if attempt == 5 {
        BACKOFF_BASE_SECS * 16
    } else {
        BACKOFF_MAX_SECS
    };
    Duration { secs, nanos: 0 }
}

/// A script waits a quarter of a minute before its first restart, at least as
/// long before each restart as before any earlier one, twice as long as before the
/// last one until five minutes are reached, and never longer than that.
pub proof fn law_backoff(earlier: nat, attempt: nat)
    ensures
        backoff_secs(1) == 15,
        15 <= backoff_secs(attempt) <= 300,
        earlier <= attempt ==> backoff_secs(earlier) <= backoff_secs(attempt),
        attempt >= 1 ==> backoff_secs(attempt + 1) == (if 2 * backoff_secs(attempt) < 300 {
            2 * backoff_secs(attempt)
        } else {
            300
        }),
    decreases attempt,
{
    lemma2_to64();
    if attempt >= 6 {
        lemma_backoff_limit(attempt);
    }
    if attempt + 1 >= 6 {
        lemma_backoff_limit(attempt + 1);
    }
    if earlier < attempt {
        law_backoff(earlier, (attempt - 1) as nat);
    }
}

impl DaemonCore {
    /// Each part is in order.
    pub open spec fn wf(self) -> bool {
        &&& self.supervisor.wf()
        &&& self.config.wf()
        &&& self.cron.wf()
        &&& self.health.wf()
        &&& self.log_channels.wf()
    }

    /// What is remembered of a script.
    pub open spec fn recalled(self, name: Seq<char>) -> Option<ScriptState> {
        recall(self.state.scripts@, name)
    }

    /// The configuration under which a script is remembered.
    pub open spec fn remembered_config(self, name: Seq<char>) -> Option<String> {
        match self.recalled(name) {
            Some(s) => s.config_path,
            None => None,
        }
    }

    /// The configuration from which a script is run: the one under which it is
    /// remembered, or else the first one that has it.
    pub open spec fn config_of(self, name: Seq<char>) -> Option<Seq<char>> {
        match self.remembered_config(name) {
            Some(path) => Some(path@),
            None => if self.config.configured(name) {
                Some(self.config.paths()[first_with(self.config.configs(), name)])
            } else {
                None
            },
        }
    }

    /// Whether a script can be run: the configuration from which it is run has it.
    pub open spec fn runnable(self, name: Seq<char>) -> bool {
        self.config_of(name) is Some && self.config.has(self.config_of(name)->0, name)
    }

    /// The definition by which a script is run.
    pub open spec fn definition(self, config_path: Seq<char>, name: Seq<char>) -> Script {
        self.config@[key(config_path)].scripts@[name]
    }

    /// Whether no loaded configuration has a script.
    pub open spec fn orphan(self, name: Seq<char>) -> bool {
        !self.config.configured(name)
    }

    /// The health of a script, also where none was noted yet.
    pub open spec fn health_of(self, name: String) -> ScriptHealth {
        if self.health@.contains_key(name@) {
            self.health@[name@]
        } else {
            fresh(name)
        }
    }

    /// What is remembered of a script whose status changed.
    pub open spec fn memory(
        self,
        name: String,
        config_path: Option<String>,
        status: ProcessStatus,
        explicitly_stopped: bool,
        exit_code: Option<i32>,
        now: Timestamp,
    ) -> ScriptState {
        ScriptState {
            name,
            config_path,
            status,
            last_started: match self.supervisor.process(name@) {
                Some(p) => p.start_time,
                None => None,
            },
            last_stopped: if status is Running {
                None
            } else {
                Some(now)
            },
            exit_code,
            explicitly_stopped,
            restart_count: match self.supervisor.process(name@) {
                Some(p) => p.restart_count,
                None => 0,
            },
        }
    }

    /// Whether a script whose process ended so is restarted: it failed, its
    /// policy says so, and it was not restarted too often.
    pub open spec fn restarts(self, name: Seq<char>, status: Option<ExitStatus>) -> bool {
        &&& status is Some
        &&& !ended_well(status)
        &&& self.runnable(name)
        &&& self.supervisor.process(name) is Some
        &&& self.definition(self.config_of(name)->0, name).restart_policy is Always
        &&& self.supervisor.process(name)->0.restart_count < self.definition(
            self.config_of(name)->0,
            name,
        ).restart_limit()
    }

    /// Whether two cores have the same configurations and settings.
    pub open spec fn same_settings(self, other: Self) -> bool {
        &&& self.config == other.config
        &&& self.supervisor.log_dir == other.supervisor.log_dir
        &&& self.supervisor.loki == other.supervisor.loki
        &&& self.state.version == other.state.version
        &&& self.state.state_file == other.state.state_file
        &&& self.state.config_path == other.state.config_path
    }

    /// Whether this is why a script cannot be started: its configuration is not
    /// loaded, or does not have it.
    pub open spec fn start_failure(self, config_path: Seq<char>, name: String, e: Error) -> bool {
        if self.config@.contains_key(key(config_path)) {
            e == Error::ScriptNotFound { name }
        } else {
            e is ConfigNotLoaded
        }
    }

    /// Whether this core becomes the other when the start of a script is
    /// prepared: the script gets a new channel for its output, and unless its last
    /// process is alive, room for a new process.
    pub open spec fn prepares_start(self, after: Self, name: Seq<char>, alive: bool) -> bool {
        &&& after.same_settings(self)
        &&& after.state == self.state
        &&& after.health == self.health
        &&& after.cron == self.cron
        &&& after.log_channels@ == self.log_channels@.insert(name, ())
        &&& after.supervisor.processes@ == (if self.supervisor.occupied(name, alive) {
            self.supervisor.processes@
        } else {
            self.supervisor.processes@.remove(name)
        })
    }

    /// Whether this core becomes the other when it is noted that a script was
    /// started: the script has a process, is healthy, and is remembered as running.
    pub open spec fn notes_start(
        self,
        after: Self,
        config_path: String,
        name: String,
        pid: u32,
        restart_count: u32,
        now: Timestamp,
    ) -> bool {
        &&& after.same_settings(self)
        &&& after.cron == self.cron
        &&& after.log_channels == self.log_channels
        &&& after.supervisor.processes@ == self.supervisor.processes@.insert(
            name@,
            ManagedProcess {
                pid,
                status: ProcessStatus::Running,
                start_time: Some(now),
                restart_count,
            },
        )
        &&& after.health@ == self.health@.insert(
            name@,
            after_start(self.health_of(name), pid, restart_count, now),
        )
        &&& after.state.scripts@ == updated(
            self.state.scripts@,
            ScriptState {
                name,
                config_path: Some(config_path),
                status: ProcessStatus::Running,
                last_started: Some(now),
                last_stopped: None,
                exit_code: None,
                explicitly_stopped: false,
                restart_count,
            },
        )
    }

    /// Whether a script is to wait for its schedule once it was started: it has
    /// one that is accepted, and does not wait yet.
    pub open spec fn wants_schedule(self, config_path: Seq<char>, name: Seq<char>) -> bool {
        &&& self.config.has(config_path, name)
        &&& self.definition(config_path, name).cron is Some
        &&& !self.cron.scheduled(name)
        &&& cron_complaint(self.definition(config_path, name).cron->0@) is None
    }

    /// Whether this core becomes the other when a script that was started waits
    /// for its schedule, if it has one.
    pub open spec fn schedules(self, after: Self, config_path: Seq<char>, name: Seq<char>) -> bool {
        &&& after == (DaemonCore { cron: after.cron, ..self })
        &&& if self.wants_schedule(config_path, name) {
            &&& after.cron.scheduled(name)
            &&& after.cron.tasks@[name]@ == self.definition(config_path, name).cron->0@
            &&& after.cron.tasks@.remove(name) == self.cron.tasks@
        } else {
            after.cron.tasks@ == self.cron.tasks@
        }
    }

    /// Whether a script can be stopped: it has a process, or is remembered.
    pub open spec fn stoppable(self, name: Seq<char>) -> bool {
        self.supervisor.process(name) is Some || self.recalled(name) is Some
    }

    /// Whether this core becomes the other when the stop of a script is
    /// prepared: a script that has a process is remembered as stopped on purpose.
    pub open spec fn notes_stop(self, after: Self, name: String, now: Timestamp) -> bool {
        &&& after == (DaemonCore { state: after.state, ..self })
        &&& after.same_settings(self)
        &&& after.state.scripts@ == (if self.supervisor.process(name@) is Some {
            updated(
                self.state.scripts@,
                self.memory(
                    name,
                    self.remembered_config(name@),
                    ProcessStatus::Stopped,
                    true,
                    None,
                    now,
                ),
            )
        } else {
            self.state.scripts@
        })
    }

    /// Whether the end of a script's process comes late: the process was given
    /// up before, and the script was stopped on purpose or forgotten.
    pub open spec fn exit_is_late(self, name: Seq<char>) -> bool {
        &&& self.supervisor.process(name) is None
        &&& self.recalled(name) is None || self.stopped_on_purpose(name)
    }

    /// Whether this core becomes the other when it is noted that the process of
    /// a script ended: the script's health and what is remembered of it say how, and
    /// its process is given up. What is remembered stays as it is where the end
    /// comes late.
    pub open spec fn notes_exit(
        self,
        after: Self,
        name: String,
        status: Option<ExitStatus>,
        now: Timestamp,
    ) -> bool {
        &&& after.same_settings(self)
        &&& after.cron == self.cron
        &&& after.log_channels == self.log_channels
        &&& after.supervisor.processes@ == self.supervisor.processes@.remove(name@)
        &&& after.health@ == (if self.health@.contains_key(name@) {
            self.health@.insert(name@, after_exit(self.health@[name@], status, now))
        } else {
            self.health@
        })
        &&& after.state.scripts@ == (if self.exit_is_late(name@) {
            self.state.scripts@
        } else {
            updated(self.state.scripts@, self.memory_of_exit(name, status, now))
        })
    }

    /// What is remembered of a script whose process ended. One that ended well
    /// counts its restarts anew.
    pub open spec fn memory_of_exit(
        self,
        name: String,
        status: Option<ExitStatus>,
        now: Timestamp,
    ) -> ScriptState {
        let entry = self.memory(
            name,
            self.remembered_config(name@),
            if ended_well(status) {
                ProcessStatus::Stopped
            } else {
                ProcessStatus::Failed
            },
            false,
            ended_with(status),
            now,
        );
        if ended_well(status) {
            ScriptState { restart_count: 0, ..entry }
        } else {
            entry
        }
    }

    /// When a script whose process ended so is restarted, if it is: once more
    /// than it was, after a wait that grows.
    pub open spec fn backoff_after(self, name: Seq<char>, status: Option<ExitStatus>) -> Option<
        Backoff,
    > {
        if self.restarts(name, status) {
            let count = self.supervisor.process(name)->0.restart_count + 1;
            Some(
                Backoff {
                    restart_count: count as u32,
                    delay: Duration { secs: backoff_secs(count as nat) as u64, nanos: 0 },
                },
            )
        } else {
            None
        }
    }

    /// Whether this core becomes the other when a script gives up its process,
    /// the channel for its output and its wait for a schedule.
    pub open spec fn gives_up(self, after: Self, name: Seq<char>) -> bool {
        &&& after.same_settings(self)
        &&& after.state == self.state
        &&& after.health == self.health
        &&& after.supervisor.processes@ == self.supervisor.processes@.remove(name)
        &&& after.log_channels@ == self.log_channels@.remove(name)
        &&& after.cron.tasks@ == self.cron.tasks@.remove(name)
    }

    /// Whether this core becomes the other when a script waits for no schedule any more.
    pub open spec fn unschedules(self, after: Self, name: Seq<char>) -> bool {
        &&& after == (DaemonCore { cron: after.cron, ..self })
        &&& after.cron.tasks@ == self.cron.tasks@.remove(name)
    }

    /// Whether this core becomes the other when a script is forgotten: it waits
    /// for no schedule, and neither its health nor anything else of it is remembered.
    pub open spec fn forgets(self, after: Self, name: Seq<char>) -> bool {
        &&& after.same_settings(self)
        &&& after.supervisor == self.supervisor
        &&& after.log_channels == self.log_channels
        &&& after.cron.tasks@ == self.cron.tasks@.remove(name)
        &&& after.state.scripts@ == removed(self.state.scripts@, name)
        &&& after.health@ == self.health@.remove(name)
    }

    /// A core that remembers what was read from its state file.
    pub fn new(state_file: &str, log_dir: String, source: StateSource) -> (r: Result<Self, Error>)
        ensures
            match source {
                StateSource::Unreadable(e) => r == Err::<Self, Error>(Error::Io(e)),
                StateSource::Unparsable(e) => r == Err::<Self, Error>(Error::Json(e)),
                StateSource::Missing => r is Ok && r->Ok_0.state.scripts@.len() == 0
                    && r->Ok_0.state.version == STATE_VERSION,
                StateSource::Parsed(s) => r is Ok && r->Ok_0.state.scripts@ == migrated(
                    s.scripts@,
                    s.config_path,
                ) && r->Ok_0.state.version == s.version,
            },
            r is Ok ==> ({
                let core = r->Ok_0;
                &&& core.wf()
                &&& core.state.state_file@ == state_file@
                &&& core.state.config_path is None
                &&& core.supervisor.processes@ == Map::<Seq<char>, ManagedProcess>::empty()
                &&& core.supervisor.log_dir == log_dir
                &&& !core.supervisor.loki
                &&& core.config.paths().len() == 0
                &&& core.cron.tasks@ == Map::<Seq<char>, String>::empty()
                &&& core.health@ == Map::<Seq<char>, ScriptHealth>::empty()
                &&& core.log_channels@ == Map::<Seq<char>, ()>::empty()
            }),
    {
        match RunningState::load(state_file, source) {
            Err(e) => Err(e),
            Ok(state) => Ok(
                DaemonCore {
                    supervisor: ProcessSupervisor::new(log_dir),
                    config: ConfigManager::new(),
                    cron: CronManager::new(),
                    state,
                    health: new_health_snapshot(),
                    log_channels: NameMap::new(),
                },
            ),
        }
    }

    /// Takes over the settings of a configuration: where logs are kept, and
    /// whether script output is shipped, which stays so once it is.
    pub fn sync_settings(&mut self, config_path: &str)
        requires
            old(self).wf(),
        ensures
            final(self).wf(),
            *final(self) == (DaemonCore { supervisor: final(self).supervisor, ..*old(self) }),
            final(self).supervisor.processes == old(self).supervisor.processes,
            final(self).supervisor.log_dir == (if old(self).config@.contains_key(
                key(config_path@),
            ) {
                old(self).config@[key(config_path@)].settings.log_dir
            } else {
                old(self).supervisor.log_dir
            }),
            final(self).supervisor.loki == (old(self).supervisor.loki || (
            old(self).config@.contains_key(key(config_path@)) && old(self).config@[key(
                config_path@,
            )].settings.loki is Some)),
    {
        let dir = match self.config.log_dir(config_path) {
            Some(d) => Some(d.clone()),
            None => None,
        };
        if let Some(d) = dir {
            self.supervisor.set_log_dir(d);
        }
        if !self.supervisor.loki && self.config.loki_config(config_path).is_some() {
            self.supervisor.set_loki();
        }
    }

    /// The configuration from which a script is run.
    pub fn config_path_of(&self, name: &str) -> (r: Option<String>)
        requires
            self.wf(),
        ensures
            (match r {
                Some(p) => Some(p@),
                None => None,
            }) == self.config_of(name@),
    {
        if let Some(script) = self.state.find(name) {
            if let Some(path) = &script.config_path {
                return Some(path.clone());
            }
        }
        self.config.has_script_globally(name)
    }

    /// The configuration under which a script is remembered.
    fn remembered_config_path(&self, name: &str) -> (r: Option<String>)
        ensures
            r == self.remembered_config(name@),
    {
        match self.state.find(name) {
            Some(script) => copy_text(&script.config_path),
            None => None,
        }
    }

    /// Opens a new channel for the output of a script.
    fn register_log_channel(&mut self, name: &String)
        requires
            old(self).wf(),
        ensures
            final(self).wf(),
            *final(self) == (DaemonCore { log_channels: final(self).log_channels, ..*old(self) }),
            final(self).log_channels@ == old(self).log_channels@.insert(name@, ()),
    {
        self.log_channels.insert(name.clone(), ());
    }

    /// Remembers that the status of a script changed.
    fn update_script_state(
        &mut self,
        name: &String,
        config_path: Option<String>,
        status: ProcessStatus,
        explicitly_stopped: bool,
        exit_code: Option<i32>,
        now: Timestamp,
    )
        requires
            old(self).wf(),
        ensures
            final(self).wf(),
            *final(self) == (DaemonCore { state: final(self).state, ..*old(self) }),
            final(self).same_settings(*old(self)),
            final(self).state.scripts@ == updated(
                old(self).state.scripts@,
                old(self).memory(*name, config_path, status, explicitly_stopped, exit_code, now),
            ),
    {
        let (last_started, restart_count) = match self.supervisor.get(name.as_str()) {
            Some(p) => (p.start_time, p.restart_count),
            None => (None, 0),
        };
        self.state.update_script(
            ScriptState {
                name: name.clone(),
                config_path,
                status,
                last_started,
                last_stopped: match status {
                    ProcessStatus::Running => None,
                    _ => Some(now),
                },
                exit_code,
                explicitly_stopped,
                restart_count,
            },
        );
    }

    /// Prepares the start of a script from a configuration: it gets a new
    /// channel for its output, and unless its last process is alive, room for a new process.
    pub fn begin_start(&mut self, config_path: &str, name: &String, alive: bool) -> (r: Result<
        ScriptStartResult,
        Error,
    >)
        requires
            old(self).wf(),
        ensures
            final(self).wf(),
            match r {
                Ok(result) => {
                    &&& old(self).config.has(config_path@, name@)
                    &&& result is AlreadyRunning == old(self).supervisor.occupied(name@, alive)
                    &&& old(self).prepares_start(*final(self), name@, alive)
                },
                Err(e) => {
                    &&& *final(self) == *old(self)
                    &&& !old(self).config.has(config_path@, name@)
                    &&& old(self).start_failure(config_path@, *name, e)
                },
            },
    {
        match self.config.config(config_path) {
            Err(e) => {
                return Err(e);
            },
            Ok(config) => {
                if !config.scripts.contains_key(name.as_str()) {
                    return Err(Error::ScriptNotFound { name: name.clone() });
                }
            },
        }
        self.register_log_channel(name);
        Ok(self.supervisor.begin_start(name.as_str(), alive))
    }

    /// How the process of a script is started.
    pub fn launch(
        &self,
        config_path: &str,
        name: &str,
        canonical_command: Option<&str>,
        env_file: Option<&str>,
        current_path: &[u8],
    ) -> (r: Option<LaunchPlan>)
        requires
            self.wf(),
        ensures
            r is Some == self.config.has(config_path@, name@),
            r is Some ==> ({
                let plan = r->0;
                let script = self.definition(config_path@, name@);
                let config_dir = match parent(config_path@) {
                    Some(dir) => dir,
                    None => Seq::empty(),
                };
                &&& plan.program@ == "sh"@
                &&& texts(plan.arguments@) == seq![
                    "-c"@,
                    (match canonical_command {
                        Some(path) => path@,
                        None => script.command@,
                    }),
                ]
                &&& plan.working_dir@ == script.base_dir(config_dir)
                &&& plan.env.wf()
                &&& byte_map(plan.env@) == script.environment(
                    config_dir,
                    (match env_file {
                        Some(s) => Some(s@),
                        None => None,
                    }),
                    current_path@,
                )
                &&& plan.runs(
                    script,
                    config_dir,
                    given_text(canonical_command),
                    given_text(env_file),
                    current_path@,
                )
                &&& plan.log_path@ == log_path(self.supervisor.log_dir@, name@)
            }),
    {
        match self.config.script(config_path, name) {
            None => None,
            Some(script) => {
                let config_dir = self.config.config_dir(config_path);
                Some(
                    self.supervisor.launch_plan(
                        name,
                        script,
                        config_dir.as_str(),
                        canonical_command,
                        env_file,
                        current_path,
                    ),
                )
            },
        }
    }

    /// Notes that a script was started: it has a process, is healthy, and is
    /// remembered as running.
    pub fn finish_start(
        &mut self,
        config_path: &String,
        name: &String,
        pid: u32,
        restart_count: u32,
        now: Timestamp,
    )
        requires
            old(self).wf(),
            now.wf(),
        ensures
            final(self).wf(),
            old(self).notes_start(*final(self), *config_path, *name, pid, restart_count, now),
    {
        self.supervisor.finish_start(name.as_str(), pid, restart_count, now);
        let health = match self.health.get(name.as_str()) {
            Some(h) => h.clone(),
            None => ScriptHealth::never_ran(name.clone()),
        };
        self.health.insert(name.clone(), health.started(pid, restart_count, now));
        self.update_script_state(
            name,
            Some(config_path.clone()),
            ProcessStatus::Running,
            false,
            None,
            now,
        );
    }

    /// Lets a script that was started wait for its schedule, if it has one and
    /// does not wait yet, and gives that schedule.
    pub fn schedule_after_start(&mut self, config_path: &str, name: &str) -> (r: Option<Schedule>)
        requires
            old(self).wf(),
        ensures
            final(self).wf(),
            old(self).schedules(*final(self), config_path@, name@),
            r is Some == old(self).wants_schedule(config_path@, name@),
            r is Some ==> r->0 == schedule_of(
                old(self).definition(config_path@, name@).cron->0@,
            ),
    {
        let expression = match self.config.script(config_path, name) {
            Some(script) => copy_text(&script.cron),
            None => None,
        };
        if let Some(expression) = expression {
            if !self.cron.is_scheduled(name) {
                let ghost before = self.cron.tasks@;
                assert(before.remove(name@) =~= before);
                let result = self.cron.schedule(name, expression.as_str());
                proof {
                    if !self.cron.scheduled(name@) {
                        assert(self.cron.tasks@.remove(name@) =~= self.cron.tasks@);
                    }
                }
                return match result {
                    Ok(schedule) => Some(schedule),
                    Err(_) => None,
                };
            }
        }
        None
    }

    /// Prepares the stop of a script that has a process or is remembered: one
    /// that has a process is remembered as stopped on purpose. Tells whether it has a process.
    pub fn begin_stop(&mut self, name: &String, now: Timestamp) -> (r: Result<bool, Error>)
        requires
            old(self).wf(),
        ensures
            final(self).wf(),
            old(self).notes_stop(*final(self), *name, now),
            match r {
                Ok(running) => old(self).stoppable(name@) && running == (old(
                    self,
                ).supervisor.process(name@) is Some),
                Err(e) => !old(self).stoppable(name@) && e == (Error::ScriptNotFound {
                    name: *name,
                }),
            },
    {
        if !self.supervisor.contains(name.as_str()) {
            if !self.state.contains(name.as_str()) {
                return Err(Error::ScriptNotFound { name: name.clone() });
            }
            return Ok(false);
        }
        let config_path = self.remembered_config_path(name.as_str());
        self.update_script_state(name, config_path, ProcessStatus::Stopped, true, None, now);
        Ok(true)
    }

    /// Gives up the process of a script, the channel for its output and its
    /// wait for a schedule; tells what is to be done about the process.
    pub fn finish_stop(&mut self, name: &str, alive: bool) -> (r: StopAction)
        requires
            old(self).wf(),
        ensures
            final(self).wf(),
            old(self).gives_up(*final(self), name@),
            r == stop_action(old(self).supervisor.process(name@), alive),
    {
        let action = self.supervisor.stop_script(name, alive);
        self.log_channels.remove(name);
        self.cron.cancel(name);
        action
    }

    /// Whether a script whose process ended so is restarted.
    fn should_restart(&self, name: &str, status: Option<ExitStatus>) -> (r: bool)
        requires
            self.wf(),
        ensures
            r == self.restarts(name@, status),
    {
        match status {
            None => {
                return false;
            },
            Some(s) => {
                if s.success() {
                    return false;
                }
            },
        }
        match (self.config_path_of(name), self.supervisor.get(name)) {
            (Some(path), Some(process)) => match self.config.script(path.as_str(), name) {
                Some(script) => script.restart_policy == RestartPolicy::Always
                    && process.restart_count < script.effective_max_restarts(),
                None => false,
            },
            _ => false,
        }
    }

    /// Whether the end of a script's process comes late.
    fn comes_late(&self, name: &str) -> (r: bool)
        ensures
            r == self.exit_is_late(name@),
    {
        if self.supervisor.contains(name) {
            return false;
        }
        match self.state.find(name) {
            Some(script) => script.explicitly_stopped,
            None => true,
        }
    }

    /// Notes that the process of a script ended: the script's health and what
    /// is remembered of it say how, and its process is given up. A script that was
    /// stopped on purpose or forgotten before stays so. Tells whether and when the
    /// script is to be restarted.
    pub fn handle_process_exit(
        &mut self,
        name: &String,
        status: Option<ExitStatus>,
        now: Timestamp,
    ) -> (r: Option<Backoff>)
        requires
            old(self).wf(),
        ensures
            final(self).wf(),
            old(self).notes_exit(*final(self), *name, status, now),
            r == old(self).backoff_after(name@, status),
    {
        let restart = self.should_restart(name.as_str(), status);
        let (succeeded, exit_code) = match status {
            Some(s) => (s.success(), s.code),
            None => (false, None),
        };
        if succeeded {
            self.supervisor.set_restart_count(name.as_str(), 0);
        }
        let health = match self.health.get(name.as_str()) {
            Some(h) => Some(h.clone()),
            None => None,
        };
        if let Some(h) = health {
            self.health.insert(name.clone(), h.exited(status, now));
        }
        if !self.comes_late(name.as_str()) {
            let config_path = self.remembered_config_path(name.as_str());
            self.update_script_state(
                name,
                config_path,
                if succeeded {
                    ProcessStatus::Stopped
                } else {
                    ProcessStatus::Failed
                },
                false,
                exit_code,
                now,
            );
        }
        let mut backoff: Option<Backoff> = None;
        if restart {
            if let Some(process) = self.supervisor.get(name.as_str()) {
                let count: u32 = process.restart_count + 1;
                backoff = Some(Backoff { restart_count: count, delay: backoff_delay(count) });
            }
        }
        self.supervisor.cleanup_process(name.as_str());
        assert(self.supervisor.processes@ =~= old(self).supervisor.processes@.remove(name@));
        backoff
    }

    /// Prepares the restart of a script that waited for it: unless the script
    /// is not configured any more or has a process, it gets a new channel for its
    /// output. Gives the path of the configuration to start it from.
    pub fn begin_backoff_restart(&mut self, name: &String) -> (r: Option<String>)
        requires
            old(self).wf(),
        ensures
            final(self).wf(),
            *final(self) == (DaemonCore { log_channels: final(self).log_channels, ..*old(self) }),
            match r {
                Some(path) => {
                    &&& old(self).runnable(name@)
                    &&& old(self).supervisor.process(name@) is None
                    &&& Some(path@) == old(self).config_of(name@)
                    &&& final(self).log_channels@ == old(self).log_channels@.insert(name@, ())
                },
                None => {
                    &&& !old(self).runnable(name@) || old(self).supervisor.process(name@) is Some
                    &&& *final(self) == *old(self)
                },
            },
    {
        let path = match self.config_path_of(name.as_str()) {
            Some(path) => path,
            None => {
                return None;
            },
        };
        if !self.config.has_script(path.as_str(), name.as_str()) {
            return None;
        }
        if self.supervisor.contains(name.as_str()) {
            return None;
        }
        self.register_log_channel(name);
        Some(path)
    }

    /// Prepares the start of a script whose schedule is due.
    pub fn begin_cron_tick(&mut self, name: &String, alive: bool) -> (r: CronTick)
        requires
            old(self).wf(),
        ensures
            final(self).wf(),
            r is Skip == !old(self).runnable(name@),
            r is Skip ==> *final(self) == *old(self),
            !(r is Skip) ==> old(self).prepares_start(*final(self), name@, alive)
                && r is AlreadyRunning == old(self).supervisor.occupied(name@, alive),
            r matches CronTick::Launch(path) ==> Some(path@) == old(self).config_of(name@),
    {
        let path = match self.config_path_of(name.as_str()) {
            Some(path) => path,
            None => {
                return CronTick::Skip;
            },
        };
        if !self.config.has_script(path.as_str(), name.as_str()) {
            return CronTick::Skip;
        }
        self.register_log_channel(name);
        match self.supervisor.begin_start(name.as_str(), alive) {
            ScriptStartResult::AlreadyRunning => CronTick::AlreadyRunning,
            ScriptStartResult::Started => CronTick::Launch(path),
        }
    }

    /// Lets a script wait for no schedule any more.
    pub fn unschedule(&mut self, name: &str)
        requires
            old(self).wf(),
        ensures
            final(self).wf(),
            old(self).unschedules(*final(self), name@),
    {
        self.cron.cancel(name);
    }

    /// Whether no loaded configuration has a script.
    pub fn is_orphan(&self, name: &str) -> (r: bool)
        requires
            self.wf(),
        ensures
            r == self.orphan(name@),
    {
        self.config.has_script_globally(name).is_none()
    }

    /// Forgets a script: it waits for no schedule, and neither its health nor
    /// anything else of it is remembered.
    pub fn forget_script(&mut self, name: &str)
        requires
            old(self).wf(),
        ensures
            final(self).wf(),
            old(self).forgets(*final(self), name@),
    {
        self.cron.cancel(name);
        self.state.remove_script(name);
        self.health.remove(name);
    }

    /// Gives up all processes, waits and channels; tells which processes there were.
    pub fn shutdown(&mut self) -> (r: Vec<(String, u32)>)
        requires
            old(self).wf(),
        ensures
            final(self).wf(),
            final(self).same_settings(*old(self)),
            final(self).state == old(self).state,
            final(self).health == old(self).health,
            final(self).supervisor.processes@ == Map::<Seq<char>, ManagedProcess>::empty(),
            final(self).cron.tasks@ == Map::<Seq<char>, String>::empty(),
            final(self).log_channels@ == Map::<Seq<char>, ()>::empty(),
            r@.len() == old(self).supervisor.processes.names().len(),
            forall|i: int|
                0 <= i < r@.len() ==> (#[trigger] r@[i]).0@
                    == old(self).supervisor.processes.names()[i] && r@[i].1
                    == old(self).supervisor.processes@[r@[i].0@].pid,
    {
        let processes = self.supervisor.shutdown_all();
        self.cron.cancel_all();
        self.log_channels.clear();
        processes
    }
}

/// A script is restarted only if it failed, its policy is to be restarted, and
/// the restart is not one more than its limit.
pub proof fn law_restarts_are_limited(core: DaemonCore, name: Seq<char>, status: Option<ExitStatus>)
    requires
        core.restarts(name, status),
    ensures
        !ended_well(status),
        core.definition(core.config_of(name)->0, name).restart_policy is Always,
        core.supervisor.process(name)->0.restart_count + 1 <= core.definition(
            core.config_of(name)->0,
            name,
        ).restart_limit(),
{
}

/// A script that ended well, was ended before its status could be learned, or
/// has the policy never to be restarted, is not restarted.
pub proof fn law_no_restart(core: DaemonCore, name: Seq<char>, status: Option<ExitStatus>)
    requires
        ended_well(status) || status is None || core.definition(
            core.config_of(name)->0,
            name,
        ).restart_policy is Never,
    ensures
        !core.restarts(name, status),
{
}

/// A script that was restarted as often as its limit says is not restarted
/// any more, however it fails.
pub proof fn law_restarts_run_out(core: DaemonCore, name: Seq<char>, status: Option<ExitStatus>)
    requires
        core.supervisor.process(name) is Some,
        core.supervisor.process(name)->0.restart_count >= core.definition(
            core.config_of(name)->0,
            name,
        ).restart_limit(),
    ensures
        core.backoff_after(name, status) is None,
{
}

/// A script that failed and is started again after its wait has been restarted
/// once more than before, and not more often than its limit says.
pub proof fn law_restart_counts_up(
    before: DaemonCore,
    started: DaemonCore,
    after: DaemonCore,
    config_path: String,
    name: String,
    status: Option<ExitStatus>,
    pid: u32,
    now: Timestamp,
)
    requires
        before.backoff_after(name@, status) is Some,
        started.notes_start(
            after,
            config_path,
            name,
            pid,
            before.backoff_after(name@, status)->0.restart_count,
            now,
        ),
    ensures
        after.supervisor.process(name@) is Some,
        after.supervisor.process(name@)->0.restart_count == before.supervisor.process(
            name@,
        )->0.restart_count + 1,
        after.supervisor.process(name@)->0.restart_count <= before.definition(
            before.config_of(name@)->0,
            name@,
        ).restart_limit(),
{
}

/// A script that was started has a process, is healthy, and is remembered as
/// running under the configuration that it was started from; what other scripts do
/// is not touched.
pub proof fn law_started(
    before: DaemonCore,
    after: DaemonCore,
    config_path: String,
    name: String,
    pid: u32,
    restart_count: u32,
    now: Timestamp,
    other: Seq<char>,
)
    requires
        before.notes_start(after, config_path, name, pid, restart_count, now),
    ensures
        after.supervisor.process(name@) is Some,
        after.supervisor.process(name@)->0.pid == pid,
        after.health@.contains_key(name@),
        after.health@[name@].healthy,
        after.health@[name@].state is Running,
        after.recalled(name@) is Some,
        after.recalled(name@)->0.status is Running,
        !after.recalled(name@)->0.explicitly_stopped,
        after.remembered_config(name@) == Some(config_path),
        after.config_of(name@) == Some(config_path@),
        other != name@ ==> {
            &&& after.supervisor.process(other) == before.supervisor.process(other)
            &&& after.recalled(other) == before.recalled(other)
            &&& after.health@.contains_key(other) == before.health@.contains_key(other)
            &&& before.health@.contains_key(other) ==> after.health@[other] == before.health@[other]
        },
{
    let entry = ScriptState {
        name,
        config_path: Some(config_path),
        status: ProcessStatus::Running,
        last_started: Some(now),
        last_stopped: None,
        exit_code: None,
        explicitly_stopped: false,
        restart_count,
    };
    law_recall_after_update(before.state.scripts@, entry, name@);
    law_recall_after_update(before.state.scripts@, entry, other);
}

/// A script whose process ended, other than late, has none, stays under its
/// configuration, and is remembered with the code with which it ended: as failed
/// just if it did not end well. What other scripts do is not touched.
pub proof fn law_exited(
    before: DaemonCore,
    after: DaemonCore,
    name: String,
    status: Option<ExitStatus>,
    now: Timestamp,
    other: Seq<char>,
)
    requires
        before.notes_exit(after, name, status, now),
        !before.exit_is_late(name@),
    ensures
        after.supervisor.process(name@) is None,
        after.recalled(name@) is Some,
        after.recalled(name@)->0.status is Failed == !ended_well(status),
        after.recalled(name@)->0.exit_code == ended_with(status),
        after.remembered_config(name@) == before.remembered_config(name@),
        before.health@.contains_key(name@) ==> after.health@[name@].healthy == ended_well(status),
        other != name@ ==> {
            &&& after.supervisor.process(other) == before.supervisor.process(other)
            &&& after.recalled(other) == before.recalled(other)
            &&& after.health@.contains_key(other) == before.health@.contains_key(other)
            &&& before.health@.contains_key(other) ==> after.health@[other] == before.health@[other]
        },
{
    let entry = before.memory_of_exit(name, status, now);
    law_recall_after_update(before.state.scripts@, entry, name@);
    law_recall_after_update(before.state.scripts@, entry, other);
}

/// When the process of a script that was stopped on purpose or forgotten ends
/// at last, the script stays stopped on purpose, as it was remembered, or forgotten;
/// it is not restarted.
pub proof fn law_late_exit(
    before: DaemonCore,
    after: DaemonCore,
    name: String,
    status: Option<ExitStatus>,
    now: Timestamp,
)
    requires
        before.notes_exit(after, name, status, now),
        before.supervisor.process(name@) is None,
    ensures
        before.stopped_on_purpose(name@) ==> after.recalled(name@) == before.recalled(name@),
        before.recalled(name@) is Some && before.recalled(name@)->0.explicitly_stopped
            ==> after.recalled(name@) == before.recalled(name@),
        before.recalled(name@) is None ==> after.recalled(name@) is None,
        !before.health@.contains_key(name@) ==> !after.health@.contains_key(name@),
        before.backoff_after(name@, status) is None,
{
}

/// A script is run from the configuration under which it is remembered; where
/// none is remembered, from the first loaded one that has it; and from none where
/// there is no such configuration.
pub proof fn law_config_of(core: DaemonCore, name: Seq<char>)
    requires
        core.wf(),
    ensures
        core.recalled(name) is Some && core.recalled(name)->0.config_path is Some
            ==> core.config_of(name) == Some(core.recalled(name)->0.config_path->0@),
        core.recalled(name) is None || core.recalled(name)->0.config_path is None ==> {
            &&& core.config_of(name) is Some <==> exists|path: Seq<char>| #[trigger]
                core.config.has(path, name)
            &&& core.config_of(name) is Some ==> core.config.has(core.config_of(name)->0, name)
                && core.config.paths().contains(core.config_of(name)->0)
        },
{
    law_configured(core.config, name);
}

/// A script whose process is known to have ended in any other way than with the
/// code zero is restarted, where the configuration from which it is run has it with
/// the policy always to be restarted and it was restarted less often than its limit
/// says: as one more restart, after the wait for that one.
pub proof fn law_failures_are_restarted(
    core: DaemonCore,
    name: Seq<char>,
    status: ExitStatus,
    path: Seq<char>,
)
    requires
        status.code is None || status.code->0 != 0,
        core.config_of(name) == Some(path),
        core.config@.contains_key(key(path)),
        core.config@[key(path)].scripts@.contains_key(name),
        core.config@[key(path)].scripts@[name].restart_policy == RestartPolicy::Always,
        core.supervisor.processes@.contains_key(name),
        core.supervisor.processes@[name].restart_count
            < core.config@[key(path)].scripts@[name].restart_limit(),
    ensures
        core.runnable(name),
        core.backoff_after(name, Some(status)) is Some,
        ({
            let backoff = core.backoff_after(name, Some(status))->0;
            &&& backoff.restart_count == core.supervisor.processes@[name].restart_count + 1
            &&& backoff.delay.secs == backoff_secs(backoff.restart_count as nat)
            &&& backoff.delay.nanos == 0
        }),
{
    law_backoff(0, (core.supervisor.processes@[name].restart_count + 1) as nat);
}

/// A script that has no process, that the configuration from which it is run
/// does not have, whose policy is never to be restarted, whose limit is reached,
/// whose process ended with the code zero, or of whose end nothing is known, is not
/// restarted.
pub proof fn law_nothing_else_is_restarted(
    core: DaemonCore,
    name: Seq<char>,
    status: Option<ExitStatus>,
)
    requires
        ({
            ||| status is None
            ||| status->0.code == Some(0i32)
            ||| !core.supervisor.processes@.contains_key(name)
            ||| core.config_of(name) is None
            ||| !core.config@.contains_key(key(core.config_of(name)->0))
            ||| !core.config@[key(core.config_of(name)->0)].scripts@.contains_key(name)
            ||| core.config@[key(core.config_of(name)->0)].scripts@[name].restart_policy
                == RestartPolicy::Never
            ||| core.supervisor.processes@[name].restart_count >= core.config@[key(
                core.config_of(name)->0,
            )].scripts@[name].restart_limit()
        }),
    ensures
        core.backoff_after(name, status) is None,
{
}

/// What is remembered of a script whose process ended by itself: how and when
/// it ended, since when it had run, under which configuration, and how often it was
/// restarted, counted anew where it ended well. It is not marked as stopped on
/// purpose, however it ended.
pub proof fn law_exit_is_remembered(
    before: DaemonCore,
    after: DaemonCore,
    name: String,
    status: Option<ExitStatus>,
    now: Timestamp,
)
    requires
        before.notes_exit(after, name, status, now),
        before.supervisor.processes@.contains_key(name@) || (before.recalled(name@) is Some
            && !before.recalled(name@)->0.explicitly_stopped),
    ensures
        after.recalled(name@) is Some,
        ({
            let entry = after.recalled(name@)->0;
            let well = status is Some && status->0.code == Some(0i32);
            let had_process = before.supervisor.processes@.contains_key(name@);
            let process = before.supervisor.processes@[name@];
            &&& entry.name == name
            &&& !entry.explicitly_stopped
            &&& well ==> entry.status is Stopped
            &&& !well ==> entry.status is Failed
            &&& status is Some ==> entry.exit_code == status->0.code
            &&& status is None ==> entry.exit_code is None
            &&& entry.last_stopped == Some(now)
            &&& had_process ==> entry.last_started == process.start_time
            &&& had_process && !well ==> entry.restart_count == process.restart_count
            &&& well ==> entry.restart_count == 0
            &&& before.recalled(name@) is Some ==> entry.config_path == before.recalled(
                name@,
            )->0.config_path
        }),
        !after.supervisor.processes@.contains_key(name@),
{
    let entry = before.memory_of_exit(name, status, now);
    law_recall_after_update(before.state.scripts@, entry, name@);
}

/// When the end of a process is noted, the script's health, if one was noted,
/// tells that end, and no other script's health changes; the same health comes back
/// when the daemon remembers the script after a restart.
pub proof fn law_exit_and_health(
    before: DaemonCore,
    after: DaemonCore,
    name: String,
    status: Option<ExitStatus>,
    now: Timestamp,
)
    requires
        before.notes_exit(after, name, status, now),
        before.supervisor.processes@.contains_key(name@),
        before.health@.contains_key(name@),
    ensures
        after.health@.contains_key(name@),
        after.recalled(name@) is Some,
        ({
            let noted = after.health@[name@];
            let restored = remembered_health(after.recalled(name@)->0);
            let well = status is Some && status->0.code == Some(0i32);
            &&& noted.healthy == well
            &&& noted.state is Succeeded == well
            &&& noted.state is Failed == !well
            &&& restored.healthy == noted.healthy
            &&& restored.state == noted.state
            &&& restored.last_exit_code == noted.last_exit_code
            &&& restored.last_finished_at == noted.last_finished_at
        }),
{
    law_exit_is_remembered(before, after, name, status, now);
}

/// A script that was started is remembered as running since then, as the given
/// restart, under the given configuration, with no end; and its health tells the same.
pub proof fn law_start_is_remembered(
    before: DaemonCore,
    after: DaemonCore,
    config_path: String,
    name: String,
    pid: u32,
    restart_count: u32,
    now: Timestamp,
)
    requires
        before.notes_start(after, config_path, name, pid, restart_count, now),
    ensures
        ({
            let entry = after.recalled(name@);
            &&& entry is Some
            &&& entry->0.status is Running
            &&& !entry->0.explicitly_stopped
            &&& entry->0.config_path == Some(config_path)
            &&& entry->0.last_started == Some(now)
            &&& entry->0.last_stopped is None
            &&& entry->0.exit_code is None
            &&& entry->0.restart_count == restart_count
        }),
        ({
            let process = after.supervisor.processes@[name@];
            &&& after.supervisor.processes@.contains_key(name@)
            &&& process.pid == pid
            &&& process.status is Running
            &&& process.start_time == Some(now)
            &&& process.restart_count == restart_count
        }),
        ({
            let h = after.health@[name@];
            &&& after.health@.contains_key(name@)
            &&& h.state is Running
            &&& h.healthy
            &&& h.pid == Some(pid)
            &&& h.last_run_at == Some(now)
            &&& h.restart_count == restart_count
            &&& before.health@.contains_key(name@) ==> h.last_exit_code
                == before.health@[name@].last_exit_code
        }),
{
    law_started(before, after, config_path, name, pid, restart_count, now, name@);
    law_recall_after_update(
        before.state.scripts@,
        ScriptState {
            name,
            config_path: Some(config_path),
            status: ProcessStatus::Running,
            last_started: Some(now),
            last_stopped: None,
            exit_code: None,
            explicitly_stopped: false,
            restart_count,
        },
        name@,
    );
}

/// To prepare a start leaves the process of a script alone just where it has
/// one that is alive; otherwise there is room for a new one. The script has a channel
/// for its output, and no other script is touched.
pub proof fn law_start_is_prepared(
    before: DaemonCore,
    after: DaemonCore,
    name: Seq<char>,
    alive: bool,
    other: Seq<char>,
)
    requires
        before.prepares_start(after, name, alive),
    ensures
        ({
            let runs = before.supervisor.processes@.contains_key(name)
                && before.supervisor.processes@[name].pid > 0 && alive;
            &&& before.supervisor.occupied(name, alive) == runs
            &&& runs ==> after.supervisor.processes@ == before.supervisor.processes@
            &&& !runs ==> !after.supervisor.processes@.contains_key(name)
        }),
        after.log_channels@.contains_key(name),
        after.state == before.state,
        after.health == before.health,
        other != name ==> {
            &&& after.supervisor.processes@.contains_key(other)
                == before.supervisor.processes@.contains_key(other)
            &&& before.supervisor.processes@.contains_key(other)
                ==> after.supervisor.processes@[other] == before.supervisor.processes@[other]
            &&& after.log_channels@.contains_key(other) == before.log_channels@.contains_key(other)
        },
{
}

/// After its start a script waits for the schedule that its configuration gives
/// it, where that is accepted, unless it waits for one already, for which it goes on
/// to wait; no other script waits for another schedule than before.
pub proof fn law_scheduled_after_start(
    before: DaemonCore,
    after: DaemonCore,
    path: Seq<char>,
    name: Seq<char>,
    other: Seq<char>,
)
    requires
        before.schedules(after, path, name),
        before.config@.contains_key(key(path)),
        before.config@[key(path)].scripts@.contains_key(name),
    ensures
        ({
            let cron = before.config@[key(path)].scripts@[name].cron;
            let waited = before.cron.tasks@.contains_key(name);
            &&& waited ==> after.cron.tasks@ == before.cron.tasks@
            &&& !waited && cron is Some && cron_reading(cron->0@) is Ok ==> {
                &&& after.cron.tasks@.contains_key(name)
                &&& after.cron.tasks@[name]@ == cron->0@
            }
            &&& !waited && (cron is None || cron_reading(cron->0@) is Err)
                ==> !after.cron.tasks@.contains_key(name)
        }),
        other != name ==> {
            &&& after.cron.tasks@.contains_key(other) == before.cron.tasks@.contains_key(other)
            &&& before.cron.tasks@.contains_key(other) ==> after.cron.tasks@[other]
                == before.cron.tasks@[other]
        },
{
    if before.wants_schedule(path, name) && other != name {
        assert(after.cron.tasks@.remove(name).contains_key(other)
            == after.cron.tasks@.contains_key(other));
        if before.cron.tasks@.contains_key(other) {
            assert(after.cron.tasks@.remove(name)[other] == after.cron.tasks@[other]);
        }
    }
}

/// To stop a script that has a process remembers when it was stopped, and that
/// this was on purpose; one that has none is remembered as it was. No other script is
/// touched, and only a script that neither has a process nor is remembered cannot
/// be stopped.
pub proof fn law_stop_is_remembered(
    before: DaemonCore,
    noted: DaemonCore,
    after: DaemonCore,
    name: String,
    now: Timestamp,
    other: Seq<char>,
)
    requires
        before.notes_stop(noted, name, now),
        noted.gives_up(after, name@),
    ensures
        before.stoppable(name@) == (before.supervisor.processes@.contains_key(name@)
            || before.recalled(name@) is Some),
        before.supervisor.processes@.contains_key(name@) ==> {
            let entry = after.recalled(name@);
            &&& entry is Some
            &&& entry->0.status is Stopped
            &&& entry->0.explicitly_stopped
            &&& entry->0.last_stopped == Some(now)
            &&& entry->0.last_started == before.supervisor.processes@[name@].start_time
            &&& entry->0.restart_count == before.supervisor.processes@[name@].restart_count
        },
        !before.supervisor.processes@.contains_key(name@) ==> after.recalled(name@)
            == before.recalled(name@),
        !after.supervisor.processes@.contains_key(name@),
        !after.cron.tasks@.contains_key(name@),
        !after.log_channels@.contains_key(name@),
        after.health == before.health,
        other != name@ ==> {
            &&& after.recalled(other) == before.recalled(other)
            &&& after.supervisor.processes@.contains_key(other)
                == before.supervisor.processes@.contains_key(other)
            &&& before.supervisor.processes@.contains_key(other)
                ==> after.supervisor.processes@[other] == before.supervisor.processes@[other]
            &&& after.cron.tasks@.contains_key(other) == before.cron.tasks@.contains_key(other)
        },
{
    let entry = before.memory(
        name,
        before.remembered_config(name@),
        ProcessStatus::Stopped,
        true,
        None,
        now,
    );
    law_recall_after_update(before.state.scripts@, entry, name@);
    law_recall_after_update(before.state.scripts@, entry, other);
}

/// A script is told not to be found where its configuration is loaded; where it
/// is not loaded, that is told.
pub proof fn law_start_failure(core: DaemonCore, path: Seq<char>, name: String, e: Error)
    requires
        core.start_failure(path, name, e),
    ensures
        core.config@.contains_key(key(path)) ==> e == (Error::ScriptNotFound { name }),
        !core.config@.contains_key(key(path)) ==> e is ConfigNotLoaded,
{
}

/// A script can be run just if the configuration from which it is run is loaded
/// and has it, whatever its policy and its schedule are; it is an orphan just if no
/// loaded configuration has it; and it is stopped on purpose just if it is
/// remembered so.
pub proof fn law_runnable(core: DaemonCore, name: Seq<char>)
    requires
        core.wf(),
    ensures
        core.runnable(name) <==> core.config_of(name) is Some && core.config@.contains_key(
            key(core.config_of(name)->0),
        ) && core.config@[key(core.config_of(name)->0)].scripts@.contains_key(name),
        core.orphan(name) <==> forall|path: Seq<char>|
            core.config@.contains_key(key(path)) ==> !(#[trigger] core.config@[key(
                path,
            )]).scripts@.contains_key(name),
        core.stopped_on_purpose(name) <==> core.recalled(name) is Some && core.recalled(
            name,
        )->0.explicitly_stopped,
        !core.orphan(name) && core.recalled(name) is None ==> core.runnable(name),
{
    law_configured(core.config, name);
    if core.orphan(name) {
        assert forall|path: Seq<char>|
            core.config@.contains_key(key(path)) implies !(#[trigger] core.config@[key(
            path,
        )]).scripts@.contains_key(name) by {
            assert(!core.config.has(path, name));
        }
    } else {
        let path = choose|path: Seq<char>| #[trigger] core.config.has(path, name);
        assert(core.config@[key(path)].scripts@.contains_key(name));
    }
}

/// A start, an end, a stop and the forgetting of a script change no
/// configuration and no setting, nor where the state is kept. A script goes on to
/// wait for its schedule when it is started and when its process ends, and so do all
/// others; when it is stopped or forgotten only the others do.
pub proof fn law_schedules_are_kept(
    before: DaemonCore,
    after: DaemonCore,
    config_path: String,
    name: String,
    status: Option<ExitStatus>,
    pid: u32,
    restart_count: u32,
    alive: bool,
    now: Timestamp,
    other: Seq<char>,
)
    requires
        ({
            ||| before.prepares_start(after, name@, alive)
            ||| before.notes_start(after, config_path, name, pid, restart_count, now)
            ||| before.notes_exit(after, name, status, now)
            ||| before.notes_stop(after, name, now)
            ||| before.gives_up(after, name@)
            ||| before.unschedules(after, name@)
            ||| before.forgets(after, name@)
        }),
    ensures
        after.config == before.config,
        after.supervisor.log_dir == before.supervisor.log_dir,
        after.supervisor.loki == before.supervisor.loki,
        after.state.state_file == before.state.state_file,
        after.state.version == before.state.version,
        before.prepares_start(after, name@, alive) || before.notes_start(
            after,
            config_path,
            name,
            pid,
            restart_count,
            now,
        ) || before.notes_exit(after, name, status, now) || before.notes_stop(after, name, now)
            ==> after.cron.tasks@ == before.cron.tasks@,
        before.gives_up(after, name@) || before.unschedules(after, name@) || before.forgets(
            after,
            name@,
        ) ==> !after.cron.tasks@.contains_key(name@),
        other != name@ ==> after.cron.tasks@.contains_key(other) == before.cron.tasks@.contains_key(
            other,
        ),
        other != name@ && before.cron.tasks@.contains_key(other) ==> after.cron.tasks@[other]
            == before.cron.tasks@[other],
        other != name@ ==> after.log_channels@.contains_key(other)
            == before.log_channels@.contains_key(other),
{
}

} // verus!
