//! What the daemon does when a client asks.
use crate::common::config::{load_failure, Config, ConfigSource};
use crate::common::error::Error;
use crate::common::ipc::{ProcessInfo, ProcessStatus, Response};
use crate::daemon::config_manager::{ConfigDiff, ConfigManager};
use crate::daemon::daemon_core::DaemonCore;
use crate::daemon::health::{fresh, ScriptHealth};
use crate::daemon::process::ManagedProcess;
use crate::daemon::process_supervisor::uptime;
use crate::daemon::state::{
    law_recall, law_recall_after_removal, law_recall_after_update, removed, ScriptState,
};
use crate::path::{key, optional_key, same_path, PathKey};
use crate::text::{copy_text, texts};
use crate::time::{elapsed, law_since, span, Duration, Timestamp};
use vstd::prelude::*;

verus! {

/// One step of what a changed configuration leads to.
#[derive(Debug)]
pub enum ReloadStep {
    /// Stop a script that no configuration has any more, and forget it.
    Forget(String),
    /// Stop a script.
    Stop(String),
    /// Start a script.
    Start(String),
    /// Stop a script, let it wait for no schedule, and start it.
    Restart(String),
}

/// A step, and the name of its script.
pub enum StepView {
    Forget(Seq<char>),
    Stop(Seq<char>),
    Start(Seq<char>),
    Restart(Seq<char>),
}

impl ReloadStep {
    /// The step, and the name of its script.
    pub open spec fn view(self) -> StepView {
        match self {
            ReloadStep::Forget(s) => StepView::Forget(s@),
            ReloadStep::Stop(s) => StepView::Stop(s@),
            ReloadStep::Start(s) => StepView::Start(s@),
            ReloadStep::Restart(s) => StepView::Restart(s@),
        }
    }
}

/// Some steps, each with the name of its script.
pub open spec fn steps(v: Seq<ReloadStep>) -> Seq<StepView> {
    v.map_values(|s: ReloadStep| s@)
}

/// The entries of a list of processes that belong to a configuration.
pub open spec fn belonging(list: Seq<ProcessInfo>, config: PathKey) -> Seq<ProcessInfo>
    decreases list.len(),
{
    if list.len() == 0 {
        list
    } else if optional_key(list.last().config_path) == Some(config) {
        belonging(list.drop_last(), config).push(list.last())
    } else {
        belonging(list.drop_last(), config)
    }
}

/// What is reported of a script that has no process.
pub open spec fn dormant_info(script: ScriptState) -> ProcessInfo {
    ProcessInfo {
        name: script.name,
        pid: 0,
        status: script.status,
        uptime: span(0),
        restart_count: script.restart_count,
        exit_code: script.exit_code,
        config_path: script.config_path,
    }
}

/// Whether `info` is what is reported of a script that has a process.
pub open spec fn running_info(
    info: ProcessInfo,
    name: Seq<char>,
    process: ManagedProcess,
    config_path: Option<String>,
    now: Timestamp,
) -> bool {
    &&& info.name@ == name
    &&& info.pid == process.pid
    &&& info.status == process.status
    &&& info.uptime == uptime(process, now)
    &&& info.restart_count == process.restart_count
    &&& info.exit_code is None
    &&& info.config_path == config_path
}

/// The health that is noted once each of some scripts has one.
pub open spec fn with_fresh(
    health: Map<Seq<char>, ScriptHealth>,
    names: Seq<String>,
) -> Map<Seq<char>, ScriptHealth>
    decreases names.len(),
{
    if names.len() == 0 {
        health
    } else {
        let before = with_fresh(health, names.drop_last());
        if before.contains_key(names.last()@) {
            before
        } else {
            before.insert(names.last()@, fresh(names.last()))
        }
    }
}

/// Whether a script of a configuration to be started has its name from another one.
pub open spec fn clashes(config: ConfigManager, config_path: Seq<char>, name: Seq<char>) -> bool {
    exists|i: int|
        0 <= i < config.paths().len() && #[trigger] config.elsewhere(i, config_path, name)
}

/// The names of the scripts that are started when a client asks for one or,
/// with no name, for all of a configuration.
pub open spec fn names_to_start(config: Config, name: Option<String>) -> Seq<Seq<char>> {
    match name {
        Some(n) => seq![n@],
        None => config.scripts.names(),
    }
}

impl DaemonCore {
    /// Whether a script is remembered under a configuration.
    pub open spec fn belongs(self, name: Seq<char>, config: PathKey) -> bool {
        optional_key(self.remembered_config(name)) == Some(config)
    }

    /// Those of some names that are remembered under a configuration.
    pub open spec fn remembered_under(self, names: Seq<Seq<char>>, config: PathKey) -> Seq<
        Seq<char>,
    >
        decreases names.len(),
    {
        if names.len() == 0 {
            names
        } else if self.belongs(names.last(), config) {
            self.remembered_under(names.drop_last(), config).push(names.last())
        } else {
            self.remembered_under(names.drop_last(), config)
        }
    }

    /// The scripts of a list that have no process.
    pub open spec fn dormant(self, scripts: Seq<ScriptState>) -> Seq<ScriptState>
        decreases scripts.len(),
    {
        if scripts.len() == 0 {
            scripts
        } else if self.supervisor.process(scripts.last().name@) is None {
            self.dormant(scripts.drop_last()).push(scripts.last())
        } else {
            self.dormant(scripts.drop_last())
        }
    }

    /// Whether a list is what is reported of all scripts: first of those that
    /// have a process, then of the others that are remembered.
    pub open spec fn status_of_all(self, list: Seq<ProcessInfo>, now: Timestamp) -> bool {
        let names = self.supervisor.processes.names();
        let others = self.dormant(self.state.scripts@);
        &&& list.len() == names.len() + others.len()
        &&& forall|i: int|
            0 <= i < names.len() ==> running_info(
                #[trigger] list[i],
                names[i],
                self.supervisor.processes@[names[i]],
                self.remembered_config(names[i]),
                now,
            )
        &&& forall|i: int|
            0 <= i < others.len() ==> list[names.len() + i] == dormant_info(#[trigger] others[i])
    }

    /// Whether this core becomes the other when a configuration is taken up under
    /// a path: it is loaded there, and its settings hold.
    pub open spec fn takes_up(self, after: Self, config_path: Seq<char>, config: Config) -> bool {
        &&& after.config@ == self.config@.insert(key(config_path), config)
        &&& after.supervisor.log_dir == config.settings.log_dir
        &&& after.supervisor.loki == (self.supervisor.loki || config.settings.loki is Some)
        &&& after.supervisor.processes == self.supervisor.processes
        &&& after.state == self.state
        &&& after.cron == self.cron
    }

    /// Loads a configuration, takes over its settings and prepares the start of
    /// its scripts, or of the one that is asked for. Fails, and changes nothing,
    /// where another loaded configuration has a script of such a name. Each script
    /// gets a health, if it has none. Gives the names of the scripts to be started,
    /// in order.
    pub fn begin_up(
        &mut self,
        config_path: &str,
        name: Option<&String>,
        source: ConfigSource,
    ) -> (r: Result<Vec<String>, Error>)
        requires
            old(self).wf(),
            source is Parsed ==> source->Parsed_0.wf(),
        ensures
            final(self).wf(),
            *final(self) == (DaemonCore {
                supervisor: final(self).supervisor,
                config: final(self).config,
                health: final(self).health,
                ..*old(self)
            }),
            final(self).supervisor.processes == old(self).supervisor.processes,
            if source is Parsed {
                let config = source->Parsed_0;
                let names = names_to_start(config, asked_for(name));
                match r {
                    Ok(list) => {
                        &&& texts(list@) == names
                        &&& no_clash(old(self).config, config_path@, names)
                        &&& final(self).config@ == old(self).config@.insert(
                            key(config_path@),
                            config,
                        )
                        &&& final(self).config.paths() == (if old(self).config@.contains_key(
                            key(config_path@),
                        ) {
                            old(self).config.paths()
                        } else {
                            old(self).config.paths().push(config_path@)
                        })
                        &&& final(self).supervisor.log_dir == config.settings.log_dir
                        &&& final(self).supervisor.loki == (old(self).supervisor.loki
                            || config.settings.loki is Some)
                        &&& final(self).health@ == with_fresh(old(self).health@, list@)
                        &&& old(self).takes_up(*final(self), config_path@, config)
                    },
                    Err(e) => {
                        &&& *final(self) == *old(self)
                        &&& tells_clash(old(self).config, config_path@, names, e)
                    },
                }
            } else {
                &&& r is Err
                &&& load_failure(config_path@, source, r->Err_0)
                &&& *final(self) == *old(self)
            },
    {
        let config = match Config::load(config_path, source) {
            Ok(config) => config,
            Err(e) => {
                return Err(e);
            },
        };
        let names: Vec<String> = match name {
            Some(n) => {
                let mut v: Vec<String> = Vec::new();
                v.push(n.clone());
                assert(texts(v@) =~= seq![n@]);
                v
            },
            None => config.scripts.keys(),
        };
        if let Some(e) = self.find_clash(config_path, &names) {
            return Err(e);
        }
        self.config.set(config_path, config);
        self.sync_settings(config_path);
        self.note_fresh(&names);
        Ok(names)
    }

    /// The failure that comes of a script that another configuration has, too.
    fn find_clash(&self, config_path: &str, names: &Vec<String>) -> (r: Option<Error>)
        requires
            self.wf(),
        ensures
            match r {
                Some(e) => tells_clash(self.config, config_path@, texts(names@), e),
                None => no_clash(self.config, config_path@, texts(names@)),
            },
    {
        let ghost all = texts(names@);
        let mut i: usize = 0;
        while i < names.len()
            invariant
                self.wf(),
                all == texts(names@),
                i <= names@.len(),
                forall|k: int|
                    0 <= k < i ==> !clashes(self.config, config_path@, #[trigger] all[k]),
            decreases names.len() - i,
        {
            assert(all[i as int] == names@[i as int]@);
            if let Some(existing) = self.config.conflict(config_path, names[i].as_str()) {
                let e = Error::ScriptNameConflict {
                    name: names[i].clone(),
                    existing_config: existing.clone(),
                };
                proof {
                    let j = choose|j: int|
                        0 <= j < self.config.paths().len() && #[trigger] self.config.elsewhere(
                            j,
                            config_path@,
                            names@[i as int]@,
                        ) && existing@ == self.config.paths()[j] && forall|k: int|
                            0 <= k < j ==> !self.config.elsewhere(
                                k,
                                config_path@,
                                names@[i as int]@,
                            );
                    assert(first_clash(self.config, config_path@, all, i as int, j));
                }
                return Some(e);
            }
            i = i + 1;
        }
        None
    }

    /// Notes a health for each of some scripts that has none.
    fn note_fresh(&mut self, names: &Vec<String>)
        requires
            old(self).wf(),
        ensures
            final(self).wf(),
            *final(self) == (DaemonCore { health: final(self).health, ..*old(self) }),
            final(self).health@ == with_fresh(old(self).health@, names@),
    {
        let ghost start = *self;
        let mut i: usize = 0;
        assert(names@.take(0) =~= Seq::<String>::empty());
        while i < names.len()
            invariant
                self.wf(),
                *self == (DaemonCore { health: self.health, ..start }),
                i <= names@.len(),
                self.health@ == with_fresh(start.health@, names@.take(i as int)),
            decreases names.len() - i,
        {
            assert(names@.take(i as int + 1).drop_last() =~= names@.take(i as int));
            if !self.health.contains_key(names[i].as_str()) {
                self.health.insert(names[i].clone(), ScriptHealth::never_ran(names[i].clone()));
            }
            i = i + 1;
        }
        assert(names@.take(i as int) =~= names@);
    }

    /// The names of the scripts that are stopped when a client asks for one of
    /// a configuration or, with no name, for all of it that have a process.
    pub open spec fn stopped_by(self, name: Option<String>, config_path: Seq<char>) -> Seq<
        Seq<char>,
    > {
        match name {
            Some(n) => if self.belongs(n@, key(config_path)) {
                seq![n@]
            } else {
                Seq::empty()
            },
            None => self.remembered_under(self.supervisor.processes.names(), key(config_path)),
        }
    }

    /// Whether a script is remembered under a configuration.
    fn belongs_to(&self, name: &str, config_path: &str) -> (r: bool)
        ensures
            r == self.belongs(name@, key(config_path@)),
    {
        match self.state.find(name) {
            Some(script) => match &script.config_path {
                Some(path) => same_path(path.as_str(), config_path),
                None => false,
            },
            None => false,
        }
    }

    /// The names of the scripts that are stopped when a client asks for one of
    /// a configuration or, with no name, for all of it. A script that is asked for
    /// but is not remembered under the configuration is not found.
    pub fn begin_down(&self, name: Option<&String>, config_path: &str) -> (r: Result<
        Vec<String>,
        Error,
    >)
        ensures
            match r {
                Ok(list) => {
                    &&& name is Some ==> self.belongs(name->0@, key(config_path@))
                    &&& texts(list@) == self.stopped_by(asked_for(name), config_path@)
                },
                Err(e) => {
                    &&& name is Some
                    &&& !self.belongs(name->0@, key(config_path@))
                    &&& e == (Error::ScriptNotFound { name: *name->0 })
                },
            },
    {
        if let Some(n) = name {
            if !self.belongs_to(n.as_str(), config_path) {
                return Err(Error::ScriptNotFound { name: n.clone() });
            }
        }
        Ok(self.names_to_stop(name, config_path))
    }

    /// The names of the scripts that are stopped when a client asks for one of
    /// a configuration or, with no name, for all of it that have a process.
    pub fn names_to_stop(&self, name: Option<&String>, config_path: &str) -> (r: Vec<String>)
        ensures
            texts(r@) == self.stopped_by(asked_for(name), config_path@),
    {
        let mut out: Vec<String> = Vec::new();
        if let Some(n) = name {
            if self.belongs_to(n.as_str(), config_path) {
                out.push(n.clone());
                assert(texts(out@) =~= seq![n@]);
            } else {
                assert(texts(out@) =~= Seq::<Seq<char>>::empty());
            }
            return out;
        }
        let names = self.supervisor.names();
        let ghost all = self.supervisor.processes.names();
        let mut i: usize = 0;
        assert(texts(out@) =~= self.remembered_under(all.take(0), key(config_path@)));
        while i < names.len()
            invariant
                texts(names@) == all,
                i <= names@.len(),
                texts(out@) == self.remembered_under(all.take(i as int), key(config_path@)),
            decreases names.len() - i,
        {
            proof {
                assert(all.take(i as int + 1).drop_last() =~= all.take(i as int));
                assert(all[i as int] == names@[i as int]@);
            }
            if self.belongs_to(names[i].as_str(), config_path) {
                let ghost before = out@;
                out.push(names[i].clone());
                assert(texts(out@) =~= texts(before).push(names@[i as int]@));
            }
            i = i + 1;
        }
        assert(all.take(i as int) =~= all);
        out
    }

    /// What is reported of all scripts.
    pub fn full_status_list(&self, now: Timestamp) -> (r: Vec<ProcessInfo>)
        requires
            self.wf(),
            now.wf(),
        ensures
            self.status_of_all(r@, now),
    {
        let mut out: Vec<ProcessInfo> = Vec::new();
        let mut i: usize = 0;
        let n = self.supervisor.processes.len();
        let ghost names = self.supervisor.processes.names();
        while i < n
            invariant
                self.wf(),
                now.wf(),
                names == self.supervisor.processes.names(),
                n == names.len(),
                i <= n,
                out@.len() == i,
                forall|j: int|
                    0 <= j < i ==> running_info(
                        #[trigger] out@[j],
                        names[j],
                        self.supervisor.processes@[names[j]],
                        self.remembered_config(names[j]),
                        now,
                    ),
            decreases n - i,
        {
            proof {
                self.supervisor.processes.lemma_at(i as int);
            }
            let name = self.supervisor.processes.name_at(i);
            let process = self.supervisor.processes.value_at(i);
            let config_path = match self.state.find(name.as_str()) {
                Some(script) => copy_text(&script.config_path),
                None => None,
            };
            out.push(
                ProcessInfo {
                    name: name.clone(),
                    pid: process.pid,
                    status: process.status,
                    uptime: match process.start_time {
                        Some(start) => elapsed(start, now),
                        None => Duration::zero(),
                    },
                    restart_count: process.restart_count,
                    exit_code: None,
                    config_path,
                },
            );
            i = i + 1;
        }
        let ghost running = out@;
        let ghost all = self.state.scripts@;
        let mut k: usize = 0;
        assert(self.dormant(all.take(0)) =~= Seq::<ScriptState>::empty());
        while k < self.state.scripts.len()
            invariant
                self.wf(),
                all == self.state.scripts@,
                k <= all.len(),
                names.len() == running.len(),
                out@.len() == names.len() + self.dormant(all.take(k as int)).len(),
                forall|j: int| 0 <= j < names.len() ==> out@[j] == #[trigger] running[j],
                forall|j: int|
                    0 <= j < self.dormant(all.take(k as int)).len() ==> out@[names.len() + j]
                        == dormant_info(#[trigger] self.dormant(all.take(k as int))[j]),
            decreases self.state.scripts.len() - k,
        {
            assert(all.take(k as int + 1).drop_last() =~= all.take(k as int));
            let script = &self.state.scripts[k];
            if !self.supervisor.contains(script.name.as_str()) {
                out.push(
                    ProcessInfo {
                        name: script.name.clone(),
                        pid: 0,
                        status: script.status,
                        uptime: Duration::zero(),
                        restart_count: script.restart_count,
                        exit_code: script.exit_code,
                        config_path: copy_text(&script.config_path),
                    },
                );
            }
            k = k + 1;
        }
        proof {
            assert(all.take(k as int) =~= all);
            assert forall|j: int| 0 <= j < names.len() implies running_info(
                #[trigger] out@[j],
                names[j],
                self.supervisor.processes@[names[j]],
                self.remembered_config(names[j]),
                now,
            ) by {
                assert(out@[j] == running[j]);
            }
        }
        out
    }

    /// The answer to a client that asks for the scripts of a configuration, or
    /// of all of them.
    pub fn list(&self, config_path: Option<&str>, now: Timestamp) -> (r: Response)
        requires
            self.wf(),
            now.wf(),
        ensures
            r matches Response::ProcessList(list) && exists|full: Seq<ProcessInfo>| #[trigger]
                self.status_of_all(full, now) && list@ == (match config_path {
                    Some(p) => belonging(full, key(p@)),
                    None => full,
                }),
    {
        let full = self.full_status_list(now);
        match config_path {
            Some(p) => Response::ProcessList(only_of(&full, p)),
            None => Response::ProcessList(full),
        }
    }

    /// Replaces a configuration by what was read anew, and takes over its
    /// settings. Tells how it changed.
    pub fn begin_reload(&mut self, config_path: &str, source: ConfigSource) -> (r: Result<
        ConfigDiff,
        Error,
    >)
        requires
            old(self).wf(),
            source is Parsed ==> source->Parsed_0.wf(),
        ensures
            final(self).wf(),
            *final(self) == (DaemonCore {
                supervisor: final(self).supervisor,
                config: final(self).config,
                ..*old(self)
            }),
            final(self).supervisor.processes == old(self).supervisor.processes,
            final(self).config.paths() == old(self).config.paths(),
            match r {
                Ok(diff) => {
                    &&& old(self).config@.contains_key(key(config_path@))
                    &&& source is Parsed
                    &&& final(self).config@ == old(self).config@.insert(
                        key(config_path@),
                        source->Parsed_0,
                    )
                    &&& final(self).supervisor.log_dir == source->Parsed_0.settings.log_dir
                    &&& final(self).supervisor.loki == (old(self).supervisor.loki
                        || source->Parsed_0.settings.loki is Some)
                    &&& diff.tells(old(self).config@[key(config_path@)], source->Parsed_0)
                    &&& old(self).takes_up(*final(self), config_path@, source->Parsed_0)
                },
                Err(e) => {
                    &&& *final(self) == *old(self)
                    &&& if old(self).config@.contains_key(key(config_path@)) {
                        load_failure(config_path@, source, e)
                    } else {
                        e is ConfigNotLoaded
                    }
                },
            },
    {
        match self.config.reload(config_path, source) {
            Ok(diff) => {
                self.sync_settings(config_path);
                Ok(diff)
            },
            Err(e) => Err(e),
        }
    }

    /// What the removal of some scripts from a configuration leads to.
    pub open spec fn removal_steps(self, names: Seq<Seq<char>>) -> Seq<StepView> {
        names.map_values(
            |n: Seq<char>|
                if self.orphan(n) {
                    StepView::Forget(n)
                } else {
                    StepView::Stop(n)
                },
        )
    }

    /// The steps that a changed configuration leads to, in order: scripts that
    /// went are stopped, and forgotten where no other configuration has them;
    /// scripts that came are started; scripts that changed are restarted.
    pub fn reload_steps(&self, diff: &ConfigDiff) -> (r: Vec<ReloadStep>)
        requires
            self.wf(),
        ensures
            steps(r@) == self.removal_steps(texts(diff.removed@)) + texts(diff.added@).map_values(
                |n: Seq<char>| StepView::Start(n),
            ) + texts(diff.changed@).map_values(|n: Seq<char>| StepView::Restart(n)),
    {
        let mut out: Vec<ReloadStep> = Vec::new();
        let mut i: usize = 0;
        while i < diff.removed.len()
            invariant
                self.wf(),
                i <= diff.removed@.len(),
                steps(out@) == self.removal_steps(texts(diff.removed@)).take(i as int),
            decreases diff.removed.len() - i,
        {
            let ghost before = out@;
            let name = diff.removed[i].clone();
            if self.is_orphan(name.as_str()) {
                out.push(ReloadStep::Forget(name));
            } else {
                out.push(ReloadStep::Stop(name));
            }
            proof {
                assert(steps(out@) =~= steps(before).push(out@[before.len() as int]@));
                assert(steps(out@) =~= self.removal_steps(texts(diff.removed@)).take(i as int + 1));
            }
            i = i + 1;
        }
        let ghost gone = steps(out@);
        let ghost came = texts(diff.added@).map_values(|n: Seq<char>| StepView::Start(n));
        assert(gone =~= self.removal_steps(texts(diff.removed@)));
        let mut j: usize = 0;
        assert(gone + came.take(0) =~= gone);
        while j < diff.added.len()
            invariant
                j <= diff.added@.len(),
                came == texts(diff.added@).map_values(|n: Seq<char>| StepView::Start(n)),
                steps(out@) == gone + came.take(j as int),
            decreases diff.added.len() - j,
        {
            let ghost before = out@;
            out.push(ReloadStep::Start(diff.added[j].clone()));
            proof {
                assert(steps(out@) =~= steps(before).push(out@[before.len() as int]@));
                assert(steps(out@) =~= gone + came.take(j as int + 1));
            }
            j = j + 1;
        }
        assert(came.take(j as int) =~= came);
        let ghost changed = texts(diff.changed@).map_values(|n: Seq<char>| StepView::Restart(n));
        let mut k: usize = 0;
        assert(gone + came + changed.take(0) =~= gone + came);
        while k < diff.changed.len()
            invariant
                k <= diff.changed@.len(),
                changed == texts(diff.changed@).map_values(|n: Seq<char>| StepView::Restart(n)),
                steps(out@) == gone + came + changed.take(k as int),
            decreases diff.changed.len() - k,
        {
            let ghost before = out@;
            out.push(ReloadStep::Restart(diff.changed[k].clone()));
            proof {
                assert(steps(out@) =~= steps(before).push(out@[before.len() as int]@));
                assert(steps(out@) =~= gone + came + changed.take(k as int + 1));
            }
            k = k + 1;
        }
        assert(changed.take(k as int) =~= changed);
        out
    }
}

/// Whether the name at one position is the first that another configuration
/// has, and the configuration at the other position is the first that has it.
pub open spec fn first_clash(
    config: ConfigManager,
    config_path: Seq<char>,
    names: Seq<Seq<char>>,
    i: int,
    j: int,
) -> bool {
    &&& config.elsewhere(j, config_path, names[i])
    &&& forall|k: int| 0 <= k < j ==> !config.elsewhere(k, config_path, names[i])
    &&& forall|k: int| 0 <= k < i ==> !clashes(config, config_path, #[trigger] names[k])
}

/// Whether no name of a list stands in another configuration.
pub open spec fn no_clash(
    config: ConfigManager,
    config_path: Seq<char>,
    names: Seq<Seq<char>>,
) -> bool {
    forall|k: int| 0 <= k < names.len() ==> !clashes(config, config_path, #[trigger] names[k])
}

/// Whether a failure tells the first name of a list that stands in another
/// configuration, and the first such configuration.
pub open spec fn tells_clash(
    config: ConfigManager,
    config_path: Seq<char>,
    names: Seq<Seq<char>>,
    e: Error,
) -> bool {
    &&& e is ScriptNameConflict
    &&& exists|i: int, j: int|
        0 <= i < names.len() && e->ScriptNameConflict_name@ == names[i] && 0 <= j
            < config.paths().len() && e->existing_config@ == config.paths()[j]
            && #[trigger] first_clash(config, config_path, names, i, j)
}

/// The script that a client asks for, if it asks for one.
pub open spec fn asked_for(name: Option<&String>) -> Option<String> {
    match name {
        Some(n) => Some(*n),
        None => None,
    }
}

/// The entries of a list of processes that belong to a configuration.
fn only_of(list: &Vec<ProcessInfo>, config_path: &str) -> (r: Vec<ProcessInfo>)
    ensures
        r@ == belonging(list@, key(config_path@)),
{
    let mut out: Vec<ProcessInfo> = Vec::new();
    let mut i: usize = 0;
    assert(list@.take(0) =~= Seq::<ProcessInfo>::empty());
    while i < list.len()
        invariant
            i <= list@.len(),
            out@ == belonging(list@.take(i as int), key(config_path@)),
        decreases list.len() - i,
    {
        assert(list@.take(i as int + 1).drop_last() =~= list@.take(i as int));
        if let Some(path) = &list[i].config_path {
            if same_path(path.as_str(), config_path) {
                out.push(list[i].clone());
            }
        }
        i = i + 1;
    }
    assert(list@.take(i as int) =~= list@);
    out
}

/// When scripts are to be started each of them has a health, and a health that
/// was noted before stays as it was.
pub proof fn law_up_keeps_health(
    health: Map<Seq<char>, ScriptHealth>,
    names: Seq<String>,
    name: Seq<char>,
)
    ensures
        with_fresh(health, names).contains_key(name) == (health.contains_key(name) || texts(
            names,
        ).contains(name)),
        health.contains_key(name) ==> with_fresh(health, names)[name] == health[name],
        with_fresh(health, names).contains_key(name) && !health.contains_key(name) ==> with_fresh(
            health,
            names,
        )[name].state is NeverRan,
    decreases names.len(),
{
    if names.len() > 0 {
        let front = names.drop_last();
        law_up_keeps_health(health, front, name);
        if texts(names).contains(name) && name != names.last()@ {
            let i = texts(names).index_of(name);
            assert(texts(front)[i] == name);
        }
        if texts(front).contains(name) {
            let i = texts(front).index_of(name);
            assert(texts(names)[i] == name);
        }
        if name == names.last()@ {
            assert(texts(names)[names.len() - 1] == name);
        }
    }
}

/// Stopping the scripts of one configuration, or one of them, stops none of
/// another: each name that comes of it is remembered under the configuration and,
/// where no script was asked for, has a process; each such name comes of it.
pub proof fn law_down_is_local(
    core: DaemonCore,
    asked: Option<String>,
    config_path: Seq<char>,
    name: Seq<char>,
)
    ensures
        core.stopped_by(asked, config_path).contains(name) == (core.belongs(
            name,
            key(config_path),
        ) && (match asked {
            Some(n) => n@ == name,
            None => core.supervisor.processes.names().contains(name),
        })),
{
    lemma_remembered_under(core, core.supervisor.processes.names(), config_path, name);
    if let Some(n) = asked {
        if core.belongs(n@, key(config_path)) {
            assert(core.stopped_by(asked, config_path)[0] == n@);
        }
    }
}

/// Just those of some names that are remembered under a configuration are found.
proof fn lemma_remembered_under(
    core: DaemonCore,
    names: Seq<Seq<char>>,
    config_path: Seq<char>,
    name: Seq<char>,
)
    ensures
        core.remembered_under(names, key(config_path)).contains(name) == (names.contains(name)
            && core.belongs(name, key(config_path))),
    decreases names.len(),
{
    if names.len() > 0 {
        let front = names.drop_last();
        lemma_remembered_under(core, front, config_path, name);
        let inner = core.remembered_under(front, key(config_path));
        let outer = core.remembered_under(names, key(config_path));
        if names.contains(name) && name != names.last() {
            let i = names.index_of(name);
            assert(front[i] == name);
        }
        if front.contains(name) {
            assert(names[front.index_of(name)] == name);
        }
        if inner.contains(name) {
            assert(outer[inner.index_of(name)] == name);
        }
        if outer.contains(name) && name != names.last() {
            let i = outer.index_of(name);
            assert(inner[i] == name);
        }
        if name == names.last() {
            assert(names[names.len() - 1] == name);
            if core.belongs(name, key(config_path)) {
                assert(outer[outer.len() - 1] == name);
            }
        }
    }
}

/// A list that is cut down to one configuration holds just the entries of the
/// list that belong to it.
pub proof fn law_listing_is_local(list: Seq<ProcessInfo>, config_path: Seq<char>, p: ProcessInfo)
    ensures
        belonging(list, key(config_path)).contains(p) == (list.contains(p) && optional_key(
            p.config_path,
        ) == Some(key(config_path))),
    decreases list.len(),
{
    if list.len() > 0 {
        let front = list.drop_last();
        law_listing_is_local(front, config_path, p);
        let inner = belonging(front, key(config_path));
        let outer = belonging(list, key(config_path));
        if list.contains(p) && p != list.last() {
            let i = list.index_of(p);
            assert(front[i] == p);
        }
        if front.contains(p) {
            assert(list[front.index_of(p)] == p);
        }
        if inner.contains(p) {
            assert(outer[inner.index_of(p)] == p);
        }
        if outer.contains(p) && p != list.last() {
            let i = outer.index_of(p);
            assert(inner[i] == p);
        }
        if p == list.last() {
            assert(list[list.len() - 1] == p);
            if optional_key(p.config_path) == Some(key(config_path)) {
                assert(outer[outer.len() - 1] == p);
            }
        }
    }
}

/// A script that went from a configuration, and that no other configuration
/// has, is forgotten after a reload; one that another configuration has is only stopped.
pub proof fn law_reload_forgets_orphans(core: DaemonCore, names: Seq<Seq<char>>, i: int)
    requires
        0 <= i < names.len(),
    ensures
        core.removal_steps(names).len() == names.len(),
        core.removal_steps(names)[i] == (if core.orphan(names[i]) {
            StepView::Forget(names[i])
        } else {
            StepView::Stop(names[i])
        }),
{
}

/// Once a script was stopped and forgotten, nothing of it is left, and nothing
/// of any other script has changed; to forget it once more changes nothing.
pub proof fn law_forgotten(
    before: DaemonCore,
    after: DaemonCore,
    name: Seq<char>,
    other: Seq<char>,
)
    requires
        before.forgets(after, name),
    ensures
        after.recalled(name) is None,
        !after.health@.contains_key(name),
        !after.cron.scheduled(name),
        other != name ==> after.recalled(other) == before.recalled(other),
        other != name ==> after.health@.contains_key(other) == before.health@.contains_key(other),
        other != name && before.health@.contains_key(other) ==> after.health@[other]
            == before.health@[other],
        other != name ==> after.cron.scheduled(other) == before.cron.scheduled(other),
        removed(after.state.scripts@, name) == after.state.scripts@,
        after.health@.remove(name) == after.health@,
        after.cron.tasks@.remove(name) == after.cron.tasks@,
{
    law_recall_after_removal(before.state.scripts@, name, name);
    law_recall_after_removal(before.state.scripts@, name, other);
    lemma_removed_twice(before.state.scripts@, name);
    assert(after.health@.remove(name) =~= after.health@);
    assert(after.cron.tasks@.remove(name) =~= after.cron.tasks@);
}

/// To remove a name twice is to remove it once.
proof fn lemma_removed_twice(list: Seq<ScriptState>, name: Seq<char>)
    ensures
        removed(removed(list, name), name) == removed(list, name),
    decreases list.len(),
{
    if list.len() > 0 {
        let front = list.drop_last();
        lemma_removed_twice(front, name);
        if list.last().name@ != name {
            assert(removed(list, name).drop_last() =~= removed(front, name));
        }
    }
}

/// After a script that had a process was stopped, it is remembered as stopped
/// on purpose, under the configuration that it had; it has no process, no channel
/// and no schedule.
pub proof fn law_stopped(
    before: DaemonCore,
    noted: DaemonCore,
    after: DaemonCore,
    name: String,
    now: Timestamp,
)
    requires
        before.supervisor.process(name@) is Some,
        before.notes_stop(noted, name, now),
        noted.gives_up(after, name@),
    ensures
        after.supervisor.process(name@) is None,
        !after.log_channels@.contains_key(name@),
        !after.cron.scheduled(name@),
        after.recalled(name@) is Some,
        after.recalled(name@)->0.explicitly_stopped,
        after.recalled(name@)->0.status is Stopped,
        after.remembered_config(name@) == before.remembered_config(name@),
{
    law_recall_after_update(
        before.state.scripts@,
        before.memory(
            name,
            before.remembered_config(name@),
            ProcessStatus::Stopped,
            true,
            None,
            now,
        ),
        name@,
    );
}

/// A start is refused just if one of the names to be started stands in a loaded
/// configuration under another path; the refusal tells the first such name, and a
/// configuration that has it.
pub proof fn law_clash(
    config: ConfigManager,
    config_path: Seq<char>,
    names: Seq<Seq<char>>,
    e: Error,
)
    requires
        config.wf(),
    ensures
        no_clash(config, config_path, names) <==> forall|k: int, path: Seq<char>|
            0 <= k < names.len() && key(path) != key(config_path) ==> !(#[trigger] config.has(
                path,
                names[k],
            )),
        tells_clash(config, config_path, names, e) ==> {
            &&& e is ScriptNameConflict
            &&& names.contains(e->ScriptNameConflict_name@)
            &&& config.has(e->existing_config@, e->ScriptNameConflict_name@)
            &&& key(e->existing_config@) != key(config_path)
            &&& !no_clash(config, config_path, names)
        },
{
    if no_clash(config, config_path, names) {
        assert forall|k: int, path: Seq<char>|
            0 <= k < names.len() && key(path) != key(config_path) implies !(
        #[trigger] config.has(path, names[k])) by {
            if config.has(path, names[k]) {
                let i = config.lemma_loaded(key(path));
                assert(config.elsewhere(i, config_path, names[k]));
                assert(clashes(config, config_path, names[k]));
            }
        }
    }
    if forall|k: int, path: Seq<char>|
        0 <= k < names.len() && key(path) != key(config_path) ==> !(#[trigger] config.has(
            path,
            names[k],
        )) {
        assert forall|k: int| 0 <= k < names.len() implies !clashes(
            config,
            config_path,
            #[trigger] names[k],
        ) by {
            if clashes(config, config_path, names[k]) {
                let i = choose|i: int|
                    0 <= i < config.paths().len() && #[trigger] config.elsewhere(
                        i,
                        config_path,
                        names[k],
                    );
                config.lemma_at(i);
                assert(config.has(config.paths()[i], names[k]));
            }
        }
    }
    if tells_clash(config, config_path, names, e) {
        let (i, j) = choose|i: int, j: int|
            0 <= i < names.len() && e->ScriptNameConflict_name@ == names[i] && 0 <= j
                < config.paths().len() && e->existing_config@ == config.paths()[j]
                && #[trigger] first_clash(config, config_path, names, i, j);
        config.lemma_at(j);
        assert(config.elsewhere(j, config_path, names[i]));
        assert(clashes(config, config_path, names[i]));
    }
}

/// A client that asks for one script starts that one; one that asks for none
/// starts all of the configuration.
pub proof fn law_names_to_start(config: Config, name: Option<String>, other: Seq<char>)
    requires
        config.wf(),
    ensures
        name is Some ==> names_to_start(config, name) == seq![name->0@],
        name is None ==> names_to_start(config, name).contains(other)
            == config.scripts@.contains_key(other),
        name is None ==> names_to_start(config, name).no_duplicates(),
{
}

/// A script belongs to the configuration under which it is remembered, and to
/// no other.
pub proof fn law_belongs(core: DaemonCore, name: Seq<char>, path: Seq<char>)
    ensures
        core.belongs(name, key(path)) <==> {
            &&& core.recalled(name) is Some
            &&& core.recalled(name)->0.config_path is Some
            &&& key(core.recalled(name)->0.config_path->0@) == key(path)
        },
{
}

/// All scripts that have a process or are remembered are listed, and no others:
/// one that has a process with its number and as what it is, and any other as it is
/// remembered.
pub proof fn law_listing_is_complete(
    core: DaemonCore,
    list: Seq<ProcessInfo>,
    now: Timestamp,
    name: Seq<char>,
)
    requires
        core.wf(),
        now.wf(),
        core.status_of_all(list, now),
    ensures
        core.supervisor.processes@.contains_key(name) ==> exists|i: int|
            0 <= i < list.len() && (#[trigger] list[i]).name@ == name && list[i].pid
                == core.supervisor.processes@[name].pid && list[i].status
                == core.supervisor.processes@[name].status && list[i].restart_count
                == core.supervisor.processes@[name].restart_count && list[i].config_path
                == core.remembered_config(name) && tells_uptime(
                list[i],
                core.supervisor.processes@[name],
                now,
            ),
        forall|k: int|
            0 <= k < core.state.scripts@.len() && !core.supervisor.processes@.contains_key(
                (#[trigger] core.state.scripts@[k]).name@,
            ) ==> exists|i: int|
                0 <= i < list.len() && tells_dormant(#[trigger] list[i], core.state.scripts@[k]),
        forall|i: int|
            0 <= i < list.len() ==> core.supervisor.processes@.contains_key(
                (#[trigger] list[i]).name@,
            ) || core.recalled(list[i].name@) is Some,
{
    let names = core.supervisor.processes.names();
    let all = core.state.scripts@;
    let others = core.dormant(all);
    if core.supervisor.processes@.contains_key(name) {
        let i = names.index_of(name);
        assert(names.contains(name));
        assert(list[i].name@ == name);
        let process = core.supervisor.processes@[name];
        if process.start_time is Some {
            law_since(process.start_time->0, now);
        }
        assert(tells_uptime(list[i], process, now));
    }
    assert forall|k: int|
        0 <= k < all.len() && !core.supervisor.processes@.contains_key(
            (#[trigger] all[k]).name@,
        ) implies exists|i: int|
        0 <= i < list.len() && tells_dormant(#[trigger] list[i], all[k]) by {
        lemma_dormant(core, all, k);
        let j = others.index_of(all[k]);
        assert(others[j] == all[k]);
        assert(tells_dormant(list[names.len() + j], all[k]));
    }
    assert forall|i: int| 0 <= i < list.len() implies core.supervisor.processes@.contains_key(
        (#[trigger] list[i]).name@,
    ) || core.recalled(list[i].name@) is Some by {
        if i < names.len() {
            assert(names.contains(names[i]));
        } else {
            let j = i - names.len();
            lemma_dormant_within(core, all, j);
            let k = choose|k: int| 0 <= k < all.len() && #[trigger] all[k] == others[j];
            assert(list[names.len() + j] == dormant_info(others[j]));
            law_recall(all, list[i].name@, 0);
            assert(all[k].name@ == list[i].name@);
        }
    }
}

/// Whether an entry of a list tells how long a process has run by now.
pub open spec fn tells_uptime(info: ProcessInfo, process: ManagedProcess, now: Timestamp) -> bool {
    match process.start_time {
        Some(start) => if start.total() <= now.total() {
            start.total() + info.uptime.total() == now.total()
        } else {
            info.uptime.total() == 0
        },
        None => info.uptime.total() == 0,
    }
}

/// Whether an entry of a list tells what is remembered of a script that has no
/// process.
pub open spec fn tells_dormant(info: ProcessInfo, script: ScriptState) -> bool {
    &&& info.name == script.name
    &&& info.pid == 0
    &&& info.status == script.status
    &&& info.exit_code == script.exit_code
    &&& info.restart_count == script.restart_count
    &&& info.config_path == script.config_path
}

/// A remembered script without a process is among those without one.
proof fn lemma_dormant(core: DaemonCore, scripts: Seq<ScriptState>, k: int)
    requires
        0 <= k < scripts.len(),
        !core.supervisor.processes@.contains_key(scripts[k].name@),
    ensures
        core.dormant(scripts).contains(scripts[k]),
    decreases scripts.len(),
{
    let outer = core.dormant(scripts);
    if k == scripts.len() - 1 {
        assert(outer[outer.len() - 1] == scripts[k]);
    } else {
        let front = scripts.drop_last();
        assert(front[k] == scripts[k]);
        lemma_dormant(core, front, k);
        let j = core.dormant(front).index_of(scripts[k]);
        assert(outer[j] == scripts[k]);
    }
}

/// A script without a process that is found is one of the remembered ones.
proof fn lemma_dormant_within(core: DaemonCore, scripts: Seq<ScriptState>, j: int)
    requires
        0 <= j < core.dormant(scripts).len(),
    ensures
        exists|k: int| 0 <= k < scripts.len() && #[trigger] scripts[k] == core.dormant(scripts)[j],
    decreases scripts.len(),
{
    if scripts.len() > 0 {
        let front = scripts.drop_last();
        let inner = core.dormant(front);
        if j < inner.len() {
            lemma_dormant_within(core, front, j);
            let k = choose|k: int| 0 <= k < front.len() && #[trigger] front[k] == inner[j];
            assert(scripts[k] == inner[j]);
        } else {
            assert(scripts[scripts.len() - 1] == core.dormant(scripts)[j]);
        }
    }
}

/// When a configuration is taken up, just its scripts are those of its path;
/// the configurations under other paths stay, and so do the processes, the schedules
/// and what is remembered. Logs are kept where it says, and output is shipped once
/// any configuration wants that.
pub proof fn law_taken_up(
    before: DaemonCore,
    after: DaemonCore,
    path: Seq<char>,
    config: Config,
    other: Seq<char>,
    name: Seq<char>,
)
    requires
        before.takes_up(after, path, config),
    ensures
        after.config.has(path, name) == config.scripts@.contains_key(name),
        config.scripts@.contains_key(name) ==> after.definition(path, name)
            == config.scripts@[name],
        key(other) != key(path) ==> after.config.has(other, name) == before.config.has(other, name),
        key(other) != key(path) && before.config.has(other, name) ==> after.definition(other, name)
            == before.definition(other, name),
        after.supervisor.log_dir == config.settings.log_dir,
        config.settings.loki is Some ==> after.supervisor.loki,
        before.supervisor.loki ==> after.supervisor.loki,
        config.settings.loki is None && !before.supervisor.loki ==> !after.supervisor.loki,
        after.supervisor.processes@ == before.supervisor.processes@,
        after.state == before.state,
        after.cron == before.cron,
{
}

} // verus!
