//! What the daemon does when it starts: it loads the configurations that it
//! remembers, forgets what no configuration has, and takes its scripts up again.
use crate::common::config::{load_failure, Config, ConfigSource};
use crate::common::error::Error;
use crate::common::ipc::ProcessStatus;
use crate::daemon::config_manager::{law_configured, ConfigManager};
use crate::daemon::daemon_core::{law_exit_is_remembered, DaemonCore};
use crate::daemon::health::{law_remembered_health, remembered_health, ScriptHealth};
use crate::daemon::process::{ExitStatus, ManagedProcess};
use crate::daemon::state::{
    distinct, first_named, lemma_first_named, lemma_first_named_is, recall, ScriptState,
};
use crate::path::{key, same_path, PathKey};
use crate::text::texts;
use crate::time::Timestamp;
use vstd::prelude::*;

verus! {

/// Whether one of some paths has the same components.
pub open spec fn has_key(paths: Seq<Seq<char>>, k: PathKey) -> bool {
    exists|i: int| 0 <= i < paths.len() && key(#[trigger] paths[i]) == k
}

/// The configurations of some scripts, each once, in the order in which they first occur.
pub open spec fn config_paths(scripts: Seq<ScriptState>) -> Seq<Seq<char>>
    decreases scripts.len(),
{
    if scripts.len() == 0 {
        Seq::empty()
    } else {
        let front = config_paths(scripts.drop_last());
        match scripts.last().config_path {
            Some(p) => if has_key(front, key(p@)) {
                front
            } else {
                front.push(p@)
            },
            None => front,
        }
    }
}

/// What came of taking up what is remembered.
#[derive(Debug)]
pub struct Restoration {
    /// For each configuration, why it could not be loaded, if it could not.
    pub refused: Vec<Option<Error>>,
    /// The names of the scripts that were forgotten.
    pub pruned: Vec<String>,
}

/// The configurations that are loaded once some more were read.
pub open spec fn loaded_with(
    configs: Map<PathKey, Config>,
    sources: Seq<(String, ConfigSource)>,
) -> Map<PathKey, Config>
    decreases sources.len(),
{
    if sources.len() == 0 {
        configs
    } else {
        let before = loaded_with(configs, sources.drop_last());
        match sources.last().1 {
            ConfigSource::Parsed(config) => before.insert(key(sources.last().0@), config),
            _ => before,
        }
    }
}

/// The paths that are loaded once some more configurations were read, in the
/// order in which they were first loaded.
pub open spec fn paths_with(
    paths: Seq<Seq<char>>,
    sources: Seq<(String, ConfigSource)>,
) -> Seq<Seq<char>>
    decreases sources.len(),
{
    if sources.len() == 0 {
        paths
    } else {
        let before = paths_with(paths, sources.drop_last());
        if sources.last().1 is Parsed && !has_key(before, key(sources.last().0@)) {
            before.push(sources.last().0@)
        } else {
            before
        }
    }
}

/// The directory for logs once some configurations were read: that of the last
/// one that could be loaded.
pub open spec fn log_dir_with(log_dir: String, sources: Seq<(String, ConfigSource)>) -> String
    decreases sources.len(),
{
    if sources.len() == 0 {
        log_dir
    } else {
        match sources.last().1 {
            ConfigSource::Parsed(config) => config.settings.log_dir,
            _ => log_dir_with(log_dir, sources.drop_last()),
        }
    }
}

/// Whether one of some configurations that were read asks for output to be shipped.
pub open spec fn some_ship(sources: Seq<(String, ConfigSource)>) -> bool {
    exists|i: int|
        0 <= i < sources.len() && (#[trigger] sources[i].1) is Parsed
            && sources[i].1->Parsed_0.settings.loki is Some
}

/// Whether these are the reasons why some configurations could not be loaded.
pub open spec fn refusals(
    refused: Seq<Option<Error>>,
    sources: Seq<(String, ConfigSource)>,
) -> bool {
    &&& refused.len() == sources.len()
    &&& forall|i: int|
        0 <= i < refused.len() ==> match #[trigger] refused[i] {
            None => sources[i].1 is Parsed,
            Some(e) => load_failure(sources[i].0@, sources[i].1, e),
        }
}

impl DaemonCore {
    /// The scripts of a list that some loaded configuration has.
    pub open spec fn kept(self, scripts: Seq<ScriptState>) -> Seq<ScriptState>
        decreases scripts.len(),
    {
        if scripts.len() == 0 {
            scripts
        } else if self.orphan(scripts.last().name@) {
            self.kept(scripts.drop_last())
        } else {
            self.kept(scripts.drop_last()).push(scripts.last())
        }
    }

    /// The names of the scripts of a list that no loaded configuration has.
    pub open spec fn pruned(self, scripts: Seq<ScriptState>) -> Seq<Seq<char>>
        decreases scripts.len(),
    {
        if scripts.len() == 0 {
            Seq::empty()
        } else if self.orphan(scripts.last().name@) {
            self.pruned(scripts.drop_last()).push(scripts.last().name@)
        } else {
            self.pruned(scripts.drop_last())
        }
    }

    /// The health that is noted once the remembered scripts have been gone through.
    pub open spec fn restored_health(self, scripts: Seq<ScriptState>) -> Map<
        Seq<char>,
        ScriptHealth,
    >
        decreases scripts.len(),
    {
        if scripts.len() == 0 {
            self.health@
        } else if self.orphan(scripts.last().name@) {
            self.restored_health(scripts.drop_last()).remove(scripts.last().name@)
        } else {
            self.restored_health(scripts.drop_last()).insert(
                scripts.last().name@,
                remembered_health(scripts.last()),
            )
        }
    }

    /// Whether a remembered script is started again: it was running, was not
    /// stopped on purpose, and its configuration still has it.
    pub open spec fn restorable(self, script: ScriptState) -> bool {
        &&& script.status is Running
        &&& !script.explicitly_stopped
        &&& script.config_path is Some
        &&& self.config.has(script.config_path->0@, script.name@)
    }

    /// The scripts of a list that are started again, each with its configuration.
    pub open spec fn restored(self, scripts: Seq<ScriptState>) -> Seq<(Seq<char>, Seq<char>)>
        decreases scripts.len(),
    {
        if scripts.len() == 0 {
            Seq::empty()
        } else if self.restorable(scripts.last()) {
            self.restored(scripts.drop_last()).push(
                (scripts.last().config_path->0@, scripts.last().name@),
            )
        } else {
            self.restored(scripts.drop_last())
        }
    }

    /// Whether a script is remembered as stopped on purpose.
    pub open spec fn stopped_on_purpose(self, name: Seq<char>) -> bool {
        self.recalled(name) is Some && self.recalled(name)->0.explicitly_stopped
    }

    /// Whether a script of a configuration is to wait for its schedule.
    pub open spec fn due(self, config: Config, name: Seq<char>) -> bool {
        &&& config.scripts@[name].cron is Some
        &&& !self.cron.scheduled(name)
        &&& !self.stopped_on_purpose(name)
    }

    /// Those of some scripts of a configuration that are to wait for their
    /// schedules, each with its expression.
    pub open spec fn due_of(self, config: Config, names: Seq<Seq<char>>) -> Seq<
        (Seq<char>, Seq<char>),
    >
        decreases names.len(),
    {
        if names.len() == 0 {
            Seq::empty()
        } else if self.due(config, names.last()) {
            self.due_of(config, names.drop_last()).push(
                (names.last(), config.scripts@[names.last()].cron->0@),
            )
        } else {
            self.due_of(config, names.drop_last())
        }
    }

    /// The scripts of some configurations that are to wait for their schedules.
    pub open spec fn due_in(self, configs: Seq<Config>) -> Seq<(Seq<char>, Seq<char>)>
        decreases configs.len(),
    {
        if configs.len() == 0 {
            Seq::empty()
        } else {
            self.due_in(configs.drop_last()) + self.due_of(
                configs.last(),
                configs.last().scripts.names(),
            )
        }
    }

    /// The configurations under which scripts are remembered.
    pub fn remembered_configs(&self) -> (r: Vec<String>)
        ensures
            texts(r@) == config_paths(self.state.scripts@),
    {
        let mut out: Vec<String> = Vec::new();
        let mut i: usize = 0;
        let ghost all = self.state.scripts@;
        assert(texts(out@) =~= config_paths(all.take(0)));
        while i < self.state.scripts.len()
            invariant
                all == self.state.scripts@,
                i <= all.len(),
                texts(out@) == config_paths(all.take(i as int)),
            decreases self.state.scripts.len() - i,
        {
            assert(all.take(i as int + 1).drop_last() =~= all.take(i as int));
            if let Some(path) = &self.state.scripts[i].config_path {
                if !path_listed(&out, path.as_str()) {
                    let ghost before = out@;
                    out.push(path.clone());
                    assert(texts(out@) =~= texts(before).push(path@));
                }
            }
            i = i + 1;
        }
        assert(all.take(i as int) =~= all);
        out
    }

    /// Loads a remembered configuration, and takes over its settings. One that
    /// cannot be loaded is left out.
    pub fn restore_config(&mut self, path: &str, source: ConfigSource) -> (r: Result<(), Error>)
        requires
            old(self).wf(),
            source is Parsed ==> source->Parsed_0.wf(),
        ensures
            final(self).wf(),
            *final(self) == (DaemonCore {
                supervisor: final(self).supervisor,
                config: final(self).config,
                ..*old(self)
            }),
            final(self).supervisor.processes == old(self).supervisor.processes,
            match r {
                Ok(_) => {
                    &&& source is Parsed
                    &&& final(self).config@ == old(self).config@.insert(
                        key(path@),
                        source->Parsed_0,
                    )
                    &&& final(self).config.paths() == (if has_key(
                        old(self).config.paths(),
                        key(path@),
                    ) {
                        old(self).config.paths()
                    } else {
                        old(self).config.paths().push(path@)
                    })
                    &&& final(self).supervisor.log_dir == source->Parsed_0.settings.log_dir
                    &&& final(self).supervisor.loki == (old(self).supervisor.loki
                        || source->Parsed_0.settings.loki is Some)
                },
                Err(e) => load_failure(path@, source, e) && *final(self) == *old(self),
            },
    {
        proof {
            lemma_loaded_keys(self.config, key(path@));
        }
        match self.config.load(path, source) {
            Ok(_) => {
                self.sync_settings(path);
                Ok(())
            },
            Err(e) => Err(e),
        }
    }

    /// Makes what is remembered, and the health that is reported, a projection
    /// of the loaded configurations: the health of each remembered script that is
    /// configured is noted, and each other script is forgotten. Gives the names of
    /// the scripts that were forgotten. No script has a process yet.
    pub fn reconcile(&mut self) -> (r: Vec<String>)
        requires
            old(self).wf(),
            old(self).supervisor.processes@ == Map::<Seq<char>, ManagedProcess>::empty(),
        ensures
            final(self).wf(),
            final(self).same_settings(*old(self)),
            final(self).supervisor == old(self).supervisor,
            texts(r@) == old(self).pruned(old(self).state.scripts@),
            final(self).state.scripts@ == old(self).kept(old(self).state.scripts@),
            final(self).health@ == old(self).restored_health(old(self).state.scripts@),
            final(self).log_channels@ == old(self).log_channels@.remove_keys(
                texts(r@).to_set(),
            ),
            final(self).cron.tasks@ == old(self).cron.tasks@.remove_keys(texts(r@).to_set()),
    {
        let ghost start = *self;
        let ghost all = self.state.scripts@;
        let mut kept: Vec<ScriptState> = Vec::new();
        let mut pruned: Vec<String> = Vec::new();
        let mut i: usize = 0;
        proof {
            assert(all.take(0) =~= Seq::<ScriptState>::empty());
            assert(kept@ =~= start.kept(all.take(0)));
            assert(texts(pruned@) =~= start.pruned(all.take(0)));
            assert(texts(pruned@).to_set() =~= Set::<Seq<char>>::empty());
            assert(start.log_channels@.remove_keys(Set::empty()) =~= start.log_channels@);
            assert(start.cron.tasks@.remove_keys(Set::empty()) =~= start.cron.tasks@);
        }
        while i < self.state.scripts.len()
            invariant
                self.wf(),
                self.config == start.config,
                self.supervisor == start.supervisor,
                self.state == start.state,
                all == start.state.scripts@,
                i <= all.len(),
                kept@ == start.kept(all.take(i as int)),
                texts(pruned@) == start.pruned(all.take(i as int)),
                self.health@ == start.restored_health(all.take(i as int)),
                self.log_channels@ == start.log_channels@.remove_keys(texts(pruned@).to_set()),
                self.cron.tasks@ == start.cron.tasks@.remove_keys(texts(pruned@).to_set()),
            decreases all.len() - i,
        {
            proof {
                assert(all.take(i as int + 1).drop_last() =~= all.take(i as int));
                assert(all.take(i as int + 1).last() == all[i as int]);
            }
            let script = self.state.scripts[i].clone();
            if self.is_orphan(script.name.as_str()) {
                self.health.remove(script.name.as_str());
                self.log_channels.remove(script.name.as_str());
                self.cron.cancel(script.name.as_str());
                let ghost before = pruned@;
                let ghost name = script.name@;
                pruned.push(script.name);
                proof {
                    assert(texts(pruned@) =~= texts(before).push(name));
                    let gone = texts(pruned@).to_set();
                    assert(gone =~= texts(before).to_set().insert(name)) by {
                        assert(texts(before).push(name)[before.len() as int] == name);
                        assert forall|k: Seq<char>| texts(before).contains(k) implies texts(
                            pruned@,
                        ).contains(k) by {
                            let j = texts(before).index_of(k);
                            assert(texts(pruned@)[j] == k);
                        }
                        assert forall|k: Seq<char>|
                            texts(pruned@).contains(k) && k != name implies texts(
                            before,
                        ).contains(k) by {
                            let j = texts(pruned@).index_of(k);
                            assert(texts(before)[j] == k);
                        }
                    }
                    assert(self.log_channels@ =~= start.log_channels@.remove_keys(gone));
                    assert(self.cron.tasks@ =~= start.cron.tasks@.remove_keys(gone));
                }
            } else {
                self.health.insert(script.name.clone(), ScriptHealth::restored(&script));
                kept.push(script);
            }
            i = i + 1;
        }
        assert(all.take(i as int) =~= all);
        self.state.scripts = kept;
        pruned
    }

    /// Loads the remembered configurations, as they were read, and makes what is
    /// remembered and the health that is reported a projection of them: of a script
    /// that no loaded configuration has, neither stays. No script has a process yet.
    pub fn restore_state(&mut self, sources: Vec<(String, ConfigSource)>) -> (r: Restoration)
        requires
            old(self).wf(),
            old(self).supervisor.processes@ == Map::<Seq<char>, ManagedProcess>::empty(),
            forall|i: int|
                0 <= i < sources@.len() && (#[trigger] sources@[i].1) is Parsed
                    ==> sources@[i].1->Parsed_0.wf(),
        ensures
            final(self).wf(),
            refusals(r.refused@, sources@),
            final(self).config@ == loaded_with(old(self).config@, sources@),
            final(self).config.paths() == paths_with(old(self).config.paths(), sources@),
            final(self).supervisor.processes == old(self).supervisor.processes,
            final(self).supervisor.log_dir == log_dir_with(
                old(self).supervisor.log_dir,
                sources@,
            ),
            final(self).supervisor.loki == (old(self).supervisor.loki || some_ship(sources@)),
            final(self).state.version == old(self).state.version,
            final(self).state.state_file == old(self).state.state_file,
            final(self).state.config_path == old(self).state.config_path,
            ({
                let loaded = DaemonCore { config: final(self).config, ..*old(self) };
                let scripts = old(self).state.scripts@;
                &&& texts(r.pruned@) == loaded.pruned(scripts)
                &&& final(self).state.scripts@ == loaded.kept(scripts)
                &&& final(self).health@ == loaded.restored_health(scripts)
            }),
            final(self).log_channels@ == old(self).log_channels@.remove_keys(
                texts(r.pruned@).to_set(),
            ),
            final(self).cron.tasks@ == old(self).cron.tasks@.remove_keys(
                texts(r.pruned@).to_set(),
            ),
            forall|name: Seq<char>| #[trigger]
                final(self).recalled(name) == (if final(self).orphan(name) {
                    None
                } else {
                    old(self).recalled(name)
                }),
            forall|name: Seq<char>| #[trigger]
                final(self).health@.contains_key(name) == (if final(self).orphan(name) {
                    old(self).health@.contains_key(name) && old(self).recalled(name) is None
                } else {
                    old(self).health@.contains_key(name) || old(self).recalled(name) is Some
                }),
    {
        let ghost start = *self;
        let ghost all = sources@;
        let mut refused: Vec<Option<Error>> = Vec::new();
        let mut left = sources;
        let ghost mut i: int = 0;
        proof {
            assert(all.skip(0) =~= all);
            assert(all.take(0) =~= Seq::<(String, ConfigSource)>::empty());
        }
        while left.len() > 0
            invariant
                self.wf(),
                *self == (DaemonCore {
                    supervisor: self.supervisor,
                    config: self.config,
                    ..start
                }),
                self.supervisor.processes == start.supervisor.processes,
                0 <= i <= all.len(),
                left@ == all.skip(i),
                forall|j: int|
                    0 <= j < all.len() && (#[trigger] all[j].1) is Parsed
                        ==> all[j].1->Parsed_0.wf(),
                refusals(refused@, all.take(i)),
                self.config@ == loaded_with(start.config@, all.take(i)),
                self.config.paths() == paths_with(start.config.paths(), all.take(i)),
                self.supervisor.log_dir == log_dir_with(
                    start.supervisor.log_dir,
                    all.take(i),
                ),
                self.supervisor.loki == (start.supervisor.loki || some_ship(all.take(i))),
            decreases left.len(),
        {
            let ghost before = refused@;
            let (path, source) = left.remove(0);
            proof {
                assert(all.take(i + 1).drop_last() =~= all.take(i));
                assert(all.take(i + 1).last() == all[i]);
                assert(all[i] == (path, source));
                assert(left@ =~= all.skip(i + 1));
                assert(forall|j: int| 0 <= j < i ==> all.take(i + 1)[j] == all.take(i)[j]);
                if some_ship(all.take(i)) {
                    let j = choose|j: int|
                        0 <= j < all.take(i).len() && (#[trigger] all.take(i)[j].1) is Parsed
                            && all.take(i)[j].1->Parsed_0.settings.loki is Some;
                    assert(all.take(i + 1)[j].1 is Parsed);
                }
                assert(all.take(i + 1)[i].1 == source);
                if some_ship(all.take(i + 1)) && !some_ship(all.take(i)) {
                    let j = choose|j: int|
                        0 <= j < all.take(i + 1).len() && (#[trigger] all.take(i + 1)[j].1)
                            is Parsed && all.take(i + 1)[j].1->Parsed_0.settings.loki is Some;
                    if j < i {
                        assert(all.take(i)[j].1 is Parsed);
                    }
                }
            }
            match self.restore_config(path.as_str(), source) {
                Ok(_) => refused.push(None),
                Err(e) => refused.push(Some(e)),
            }
            proof {
                assert forall|j: int| 0 <= j < refused@.len() implies match #[trigger] refused@[j] {
                    None => all.take(i + 1)[j].1 is Parsed,
                    Some(e) => load_failure(all.take(i + 1)[j].0@, all.take(i + 1)[j].1, e),
                } by {
                    if j < i {
                        assert(refused@[j] == before[j]);
                    }
                }
                i = i + 1;
            }
        }
        let ghost loaded = *self;
        let pruned = self.reconcile();
        proof {
            assert(all.take(i) =~= all);
            let scripts = start.state.scripts@;
            let core = DaemonCore { config: loaded.config, ..start };
            lemma_same_configs(loaded, core, scripts);
            assert forall|name: Seq<char>| #[trigger]
                self.recalled(name) == (if self.orphan(name) {
                    None
                } else {
                    start.recalled(name)
                }) by {
                law_reconcile_keeps_the_configured(loaded, scripts, name);
            }
            assert forall|name: Seq<char>| #[trigger]
                self.health@.contains_key(name) == (if self.orphan(name) {
                    start.health@.contains_key(name) && start.recalled(name) is None
                } else {
                    start.health@.contains_key(name) || start.recalled(name) is Some
                }) by {
                lemma_restored_health(loaded, scripts, name);
            }
        }
        Restoration { refused, pruned }
    }

    /// The remembered scripts that are started again, each with its configuration.
    pub fn scripts_to_restore(&self) -> (r: Vec<(String, String)>)
        requires
            self.wf(),
        ensures
            pairs(r@) == self.restored(self.state.scripts@),
    {
        let mut out: Vec<(String, String)> = Vec::new();
        let mut i: usize = 0;
        let ghost all = self.state.scripts@;
        assert(pairs(out@) =~= self.restored(all.take(0)));
        while i < self.state.scripts.len()
            invariant
                self.wf(),
                all == self.state.scripts@,
                i <= all.len(),
                pairs(out@) == self.restored(all.take(i as int)),
            decreases self.state.scripts.len() - i,
        {
            assert(all.take(i as int + 1).drop_last() =~= all.take(i as int));
            let script = &self.state.scripts[i];
            if script.status == ProcessStatus::Running && !script.explicitly_stopped {
                if let Some(path) = &script.config_path {
                    if self.config.has_script(path.as_str(), script.name.as_str()) {
                        let ghost before = out@;
                        out.push((path.clone(), script.name.clone()));
                        assert(pairs(out@) =~= pairs(before).push((path@, script.name@)));
                    }
                }
            }
            i = i + 1;
        }
        assert(all.take(i as int) =~= all);
        out
    }

    /// The scripts that are to wait for their schedules: all that have one, do
    /// not wait yet and were not stopped on purpose, whether they run or not.
    /// Each comes with its expression.
    pub fn schedules_to_restore(&self) -> (r: Vec<(String, String)>)
        requires
            self.wf(),
        ensures
            pairs(r@) == self.due_in(self.config.configs()),
    {
        let mut out: Vec<(String, String)> = Vec::new();
        let mut i: usize = 0;
        let n = self.config.len();
        let ghost all = self.config.configs();
        assert(pairs(out@) =~= self.due_in(all.take(0)));
        while i < n
            invariant
                self.wf(),
                all == self.config.configs(),
                n == all.len(),
                i <= n,
                pairs(out@) == self.due_in(all.take(i as int)),
            decreases n - i,
        {
            proof {
                assert(all.take(i as int + 1).drop_last() =~= all.take(i as int));
                assert(self.config.configs()[i as int].wf());
            }
            let config = self.config.config_at(i);
            self.add_due(config, &mut out);
            i = i + 1;
        }
        assert(all.take(i as int) =~= all);
        out
    }

    /// Adds the scripts of one configuration that are to wait for their schedules.
    fn add_due(&self, config: &Config, out: &mut Vec<(String, String)>)
        requires
            self.wf(),
            config.wf(),
        ensures
            pairs(final(out)@) == pairs(old(out)@) + self.due_of(*config, config.scripts.names()),
    {
        let ghost start = pairs(out@);
        let ghost names = config.scripts.names();
        let mut j: usize = 0;
        let n = config.scripts.len();
        assert(pairs(out@) =~= start + self.due_of(*config, names.take(0)));
        while j < n
            invariant
                self.wf(),
                config.wf(),
                names == config.scripts.names(),
                n == names.len(),
                j <= n,
                pairs(out@) == start + self.due_of(*config, names.take(j as int)),
            decreases n - j,
        {
            proof {
                assert(names.take(j as int + 1).drop_last() =~= names.take(j as int));
                config.scripts.lemma_at(j as int);
            }
            let name = config.scripts.name_at(j);
            if let Some(expression) = &config.scripts.value_at(j).cron {
                let stopped = match self.state.find(name.as_str()) {
                    Some(script) => script.explicitly_stopped,
                    None => false,
                };
                if !self.cron.is_scheduled(name.as_str()) && !stopped {
                    let ghost before = out@;
                    out.push((name.clone(), expression.clone()));
                    proof {
                        assert(pairs(out@) =~= pairs(before).push((name@, expression@)));
                        assert(pairs(out@) =~= start + self.due_of(
                            *config,
                            names.take(j as int),
                        ).push((name@, expression@)));
                    }
                }
            }
            j = j + 1;
        }
        assert(names.take(j as int) =~= names);
    }
}

/// The texts of a list of pairs.
pub open spec fn pairs(v: Seq<(String, String)>) -> Seq<(Seq<char>, Seq<char>)> {
    v.map_values(|p: (String, String)| (p.0@, p.1@))
}

/// Whether one of some paths has the same components as another.
fn path_listed(paths: &Vec<String>, path: &str) -> (r: bool)
    ensures
        r == has_key(texts(paths@), key(path@)),
{
    let mut i: usize = 0;
    while i < paths.len()
        invariant
            i <= paths@.len(),
            forall|j: int| 0 <= j < i ==> key(#[trigger] texts(paths@)[j]) != key(path@),
        decreases paths.len() - i,
    {
        assert(texts(paths@)[i as int] == paths@[i as int]@);
        if same_path(paths[i].as_str(), path) {
            return true;
        }
        i = i + 1;
    }
    false
}

/// What is kept of a list is configured, and was in the list.
proof fn lemma_kept(core: DaemonCore, scripts: Seq<ScriptState>)
    ensures
        forall|i: int|
            0 <= i < core.kept(scripts).len() ==> !core.orphan(
                (#[trigger] core.kept(scripts)[i]).name@,
            ),
    decreases scripts.len(),
{
    if scripts.len() > 0 {
        lemma_kept(core, scripts.drop_last());
    }
}

/// What is remembered of a configured script is kept as it is; of no other
/// script anything is kept.
pub proof fn law_reconcile_keeps_the_configured(
    core: DaemonCore,
    scripts: Seq<ScriptState>,
    name: Seq<char>,
)
    ensures
        recall(core.kept(scripts), name) == (if core.orphan(name) {
            None
        } else {
            recall(scripts, name)
        }),
    decreases scripts.len(),
{
    let kept = core.kept(scripts);
    lemma_kept(core, scripts);
    if core.orphan(name) {
        lemma_first_named(kept, name);
        let f = first_named(kept, name);
        if f < kept.len() {
            assert(!core.orphan(kept[f].name@));
        }
    } else if scripts.len() > 0 {
        let front = scripts.drop_last();
        law_reconcile_keeps_the_configured(core, front, name);
        lemma_recall_in_two(front, scripts.last(), name);
        assert(front.push(scripts.last()) =~= scripts);
        if !core.orphan(scripts.last().name@) {
            lemma_recall_in_two(core.kept(front), scripts.last(), name);
        }
    }
}

/// What a list with one more entry remembers of a script.
proof fn lemma_recall_in_two(front: Seq<ScriptState>, last: ScriptState, name: Seq<char>)
    ensures
        recall(front.push(last), name) == (if recall(front, name) is Some {
            recall(front, name)
        } else if last.name@ == name {
            Some(last)
        } else {
            None
        }),
{
    let list = front.push(last);
    let g = first_named(front, name);
    lemma_first_named(front, name);
    assert forall|j: int| 0 <= j < g implies (#[trigger] list[j]).name@ != name by {
        assert(front[j] == list[j]);
    }
    if g < front.len() {
        assert(front[g] == list[g]);
        lemma_first_named_is(list, name, g);
    } else if last.name@ == name {
        lemma_first_named_is(list, name, g);
    } else {
        assert forall|j: int| 0 <= j < list.len() implies (#[trigger] list[j]).name@ != name by {
            if j < g {
                assert(front[j] == list[j]);
            }
        }
        lemma_first_named_is(list, name, list.len() as int);
    }
}

/// The paths of the loaded configurations tell which configurations are loaded.
proof fn lemma_loaded_keys(config: ConfigManager, k: PathKey)
    ensures
        config@.contains_key(k) == has_key(config.paths(), k),
{
    if config@.contains_key(k) {
        let i = config.keys().index_of(k);
        assert(key(config.paths()[i]) == k);
    }
    if has_key(config.paths(), k) {
        let i = choose|i: int|
            0 <= i < config.paths().len() && key(#[trigger] config.paths()[i]) == k;
        assert(config.keys()[i] == k);
    }
}

/// What becomes of what is remembered rests on the configurations, and of
/// health besides on the health that was noted.
proof fn lemma_same_configs(a: DaemonCore, b: DaemonCore, scripts: Seq<ScriptState>)
    requires
        a.config == b.config,
        a.health == b.health,
    ensures
        a.kept(scripts) == b.kept(scripts),
        a.pruned(scripts) == b.pruned(scripts),
        a.restored_health(scripts) == b.restored_health(scripts),
    decreases scripts.len(),
{
    if scripts.len() > 0 {
        lemma_same_configs(a, b, scripts.drop_last());
    }
}

/// Of which scripts health is noted once the remembered ones have been gone through.
proof fn lemma_restored_health(core: DaemonCore, scripts: Seq<ScriptState>, name: Seq<char>)
    ensures
        core.restored_health(scripts).contains_key(name) == (if core.orphan(name) {
            core.health@.contains_key(name) && recall(scripts, name) is None
        } else {
            core.health@.contains_key(name) || recall(scripts, name) is Some
        }),
    decreases scripts.len(),
{
    if scripts.len() > 0 {
        let front = scripts.drop_last();
        lemma_restored_health(core, front, name);
        lemma_recall_in_two(front, scripts.last(), name);
        assert(front.push(scripts.last()) =~= scripts);
    } else {
        lemma_first_named(scripts, name);
    }
}

/// When a daemon that has noted no health yet has gone through what it
/// remembers, it reports the health of just the scripts that are remembered and
/// configured.
pub proof fn law_reconciled_health(core: DaemonCore, scripts: Seq<ScriptState>, name: Seq<char>)
    requires
        core.health@ == Map::<Seq<char>, ScriptHealth>::empty(),
    ensures
        core.restored_health(scripts).contains_key(name) == (!core.orphan(name) && recall(
            scripts,
            name,
        ) is Some),
{
    lemma_restored_health(core, scripts, name);
}

/// Going through a state a second time forgets nothing more.
pub proof fn law_reconcile_once(core: DaemonCore, scripts: Seq<ScriptState>)
    ensures
        core.kept(core.kept(scripts)) == core.kept(scripts),
        core.pruned(core.kept(scripts)).len() == 0,
    decreases scripts.len(),
{
    if scripts.len() > 0 {
        let front = scripts.drop_last();
        law_reconcile_once(core, front);
        if !core.orphan(scripts.last().name@) {
            assert(core.kept(scripts).drop_last() =~= core.kept(front));
        }
    }
}

/// A script that was stopped on purpose is not started again, and does not
/// wait for its schedule.
pub proof fn law_stopped_on_purpose_stays_stopped(
    core: DaemonCore,
    script: ScriptState,
    config: Config,
)
    requires
        core.recalled(script.name@) == Some(script),
        script.explicitly_stopped,
    ensures
        !core.restorable(script),
        !core.due(config, script.name@),
{
}

/// The scripts that are started again are just the remembered ones that were
/// running, were not stopped on purpose and are still configured.
pub proof fn law_restores_just_the_restorable(
    core: DaemonCore,
    scripts: Seq<ScriptState>,
    config_path: Seq<char>,
    name: Seq<char>,
)
    ensures
        core.restored(scripts).contains((config_path, name)) <==> exists|i: int|
            0 <= i < scripts.len() && core.restorable(#[trigger] scripts[i])
                && scripts[i].config_path->0@ == config_path && scripts[i].name@ == name,
    decreases scripts.len(),
{
    let outer = core.restored(scripts);
    if scripts.len() > 0 {
        let front = scripts.drop_last();
        let inner = core.restored(front);
        law_restores_just_the_restorable(core, front, config_path, name);
        if outer.contains((config_path, name)) {
            let k = outer.index_of((config_path, name));
            if k < inner.len() {
                assert(inner[k] == (config_path, name));
                let i = choose|i: int|
                    0 <= i < front.len() && core.restorable(#[trigger] front[i])
                        && front[i].config_path->0@ == config_path && front[i].name@ == name;
                assert(scripts[i] == front[i]);
            } else {
                assert(core.restorable(scripts[scripts.len() - 1]));
            }
        }
        if exists|i: int|
            0 <= i < scripts.len() && core.restorable(#[trigger] scripts[i])
                && scripts[i].config_path->0@ == config_path && scripts[i].name@ == name {
            let i = choose|i: int|
                0 <= i < scripts.len() && core.restorable(#[trigger] scripts[i])
                    && scripts[i].config_path->0@ == config_path && scripts[i].name@ == name;
            if i < front.len() {
                assert(front[i] == scripts[i]);
                let k = inner.index_of((config_path, name));
                assert(outer[k] == (config_path, name));
            } else {
                assert(outer[outer.len() - 1] == (config_path, name));
            }
        }
    }
}

/// A script of a configuration that is to wait for its schedule is among those
/// that are found.
proof fn lemma_due_of(core: DaemonCore, config: Config, names: Seq<Seq<char>>, j: int)
    requires
        0 <= j < names.len(),
        core.due(config, names[j]),
    ensures
        core.due_of(config, names).contains((names[j], config.scripts@[names[j]].cron->0@)),
    decreases names.len(),
{
    let entry = (names[j], config.scripts@[names[j]].cron->0@);
    let outer = core.due_of(config, names);
    if j == names.len() - 1 {
        assert(outer[outer.len() - 1] == entry);
    } else {
        let front = names.drop_last();
        assert(front[j] == names[j]);
        lemma_due_of(core, config, front, j);
        let k = core.due_of(config, front).index_of(entry);
        assert(outer[k] == entry);
    }
}

/// After a restart of the daemon every script that has a schedule waits for
/// it, whether it runs or not, unless it was stopped on purpose.
pub proof fn law_schedules_come_back(
    core: DaemonCore,
    configs: Seq<Config>,
    i: int,
    name: Seq<char>,
)
    requires
        0 <= i < configs.len(),
        configs[i].wf(),
        configs[i].scripts@.contains_key(name),
        configs[i].scripts@[name].cron is Some,
        !core.cron.scheduled(name),
        !core.stopped_on_purpose(name),
    ensures
        core.due_in(configs).contains((name, configs[i].scripts@[name].cron->0@)),
    decreases configs.len(),
{
    let entry = (name, configs[i].scripts@[name].cron->0@);
    let outer = core.due_in(configs);
    let front = configs.drop_last();
    let inner = core.due_in(front);
    if i == configs.len() - 1 {
        let names = configs[i].scripts.names();
        let j = names.index_of(name);
        assert(names.contains(name));
        lemma_due_of(core, configs[i], names, j);
        let k = core.due_of(configs[i], names).index_of(entry);
        assert(outer[inner.len() + k] == entry);
    } else {
        assert(front[i] == configs[i]);
        law_schedules_come_back(core, front, i, name);
        let k = inner.index_of(entry);
        assert(outer[k] == entry);
    }
}

/// Going through what is remembered keeps names apart.
pub proof fn law_reconcile_keeps_distinct(core: DaemonCore, scripts: Seq<ScriptState>)
    requires
        distinct(scripts),
    ensures
        distinct(core.kept(scripts)),
    decreases scripts.len(),
{
    if scripts.len() > 0 {
        let front = scripts.drop_last();
        assert(distinct(front)) by {
            assert forall|i: int, j: int| 0 <= i < j < front.len() implies (
            #[trigger] front[i]).name@ != (#[trigger] front[j]).name@ by {
                assert(front[i] == scripts[i] && front[j] == scripts[j]);
            }
        }
        law_reconcile_keeps_distinct(core, front);
        let inner = core.kept(front);
        let outer = core.kept(scripts);
        let last = scripts.last();
        if !core.orphan(last.name@) {
            assert forall|i: int, j: int| 0 <= i < j < outer.len() implies (
            #[trigger] outer[i]).name@ != (#[trigger] outer[j]).name@ by {
                assert(inner[i] == outer[i]);
                if j < inner.len() {
                    assert(inner[j] == outer[j]);
                } else {
                    law_reconcile_keeps_the_configured(core, front, last.name@);
                    lemma_first_named(front, last.name@);
                    let f = first_named(front, last.name@);
                    if f < front.len() {
                        assert(scripts[f] == front[f]);
                        assert(scripts[f].name@ != scripts[scripts.len() - 1].name@);
                    }
                    lemma_first_named(inner, last.name@);
                    assert(first_named(inner, last.name@) == inner.len());
                }
            }
        }
    }
}

/// A remembered script is started again from its configuration just if it was
/// running, was not stopped on purpose, and its configuration is loaded and has it.
pub proof fn law_running_scripts_come_back(
    core: DaemonCore,
    scripts: Seq<ScriptState>,
    path: Seq<char>,
    name: Seq<char>,
)
    ensures
        core.restored(scripts).contains((path, name)) <==> exists|i: int|
            0 <= i < scripts.len() && (#[trigger] scripts[i]).status is Running
                && !scripts[i].explicitly_stopped && scripts[i].config_path is Some
                && scripts[i].config_path->0@ == path && scripts[i].name@ == name
                && core.config@.contains_key(key(path)) && core.config@[key(
                path,
            )].scripts@.contains_key(name),
{
    law_restores_just_the_restorable(core, scripts, path, name);
    if core.restored(scripts).contains((path, name)) {
        let i = choose|i: int|
            0 <= i < scripts.len() && core.restorable(#[trigger] scripts[i])
                && scripts[i].config_path->0@ == path && scripts[i].name@ == name;
        assert(scripts[i].status is Running);
    }
    if exists|i: int|
        0 <= i < scripts.len() && (#[trigger] scripts[i]).status is Running
            && !scripts[i].explicitly_stopped && scripts[i].config_path is Some
            && scripts[i].config_path->0@ == path && scripts[i].name@ == name
            && core.config@.contains_key(key(path)) && core.config@[key(
            path,
        )].scripts@.contains_key(name) {
        let i = choose|i: int|
            0 <= i < scripts.len() && (#[trigger] scripts[i]).status is Running
                && !scripts[i].explicitly_stopped && scripts[i].config_path is Some
                && scripts[i].config_path->0@ == path && scripts[i].name@ == name
                && core.config@.contains_key(key(path)) && core.config@[key(
                path,
            )].scripts@.contains_key(name);
        assert(core.restorable(scripts[i]));
    }
}

/// A script is to wait for a schedule after a restart of the daemon just if one
/// of the configurations gives it that schedule, it does not wait already, and it is
/// not remembered as stopped on purpose.
pub proof fn law_schedules_taken_up(
    core: DaemonCore,
    configs: Seq<Config>,
    name: Seq<char>,
    expression: Seq<char>,
)
    requires
        forall|i: int| 0 <= i < configs.len() ==> (#[trigger] configs[i]).wf(),
    ensures
        core.due_in(configs).contains((name, expression)) <==> {
            &&& !core.cron.tasks@.contains_key(name)
            &&& core.recalled(name) is None || !core.recalled(name)->0.explicitly_stopped
            &&& exists|i: int|
                0 <= i < configs.len() && (#[trigger] configs[i]).scripts@.contains_key(name)
                    && configs[i].scripts@[name].cron is Some
                    && configs[i].scripts@[name].cron->0@ == expression
        },
    decreases configs.len(),
{
    if core.due_in(configs).contains((name, expression)) {
        lemma_due_in_back(core, configs, name, expression);
    }
    if !core.cron.tasks@.contains_key(name) && (core.recalled(name) is None || !core.recalled(
        name,
    )->0.explicitly_stopped) && exists|i: int|
        0 <= i < configs.len() && (#[trigger] configs[i]).scripts@.contains_key(name)
            && configs[i].scripts@[name].cron is Some && configs[i].scripts@[name].cron->0@
            == expression {
        let i = choose|i: int|
            0 <= i < configs.len() && (#[trigger] configs[i]).scripts@.contains_key(name)
                && configs[i].scripts@[name].cron is Some && configs[i].scripts@[name].cron->0@
                == expression;
        law_schedules_come_back(core, configs, i, name);
    }
}

/// What is found to wait for its schedule is due in one of the configurations.
proof fn lemma_due_in_back(
    core: DaemonCore,
    configs: Seq<Config>,
    name: Seq<char>,
    expression: Seq<char>,
)
    requires
        forall|i: int| 0 <= i < configs.len() ==> (#[trigger] configs[i]).wf(),
        core.due_in(configs).contains((name, expression)),
    ensures
        exists|i: int|
            0 <= i < configs.len() && (#[trigger] configs[i]).scripts@.contains_key(name)
                && configs[i].scripts@[name].cron is Some && configs[i].scripts@[name].cron->0@
                == expression && core.due(configs[i], name),
    decreases configs.len(),
{
    let entry = (name, expression);
    let front = configs.drop_last();
    let inner = core.due_in(front);
    let last = configs[configs.len() - 1];
    let names = last.scripts.names();
    let k = core.due_in(configs).index_of(entry);
    if k < inner.len() {
        assert(inner[k] == entry);
        assert forall|i: int| 0 <= i < front.len() implies (#[trigger] front[i]).wf() by {
            assert(front[i] == configs[i]);
        }
        lemma_due_in_back(core, front, name, expression);
        let i = choose|i: int|
            0 <= i < front.len() && (#[trigger] front[i]).scripts@.contains_key(name)
                && front[i].scripts@[name].cron is Some && front[i].scripts@[name].cron->0@
                == expression && core.due(front[i], name);
        assert(configs[i] == front[i]);
    } else {
        assert(core.due_of(last, names)[k - inner.len()] == entry);
        lemma_due_of_back(core, last, names, name, expression);
        assert(last.scripts@.contains_key(name));
    }
}

/// What is found to wait in one configuration is one of its scripts, and due.
proof fn lemma_due_of_back(
    core: DaemonCore,
    config: Config,
    names: Seq<Seq<char>>,
    name: Seq<char>,
    expression: Seq<char>,
)
    requires
        core.due_of(config, names).contains((name, expression)),
    ensures
        names.contains(name),
        core.due(config, name),
        config.scripts@[name].cron->0@ == expression,
    decreases names.len(),
{
    let entry = (name, expression);
    let outer = core.due_of(config, names);
    let k = outer.index_of(entry);
    let front = names.drop_last();
    let inner = core.due_of(config, front);
    if k < inner.len() {
        assert(inner[k] == entry);
        lemma_due_of_back(core, config, front, name, expression);
        assert(names[front.index_of(name)] == name);
    } else {
        assert(names[names.len() - 1] == name);
    }
}

/// A script with a schedule whose process ended by itself, well or not, is run
/// on its schedule again after a restart of the daemon: where the daemon then
/// remembers it as it was remembered at that end, it is to wait for its schedule.
pub proof fn law_schedule_outlives_exit(
    before: DaemonCore,
    after: DaemonCore,
    name: String,
    status: Option<ExitStatus>,
    now: Timestamp,
    restarted: DaemonCore,
    i: int,
)
    requires
        before.notes_exit(after, name, status, now),
        before.supervisor.processes@.contains_key(name@),
        restarted.wf(),
        restarted.recalled(name@) == after.recalled(name@),
        !restarted.cron.tasks@.contains_key(name@),
        0 <= i < restarted.config.configs().len(),
        restarted.config.configs()[i].scripts@.contains_key(name@),
        restarted.config.configs()[i].scripts@[name@].cron is Some,
    ensures
        restarted.due_in(restarted.config.configs()).contains(
            (name@, restarted.config.configs()[i].scripts@[name@].cron->0@),
        ),
{
    law_exit_is_remembered(before, after, name, status, now);
    let configs = restarted.config.configs();
    assert(configs[i].scripts@[name@].cron->0@ == configs[i].scripts@[name@].cron->0@);
    law_schedules_taken_up(restarted, configs, name@, configs[i].scripts@[name@].cron->0@);
}

/// Just the names of those remembered scripts that no loaded configuration has
/// are told to be forgotten.
pub proof fn law_pruned_just_the_orphans(
    core: DaemonCore,
    scripts: Seq<ScriptState>,
    name: Seq<char>,
)
    requires
        core.wf(),
    ensures
        core.pruned(scripts).contains(name) <==> {
            &&& exists|i: int| 0 <= i < scripts.len() && (#[trigger] scripts[i]).name@ == name
            &&& forall|path: Seq<char>| !(#[trigger] core.config.has(path, name))
        },
    decreases scripts.len(),
{
    law_configured(core.config, name);
    if scripts.len() > 0 {
        let front = scripts.drop_last();
        let inner = core.pruned(front);
        let outer = core.pruned(scripts);
        law_pruned_just_the_orphans(core, front, name);
        if outer.contains(name) {
            let k = outer.index_of(name);
            if k < inner.len() {
                assert(inner[k] == name);
                let i = choose|i: int|
                    0 <= i < front.len() && (#[trigger] front[i]).name@ == name;
                assert(scripts[i] == front[i]);
            } else {
                assert(scripts[scripts.len() - 1].name@ == name);
            }
        }
        if core.orphan(name) && exists|i: int|
            0 <= i < scripts.len() && (#[trigger] scripts[i]).name@ == name {
            let i = choose|i: int| 0 <= i < scripts.len() && (#[trigger] scripts[i]).name@ == name;
            if i < front.len() {
                assert(front[i] == scripts[i]);
                assert(inner.contains(name));
                let k = inner.index_of(name);
                assert(outer[k] == name);
            } else {
                assert(outer[outer.len() - 1] == name);
            }
        }
    }
}

/// Each configuration under which a script is remembered is read once.
pub proof fn law_each_config_is_read(scripts: Seq<ScriptState>, i: int)
    requires
        0 <= i < scripts.len(),
    ensures
        scripts[i].config_path is Some ==> exists|j: int|
            0 <= j < config_paths(scripts).len() && key(#[trigger] config_paths(scripts)[j])
                == key(scripts[i].config_path->0@),
        forall|j: int, k: int|
            0 <= j < k < config_paths(scripts).len() ==> key(#[trigger] config_paths(scripts)[j])
                != key(#[trigger] config_paths(scripts)[k]),
{
    lemma_config_paths(scripts);
    if scripts[i].config_path is Some {
        assert(has_key(config_paths(scripts), key(scripts[i].config_path->0@)));
    }
}

/// The configurations of some scripts are all found, none of them twice.
proof fn lemma_config_paths(scripts: Seq<ScriptState>)
    ensures
        forall|i: int|
            0 <= i < scripts.len() && (#[trigger] scripts[i]).config_path is Some ==> has_key(
                config_paths(scripts),
                key(scripts[i].config_path->0@),
            ),
        forall|j: int, k: int|
            0 <= j < k < config_paths(scripts).len() ==> key(#[trigger] config_paths(scripts)[j])
                != key(#[trigger] config_paths(scripts)[k]),
    decreases scripts.len(),
{
    if scripts.len() > 0 {
        let front = scripts.drop_last();
        let inner = config_paths(front);
        let outer = config_paths(scripts);
        lemma_config_paths(front);
        assert forall|i: int|
            0 <= i < scripts.len() && (
            #[trigger] scripts[i]).config_path is Some implies has_key(
            outer,
            key(scripts[i].config_path->0@),
        ) by {
            let k = key(scripts[i].config_path->0@);
            if i < front.len() {
                assert(front[i] == scripts[i]);
                assert(has_key(inner, k));
                let j = choose|j: int| 0 <= j < inner.len() && key(#[trigger] inner[j]) == k;
                assert(outer[j] == inner[j]);
            } else if !has_key(inner, k) {
                assert(key(outer[outer.len() - 1]) == k);
            }
        }
        assert forall|j: int, k: int| 0 <= j < k < outer.len() implies key(#[trigger] outer[j])
            != key(#[trigger] outer[k]) by {
            assert(outer[j] == inner[j]);
            if k < inner.len() {
                assert(outer[k] == inner[k]);
            } else if key(outer[j]) == key(outer[k]) {
                assert(has_key(inner, key(outer[k])));
            }
        }
    }
}

/// A configuration that could be read is loaded under its path, over any other
/// one there, and its directory for logs is taken over; one that could not be read
/// changes nothing. What stands under other paths is not touched.
pub proof fn law_loaded_with(
    configs: Map<PathKey, Config>,
    log_dir: String,
    sources: Seq<(String, ConfigSource)>,
    path: String,
    source: ConfigSource,
    other: PathKey,
)
    ensures
        ({
            let before = loaded_with(configs, sources);
            let more = sources.push((path, source));
            let after = loaded_with(configs, more);
            match source {
                ConfigSource::Parsed(config) => {
                    &&& after.contains_key(key(path@))
                    &&& after[key(path@)] == config
                    &&& log_dir_with(log_dir, more) == config.settings.log_dir
                    &&& other != key(path@) ==> after.contains_key(other) == before.contains_key(
                        other,
                    )
                    &&& other != key(path@) && before.contains_key(other) ==> after[other]
                        == before[other]
                },
                _ => {
                    &&& after == before
                    &&& log_dir_with(log_dir, more) == log_dir_with(log_dir, sources)
                },
            }
        }),
        loaded_with(configs, Seq::empty()) == configs,
        log_dir_with(log_dir, Seq::empty()) == log_dir,
{
    let more = sources.push((path, source));
    assert(more.drop_last() =~= sources);
    assert(more.last() == (path, source));
}

/// The health that is reported of a script after a restart of the daemon is
/// told by what is remembered of it: not healthy just if it is remembered as failed,
/// or as stopped with a code other than zero.
pub proof fn law_health_comes_back(
    core: DaemonCore,
    scripts: Seq<ScriptState>,
    name: Seq<char>,
    i: int,
)
    requires
        distinct(scripts),
        0 <= i < scripts.len(),
        scripts[i].name@ == name,
        core.config.configured(name),
    ensures
        core.restored_health(scripts).contains_key(name),
        ({
            let h = core.restored_health(scripts)[name];
            let failed = scripts[i].status is Failed || (scripts[i].status is Stopped
                && scripts[i].exit_code is Some && scripts[i].exit_code->0 != 0);
            &&& h.name == scripts[i].name
            &&& h.healthy == !failed
            &&& h.state is Failed == failed
            &&& h.state is Running == scripts[i].status is Running
            &&& h.last_exit_code == scripts[i].exit_code
            &&& h.last_run_at == scripts[i].last_started
            &&& h.last_finished_at == scripts[i].last_stopped
            &&& h.restart_count == scripts[i].restart_count
        }),
{
    lemma_restored_value(core, scripts, i);
    law_remembered_health(scripts[i]);
}

/// The health of a script that occurs once is that of its entry.
proof fn lemma_restored_value(core: DaemonCore, scripts: Seq<ScriptState>, i: int)
    requires
        distinct(scripts),
        0 <= i < scripts.len(),
        !core.orphan(scripts[i].name@),
    ensures
        core.restored_health(scripts).contains_key(scripts[i].name@),
        core.restored_health(scripts)[scripts[i].name@] == remembered_health(scripts[i]),
    decreases scripts.len(),
{
    if i < scripts.len() - 1 {
        let front = scripts.drop_last();
        assert(distinct(front)) by {
            assert forall|a: int, b: int| 0 <= a < b < front.len() implies (
            #[trigger] front[a]).name@ != (#[trigger] front[b]).name@ by {
                assert(front[a] == scripts[a] && front[b] == scripts[b]);
            }
        }
        assert(front[i] == scripts[i]);
        lemma_restored_value(core, front, i);
        assert(scripts[i].name@ != scripts[scripts.len() - 1].name@);
    }
}

} // verus!
