//! How the daemon carries out several steps in a row.
//!
//! A runner says what is to be done outside of the core (ask for a process,
//! launch one, save the state, end a process) and is told what came of it. A step
//! that fails ends the run where it is required, and else is passed over.
use crate::common::error::Error;
use crate::daemon::commands::ReloadStep;
use crate::daemon::daemon_core::{CronTick, DaemonCore};
use crate::daemon::process::ScriptStartResult;
use crate::daemon::process_supervisor::{stop_action, StopAction};
use crate::daemon::scheduler::{cron_complaint, cron_reading};
use crate::time::Timestamp;
use vstd::pervasive::unreached;
use vstd::prelude::*;

verus! {

/// Something that is done about a script.
#[derive(Debug)]
pub enum Step {
    /// Start the script from a configuration.
    Start { config_path: String, name: String },
    /// Stop the script.
    Stop { name: String },
    /// Let the script wait for no schedule.
    Unschedule { name: String },
    /// Forget the script.
    Forget { name: String },
    /// Let the script wait for a schedule.
    Schedule { name: String, expression: String },
    /// Start the script again after it failed and waited.
    Restart { name: String, restart_count: u32 },
    /// Start the script because its schedule is due.
    Tick { name: String },
}

/// A step, and whether the run ends where it fails.
#[derive(Debug)]
pub struct Task {
    pub step: Step,
    pub required: bool,
}

/// How far a step has come.
#[derive(Debug)]
pub enum Stage {
    /// It has not begun.
    Ready,
    /// It waits for word of the script's process, to start the script.
    Probing,
    /// It waits for the script to be launched.
    Launching { config_path: String, restart_count: u32 },
    /// It waits for the state to be saved after a start.
    SavingStart { config_path: String },
    /// It waits for the state to be saved before a stop.
    SavingStop,
    /// It waits for word of the script's process, to stop the script.
    ProbingStop,
    /// It waits for the script's process to end.
    Halting,
    /// It waits for the state to be saved after a script was forgotten.
    SavingForget,
    /// The run is over.
    Finished,
}

/// What is to be done next outside of the core.
#[derive(Debug)]
pub enum Work {
    /// Nothing: begin the next step.
    Continue,
    /// Ask whether a process is alive. No process has the number zero.
    Probe { pid: u32 },
    /// Launch a script from a configuration.
    Launch { config_path: String, name: String },
    /// Save the state.
    Save,
    /// Do what must be done about a process that is stopped.
    Halt { name: String, action: StopAction },
    /// Nothing: the run is over.
    Finished(Result<(), Error>),
}

/// One turn of a run.
#[derive(Debug)]
pub struct Turn {
    pub work: Work,
    /// The script for whose output a new channel is opened.
    pub opened: Option<String>,
}

/// Steps that are carried out in order.
#[derive(Debug)]
pub struct Runner {
    pub tasks: Vec<Task>,
    pub at: usize,
    pub stage: Stage,
}

impl DaemonCore {
    /// The number of the process of a script, or zero where it has none.
    pub open spec fn pid_of(self, name: Seq<char>) -> u32 {
        match self.supervisor.process(name) {
            Some(p) => p.pid,
            None => 0,
        }
    }

    /// The number of the process of a script, or zero where it has none.
    pub fn pid(&self, name: &str) -> (r: u32)
        requires
            self.wf(),
        ensures
            r == self.pid_of(name@),
    {
        match self.supervisor.get(name) {
            Some(p) => p.pid,
            None => 0,
        }
    }

    /// Whether this core becomes the other when a script waits for the schedule
    /// of an expression, in place of any other.
    pub open spec fn reschedules(
        self,
        after: Self,
        name: Seq<char>,
        expression: Seq<char>,
    ) -> bool {
        &&& after == (DaemonCore { cron: after.cron, ..self })
        &&& after.cron.tasks@.remove(name) == self.cron.tasks@.remove(name)
        &&& after.cron.scheduled(name) == (cron_complaint(expression) is None)
        &&& after.cron.scheduled(name) ==> after.cron.tasks@[name]@ == expression
    }
}

impl Turn {
    /// A turn without a new channel.
    fn quiet(work: Work) -> (r: Self)
        ensures
            r == (Turn { work, opened: None }),
    {
        Turn { work, opened: None }
    }
}

impl Runner {
    /// The step that is carried out.
    pub open spec fn step(self) -> Step {
        self.tasks@[self.at as int].step
    }

    /// The stage fits the step.
    pub open spec fn wf(self) -> bool {
        &&& self.at <= self.tasks@.len()
        &&& match self.stage {
            Stage::Ready => true,
            Stage::Finished => true,
            Stage::Probing => self.at < self.tasks@.len() && (self.step() is Start || self.step()
                is Tick),
            Stage::Launching { config_path, restart_count } => self.at < self.tasks@.len() && (
            self.step() is Start || self.step() is Tick || self.step() is Restart),
            Stage::SavingStart { config_path } => self.at < self.tasks@.len() && (self.step()
                is Start || self.step() is Tick || self.step() is Restart),
            Stage::SavingStop => self.at < self.tasks@.len() && self.step() is Stop,
            Stage::ProbingStop => self.at < self.tasks@.len() && self.step() is Stop,
            Stage::Halting => self.at < self.tasks@.len() && self.step() is Stop,
            Stage::SavingForget => self.at < self.tasks@.len() && self.step() is Forget,
        }
    }

    /// The name of the script of a step.
    pub open spec fn script(self) -> String {
        match self.step() {
            Step::Start { config_path, name } => name,
            Step::Stop { name } => name,
            Step::Unschedule { name } => name,
            Step::Forget { name } => name,
            Step::Schedule { name, expression } => name,
            Step::Restart { name, restart_count } => name,
            Step::Tick { name } => name,
        }
    }

    /// Whether the run goes on with the next step.
    pub open spec fn passes(self, after: Self, work: Work) -> bool {
        &&& after == (Runner { at: (self.at + 1) as usize, stage: Stage::Ready, ..self })
        &&& work is Continue
    }

    /// Whether the step fails: the run ends where the step is required, and
    /// else goes on with the next step.
    pub open spec fn fails(self, after: Self, work: Work, e: Error) -> bool {
        if self.tasks@[self.at as int].required {
            &&& after == (Runner { stage: Stage::Finished, ..self })
            &&& work == Work::Finished(Err(e))
        } else {
            self.passes(after, work)
        }
    }

    /// Whether the step goes on to a stage.
    pub open spec fn reaches(self, after: Self, stage: Stage) -> bool {
        after == (Runner { stage, ..self })
    }

    /// How many turns the run can still take. It falls with each turn.
    pub open spec fn turns_left(self) -> int {
        8 * (self.tasks@.len() - self.at) + match self.stage {
            Stage::Ready => 7,
            Stage::SavingStop => 6,
            Stage::Probing => 5,
            Stage::ProbingStop => 5,
            Stage::Launching { config_path, restart_count } => 4,
            Stage::SavingStart { config_path } => 3,
            Stage::Halting => 3,
            Stage::SavingForget => 3,
            Stage::Finished => -8 * (self.tasks@.len() - self.at),
        }
    }

    /// A run that has not begun.
    pub fn new(tasks: Vec<Task>) -> (r: Self)
        ensures
            r == (Runner { tasks, at: 0, stage: Stage::Ready }),
            r.wf(),
    {
        Runner { tasks, at: 0, stage: Stage::Ready }
    }

    /// Goes on with the next step.
    fn pass(&mut self) -> (r: Work)
        requires
            old(self).wf(),
            old(self).at < old(self).tasks@.len(),
        ensures
            final(self).wf(),
            old(self).passes(*final(self), r),
            old(self).stage !is Finished ==> final(self).turns_left() < old(self).turns_left(),
    {
        assert(self.tasks.len() == self.tasks@.len());
        self.at = self.at + 1;
        self.stage = Stage::Ready;
        Work::Continue
    }

    /// Ends the run, or goes on with the next step.
    fn fail(&mut self, e: Error) -> (r: Work)
        requires
            old(self).wf(),
            old(self).at < old(self).tasks@.len(),
        ensures
            final(self).wf(),
            old(self).fails(*final(self), r, e),
            old(self).stage !is Finished ==> final(self).turns_left() < old(self).turns_left(),
    {
        if self.tasks[self.at].required {
            self.stage = Stage::Finished;
            Work::Finished(Err(e))
        } else {
            self.pass()
        }
    }

    /// Begins the next step, or ends the run where there is none.
    pub fn begin(&mut self, core: &mut DaemonCore, now: Timestamp) -> (r: Turn)
        requires
            old(self).wf(),
            old(self).stage is Ready,
            old(core).wf(),
        ensures
            final(self).wf(),
            final(core).wf(),
            final(self).turns_left() < old(self).turns_left(),
            ({
                let name = old(self).script();
                if old(self).at == old(self).tasks@.len() {
                    &&& *final(core) == *old(core)
                    &&& old(self).reaches(*final(self), Stage::Finished)
                    &&& r == (Turn { work: Work::Finished(Ok(())), opened: None })
                } else {
                    match old(self).step() {
                        Step::Start { config_path, name: _ } => {
                            &&& *final(core) == *old(core)
                            &&& old(self).reaches(*final(self), Stage::Probing)
                            &&& r == (Turn {
                                work: Work::Probe { pid: old(core).pid_of(name@) },
                                opened: None,
                            })
                        },
                        Step::Tick { name: _ } => {
                            &&& *final(core) == *old(core)
                            &&& old(self).reaches(*final(self), Stage::Probing)
                            &&& r == (Turn {
                                work: Work::Probe { pid: old(core).pid_of(name@) },
                                opened: None,
                            })
                        },
                        Step::Stop { name: _ } => {
                            &&& old(core).notes_stop(*final(core), name, now)
                            &&& r.opened is None
                            &&& if !old(core).stoppable(name@) {
                                old(self).fails(
                                    *final(self),
                                    r.work,
                                    Error::ScriptNotFound { name },
                                )
                            } else if old(core).supervisor.process(name@) is Some {
                                &&& old(self).reaches(*final(self), Stage::SavingStop)
                                &&& r.work is Save
                            } else {
                                &&& old(self).reaches(*final(self), Stage::ProbingStop)
                                &&& r.work == (Work::Probe { pid: 0 })
                            }
                        },
                        Step::Unschedule { name: _ } => {
                            &&& old(core).unschedules(*final(core), name@)
                            &&& r.opened is None
                            &&& old(self).passes(*final(self), r.work)
                        },
                        Step::Forget { name: _ } => {
                            &&& old(core).forgets(*final(core), name@)
                            &&& old(self).reaches(*final(self), Stage::SavingForget)
                            &&& r == (Turn { work: Work::Save, opened: None })
                        },
                        Step::Schedule { name: _, expression } => {
                            &&& old(core).reschedules(*final(core), name@, expression@)
                            &&& r.opened is None
                            &&& old(self).passes(*final(self), r.work)
                        },
                        Step::Restart { name: _, restart_count } => if old(core).runnable(name@)
                            && old(core).supervisor.process(name@) is None {
                            &&& *final(core) == (DaemonCore {
                                log_channels: final(core).log_channels,
                                ..*old(core)
                            })
                            &&& final(core).log_channels@ == old(core).log_channels@.insert(
                                name@,
                                (),
                            )
                            &&& r.opened == Some(name)
                            &&& old(self).launches(
                                *final(self),
                                r.work,
                                old(core).config_of(name@),
                                restart_count,
                            )
                        } else {
                            &&& *final(core) == *old(core)
                            &&& r.opened is None
                            &&& old(self).passes(*final(self), r.work)
                        },
                    }
                }
            }),
    {
        if self.at >= self.tasks.len() {
            self.stage = Stage::Finished;
            return Turn::quiet(Work::Finished(Ok(())));
        }
        match &self.tasks[self.at].step {
            Step::Start { config_path: _, name } => {
                let pid = core.pid(name.as_str());
                self.stage = Stage::Probing;
                Turn::quiet(Work::Probe { pid })
            },
            Step::Tick { name } => {
                let pid = core.pid(name.as_str());
                self.stage = Stage::Probing;
                Turn::quiet(Work::Probe { pid })
            },
            Step::Stop { name } => match core.begin_stop(name, now) {
                Err(e) => Turn::quiet(self.fail(e)),
                Ok(true) => {
                    self.stage = Stage::SavingStop;
                    Turn::quiet(Work::Save)
                },
                Ok(false) => {
                    self.stage = Stage::ProbingStop;
                    Turn::quiet(Work::Probe { pid: 0 })
                },
            },
            Step::Unschedule { name } => {
                core.unschedule(name.as_str());
                Turn::quiet(self.pass())
            },
            Step::Forget { name } => {
                core.forget_script(name.as_str());
                self.stage = Stage::SavingForget;
                Turn::quiet(Work::Save)
            },
            Step::Schedule { name, expression } => {
                let ghost before = core.cron.tasks@;
                let _ = core.cron.schedule(name.as_str(), expression.as_str());
                proof {
                    assert(before.remove(name@).remove(name@) =~= before.remove(name@));
                }
                Turn::quiet(self.pass())
            },
            Step::Restart { name, restart_count } => {
                let count: u32 = *restart_count;
                match core.begin_backoff_restart(name) {
                    None => Turn::quiet(self.pass()),
                    Some(config_path) => {
                        let name = name.clone();
                        self.stage = Stage::Launching {
                            config_path: config_path.clone(),
                            restart_count: count,
                        };
                        Turn {
                            work: Work::Launch { config_path, name: name.clone() },
                            opened: Some(name),
                        }
                    },
                }
            },
        }
    }

    /// Whether the script is launched next, from the given configuration.
    pub open spec fn launches(
        self,
        after: Self,
        work: Work,
        config_path: Option<Seq<char>>,
        restart_count: u32,
    ) -> bool {
        &&& work matches Work::Launch { config_path: path, name }
        &&& Some(path@) == config_path
        &&& name == self.script()
        &&& self.reaches(after, Stage::Launching { config_path: path, restart_count })
    }

    /// Goes on once it is known whether the script's process is alive.
    pub fn probed(&mut self, core: &mut DaemonCore, alive: bool) -> (r: Turn)
        requires
            old(self).wf(),
            old(self).stage is Probing || old(self).stage is ProbingStop,
            old(core).wf(),
        ensures
            final(self).wf(),
            final(core).wf(),
            final(self).turns_left() < old(self).turns_left(),
            ({
                let name = old(self).script();
                match old(self).step() {
                    Step::Stop { name: _ } => {
                        &&& old(core).gives_up(*final(core), name@)
                        &&& old(self).reaches(*final(self), Stage::Halting)
                        &&& r == (Turn {
                            work: Work::Halt {
                                name,
                                action: stop_action(old(core).supervisor.process(name@), alive),
                            },
                            opened: None,
                        })
                    },
                    Step::Start { config_path, name: _ } => if !old(core).config.has(
                        config_path@,
                        name@,
                    ) {
                        &&& *final(core) == *old(core)
                        &&& r.opened is None
                        &&& exists|e: Error| #[trigger]
                            old(core).start_failure(config_path@, name, e) && old(self).fails(
                                *final(self),
                                r.work,
                                e,
                            )
                    } else {
                        &&& old(core).prepares_start(*final(core), name@, alive)
                        &&& r.opened == Some(name)
                        &&& if old(core).supervisor.occupied(name@, alive) {
                            old(self).passes(*final(self), r.work)
                        } else {
                            old(self).launches(*final(self), r.work, Some(config_path@), 0)
                        }
                    },
                    _ => if !old(core).runnable(name@) {
                        &&& *final(core) == *old(core)
                        &&& r.opened is None
                        &&& old(self).passes(*final(self), r.work)
                    } else {
                        &&& old(core).prepares_start(*final(core), name@, alive)
                        &&& r.opened == Some(name)
                        &&& if old(core).supervisor.occupied(name@, alive) {
                            old(self).passes(*final(self), r.work)
                        } else {
                            old(self).launches(
                                *final(self),
                                r.work,
                                old(core).config_of(name@),
                                0,
                            )
                        }
                    },
                }
            }),
    {
        match &self.tasks[self.at].step {
            Step::Stop { name } => {
                let action = core.finish_stop(name.as_str(), alive);
                let name = name.clone();
                self.stage = Stage::Halting;
                Turn::quiet(Work::Halt { name, action })
            },
            Step::Start { config_path, name } => {
                let result = core.begin_start(config_path.as_str(), name, alive);
                let config_path = config_path.clone();
                let name = name.clone();
                match result {
                    Err(e) => Turn::quiet(self.fail(e)),
                    Ok(ScriptStartResult::AlreadyRunning) => Turn {
                        work: self.pass(),
                        opened: Some(name),
                    },
                    Ok(ScriptStartResult::Started) => {
                        self.stage = Stage::Launching {
                            config_path: config_path.clone(),
                            restart_count: 0,
                        };
                        Turn {
                            work: Work::Launch { config_path, name: name.clone() },
                            opened: Some(name),
                        }
                    },
                }
            },
            Step::Tick { name } => {
                let tick = core.begin_cron_tick(name, alive);
                let name = name.clone();
                match tick {
                    CronTick::Skip => Turn::quiet(self.pass()),
                    CronTick::AlreadyRunning => Turn { work: self.pass(), opened: Some(name) },
                    CronTick::Launch(config_path) => {
                        self.stage = Stage::Launching {
                            config_path: config_path.clone(),
                            restart_count: 0,
                        };
                        Turn {
                            work: Work::Launch { config_path, name: name.clone() },
                            opened: Some(name),
                        }
                    },
                }
            },
            _ => unreached(),
        }
    }

    /// Goes on once the script was launched, or could not be.
    pub fn launched(
        &mut self,
        core: &mut DaemonCore,
        result: Result<u32, Error>,
        now: Timestamp,
    ) -> (r: Turn)
        requires
            old(self).wf(),
            old(self).stage is Launching,
            old(core).wf(),
            now.wf(),
        ensures
            final(self).wf(),
            final(core).wf(),
            final(self).turns_left() < old(self).turns_left(),
            r.opened is None,
            match (result, old(self).stage) {
                (Ok(pid), Stage::Launching { config_path, restart_count }) => {
                    &&& old(core).notes_start(
                        *final(core),
                        config_path,
                        old(self).script(),
                        pid,
                        restart_count,
                        now,
                    )
                    &&& old(self).reaches(*final(self), Stage::SavingStart { config_path })
                    &&& r.work is Save
                },
                (Ok(_), _) => false,
                (Err(e), _) => {
                    &&& *final(core) == *old(core)
                    &&& if old(self).step() is Start {
                        old(self).fails(*final(self), r.work, e)
                    } else {
                        old(self).passes(*final(self), r.work)
                    }
                },
            },
    {
        let (name, start) = match &self.tasks[self.at].step {
            Step::Start { config_path: _, name } => (name.clone(), true),
            Step::Tick { name } => (name.clone(), false),
            Step::Restart { name, restart_count: _ } => (name.clone(), false),
            _ => unreached(),
        };
        match result {
            Err(e) => {
                if start {
                    Turn::quiet(self.fail(e))
                } else {
                    Turn::quiet(self.pass())
                }
            },
            Ok(pid) => {
                let (config_path, restart_count) = match &self.stage {
                    Stage::Launching { config_path, restart_count } => (
                        config_path.clone(),
                        *restart_count,
                    ),
                    _ => unreached(),
                };
                core.finish_start(&config_path, &name, pid, restart_count, now);
                self.stage = Stage::SavingStart { config_path };
                Turn::quiet(Work::Save)
            },
        }
    }

    /// Goes on once the state was saved, or could not be.
    pub fn saved(&mut self, core: &mut DaemonCore, result: Result<(), Error>) -> (r: Turn)
        requires
            old(self).wf(),
            old(self).stage is SavingStart || old(self).stage is SavingStop || old(self).stage
                is SavingForget,
            old(core).wf(),
        ensures
            final(self).wf(),
            final(core).wf(),
            final(self).turns_left() < old(self).turns_left(),
            r.opened is None,
            match (old(self).step(), result) {
                (Step::Start { config_path, name }, Ok(_)) => {
                    &&& old(core).schedules(
                        *final(core),
                        old(self).stage->SavingStart_config_path@,
                        name@,
                    )
                    &&& old(self).passes(*final(self), r.work)
                },
                (Step::Stop { name }, Ok(_)) => {
                    &&& *final(core) == *old(core)
                    &&& old(self).reaches(*final(self), Stage::ProbingStop)
                    &&& r.work == (Work::Probe { pid: old(core).pid_of(name@) })
                },
                (Step::Start { config_path, name }, Err(e)) => {
                    &&& *final(core) == *old(core)
                    &&& old(self).fails(*final(self), r.work, e)
                },
                (Step::Stop { name }, Err(e)) => {
                    &&& *final(core) == *old(core)
                    &&& old(self).fails(*final(self), r.work, e)
                },
                (_, _) => {
                    &&& *final(core) == *old(core)
                    &&& old(self).passes(*final(self), r.work)
                },
            },
    {
        match &self.tasks[self.at].step {
            Step::Start { config_path: _, name } => match result {
                Err(e) => Turn::quiet(self.fail(e)),
                Ok(_) => {
                    if let Stage::SavingStart { config_path } = &self.stage {
                        core.schedule_after_start(config_path.as_str(), name.as_str());
                    }
                    Turn::quiet(self.pass())
                },
            },
            Step::Stop { name } => match result {
                Err(e) => Turn::quiet(self.fail(e)),
                Ok(_) => {
                    let pid = core.pid(name.as_str());
                    self.stage = Stage::ProbingStop;
                    Turn::quiet(Work::Probe { pid })
                },
            },
            _ => Turn::quiet(self.pass()),
        }
    }

    /// Goes on once a process that was stopped has been dealt with.
    pub fn halted(&mut self) -> (r: Turn)
        requires
            old(self).wf(),
            old(self).stage is Halting,
        ensures
            final(self).wf(),
            final(self).turns_left() < old(self).turns_left(),
            r.opened is None,
            old(self).passes(*final(self), r.work),
    {
        Turn::quiet(self.pass())
    }
}

/// The run that starts scripts of a configuration, in order, up to the first failure.
pub fn up_run(config_path: &String, names: &Vec<String>) -> (r: Runner)
    ensures
        r.wf(),
        r.stage is Ready,
        r.at == 0,
        r.tasks@ == Seq::new(
            names@.len(),
            |i: int|
                Task {
                    step: Step::Start { config_path: *config_path, name: names@[i] },
                    required: true,
                },
        ),
{
    let mut tasks: Vec<Task> = Vec::new();
    let mut i: usize = 0;
    while i < names.len()
        invariant
            i <= names@.len(),
            tasks@ == Seq::new(
                i as nat,
                |j: int|
                    Task {
                        step: Step::Start { config_path: *config_path, name: names@[j] },
                        required: true,
                    },
            ),
        decreases names.len() - i,
    {
        let ghost before = tasks@;
        tasks.push(
            Task {
                step: Step::Start { config_path: config_path.clone(), name: names[i].clone() },
                required: true,
            },
        );
        i = i + 1;
        assert(tasks@ =~= Seq::new(
            i as nat,
            |j: int|
                Task {
                    step: Step::Start { config_path: *config_path, name: names@[j] },
                    required: true,
                },
        ));
    }
    Runner::new(tasks)
}

/// The run that stops scripts, in order, up to the first failure.
pub fn down_run(names: &Vec<String>) -> (r: Runner)
    ensures
        r.wf(),
        r.stage is Ready,
        r.at == 0,
        r.tasks@ == Seq::new(
            names@.len(),
            |i: int| Task { step: Step::Stop { name: names@[i] }, required: true },
        ),
{
    let mut tasks: Vec<Task> = Vec::new();
    let mut i: usize = 0;
    while i < names.len()
        invariant
            i <= names@.len(),
            tasks@ == Seq::new(
                i as nat,
                |j: int| Task { step: Step::Stop { name: names@[j] }, required: true },
            ),
        decreases names.len() - i,
    {
        tasks.push(Task { step: Step::Stop { name: names[i].clone() }, required: true });
        i = i + 1;
        assert(tasks@ =~= Seq::new(
            i as nat,
            |j: int| Task { step: Step::Stop { name: names@[j] }, required: true },
        ));
    }
    Runner::new(tasks)
}

/// The run that starts remembered scripts again, each from its configuration,
/// up to the first failure.
pub fn restore_run(scripts: &Vec<(String, String)>) -> (r: Runner)
    ensures
        r.wf(),
        r.stage is Ready,
        r.at == 0,
        r.tasks@ == Seq::new(
            scripts@.len(),
            |i: int|
                Task {
                    step: Step::Start { config_path: scripts@[i].0, name: scripts@[i].1 },
                    required: true,
                },
        ),
{
    let mut tasks: Vec<Task> = Vec::new();
    let mut i: usize = 0;
    while i < scripts.len()
        invariant
            i <= scripts@.len(),
            tasks@ == Seq::new(
                i as nat,
                |j: int|
                    Task {
                        step: Step::Start { config_path: scripts@[j].0, name: scripts@[j].1 },
                        required: true,
                    },
            ),
        decreases scripts.len() - i,
    {
        tasks.push(
            Task {
                step: Step::Start {
                    config_path: scripts[i].0.clone(),
                    name: scripts[i].1.clone(),
                },
                required: true,
            },
        );
        i = i + 1;
        assert(tasks@ =~= Seq::new(
            i as nat,
            |j: int|
                Task {
                    step: Step::Start { config_path: scripts@[j].0, name: scripts@[j].1 },
                    required: true,
                },
        ));
    }
    Runner::new(tasks)
}

/// The run that lets scripts wait for their schedules.
pub fn schedule_run(schedules: &Vec<(String, String)>) -> (r: Runner)
    ensures
        r.wf(),
        r.stage is Ready,
        r.at == 0,
        r.tasks@ == Seq::new(
            schedules@.len(),
            |i: int|
                Task {
                    step: Step::Schedule {
                        name: schedules@[i].0,
                        expression: schedules@[i].1,
                    },
                    required: false,
                },
        ),
{
    let mut tasks: Vec<Task> = Vec::new();
    let mut i: usize = 0;
    while i < schedules.len()
        invariant
            i <= schedules@.len(),
            tasks@ == Seq::new(
                i as nat,
                |j: int|
                    Task {
                        step: Step::Schedule {
                            name: schedules@[j].0,
                            expression: schedules@[j].1,
                        },
                        required: false,
                    },
            ),
        decreases schedules.len() - i,
    {
        tasks.push(
            Task {
                step: Step::Schedule {
                    name: schedules[i].0.clone(),
                    expression: schedules[i].1.clone(),
                },
                required: false,
            },
        );
        i = i + 1;
        assert(tasks@ =~= Seq::new(
            i as nat,
            |j: int|
                Task {
                    step: Step::Schedule {
                        name: schedules@[j].0,
                        expression: schedules@[j].1,
                    },
                    required: false,
                },
        ));
    }
    Runner::new(tasks)
}

/// The run of one step.
pub fn single_run(step: Step) -> (r: Runner)
    ensures
        r.wf(),
        r.stage is Ready,
        r.at == 0,
        r.tasks@ == seq![Task { step, required: false }],
{
    let mut tasks: Vec<Task> = Vec::new();
    tasks.push(Task { step, required: false });
    assert(tasks@ =~= seq![Task { step, required: false }]);
    Runner::new(tasks)
}

/// A task whose failure is passed over.
pub open spec fn optional(step: Step) -> Task {
    Task { step, required: false }
}

/// The tasks that one change of a configuration leads to.
pub open spec fn tasks_of(step: ReloadStep, config_path: String) -> Seq<Task> {
    match step {
        ReloadStep::Forget(name) => seq![
            optional(Step::Stop { name }),
            optional(Step::Unschedule { name }),
            optional(Step::Forget { name }),
        ],
        ReloadStep::Stop(name) => seq![optional(Step::Stop { name })],
        ReloadStep::Start(name) => seq![optional(Step::Start { config_path, name })],
        ReloadStep::Restart(name) => seq![
            optional(Step::Stop { name }),
            optional(Step::Unschedule { name }),
            optional(Step::Start { config_path, name }),
        ],
    }
}

/// The tasks that some changes of a configuration lead to.
pub open spec fn tasks_of_all(steps: Seq<ReloadStep>, config_path: String) -> Seq<Task>
    decreases steps.len(),
{
    if steps.len() == 0 {
        Seq::empty()
    } else {
        tasks_of_all(steps.drop_last(), config_path) + tasks_of(steps.last(), config_path)
    }
}

/// The run that a changed configuration leads to. What fails is passed over.
pub fn reload_run(config_path: &String, steps: &Vec<ReloadStep>) -> (r: Runner)
    ensures
        r.wf(),
        r.stage is Ready,
        r.at == 0,
        r.tasks@ == tasks_of_all(steps@, *config_path),
{
    let mut tasks: Vec<Task> = Vec::new();
    let mut i: usize = 0;
    assert(tasks@ =~= tasks_of_all(steps@.take(0), *config_path));
    while i < steps.len()
        invariant
            i <= steps@.len(),
            tasks@ == tasks_of_all(steps@.take(i as int), *config_path),
        decreases steps.len() - i,
    {
        let ghost before = tasks@;
        assert(steps@.take(i as int + 1).drop_last() =~= steps@.take(i as int));
        match &steps[i] {
            ReloadStep::Forget(name) => {
                tasks.push(Task { step: Step::Stop { name: name.clone() }, required: false });
                tasks.push(Task { step: Step::Unschedule { name: name.clone() }, required: false });
                tasks.push(Task { step: Step::Forget { name: name.clone() }, required: false });
            },
            ReloadStep::Stop(name) => {
                tasks.push(Task { step: Step::Stop { name: name.clone() }, required: false });
            },
            ReloadStep::Start(name) => {
                tasks.push(
                    Task {
                        step: Step::Start {
                            config_path: config_path.clone(),
                            name: name.clone(),
                        },
                        required: false,
                    },
                );
            },
            ReloadStep::Restart(name) => {
                tasks.push(Task { step: Step::Stop { name: name.clone() }, required: false });
                tasks.push(Task { step: Step::Unschedule { name: name.clone() }, required: false });
                tasks.push(
                    Task {
                        step: Step::Start {
                            config_path: config_path.clone(),
                            name: name.clone(),
                        },
                        required: false,
                    },
                );
            },
        }
        assert(tasks@ =~= before + tasks_of(steps@[i as int], *config_path));
        i = i + 1;
    }
    assert(steps@.take(i as int) =~= steps@);
    Runner::new(tasks)
}

/// A run that reloads a configuration never ends before its last step.
pub proof fn law_reload_passes_over_failures(
    steps: Seq<ReloadStep>,
    config_path: String,
    i: int,
)
    requires
        0 <= i < tasks_of_all(steps, config_path).len(),
    ensures
        !tasks_of_all(steps, config_path)[i].required,
    decreases steps.len(),
{
    if steps.len() > 0 {
        let front = tasks_of_all(steps.drop_last(), config_path);
        if i < front.len() {
            law_reload_passes_over_failures(steps.drop_last(), config_path, i);
        } else {
            assert(tasks_of_all(steps, config_path)[i] == tasks_of(
                steps.last(),
                config_path,
            )[i - front.len()]);
        }
    }
}

/// A run whose steps are not required ends well.
pub proof fn law_optional_steps_do_not_fail(before: Runner, after: Runner, work: Work, e: Error)
    requires
        before.at < before.tasks@.len(),
        !before.tasks@[before.at as int].required,
        before.fails(after, work, e),
    ensures
        work is Continue,
        after.at == before.at + 1,
{
    assert(before.tasks.len() == before.tasks@.len());
}

/// A run that is over takes no more turns, and any other takes one at least:
/// as each turn leaves fewer, every run comes to an end.
pub proof fn law_runs_end(run: Runner)
    requires
        run.wf(),
    ensures
        run.turns_left() >= 0,
        run.turns_left() == 0 <==> run.stage is Finished,
        run.turns_left() <= 8 * run.tasks@.len() + 7,
{
}

/// A required step that fails ends the run with its failure; one that passes is
/// followed by the next one, and the steps stay as they are.
pub proof fn law_required_steps_end_the_run(
    before: Runner,
    after: Runner,
    work: Work,
    e: Error,
)
    requires
        before.at < before.tasks@.len(),
    ensures
        before.tasks@[before.at as int].required && before.fails(after, work, e) ==> {
            &&& work == Work::Finished(Err(e))
            &&& after.stage is Finished
        },
        before.passes(after, work) ==> {
            &&& after.at == before.at + 1
            &&& after.stage is Ready
            &&& after.tasks == before.tasks
            &&& work is Continue
        },
{
    assert(before.tasks.len() == before.tasks@.len());
}

/// A script that changed is stopped, waits for no schedule and is started from
/// the configuration, in this order; one that went is stopped and, if no
/// configuration has it, forgotten after that; one that came is started.
pub proof fn law_reload_tasks(
    steps: Seq<ReloadStep>,
    step: ReloadStep,
    config_path: String,
    name: String,
)
    ensures
        ({
            let before = tasks_of_all(steps, config_path);
            let after = tasks_of_all(steps.push(step), config_path);
            let added = after.skip(before.len() as int);
            &&& after.take(before.len() as int) == before
            &&& forall|i: int| 0 <= i < added.len() ==> !(#[trigger] added[i]).required
            &&& step == ReloadStep::Restart(name) ==> {
                &&& added.len() == 3
                &&& added[0].step == Step::Stop { name }
                &&& added[1].step == Step::Unschedule { name }
                &&& added[2].step == Step::Start { config_path, name }
            }
            &&& step == ReloadStep::Forget(name) ==> {
                &&& added.len() > 1
                &&& added[0].step == Step::Stop { name }
                &&& added.last().step == Step::Forget { name }
            }
            &&& step == ReloadStep::Stop(name) ==> {
                &&& added.len() == 1
                &&& added[0].step == Step::Stop { name }
            }
            &&& step == ReloadStep::Start(name) ==> {
                &&& added.len() == 1
                &&& added[0].step == Step::Start { config_path, name }
            }
        }),
{
    let before = tasks_of_all(steps, config_path);
    let after = tasks_of_all(steps.push(step), config_path);
    assert(steps.push(step).drop_last() =~= steps);
    assert(after.take(before.len() as int) =~= before);
    assert(after.skip(before.len() as int) =~= tasks_of(step, config_path));
}

/// The number of a process is that of the process that the script has, and zero
/// where it has none.
pub proof fn law_pid(core: DaemonCore, name: Seq<char>)
    ensures
        core.supervisor.processes@.contains_key(name) ==> core.pid_of(name)
            == core.supervisor.processes@[name].pid,
        !core.supervisor.processes@.contains_key(name) ==> core.pid_of(name) == 0,
{
}

/// A script waits for the schedule that it was given, if it is accepted, and
/// for none otherwise; the other scripts wait as before.
pub proof fn law_rescheduled(
    before: DaemonCore,
    after: DaemonCore,
    name: Seq<char>,
    expression: Seq<char>,
    other: Seq<char>,
)
    requires
        before.reschedules(after, name, expression),
    ensures
        after.cron.tasks@.contains_key(name) == cron_reading(expression) is Ok,
        cron_reading(expression) is Ok ==> after.cron.tasks@[name]@ == expression,
        other != name ==> {
            &&& after.cron.tasks@.contains_key(other) == before.cron.tasks@.contains_key(other)
            &&& before.cron.tasks@.contains_key(other) ==> after.cron.tasks@[other]
                == before.cron.tasks@[other]
        },
{
    if other != name {
        assert(after.cron.tasks@.remove(name).contains_key(other)
            == after.cron.tasks@.contains_key(other));
        assert(before.cron.tasks@.remove(name).contains_key(other)
            == before.cron.tasks@.contains_key(other));
        if before.cron.tasks@.contains_key(other) {
            assert(after.cron.tasks@.remove(name)[other] == after.cron.tasks@[other]);
            assert(before.cron.tasks@.remove(name)[other] == before.cron.tasks@[other]);
        }
    }
}

/// A script that is launched next is the one of the step, from the configuration
/// that was found for it, and as the restart that the step says.
pub proof fn law_launched_next(
    before: Runner,
    after: Runner,
    work: Work,
    config_path: Seq<char>,
    restart_count: u32,
)
    requires
        before.launches(after, work, Some(config_path), restart_count),
    ensures
        work is Launch,
        work->Launch_config_path@ == config_path,
        work->Launch_name == before.script(),
        after.tasks == before.tasks,
        after.at == before.at,
        after.stage is Launching,
        after.stage->Launching_config_path@ == config_path,
        after.stage->Launching_restart_count == restart_count,
        match before.tasks@[before.at as int].step {
            Step::Start { config_path: _, name } => before.script() == name,
            Step::Stop { name } => before.script() == name,
            Step::Unschedule { name } => before.script() == name,
            Step::Forget { name } => before.script() == name,
            Step::Schedule { name, expression: _ } => before.script() == name,
            Step::Restart { name, restart_count: _ } => before.script() == name,
            Step::Tick { name } => before.script() == name,
        },
{
}

} // verus!
