//! Several steps in a row, with what comes of them outside.
use turtle_harbor::common::config::{Config, ConfigSource, RestartPolicy, Script, Settings};
use turtle_harbor::common::error::Error;
use turtle_harbor::daemon::commands::ReloadStep;
use turtle_harbor::daemon::daemon_core::DaemonCore;
use turtle_harbor::daemon::process_supervisor::StopAction;
use turtle_harbor::daemon::runner::{
    down_run, reload_run, restore_run, schedule_run, single_run, up_run, Runner, Step, Work,
};
use turtle_harbor::daemon::state::StateSource;
use turtle_harbor::names::NameMap;
use turtle_harbor::time::Timestamp;

const CONFIG: &str = "/p/scripts.yml";

fn at(secs: i64) -> Timestamp {
    Timestamp { secs, nanos: 0 }
}

fn text(s: &str) -> String {
    s.to_string()
}

fn daemon(names: &[&str]) -> DaemonCore {
    let mut daemon = DaemonCore::new("/s.json", text("/l"), StateSource::Missing).unwrap();
    daemon.begin_up(CONFIG, None, config(names)).unwrap();
    daemon
}

fn config(names: &[&str]) -> ConfigSource {
    let mut scripts = NameMap::new();
    for name in names {
        scripts.insert(
            text(name),
            Script {
                command: text("run"),
                restart_policy: RestartPolicy::Always,
                max_restarts: None,
                cron: Some(text("0 0 * * * *")),
                context: None,
                venv: None,
                env: None,
                env_file: None,
            },
        );
    }
    ConfigSource::Parsed(Config {
        settings: Settings {
            log_dir: text("/l"),
            loki: None,
        },
        scripts,
    })
}

/// Carries a run out. The processes in `alive` answer; launches give the next
/// number, or fail for the scripts in `broken`; every save fails where `full` says so.
fn carry_out(
    daemon: &mut DaemonCore,
    mut run: Runner,
    alive: &[u32],
    broken: &[&str],
    full: bool,
) -> (Vec<String>, Result<(), Error>) {
    let mut done = Vec::new();
    let mut next_pid = 100;
    let mut turn = run.begin(daemon, at(1));
    loop {
        if let Some(name) = &turn.opened {
            done.push(format!("open {}", name));
        }
        turn = match turn.work {
            Work::Continue => run.begin(daemon, at(1)),
            Work::Probe { pid } => {
                let answer = alive.contains(&pid);
                run.probed(daemon, answer)
            }
            Work::Launch { config_path, name } => {
                assert_eq!(config_path, CONFIG);
                done.push(format!("launch {}", name));
                let result = if broken.contains(&name.as_str()) {
                    Err(Error::CommandTimeout)
                } else {
                    next_pid += 1;
                    Ok(next_pid)
                };
                run.launched(daemon, result, at(2))
            }
            Work::Save => {
                done.push(text("save"));
                let result = if full {
                    Err(Error::Json(text("disk full")))
                } else {
                    Ok(())
                };
                run.saved(daemon, result)
            }
            Work::Halt { name, action } => {
                done.push(match action {
                    StopAction::Nothing => format!("halt {}", name),
                    StopAction::Terminate { pid } => format!("kill {} {}", name, pid),
                    StopAction::Unwatch => format!("unwatch {}", name),
                });
                run.halted()
            }
            Work::Finished(result) => return (done, result),
        };
    }
}

fn up(daemon: &mut DaemonCore, names: &[&str]) {
    let names: Vec<String> = names.iter().map(|n| n.to_string()).collect();
    let run = up_run(&text(CONFIG), &names);
    carry_out(daemon, run, &[], &[], false).1.unwrap();
}

#[test]
fn scripts_are_started_one_after_the_other() {
    let mut daemon = daemon(&["a", "b"]);
    let run = up_run(&text(CONFIG), &vec![text("a"), text("b")]);
    let (done, result) = carry_out(&mut daemon, run, &[], &[], false);
    result.unwrap();
    assert_eq!(
        done,
        vec!["open a", "launch a", "save", "open b", "launch b", "save"]
    );
    assert_eq!(daemon.supervisor.get("a").unwrap().pid, 101);
    assert!(daemon.cron.is_scheduled("b"));
}

#[test]
fn a_start_that_fails_ends_the_run() {
    let mut daemon = daemon(&["a", "b", "c"]);
    let names = vec![text("a"), text("b"), text("c")];
    let run = up_run(&text(CONFIG), &names);
    let (done, result) = carry_out(&mut daemon, run, &[], &["b"], false);
    assert!(matches!(result, Err(Error::CommandTimeout)));
    assert_eq!(done, vec!["open a", "launch a", "save", "open b", "launch b"]);
    assert!(daemon.supervisor.contains("a"));
    assert!(!daemon.supervisor.contains("b"));
    assert!(!daemon.supervisor.contains("c"));

    let run = up_run(&text(CONFIG), &vec![text("unknown")]);
    let (_, result) = carry_out(&mut daemon, run, &[], &[], false);
    assert!(matches!(result, Err(Error::ScriptNotFound { name }) if name == "unknown"));
    let run = up_run(&text("/other.yml"), &vec![text("a")]);
    let (_, result) = carry_out(&mut daemon, run, &[], &[], false);
    assert!(matches!(result, Err(Error::ConfigNotLoaded)));
}

#[test]
fn a_start_that_is_not_saved_has_no_schedule() {
    let mut daemon = daemon(&["a"]);
    let run = up_run(&text(CONFIG), &vec![text("a")]);
    let (_, result) = carry_out(&mut daemon, run, &[], &[], true);
    assert!(matches!(result, Err(Error::Json(_))));
    assert!(daemon.supervisor.contains("a"));
    assert!(!daemon.cron.is_scheduled("a"));
}

#[test]
fn a_script_that_runs_is_left_alone() {
    let mut daemon = daemon(&["a"]);
    up(&mut daemon, &["a"]);
    let run = up_run(&text(CONFIG), &vec![text("a")]);
    let (done, result) = carry_out(&mut daemon, run, &[101], &[], false);
    result.unwrap();
    assert_eq!(done, vec!["open a"]);
    assert_eq!(daemon.supervisor.get("a").unwrap().pid, 101);
}

#[test]
fn scripts_are_stopped_one_after_the_other() {
    let mut daemon = daemon(&["a", "b"]);
    up(&mut daemon, &["a", "b"]);
    let run = down_run(&vec![text("a"), text("b")]);
    let (done, result) = carry_out(&mut daemon, run, &[101], &[], false);
    result.unwrap();
    assert_eq!(done, vec!["save", "kill a 101", "save", "unwatch b"]);
    assert!(daemon.supervisor.names().is_empty());
    assert!(daemon.state.find("a").unwrap().explicitly_stopped);

    let run = down_run(&vec![text("a"), text("unknown"), text("b")]);
    let (done, result) = carry_out(&mut daemon, run, &[], &[], false);
    assert!(matches!(result, Err(Error::ScriptNotFound { name }) if name == "unknown"));
    assert_eq!(done, vec!["halt a"]);
}

#[test]
fn a_stop_that_is_not_saved_leaves_the_process() {
    let mut daemon = daemon(&["a"]);
    up(&mut daemon, &["a"]);
    let run = down_run(&vec![text("a")]);
    let (done, result) = carry_out(&mut daemon, run, &[101], &[], true);
    assert!(result.is_err());
    assert_eq!(done, vec!["save"]);
    assert!(daemon.supervisor.contains("a"));
}

#[test]
fn a_reload_passes_over_what_fails() {
    let mut daemon = daemon(&["gone", "kept", "changed"]);
    up(&mut daemon, &["gone", "kept", "changed"]);
    let diff = daemon
        .begin_reload(CONFIG, config(&["kept", "changed", "new", "broken"]))
        .unwrap();
    let mut steps = daemon.reload_steps(&diff);
    steps.push(ReloadStep::Restart(text("changed")));
    steps.push(ReloadStep::Stop(text("unknown")));
    let run = reload_run(&text(CONFIG), &steps);
    let (done, result) = carry_out(&mut daemon, run, &[101, 103], &["broken"], false);
    result.unwrap();
    assert_eq!(
        done,
        vec![
            "save",
            "kill gone 101",
            "save",
            "open new",
            "launch new",
            "save",
            "open broken",
            "launch broken",
            "save",
            "kill changed 103",
            "open changed",
            "launch changed",
            "save"
        ]
    );
    assert!(!daemon.state.contains("gone"));
    assert!(daemon.health.get("gone").is_none());
    assert!(daemon.supervisor.contains("new"));
    assert!(daemon.supervisor.contains("changed"));
    assert!(daemon.cron.is_scheduled("changed"));
}

#[test]
fn a_restart_takes_its_count_along() {
    let mut daemon = daemon(&["a"]);
    up(&mut daemon, &["a"]);
    let failed = Some(turtle_harbor::daemon::process::ExitStatus { code: Some(1) });
    let backoff = daemon.handle_process_exit(&text("a"), failed, at(3)).unwrap();
    let step = || Step::Restart {
        name: text("a"),
        restart_count: backoff.restart_count,
    };
    let (done, result) = carry_out(&mut daemon, single_run(step()), &[], &[], true);
    result.unwrap();
    assert_eq!(done, vec!["open a", "launch a", "save"]);
    assert_eq!(daemon.supervisor.get("a").unwrap().restart_count, 1);
    let (done, _) = carry_out(&mut daemon, single_run(step()), &[], &[], false);
    assert!(done.is_empty());
}

#[test]
fn a_due_script_is_launched_unless_it_runs() {
    let mut daemon = daemon(&["a"]);
    let tick = |name: &str| single_run(Step::Tick { name: text(name) });
    let (done, _) = carry_out(&mut daemon, tick("a"), &[], &["a"], false);
    assert_eq!(done, vec!["open a", "launch a"]);
    let (done, _) = carry_out(&mut daemon, tick("a"), &[], &[], false);
    assert_eq!(done, vec!["open a", "launch a", "save"]);
    let (done, _) = carry_out(&mut daemon, tick("a"), &[101], &[], false);
    assert_eq!(done, vec!["open a"]);
    let (done, _) = carry_out(&mut daemon, tick("unknown"), &[], &[], false);
    assert!(done.is_empty());
}

#[test]
fn what_was_remembered_is_taken_up() {
    let mut daemon = daemon(&["a", "b"]);
    let run = restore_run(&vec![(text(CONFIG), text("a"))]);
    carry_out(&mut daemon, run, &[], &[], false).1.unwrap();
    assert!(daemon.supervisor.contains("a"));
    let run = schedule_run(&vec![
        (text("b"), text("0 0 * * * *")),
        (text("a"), text("nonsense")),
    ]);
    carry_out(&mut daemon, run, &[], &[], false).1.unwrap();
    assert!(daemon.cron.is_scheduled("b"));
    assert!(!daemon.cron.is_scheduled("a"));
}
