//! What becomes of scripts when clients ask, processes end and schedules are due.
use turtle_harbor::common::config::{Config, ConfigSource, LokiConfig, RestartPolicy, Script, Settings};
use turtle_harbor::common::error::Error;
use turtle_harbor::common::ipc::{Command, ProcessInfo, ProcessStatus, Response};
use turtle_harbor::daemon::commands::ReloadStep;
use turtle_harbor::daemon::daemon_core::{backoff_delay, CronTick, DaemonCore};
use turtle_harbor::daemon::health::{ScriptHealth, ScriptHealthState};
use turtle_harbor::daemon::http_server::{all_health, listen_address, script_health, HealthReply};
use turtle_harbor::daemon::process::{is_process_alive, ExitStatus, ScriptStartResult};
use turtle_harbor::daemon::process_supervisor::StopAction;
use turtle_harbor::daemon::scheduler::{cron_step, next_due, parse_schedule, CronStep};
use turtle_harbor::daemon::server::{follow_name, refuse_follow};
use turtle_harbor::daemon::state::{RunningState, ScriptState, StateSource};
use turtle_harbor::names::NameMap;
use turtle_harbor::time::{Duration, Timestamp};

const CONFIG_A: &str = "/projects/a/scripts.yml";
const CONFIG_B: &str = "/projects/b/scripts.yml";

fn at(secs: i64) -> Timestamp {
    Timestamp { secs, nanos: 0 }
}

fn text(s: &str) -> String {
    s.to_string()
}

fn plain(command: &str) -> Script {
    Script {
        command: text(command),
        restart_policy: RestartPolicy::Always,
        max_restarts: None,
        cron: None,
        context: None,
        venv: None,
        env: None,
        env_file: None,
    }
}

fn scheduled(command: &str, cron: &str) -> Script {
    let mut script = plain(command);
    script.cron = Some(text(cron));
    script
}

fn config(scripts: Vec<(&str, Script)>) -> ConfigSource {
    let mut map = NameMap::new();
    for (name, script) in scripts {
        map.insert(text(name), script);
    }
    ConfigSource::Parsed(Config {
        settings: Settings {
            log_dir: text("./logs"),
            loki: None,
        },
        scripts: map,
    })
}

fn remembered(name: &str, config_path: &str, status: ProcessStatus) -> ScriptState {
    ScriptState {
        name: text(name),
        config_path: Some(text(config_path)),
        status,
        last_started: Some(at(1)),
        last_stopped: None,
        exit_code: None,
        explicitly_stopped: false,
        restart_count: 2,
    }
}

fn new_daemon() -> DaemonCore {
    DaemonCore::new("/state.json", text("/logs"), StateSource::Missing).unwrap()
}

fn daemon_with(scripts: Vec<ScriptState>) -> DaemonCore {
    let state = RunningState {
        version: 3,
        scripts,
        state_file: text("/old.json"),
        config_path: None,
    };
    DaemonCore::new("/state.json", text("/logs"), StateSource::Parsed(state)).unwrap()
}

fn start(daemon: &mut DaemonCore, config_path: &str, name: &str, pid: u32) {
    let name = text(name);
    let result = daemon.begin_start(config_path, &name, false).unwrap();
    assert_eq!(result, ScriptStartResult::Started);
    daemon.finish_start(&text(config_path), &name, pid, 0, at(100));
    daemon.schedule_after_start(config_path, &name);
}

fn failed() -> Option<ExitStatus> {
    Some(ExitStatus { code: Some(1) })
}

fn succeeded() -> Option<ExitStatus> {
    Some(ExitStatus { code: Some(0) })
}

#[test]
fn backoff_doubles_up_to_the_limit() {
    let secs: Vec<u64> = (0..9).map(|n| backoff_delay(n).secs).collect();
    assert_eq!(secs, vec![15, 15, 30, 60, 120, 240, 300, 300, 300]);
    assert_eq!(backoff_delay(u32::MAX), Duration { secs: 300, nanos: 0 });
}

#[test]
fn up_loads_the_config_and_names_its_scripts() {
    let mut daemon = new_daemon();
    let names = daemon
        .begin_up(CONFIG_A, None, config(vec![("one", plain("a")), ("two", plain("b"))]))
        .unwrap();
    assert_eq!(names, vec!["one", "two"]);
    assert_eq!(daemon.supervisor.log_dir, "./logs");
    assert!(!daemon.supervisor.loki);
    assert_eq!(daemon.health.get("one").unwrap().state, ScriptHealthState::NeverRan);
    assert!(daemon.health.get("two").unwrap().healthy);
    let one = daemon.begin_up(CONFIG_A, Some(&text("two")), config(vec![("two", plain("b"))]));
    assert_eq!(one.unwrap(), vec!["two"]);
}

#[test]
fn up_reports_a_config_that_cannot_be_loaded() {
    let mut daemon = new_daemon();
    let e = daemon
        .begin_up(CONFIG_A, None, ConfigSource::Unparsable(text("bad")))
        .unwrap_err();
    assert!(matches!(e, Error::ConfigParse(_)));
    assert_eq!(daemon.config.len(), 0);
    assert_eq!(daemon.health.len(), 0);
}

#[test]
fn up_refuses_a_name_of_another_config() {
    let mut daemon = new_daemon();
    daemon.begin_up(CONFIG_A, None, config(vec![("one", plain("a"))])).unwrap();
    let e = daemon
        .begin_up(CONFIG_B, None, config(vec![("two", plain("b")), ("one", plain("c"))]))
        .unwrap_err();
    assert_eq!(e.message(), "script 'one' already exists in /projects/a/scripts.yml");
    assert!(daemon.health.get("two").is_none());
    let fine = daemon.begin_up(CONFIG_B, Some(&text("two")), config(vec![("two", plain("b"))]));
    assert_eq!(fine.unwrap(), vec!["two"]);
}

#[test]
fn output_is_shipped_once_a_config_says_so() {
    let mut daemon = new_daemon();
    let mut source = config(vec![("one", plain("a"))]);
    if let ConfigSource::Parsed(config) = &mut source {
        config.settings.loki = Some(LokiConfig {
            url: text("http://loki"),
            labels: None,
        });
    }
    daemon.begin_up(CONFIG_A, None, source).unwrap();
    assert!(daemon.supervisor.loki);
    assert_eq!(daemon.config.loki_config(CONFIG_A).unwrap().url, "http://loki");
    daemon.begin_up(CONFIG_B, None, config(vec![("two", plain("b"))])).unwrap();
    assert!(daemon.supervisor.loki);
}

#[test]
fn a_started_script_is_running_and_healthy() {
    let mut daemon = new_daemon();
    daemon.begin_up(CONFIG_A, None, config(vec![("one", plain("./run.sh"))])).unwrap();
    start(&mut daemon, CONFIG_A, "one", 42);
    let process = daemon.supervisor.get("one").unwrap();
    assert_eq!(process.pid, 42);
    assert_eq!(process.restart_count, 0);
    let health = daemon.health.get("one").unwrap();
    assert_eq!(health.state, ScriptHealthState::Running);
    assert_eq!(health.pid, Some(42));
    assert_eq!(health.last_run_at, Some(at(100)));
    let entry = daemon.state.find("one").unwrap();
    assert_eq!(entry.status, ProcessStatus::Running);
    assert_eq!(entry.config_path.as_deref(), Some(CONFIG_A));
    assert_eq!(entry.last_started, Some(at(100)));
    assert!(daemon.log_channels.contains_key("one"));
    assert!(!daemon.cron.is_scheduled("one"));
}

#[test]
fn a_script_whose_process_is_alive_is_not_started_again() {
    let mut daemon = new_daemon();
    daemon.begin_up(CONFIG_A, None, config(vec![("one", plain("a"))])).unwrap();
    start(&mut daemon, CONFIG_A, "one", 42);
    let name = text("one");
    let again = daemon.begin_start(CONFIG_A, &name, true).unwrap();
    assert_eq!(again, ScriptStartResult::AlreadyRunning);
    assert!(daemon.supervisor.contains("one"));
    let dead = daemon.begin_start(CONFIG_A, &name, false).unwrap();
    assert_eq!(dead, ScriptStartResult::Started);
    assert!(!daemon.supervisor.contains("one"));
    daemon.finish_start(&text(CONFIG_A), &name, 0, 0, at(5));
    assert_eq!(daemon.begin_start(CONFIG_A, &name, true).unwrap(), ScriptStartResult::Started);
}

#[test]
fn what_is_not_configured_is_not_started() {
    let mut daemon = new_daemon();
    let e = daemon.begin_start(CONFIG_A, &text("one"), false).unwrap_err();
    assert!(matches!(e, Error::ConfigNotLoaded));
    daemon.begin_up(CONFIG_A, None, config(vec![("one", plain("a"))])).unwrap();
    let e = daemon.begin_start(CONFIG_A, &text("two"), false).unwrap_err();
    assert!(matches!(e, Error::ScriptNotFound { name } if name == "two"));
    assert_eq!(daemon.log_channels.len(), 0);
    assert!(daemon.launch(CONFIG_A, "two", None, None, b"").is_none());
}

#[test]
fn a_launch_runs_the_command_where_the_config_says() {
    let mut daemon = new_daemon();
    let mut script = plain("./run.sh");
    script.env_file = Some(text(".env"));
    daemon.begin_up(CONFIG_A, None, config(vec![("one", script)])).unwrap();
    let plan = daemon.launch(CONFIG_A, "one", None, Some("KEY=value"), b"/bin").unwrap();
    assert_eq!(plan.program, "sh");
    assert_eq!(plan.arguments, vec!["-c", "./run.sh"]);
    assert_eq!(plan.working_dir, "/projects/a");
    assert_eq!(plan.log_path, "./logs/one.log");
    assert_eq!(plan.env.get("KEY").unwrap(), b"value");
    let plan = daemon.launch(CONFIG_A, "one", Some("/abs/run.sh"), None, b"").unwrap();
    assert_eq!(plan.arguments, vec!["-c", "/abs/run.sh"]);
}

#[test]
fn a_failed_script_is_restarted_until_its_limit() {
    let mut daemon = new_daemon();
    let mut script = plain("a");
    script.max_restarts = Some(2);
    daemon.begin_up(CONFIG_A, None, config(vec![("one", script)])).unwrap();
    start(&mut daemon, CONFIG_A, "one", 1);
    let name = text("one");

    let first = daemon.handle_process_exit(&name, failed(), at(200)).unwrap();
    assert_eq!(first.restart_count, 1);
    assert_eq!(first.delay, Duration { secs: 15, nanos: 0 });
    assert!(!daemon.supervisor.contains("one"));
    let path = daemon.begin_backoff_restart(&name).unwrap();
    assert_eq!(path, CONFIG_A);
    daemon.finish_start(&path, &name, 2, first.restart_count, at(215));
    assert_eq!(daemon.health.get("one").unwrap().restart_count, 1);

    let second = daemon.handle_process_exit(&name, failed(), at(220)).unwrap();
    assert_eq!(second.restart_count, 2);
    assert_eq!(second.delay, Duration { secs: 30, nanos: 0 });
    daemon.finish_start(&path, &name, 3, second.restart_count, at(250));

    assert!(daemon.handle_process_exit(&name, failed(), at(260)).is_none());
    let entry = daemon.state.find("one").unwrap();
    assert_eq!(entry.status, ProcessStatus::Failed);
    assert_eq!(entry.exit_code, Some(1));
    assert_eq!(entry.restart_count, 2);
    assert_eq!(entry.last_stopped, Some(at(260)));
    assert_eq!(entry.last_started, Some(at(250)));
    assert!(!entry.explicitly_stopped);
    let health = daemon.health.get("one").unwrap();
    assert_eq!(health.state, ScriptHealthState::Failed);
    assert!(!health.healthy);
    assert_eq!(health.last_exit_code, Some(1));
    assert_eq!(health.pid, None);
}

#[test]
fn only_a_known_failure_leads_to_a_restart() {
    let mut never = plain("a");
    never.restart_policy = RestartPolicy::Never;
    let scripts = vec![("always", plain("a")), ("never", never)];
    let mut daemon = new_daemon();
    daemon.begin_up(CONFIG_A, None, config(scripts)).unwrap();
    let always = text("always");
    for status in [succeeded(), None] {
        start(&mut daemon, CONFIG_A, "always", 1);
        assert!(daemon.handle_process_exit(&always, status, at(2)).is_none());
    }
    start(&mut daemon, CONFIG_A, "never", 1);
    assert!(daemon.handle_process_exit(&text("never"), failed(), at(2)).is_none());
    assert!(daemon.handle_process_exit(&text("unknown"), failed(), at(2)).is_none());
    assert!(daemon.state.find("unknown").is_none());
    assert!(daemon.health.get("unknown").is_none());

    start(&mut daemon, CONFIG_A, "always", 1);
    let by_signal = Some(ExitStatus { code: None });
    assert_eq!(daemon.handle_process_exit(&always, by_signal, at(2)).unwrap().restart_count, 1);
}

#[test]
fn a_refused_up_changes_nothing() {
    let mut daemon = new_daemon();
    daemon.begin_up(CONFIG_A, None, config(vec![("one", plain("a"))])).unwrap();
    let mut source = config(vec![("two", plain("b")), ("one", plain("b"))]);
    if let ConfigSource::Parsed(parsed) = &mut source {
        parsed.settings.log_dir = text("/elsewhere");
    }
    match daemon.begin_up(CONFIG_B, None, source).unwrap_err() {
        Error::ScriptNameConflict { name, existing_config } => {
            assert_eq!(name, "one");
            assert_eq!(existing_config, CONFIG_A);
        }
        other => panic!("unexpected error: {:?}", other),
    }
    assert_eq!(daemon.config.len(), 1);
    assert_eq!(daemon.supervisor.log_dir, "./logs");
    assert!(daemon.health.get("two").is_none());
    assert!(daemon.is_orphan("two"));
    let again = config(vec![("one", plain("a")), ("two", plain("a"))]);
    assert_eq!(daemon.begin_up(CONFIG_A, None, again).unwrap(), vec!["one", "two"]);
    assert_eq!(daemon.config.len(), 1);
}

#[test]
fn a_late_exit_brings_nothing_back() {
    let mut daemon = new_daemon();
    let scripts = vec![("one", scheduled("a", "0 0 * * * *")), ("two", plain("b"))];
    daemon.begin_up(CONFIG_A, None, config(scripts)).unwrap();
    let name = text("one");
    start(&mut daemon, CONFIG_A, "one", 9);
    daemon.begin_stop(&name, at(50)).unwrap();
    daemon.finish_stop("one", true);
    let by_signal = Some(ExitStatus { code: None });
    assert!(daemon.handle_process_exit(&name, by_signal, at(51)).is_none());
    let entry = daemon.state.find("one").unwrap();
    assert!(entry.explicitly_stopped);
    assert_eq!(entry.status, ProcessStatus::Stopped);
    assert_eq!(entry.last_stopped, Some(at(50)));
    assert!(daemon.schedules_to_restore().is_empty());

    let name = text("two");
    start(&mut daemon, CONFIG_A, "two", 9);
    daemon.begin_stop(&name, at(60)).unwrap();
    daemon.finish_stop("two", true);
    daemon.forget_script("two");
    assert!(daemon.handle_process_exit(&name, by_signal, at(61)).is_none());
    assert!(!daemon.state.contains("two"));
    assert!(daemon.health.get("two").is_none());

    let mut daemon = daemon_with(vec![remembered("old", CONFIG_A, ProcessStatus::Running)]);
    assert!(daemon.handle_process_exit(&text("old"), failed(), at(70)).is_none());
    assert_eq!(daemon.state.find("old").unwrap().status, ProcessStatus::Failed);
}

#[test]
fn success_clears_the_restart_count() {
    let mut daemon = new_daemon();
    daemon.begin_up(CONFIG_A, None, config(vec![("one", plain("a"))])).unwrap();
    let name = text("one");
    daemon.finish_start(&text(CONFIG_A), &name, 7, 3, at(1));
    daemon.handle_process_exit(&name, succeeded(), at(2));
    let entry = daemon.state.find("one").unwrap();
    assert_eq!(entry.restart_count, 0);
    assert_eq!(entry.status, ProcessStatus::Stopped);
    assert_eq!(entry.exit_code, Some(0));
    assert_eq!(daemon.health.get("one").unwrap().state, ScriptHealthState::Succeeded);
}

#[test]
fn a_restart_is_skipped_where_it_makes_no_sense() {
    let mut daemon = new_daemon();
    daemon.begin_up(CONFIG_A, None, config(vec![("one", plain("a"))])).unwrap();
    assert!(daemon.begin_backoff_restart(&text("gone")).is_none());
    start(&mut daemon, CONFIG_A, "one", 1);
    assert!(daemon.begin_backoff_restart(&text("one")).is_none());
}

#[test]
fn stop_remembers_the_purpose_and_gives_everything_up() {
    let mut daemon = new_daemon();
    let scripts = vec![("one", scheduled("a", "0 0 * * * *"))];
    daemon.begin_up(CONFIG_A, None, config(scripts)).unwrap();
    start(&mut daemon, CONFIG_A, "one", 9);
    assert!(daemon.cron.is_scheduled("one"));
    let name = text("one");
    assert!(daemon.begin_stop(&name, at(50)).unwrap());
    assert_eq!(daemon.finish_stop("one", true), StopAction::Terminate { pid: 9 });
    let entry = daemon.state.find("one").unwrap();
    assert!(entry.explicitly_stopped);
    assert_eq!(entry.status, ProcessStatus::Stopped);
    assert_eq!(entry.config_path.as_deref(), Some(CONFIG_A));
    assert_eq!(entry.last_stopped, Some(at(50)));
    assert!(!daemon.supervisor.contains("one"));
    assert!(!daemon.log_channels.contains_key("one"));
    assert!(!daemon.cron.is_scheduled("one"));

    assert!(!daemon.begin_stop(&name, at(60)).unwrap());
    assert_eq!(daemon.finish_stop("one", false), StopAction::Nothing);
    let e = daemon.begin_stop(&text("unknown"), at(60)).unwrap_err();
    assert!(matches!(e, Error::ScriptNotFound { name } if name == "unknown"));
}

#[test]
fn a_process_that_has_ended_gets_no_signal() {
    let mut daemon = new_daemon();
    daemon.begin_up(CONFIG_A, None, config(vec![("one", plain("a"))])).unwrap();
    start(&mut daemon, CONFIG_A, "one", 9);
    assert_eq!(daemon.finish_stop("one", false), StopAction::Unwatch);
    assert!(is_process_alive(9, 0));
    assert!(!is_process_alive(9, -1));
    assert!(!is_process_alive(0, 0));
}

#[test]
fn down_stops_only_scripts_of_its_config() {
    let mut daemon = new_daemon();
    daemon.begin_up(CONFIG_A, None, config(vec![("a1", plain("a")), ("a2", plain("a"))])).unwrap();
    daemon.begin_up(CONFIG_B, None, config(vec![("b1", plain("b"))])).unwrap();
    start(&mut daemon, CONFIG_A, "a1", 1);
    start(&mut daemon, CONFIG_B, "b1", 2);
    start(&mut daemon, CONFIG_A, "a2", 3);
    assert_eq!(daemon.names_to_stop(None, CONFIG_A), vec!["a1", "a2"]);
    assert_eq!(daemon.names_to_stop(None, CONFIG_B), vec!["b1"]);
    assert!(daemon.names_to_stop(Some(&text("b1")), CONFIG_A).is_empty());
    assert_eq!(daemon.names_to_stop(Some(&text("b1")), CONFIG_B), vec!["b1"]);
    assert!(daemon.names_to_stop(None, "/other.yml").is_empty());

    assert_eq!(daemon.begin_down(None, CONFIG_A).unwrap(), vec!["a1", "a2"]);
    assert!(daemon.begin_down(None, "/other.yml").unwrap().is_empty());
    assert_eq!(daemon.begin_down(Some(&text("a2")), CONFIG_A).unwrap(), vec!["a2"]);
    for name in ["b1", "unknown"] {
        let e = daemon.begin_down(Some(&text(name)), CONFIG_A).unwrap_err();
        assert!(matches!(e, Error::ScriptNotFound { name: n } if n == name));
    }
}

fn list(response: Response) -> Vec<ProcessInfo> {
    match response {
        Response::ProcessList(list) => list,
        other => panic!("unexpected answer: {:?}", other),
    }
}

#[test]
fn ps_shows_the_scripts_of_a_config_and_list_shows_all() {
    let mut daemon = daemon_with(vec![
        remembered("b1", CONFIG_B, ProcessStatus::Stopped),
        remembered("a2", CONFIG_A, ProcessStatus::Failed),
    ]);
    daemon.begin_up(CONFIG_A, None, config(vec![("a1", plain("a"))])).unwrap();
    start(&mut daemon, CONFIG_A, "a1", 11);

    let all = list(daemon.list(None, at(130)));
    let names: Vec<&str> = all.iter().map(|p| p.name.as_str()).collect();
    assert_eq!(names, vec!["a1", "b1", "a2"]);
    assert_eq!(all[0].pid, 11);
    assert_eq!(all[0].uptime, Duration { secs: 30, nanos: 0 });
    assert_eq!(all[0].config_path.as_deref(), Some(CONFIG_A));
    assert_eq!(all[1].pid, 0);
    assert_eq!(all[1].status, ProcessStatus::Stopped);
    assert_eq!(all[1].restart_count, 2);

    let only_a = list(daemon.list(Some(CONFIG_A), at(130)));
    let names: Vec<&str> = only_a.iter().map(|p| p.name.as_str()).collect();
    assert_eq!(names, vec!["a1", "a2"]);
    assert_eq!(daemon.supervisor.status_list(at(101))[0].uptime, Duration { secs: 1, nanos: 0 });
}

#[test]
fn a_due_schedule_starts_its_script() {
    let mut daemon = new_daemon();
    let scripts = vec![("one", scheduled("a", "0 0 * * * *"))];
    daemon.begin_up(CONFIG_A, None, config(scripts)).unwrap();
    let name = text("one");
    let tick = daemon.begin_cron_tick(&name, false);
    assert!(matches!(tick, CronTick::Launch(path) if path == CONFIG_A));
    daemon.finish_start(&text(CONFIG_A), &name, 4, 0, at(1));
    assert!(matches!(daemon.begin_cron_tick(&name, true), CronTick::AlreadyRunning));
    assert!(daemon.supervisor.contains("one"));
    assert!(matches!(daemon.begin_cron_tick(&text("gone"), false), CronTick::Skip));
}

#[test]
fn cron_expressions_are_checked() {
    assert!(parse_schedule("0 */1 * * * * *").is_ok());
    assert!(parse_schedule("@hourly").is_ok());
    let e = parse_schedule("every day").unwrap_err();
    match &e {
        Error::CronParse { expression, source } => {
            assert_eq!(expression, "every day");
            assert!(!source.is_empty());
            assert_ne!(source, "every day");
        }
        other => panic!("unexpected error: {:?}", other),
    }
    let mut daemon = new_daemon();
    let scripts = vec![("one", scheduled("a", "61 * * * * *"))];
    daemon.begin_up(CONFIG_A, None, config(scripts)).unwrap();
    start(&mut daemon, CONFIG_A, "one", 1);
    assert!(!daemon.cron.is_scheduled("one"));
}

#[test]
fn a_schedule_replaces_the_one_before() {
    let mut daemon = new_daemon();
    assert!(daemon.cron.schedule("one", "0 0 * * * *").is_ok());
    assert!(daemon.cron.schedule("two", "0 0 * * * *").is_ok());
    let schedule = daemon.cron.schedule("one", "0 30 * * * *").unwrap();
    assert_eq!(schedule, parse_schedule("0 30 * * * *").unwrap());
    assert_eq!(daemon.cron.tasks.get("one").unwrap(), "0 30 * * * *");
    assert!(daemon.cron.schedule("one", "nonsense").is_err());
    assert!(!daemon.cron.is_scheduled("one"));
    assert!(daemon.cron.enter("one", "0 0 * * * *", None).is_ok());
    assert!(daemon.cron.is_scheduled("one"));
    let refused = daemon.cron.enter("one", "* *", Some(text("too short"))).unwrap_err();
    assert_eq!(refused.message(), "invalid cron expression '* *': too short");
    assert!(!daemon.cron.is_scheduled("one"));
    assert!(daemon.cron.cancel("two"));
    assert!(!daemon.cron.cancel("two"));
    daemon.cron.schedule("three", "0 0 * * * *").unwrap();
    assert_eq!(daemon.cron.cancel_all(), vec!["three"]);
    assert!(!daemon.cron.is_scheduled("three"));
}

#[test]
fn a_schedule_is_waited_for() {
    let schedule = parse_schedule("* * * * * *").unwrap();
    assert_eq!(schedule.to_string(), "* * * * * *");
    let next = next_due(&schedule).unwrap();
    assert_eq!(next.nanos, 0);
    let past = parse_schedule("0 0 0 1 1 * 1990").unwrap();
    assert_eq!(next_due(&past), None);

    assert_eq!(cron_step(None, at(5)), CronStep::Finish);
    assert_eq!(
        cron_step(Some(at(8)), at(5)),
        CronStep::TickAfter(Duration { secs: 3, nanos: 0 })
    );
    assert_eq!(
        cron_step(Some(at(4)), at(5)),
        CronStep::TickAfter(Duration { secs: 0, nanos: 0 })
    );
}

#[test]
fn is_orphan_follows_the_loaded_configs() {
    let mut daemon = new_daemon();
    assert!(daemon.is_orphan("one"));
    daemon.begin_up(CONFIG_A, None, config(vec![("one", plain("a"))])).unwrap();
    daemon.begin_up(CONFIG_B, None, config(vec![("two", plain("b"))])).unwrap();
    assert!(!daemon.is_orphan("one"));
    assert!(!daemon.is_orphan("two"));
    assert!(daemon.is_orphan("three"));
}

#[test]
fn forget_script_leaves_nothing() {
    let mut daemon = daemon_with(vec![
        remembered("one", CONFIG_A, ProcessStatus::Failed),
        remembered("two", CONFIG_A, ProcessStatus::Failed),
    ]);
    daemon.health.insert(text("one"), ScriptHealth::never_ran(text("one")));
    daemon.cron.schedule("one", "0 0 * * * *").unwrap();
    daemon.forget_script("one");
    assert!(!daemon.state.contains("one"));
    assert!(daemon.health.get("one").is_none());
    assert!(!daemon.cron.is_scheduled("one"));
    assert!(daemon.state.contains("two"));
    daemon.forget_script("one");
    assert_eq!(daemon.state.scripts.len(), 1);
}

#[test]
fn restore_state_prunes_orphans() {
    let mut daemon = daemon_with(vec![
        remembered("orphan", CONFIG_A, ProcessStatus::Failed),
        remembered("kept", CONFIG_A, ProcessStatus::Running),
    ]);
    assert_eq!(daemon.remembered_configs(), vec![CONFIG_A]);
    daemon.restore_config(CONFIG_A, config(vec![("kept", plain("a"))])).unwrap();
    assert_eq!(daemon.reconcile(), vec!["orphan"]);
    assert!(!daemon.state.contains("orphan"));
    assert!(daemon.health.get("orphan").is_none());
    let kept = daemon.health.get("kept").unwrap();
    assert_eq!(kept.state, ScriptHealthState::Running);
    assert_eq!(kept.restart_count, 2);
    assert_eq!(kept.last_run_at, Some(at(1)));
    assert_eq!(kept.pid, None);
    assert_eq!(all_health(&daemon.health).0, 200);
    assert_eq!(
        daemon.scripts_to_restore(),
        vec![(text(CONFIG_A), text("kept"))]
    );
    assert!(daemon.reconcile().is_empty());
}

#[test]
fn restore_state_keeps_scripts_in_other_config() {
    let mut daemon = daemon_with(vec![
        remembered("moved", CONFIG_A, ProcessStatus::Failed),
        remembered("other", CONFIG_B, ProcessStatus::Stopped),
    ]);
    assert_eq!(daemon.remembered_configs(), vec![CONFIG_A, CONFIG_B]);
    daemon.restore_config(CONFIG_A, config(vec![])).unwrap();
    daemon.restore_config(CONFIG_B, config(vec![("moved", plain("a")), ("other", plain("b"))]))
        .unwrap();
    assert!(daemon.reconcile().is_empty());
    assert!(daemon.state.contains("moved"));
    assert!(daemon.health.get("moved").is_some());
    assert!(daemon.scripts_to_restore().is_empty());
}

#[test]
fn restore_state_drops_entries_for_missing_config_file() {
    let mut daemon = daemon_with(vec![remembered("one", CONFIG_A, ProcessStatus::Running)]);
    let missing = ConfigSource::Unreadable(text("no such file"));
    assert!(daemon.restore_config(CONFIG_A, missing).is_err());
    assert_eq!(daemon.reconcile(), vec!["one"]);
    assert!(daemon.state.scripts.is_empty());
    assert_eq!(daemon.health.len(), 0);
}

#[test]
fn restored_state_is_a_projection_of_the_configs() {
    let mut daemon = daemon_with(vec![
        remembered("orphan", CONFIG_A, ProcessStatus::Failed),
        remembered("moved", CONFIG_A, ProcessStatus::Failed),
        remembered("gone", "/gone.yml", ProcessStatus::Running),
    ]);
    let missing = ConfigSource::Unreadable(text("no such file"));
    let sources = vec![
        (text(CONFIG_A), config(vec![("other", plain("a"))])),
        (text("/gone.yml"), missing),
        (text(CONFIG_B), config(vec![("moved", plain("b"))])),
    ];
    let restoration = daemon.restore_state(sources);
    assert_eq!(restoration.pruned, vec!["orphan", "gone"]);
    assert!(restoration.refused[0].is_none());
    assert!(matches!(restoration.refused[1], Some(Error::ConfigRead { .. })));
    assert!(restoration.refused[2].is_none());
    assert!(!daemon.state.contains("orphan"));
    assert!(!daemon.state.contains("gone"));
    assert!(daemon.state.contains("moved"));
    assert!(daemon.health.get("orphan").is_none());
    assert!(daemon.health.get("gone").is_none());
    assert!(daemon.health.get("moved").is_some());
    assert!(daemon.health.get("other").is_none());
    assert_eq!(daemon.config.len(), 2);
}

#[test]
fn restore_takes_up_only_what_was_running() {
    let mut stopped = remembered("stopped_on_purpose", CONFIG_A, ProcessStatus::Running);
    stopped.explicitly_stopped = true;
    let mut daemon = daemon_with(vec![
        remembered("running", CONFIG_A, ProcessStatus::Running),
        stopped,
        remembered("failed", CONFIG_A, ProcessStatus::Failed),
    ]);
    let scripts = vec![
        ("running", plain("a")),
        ("stopped_on_purpose", scheduled("b", "0 0 * * * *")),
        ("failed", scheduled("c", "0 5 * * * *")),
        ("new", scheduled("d", "0 10 * * * *")),
        ("plain", plain("e")),
    ];
    daemon.restore_config(CONFIG_A, config(scripts)).unwrap();
    daemon.reconcile();
    assert_eq!(daemon.scripts_to_restore(), vec![(text(CONFIG_A), text("running"))]);
    assert_eq!(
        daemon.schedules_to_restore(),
        vec![
            (text("failed"), text("0 5 * * * *")),
            (text("new"), text("0 10 * * * *")),
        ]
    );
    daemon.cron.schedule("new", "0 10 * * * *").unwrap();
    assert_eq!(daemon.schedules_to_restore().len(), 1);
    let tick = daemon.begin_cron_tick(&text("new"), false);
    assert!(matches!(tick, CronTick::Launch(path) if path == CONFIG_A));
}

#[test]
fn remembered_health_tells_how_a_script_ended() {
    let mut script = remembered("one", CONFIG_A, ProcessStatus::Stopped);
    assert_eq!(ScriptHealth::restored(&script).state, ScriptHealthState::Succeeded);
    script.exit_code = Some(0);
    assert_eq!(ScriptHealth::restored(&script).state, ScriptHealthState::Succeeded);
    script.exit_code = Some(3);
    let health = ScriptHealth::restored(&script);
    assert_eq!(health.state, ScriptHealthState::Failed);
    assert!(!health.healthy);
    assert_eq!(health.last_exit_code, Some(3));
}

fn steps(steps: Vec<ReloadStep>) -> Vec<String> {
    steps
        .iter()
        .map(|step| match step {
            ReloadStep::Forget(name) => format!("forget {}", name),
            ReloadStep::Stop(name) => format!("stop {}", name),
            ReloadStep::Start(name) => format!("start {}", name),
            ReloadStep::Restart(name) => format!("restart {}", name),
        })
        .collect()
}

#[test]
fn reload_removes_from_health() {
    let mut daemon = new_daemon();
    daemon.begin_up(CONFIG_A, None, config(vec![("foo", plain("a")), ("bar", plain("b"))])).unwrap();
    start(&mut daemon, CONFIG_A, "foo", 5);
    daemon.handle_process_exit(&text("foo"), failed(), at(9));
    assert_eq!(all_health(&daemon.health).0, 503);
    let new = config(vec![("bar", plain("changed")), ("baz", plain("c"))]);
    let diff = daemon.begin_reload(CONFIG_A, new).unwrap();
    assert_eq!(
        steps(daemon.reload_steps(&diff)),
        vec!["forget foo", "start baz", "restart bar"]
    );
    daemon.begin_stop(&text("foo"), at(10)).unwrap();
    daemon.finish_stop("foo", false);
    daemon.forget_script("foo");
    assert!(daemon.health.get("foo").is_none());
    assert!(!daemon.state.contains("foo"));
    assert_eq!(all_health(&daemon.health).0, 200);
}

#[test]
fn reload_keeps_script_present_in_other_config() {
    let mut daemon = new_daemon();
    daemon.begin_up(CONFIG_A, None, config(vec![("foo", plain("a"))])).unwrap();
    start(&mut daemon, CONFIG_A, "foo", 5);
    daemon.restore_config(CONFIG_B, config(vec![("foo", plain("b"))])).unwrap();
    let diff = daemon.begin_reload(CONFIG_A, config(vec![])).unwrap();
    assert_eq!(steps(daemon.reload_steps(&diff)), vec!["stop foo"]);
    daemon.begin_stop(&text("foo"), at(10)).unwrap();
    daemon.finish_stop("foo", true);
    assert!(daemon.state.contains("foo"));
    assert!(daemon.health.get("foo").is_some());
}

#[test]
fn reload_needs_a_loaded_config() {
    let mut daemon = new_daemon();
    let e = daemon.begin_reload(CONFIG_A, config(vec![])).unwrap_err();
    assert!(matches!(e, Error::ConfigNotLoaded));
}

#[test]
fn shutdown_gives_everything_up() {
    let mut daemon = new_daemon();
    let scripts = vec![("one", scheduled("a", "0 0 * * * *")), ("two", plain("b"))];
    daemon.begin_up(CONFIG_A, None, config(scripts)).unwrap();
    start(&mut daemon, CONFIG_A, "one", 1);
    start(&mut daemon, CONFIG_A, "two", 2);
    assert_eq!(daemon.shutdown(), vec![(text("one"), 1), (text("two"), 2)]);
    assert!(daemon.supervisor.names().is_empty());
    assert_eq!(daemon.log_channels.len(), 0);
    assert!(!daemon.cron.is_scheduled("one"));
    assert_eq!(daemon.state.find("one").unwrap().status, ProcessStatus::Running);
}

#[test]
fn health_is_told_over_http() {
    let mut daemon = new_daemon();
    daemon.begin_up(CONFIG_A, None, config(vec![("one", plain("a"))])).unwrap();
    assert_eq!(listen_address("0.0.0.0", 9200), "0.0.0.0:9200");
    let (status, scripts) = all_health(&daemon.health);
    assert_eq!(status, 200);
    assert_eq!(scripts.len(), 1);
    let (status, reply) = script_health(&daemon.health, "one");
    assert_eq!(status, 200);
    assert!(matches!(reply, HealthReply::Health(h) if h.name == "one"));
    let (status, reply) = script_health(&daemon.health, "two");
    assert_eq!(status, 404);
    assert!(matches!(reply, HealthReply::Error(e) if e == "script 'two' not found"));
    start(&mut daemon, CONFIG_A, "one", 3);
    daemon.handle_process_exit(&text("one"), failed(), at(7));
    assert_eq!(script_health(&daemon.health, "one").0, 503);
    assert_eq!(all_health(&daemon.health).0, 503);
}

#[test]
fn output_is_followed_where_there_is_a_channel() {
    let logs = |name: Option<&str>, follow| Command::Logs {
        name: name.map(|n| n.to_string()),
        tail: 10,
        follow,
    };
    assert_eq!(follow_name(&logs(Some("one"), true)).as_deref(), Some("one"));
    assert_eq!(follow_name(&logs(Some("one"), false)), None);
    assert_eq!(follow_name(&logs(None, true)), None);
    assert_eq!(follow_name(&Command::Ps { config_path: None }), None);

    let mut channels = NameMap::new();
    channels.insert(text("one"), ());
    assert!(refuse_follow(&channels, "one").is_none());
    assert!(matches!(
        refuse_follow(&channels, "two"),
        Some(Response::Error(e)) if e == "No active log channel for 'two'"
    ));
}
