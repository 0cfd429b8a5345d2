//! Scripts that carry their own definition.
use turtle_harbor::common::config::RestartPolicy;
use turtle_harbor::common::error::Error;
use turtle_harbor::common::ipc::ProcessStatus;
use turtle_harbor::daemon::process::ExitStatus;
use turtle_harbor::daemon::process_manager::{
    read_all_logs, read_logs, LogSource, ProcessManager, SchedulerMessage, ScriptDefinition,
    ScriptStartResult,
};
use turtle_harbor::daemon::process_monitor::{monitor_exits, ProcessExitEvent};
use turtle_harbor::daemon::process_supervisor::StopAction;
use turtle_harbor::names::NameMap;
use turtle_harbor::time::{Duration, Timestamp};

fn at(secs: i64) -> Timestamp {
    Timestamp { secs, nanos: 0 }
}

fn definition(restart_policy: RestartPolicy, max_restarts: u32) -> ScriptDefinition {
    ScriptDefinition {
        command: "./run.sh".to_string(),
        restart_policy,
        max_restarts,
        cron: Some("0 0 * * * *".to_string()),
    }
}

fn manager() -> ProcessManager {
    ProcessManager::new(NameMap::new(), "/logs".to_string())
}

fn exit(name: &str, status: Option<ExitStatus>) -> ProcessExitEvent {
    ProcessExitEvent {
        name: name.to_string(),
        status,
    }
}

#[test]
fn a_started_script_is_remembered_with_its_definition() {
    let mut manager = manager();
    let name = "one".to_string();
    assert!(manager.check_process_alive("one", true).is_none());
    let plan = manager.launch_plan("one", &definition(RestartPolicy::Always, 2));
    assert_eq!(plan.program, "sh");
    assert_eq!(plan.arguments, vec!["-c", "./run.sh"]);
    assert_eq!(plan.log_path, "/logs/one.log");
    let (result, message) =
        manager.start_script(&name, definition(RestartPolicy::Always, 2), 0, 7, at(1));
    assert!(matches!(result, ScriptStartResult::Started));
    assert!(matches!(message, SchedulerMessage::ScriptUpdated(n) if n == "one"));
    assert!(matches!(
        manager.check_process_alive("one", true),
        Some(ScriptStartResult::AlreadyRunning)
    ));
    let record = &manager.get_state()[0];
    assert_eq!(record.command, "./run.sh");
    assert_eq!(record.status, ProcessStatus::Running);
    assert_eq!(record.cron.as_deref(), Some("0 0 * * * *"));
    assert_eq!(manager.processes.get("one").unwrap().log_file, "/logs/one.log");
    assert_eq!(manager.get_status(at(61))[0].uptime, Duration { secs: 60, nanos: 0 });
    assert_eq!(manager.restore_state().len(), 1);
    assert!(manager.check_process_alive("one", false).is_none());
    assert!(manager.stop_all().is_empty());
}

#[test]
fn a_stopped_script_is_not_restored() {
    let mut manager = manager();
    let name = "one".to_string();
    let e = manager.begin_stop(&name, at(1)).unwrap_err();
    assert!(matches!(e, Error::ScriptNotFound { name } if name == "one"));
    manager.start_script(&name, definition(RestartPolicy::Always, 2), 0, 7, at(1));
    manager.begin_stop(&name, at(5)).unwrap();
    let (action, message) = manager.stop_script(&name, true);
    assert_eq!(action, StopAction::Terminate { pid: 7 });
    assert!(matches!(message, SchedulerMessage::ScriptRemoved(n) if n == "one"));
    assert_eq!(manager.stop_script(&name, true).0, StopAction::Nothing);
    let record = manager.records.get("one").unwrap();
    assert!(record.explicitly_stopped);
    assert_eq!(record.last_stopped, Some(at(5)));
    assert_eq!(record.cron.as_deref(), Some("0 0 * * * *"));
    assert!(manager.restore_state().is_empty());
    assert!(manager.begin_stop(&name, at(6)).is_err());
}

#[test]
fn a_failed_process_is_followed_by_another() {
    let mut manager = manager();
    let name = "one".to_string();
    let code = |c| Some(ExitStatus { code: c });
    manager.start_script(&name, definition(RestartPolicy::Always, 1), 0, 7, at(1));
    assert!(monitor_exits(&mut manager, &exit("one", None), at(2)).is_none());
    assert_eq!(manager.records.get("one").unwrap().status, ProcessStatus::Running);
    assert_eq!(manager.stop_all(), vec!["one"]);
    let (again, count) =
        monitor_exits(&mut manager, &exit("one", code(Some(2))), at(3)).unwrap();
    assert_eq!(again.command, "./run.sh");
    assert_eq!(again.max_restarts, 1);
    assert_eq!(again.cron.as_deref(), Some("0 0 * * * *"));
    assert_eq!(count, 1);
    assert!(manager.stop_all().is_empty());
    assert_eq!(manager.records.get("one").unwrap().status, ProcessStatus::Running);
    assert!(monitor_exits(&mut manager, &exit("one", code(Some(2))), at(4)).is_none());
    assert_eq!(manager.records.get("one").unwrap().status, ProcessStatus::Running);

    manager.start_script(&name, definition(RestartPolicy::Always, 0), 0, 7, at(1));
    assert!(monitor_exits(&mut manager, &exit("one", code(None)), at(5)).is_none());
    assert!(manager.stop_all().is_empty());
    manager.start_script(&name, definition(RestartPolicy::Never, 5), 0, 7, at(1));
    assert!(monitor_exits(&mut manager, &exit("one", code(Some(1))), at(6)).is_none());
    assert!(manager.stop_all().is_empty());
}

#[test]
fn a_script_is_restarted_up_to_its_limit() {
    let mut manager = manager();
    let name = "one".to_string();
    let failure = exit("one", Some(ExitStatus { code: Some(2) }));
    manager.start_script(&name, definition(RestartPolicy::Always, 2), 0, 7, at(0));
    let mut restarts = 0;
    while let Some((again, count)) = monitor_exits(&mut manager, &failure, at(9)) {
        restarts += 1;
        assert_eq!(count, restarts);
        manager.start_script(&name, again, count, 7 + count, at(1));
        assert_eq!(manager.processes.get("one").unwrap().restart_count, count);
    }
    assert_eq!(restarts, 2);
    assert!(manager.stop_all().is_empty());
    let record = manager.records.get("one").unwrap();
    assert_eq!(record.status, ProcessStatus::Failed);
    assert_eq!(record.last_stopped, Some(at(9)));
    assert!(!record.explicitly_stopped);
    assert!(manager.restore_state().is_empty());
}

#[test]
fn a_script_that_ended_well_is_remembered_as_stopped() {
    let mut manager = manager();
    let name = "one".to_string();
    manager.start_script(&name, definition(RestartPolicy::Always, 1), 0, 7, at(1));
    let success = exit("one", Some(ExitStatus { code: Some(0) }));
    assert!(monitor_exits(&mut manager, &success, at(2)).is_none());
    assert_eq!(manager.stop_all(), vec!["one"]);
    let record = manager.records.get("one").unwrap();
    assert_eq!(record.status, ProcessStatus::Stopped);
    assert_eq!(record.last_started, Some(at(1)));
    assert_eq!(record.last_stopped, Some(at(2)));
    assert_eq!(record.cron.as_deref(), Some("0 0 * * * *"));
    assert!(manager.restore_state().is_empty());
}

#[test]
fn shutdown_tells_the_processes() {
    let mut manager = manager();
    manager.start_script(&"one".to_string(), definition(RestartPolicy::Never, 0), 0, 7, at(1));
    manager.start_script(&"two".to_string(), definition(RestartPolicy::Never, 0), 0, 0, at(1));
    assert_eq!(manager.stop_script(&"two".to_string(), true).0, StopAction::Unwatch);
    assert_eq!(manager.shutdown(), vec![("one".to_string(), 7)]);
    assert!(manager.stop_all().is_empty());
    assert_eq!(manager.records.len(), 2);
}

#[test]
fn logs_are_shown_in_sections() {
    assert_eq!(read_logs(None), "No logs available yet.");
    assert_eq!(read_logs(Some(String::new())), "");
    let logs = vec![
        ("a".to_string(), LogSource::Content("text\n".to_string())),
        ("b".to_string(), LogSource::Missing),
        ("c".to_string(), LogSource::Failed("denied".to_string())),
    ];
    assert_eq!(
        read_all_logs(&logs),
        "\n=== Logs for a ===\ntext\n\n=== No logs for b ===\n\n=== Error reading logs for c: denied ===\n"
    );
}
