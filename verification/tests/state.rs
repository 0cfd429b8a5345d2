//! What the daemon remembers of its scripts.
use turtle_harbor::common::error::{Error, IoFailure, IoKind};
use turtle_harbor::common::ipc::ProcessStatus;
use turtle_harbor::daemon::state::{RunningState, ScriptState, StateSource};

fn script(name: &str, config_path: Option<&str>, status: ProcessStatus, stopped: bool) -> ScriptState {
    ScriptState {
        name: name.to_string(),
        config_path: config_path.map(|p| p.to_string()),
        status,
        last_started: None,
        last_stopped: None,
        exit_code: None,
        explicitly_stopped: stopped,
        restart_count: 0,
    }
}

fn parsed(version: u32, config_path: Option<&str>, scripts: Vec<ScriptState>) -> StateSource {
    StateSource::Parsed(RunningState {
        version,
        scripts,
        state_file: "/tmp/state.json".to_string(),
        config_path: config_path.map(|p| p.to_string()),
    })
}

#[test]
fn load_old_format_migrates_config_path() {
    let source = parsed(
        2,
        Some("/projects/a/scripts.yml"),
        vec![
            script("script1", None, ProcessStatus::Running, false),
            script("script2", None, ProcessStatus::Stopped, true),
        ],
    );
    let state = RunningState::load("/tmp/current.json", source).unwrap();

    assert_eq!(state.scripts.len(), 2);
    assert_eq!(
        state.scripts[0].config_path.as_deref(),
        Some("/projects/a/scripts.yml")
    );
    assert_eq!(
        state.scripts[1].config_path.as_deref(),
        Some("/projects/a/scripts.yml")
    );
    assert!(state.config_path.is_none());
    assert_eq!(state.state_file, "/tmp/current.json");
}

#[test]
fn load_new_format_preserves_per_script_config_path() {
    let source = parsed(
        3,
        None,
        vec![
            script("script1", Some("/projects/a/scripts.yml"), ProcessStatus::Running, false),
            script("script2", Some("/projects/b/scripts.yml"), ProcessStatus::Stopped, true),
        ],
    );
    let state = RunningState::load("/tmp/current.json", source).unwrap();

    assert_eq!(state.scripts.len(), 2);
    assert_eq!(
        state.scripts[0].config_path.as_deref(),
        Some("/projects/a/scripts.yml")
    );
    assert_eq!(
        state.scripts[1].config_path.as_deref(),
        Some("/projects/b/scripts.yml")
    );
}

#[test]
fn load_mixed_format_migrates_only_missing() {
    let source = parsed(
        2,
        Some("/projects/legacy/scripts.yml"),
        vec![
            script("has_path", Some("/projects/explicit/scripts.yml"), ProcessStatus::Running, false),
            script("no_path", None, ProcessStatus::Stopped, false),
        ],
    );
    let state = RunningState::load("/tmp/current.json", source).unwrap();

    assert_eq!(
        state.scripts[0].config_path.as_deref(),
        Some("/projects/explicit/scripts.yml")
    );
    assert_eq!(
        state.scripts[1].config_path.as_deref(),
        Some("/projects/legacy/scripts.yml")
    );
}

#[test]
fn load_nonexistent_file_creates_empty_state() {
    let state = RunningState::load("/nonexistent/state.json", StateSource::Missing).unwrap();
    assert_eq!(state.version, 3);
    assert!(state.scripts.is_empty());
    assert!(state.config_path.is_none());
}

#[test]
fn load_tells_why_it_failed() {
    let e = RunningState::load("/s", StateSource::Unparsable("eof".to_string())).unwrap_err();
    assert!(matches!(e, Error::Json(ref t) if t == "eof"));
    assert_eq!(e.message(), "JSON serialization error: eof");
    let failure = IoFailure {
        kind: IoKind::Other,
        message: "denied".to_string(),
    };
    let e = RunningState::load("/s", StateSource::Unreadable(failure)).unwrap_err();
    assert_eq!(e.message(), "IO error: denied");
}

#[test]
fn update_replaces_or_appends() {
    let mut state = RunningState::new("/s".to_string());
    state.update_script(script("a", None, ProcessStatus::Running, false));
    state.update_script(script("b", None, ProcessStatus::Running, false));
    state.update_script(script("a", Some("/x.yml"), ProcessStatus::Failed, false));
    assert_eq!(state.scripts.len(), 2);
    assert_eq!(state.scripts[0].name, "a");
    assert_eq!(state.scripts[0].status, ProcessStatus::Failed);
    assert_eq!(state.find("a").unwrap().config_path.as_deref(), Some("/x.yml"));
    assert_eq!(state.find("b").unwrap().status, ProcessStatus::Running);
    assert!(state.find("c").is_none());
}

#[test]
fn remove_drops_all_entries_of_a_name() {
    let source = parsed(
        3,
        None,
        vec![
            script("a", None, ProcessStatus::Running, false),
            script("b", None, ProcessStatus::Running, false),
            script("a", None, ProcessStatus::Failed, false),
        ],
    );
    let mut state = RunningState::load("/s", source).unwrap();
    assert_eq!(state.find("a").unwrap().status, ProcessStatus::Running);
    state.remove_script("a");
    assert_eq!(state.scripts.len(), 1);
    assert!(!state.contains("a"));
    assert!(state.contains("b"));
    state.remove_script("a");
    assert_eq!(state.scripts.len(), 1);
}

#[test]
fn a_state_is_written_beside_its_file() {
    let plan = RunningState::new("/var/lib/th/state.json".to_string()).save_plan();
    assert_eq!(plan.directory.as_deref(), Some("/var/lib/th"));
    assert_eq!(plan.temporary, "/var/lib/th/state.tmp");
    assert_eq!(plan.target, "/var/lib/th/state.json");
    let plan = RunningState::new("state".to_string()).save_plan();
    assert_eq!(plan.directory.as_deref(), Some(""));
    assert_eq!(plan.temporary, "state.tmp");
    let plan = RunningState::new("/a/state.tmp".to_string()).save_plan();
    assert_eq!(plan.temporary, plan.target);
}
