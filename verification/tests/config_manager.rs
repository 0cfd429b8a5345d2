//! Configurations that are loaded, looked up and read anew.
use turtle_harbor::common::config::{Config, ConfigSource, RestartPolicy, Script, Settings};
use turtle_harbor::common::error::Error;
use turtle_harbor::daemon::config_manager::ConfigManager;
use turtle_harbor::names::NameMap;

fn script(command: &str, restart_policy: RestartPolicy) -> Script {
    Script {
        command: command.to_string(),
        restart_policy,
        max_restarts: None,
        cron: None,
        context: None,
        venv: None,
        env: None,
        env_file: None,
    }
}

fn config(log_dir: &str, scripts: &[(&str, &str, RestartPolicy)]) -> Config {
    let mut map = NameMap::new();
    for (name, command, policy) in scripts {
        map.insert(name.to_string(), script(command, *policy));
    }
    Config {
        settings: Settings {
            log_dir: log_dir.to_string(),
            loki: None,
        },
        scripts: map,
    }
}

fn config_a() -> ConfigSource {
    ConfigSource::Parsed(config(
        "./logs",
        &[
            ("script_a1", "echo a1", RestartPolicy::Never),
            ("script_a2", "echo a2", RestartPolicy::Always),
        ],
    ))
}

fn config_b() -> ConfigSource {
    ConfigSource::Parsed(config(
        "./logs-b",
        &[("script_b1", "echo b1", RestartPolicy::Never)],
    ))
}

const PATH_A: &str = "/tmp/a/scripts.yml";
const PATH_B: &str = "/tmp/b/scripts.yml";

fn both() -> ConfigManager {
    let mut mgr = ConfigManager::new();
    mgr.load(PATH_A, config_a()).unwrap();
    mgr.load(PATH_B, config_b()).unwrap();
    mgr
}

#[test]
fn load_multiple_configs() {
    let mgr = both();
    assert!(mgr.has_script(PATH_A, "script_a1"));
    assert!(mgr.has_script(PATH_A, "script_a2"));
    assert!(!mgr.has_script(PATH_A, "script_b1"));
    assert!(mgr.has_script(PATH_B, "script_b1"));
    assert!(!mgr.has_script(PATH_B, "script_a1"));
}

#[test]
fn script_lookup_across_configs() {
    let mgr = both();
    let script = mgr.script(PATH_A, "script_a1").unwrap();
    assert_eq!(script.command, "echo a1");
    let script = mgr.script(PATH_B, "script_b1").unwrap();
    assert_eq!(script.command, "echo b1");
    assert!(mgr.script(PATH_A, "script_b1").is_none());
}

#[test]
fn has_script_globally_finds_across_configs() {
    let mgr = both();
    assert_eq!(mgr.has_script_globally("script_a1").as_deref(), Some(PATH_A));
    assert_eq!(mgr.has_script_globally("script_b1").as_deref(), Some(PATH_B));
    assert!(mgr.has_script_globally("nonexistent").is_none());
}

#[test]
fn script_names_per_config() {
    let mgr = both();
    let mut names_a = mgr.script_names(PATH_A);
    names_a.sort();
    assert_eq!(names_a, vec!["script_a1", "script_a2"]);
    let names_b = mgr.script_names(PATH_B);
    assert_eq!(names_b, vec!["script_b1"]);
    assert!(mgr.script_names("/nonexistent").is_empty());
}

#[test]
fn reload_detects_changes() {
    let v1 = config(
        "./logs",
        &[
            ("kept", "echo kept", RestartPolicy::Never),
            ("removed", "echo removed", RestartPolicy::Never),
            ("changed", "echo old", RestartPolicy::Never),
        ],
    );
    let v2 = config(
        "./logs",
        &[
            ("kept", "echo kept", RestartPolicy::Never),
            ("added", "echo added", RestartPolicy::Never),
            ("changed", "echo new", RestartPolicy::Never),
        ],
    );
    let mut mgr = ConfigManager::new();
    mgr.load(PATH_A, ConfigSource::Parsed(v1)).unwrap();
    let diff = mgr.reload(PATH_A, ConfigSource::Parsed(v2)).unwrap();
    assert_eq!(diff.added, vec!["added"]);
    assert_eq!(diff.removed, vec!["removed"]);
    assert_eq!(diff.changed, vec!["changed"]);
}

#[test]
fn config_dir_returns_parent() {
    let mgr = ConfigManager::new();
    assert_eq!(mgr.config_dir("/projects/foo/scripts.yml"), "/projects/foo");
}

#[test]
fn config_dir_of_a_path_without_parent_is_empty() {
    let mgr = ConfigManager::new();
    assert_eq!(mgr.config_dir("scripts.yml"), "");
    assert_eq!(mgr.config_dir("/"), "");
    assert_eq!(mgr.config_dir(""), "");
}

#[test]
fn paths_with_the_same_components_are_one_path() {
    let mut mgr = both();
    assert!(mgr.has_script("/tmp//a/./scripts.yml", "script_a1"));
    mgr.load("/tmp/a//scripts.yml", config_b()).unwrap();
    assert_eq!(mgr.len(), 2);
    assert!(mgr.has_script(PATH_A, "script_b1"));
    assert!(!mgr.has_script(PATH_A, "script_a1"));
}

#[test]
fn a_config_that_is_not_loaded_cannot_be_had_or_reloaded() {
    let mut mgr = ConfigManager::new();
    assert!(matches!(mgr.config(PATH_A), Err(Error::ConfigNotLoaded)));
    assert!(matches!(
        mgr.reload(PATH_A, config_a()),
        Err(Error::ConfigNotLoaded)
    ));
    assert!(mgr.log_dir(PATH_A).is_none());
}

#[test]
fn a_config_that_cannot_be_loaded_leaves_the_others_alone() {
    let mut mgr = both();
    let unreadable = mgr.load(PATH_A, ConfigSource::Unreadable("no such file".to_string()));
    assert!(matches!(
        unreadable,
        Err(Error::ConfigRead { path, source }) if path == PATH_A && source == "no such file"
    ));
    let unparsable = mgr.reload(PATH_A, ConfigSource::Unparsable("bad yaml".to_string()));
    assert!(matches!(unparsable, Err(Error::ConfigParse(e)) if e == "bad yaml"));
    assert!(mgr.has_script(PATH_A, "script_a1"));
    assert_eq!(mgr.log_dir(PATH_B).unwrap(), "./logs-b");
}

#[test]
fn reload_of_the_same_config_tells_nothing() {
    let mut mgr = both();
    let diff = mgr.reload(PATH_A, config_a()).unwrap();
    assert!(diff.added.is_empty());
    assert!(diff.removed.is_empty());
    assert!(diff.changed.is_empty());
}

#[test]
fn conflict_names_another_config_only() {
    let mgr = both();
    assert_eq!(mgr.conflict(PATH_B, "script_a1").unwrap(), PATH_A);
    assert!(mgr.conflict(PATH_A, "script_a1").is_none());
    assert!(mgr.conflict(PATH_A, "nonexistent").is_none());
}
