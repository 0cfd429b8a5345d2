//! Files with variables, and the variables that scripts run with.
use turtle_harbor::common::config::{
    parse_env_file, Config, ConfigSource, RestartPolicy, Script, Settings,
};
use turtle_harbor::common::error::Error;
use turtle_harbor::names::NameMap;

#[test]
fn parse_env_file_basic_key_value() {
    let vars = parse_env_file(Some("FOO=bar\nBAZ=qux\n"));
    assert_eq!(vars.get("FOO").unwrap(), "bar");
    assert_eq!(vars.get("BAZ").unwrap(), "qux");
    assert_eq!(vars.len(), 2);
}

#[test]
fn parse_env_file_comments_and_empty_lines() {
    let vars = parse_env_file(Some(
        "# this is a comment\n\nFOO=bar\n\n# another comment\nBAZ=qux\n",
    ));
    assert_eq!(vars.get("FOO").unwrap(), "bar");
    assert_eq!(vars.get("BAZ").unwrap(), "qux");
    assert_eq!(vars.len(), 2);
}

#[test]
fn parse_env_file_double_quoted_value() {
    let vars = parse_env_file(Some("SECRET=\"hello world\"\n"));
    assert_eq!(vars.get("SECRET").unwrap(), "hello world");
}

#[test]
fn parse_env_file_single_quoted_value() {
    let vars = parse_env_file(Some("SECRET='hello world'\n"));
    assert_eq!(vars.get("SECRET").unwrap(), "hello world");
}

#[test]
fn parse_env_file_empty_value() {
    let vars = parse_env_file(Some("EMPTY_VAR=\n"));
    assert_eq!(vars.get("EMPTY_VAR").unwrap(), "");
}

#[test]
fn parse_env_file_value_with_equals() {
    let vars = parse_env_file(Some("URL=http://example.com?foo=bar\n"));
    assert_eq!(vars.get("URL").unwrap(), "http://example.com?foo=bar");
}

#[test]
fn parse_env_file_malformed_lines_skipped() {
    let vars = parse_env_file(Some("GOOD=value\nNO_EQUALS_HERE\nALSO_GOOD=yes\n"));
    assert_eq!(vars.get("GOOD").unwrap(), "value");
    assert_eq!(vars.get("ALSO_GOOD").unwrap(), "yes");
    assert_eq!(vars.len(), 2);
}

#[test]
fn parse_env_file_empty_key_skipped() {
    let vars = parse_env_file(Some("=value\nGOOD=ok\n"));
    assert_eq!(vars.get("GOOD").unwrap(), "ok");
    assert_eq!(vars.len(), 1);
}

#[test]
fn parse_env_file_nonexistent_file_returns_empty() {
    let vars = parse_env_file(None);
    assert_eq!(vars.len(), 0);
}

#[test]
fn parse_env_file_whitespace_around_key_value() {
    let vars = parse_env_file(Some("  KEY  =  value  \n"));
    assert_eq!(vars.get("KEY").unwrap(), "value");
}

#[test]
fn parse_env_file_later_line_wins() {
    let vars = parse_env_file(Some("KEY=first\nKEY=second"));
    assert_eq!(vars.get("KEY").unwrap(), "second");
    assert_eq!(vars.len(), 1);
}

#[test]
fn parse_env_file_quotes_come_in_pairs() {
    let vars = parse_env_file(Some("A=\"\nB=\"x'\nC=''\r\nD=\"'y'\"\n"));
    assert_eq!(vars.get("A").unwrap(), "\"");
    assert_eq!(vars.get("B").unwrap(), "\"x'");
    assert_eq!(vars.get("C").unwrap(), "");
    assert_eq!(vars.get("D").unwrap(), "'y'");
}

#[test]
fn parse_env_file_keeps_non_ascii() {
    let vars = parse_env_file(Some("\u{a0}GRÜSSE = 'schön' \u{2003}\n"));
    assert_eq!(vars.get("GRÜSSE").unwrap(), "schön");
}

fn make_script_with_env_file(env_file: Option<&str>, env: Option<NameMap<String>>) -> Script {
    Script {
        command: "echo hello".to_string(),
        restart_policy: RestartPolicy::Never,
        max_restarts: None,
        cron: None,
        context: None,
        venv: None,
        env,
        env_file: env_file.map(|p| p.to_string()),
    }
}

fn vars(list: &[(&str, &str)]) -> NameMap<String> {
    let mut map = NameMap::new();
    for (k, v) in list {
        map.insert(k.to_string(), v.to_string());
    }
    map
}

#[test]
fn resolved_env_loads_env_file_vars() {
    let script = make_script_with_env_file(Some("/tmp/vars.env"), None);
    let env = script.resolved_env("/tmp", Some("API_KEY=secret123\nDB_HOST=localhost\n"), b"");
    assert_eq!(env.get("API_KEY").unwrap(), b"secret123");
    assert_eq!(env.get("DB_HOST").unwrap(), b"localhost");
}

#[test]
fn resolved_env_inline_overrides_env_file() {
    let inline = vars(&[("SHARED", "from_inline"), ("INLINE_ONLY", "inline_val")]);
    let script = make_script_with_env_file(Some("/tmp/vars.env"), Some(inline));
    let env = script.resolved_env("/tmp", Some("SHARED=from_file\nFILE_ONLY=file_val\n"), b"");
    assert_eq!(env.get("SHARED").unwrap(), b"from_inline");
    assert_eq!(env.get("FILE_ONLY").unwrap(), b"file_val");
    assert_eq!(env.get("INLINE_ONLY").unwrap(), b"inline_val");
}

#[test]
fn resolved_env_missing_env_file_continues() {
    let script = make_script_with_env_file(Some("/nonexistent/.env"), None);
    let env = script.resolved_env("/tmp", None, b"");
    assert_eq!(env.len(), 0);
}

#[test]
fn resolved_env_no_env_file_returns_only_inline() {
    let script = make_script_with_env_file(None, Some(vars(&[("FOO", "bar")])));
    let env = script.resolved_env("/tmp", None, b"");
    assert_eq!(env.get("FOO").unwrap(), b"bar");
    assert_eq!(env.len(), 1);
}

#[test]
fn resolved_env_venv_wins_over_inline_and_file() {
    let inline = vars(&[("PATH", "/inline"), ("VIRTUAL_ENV", "/inline")]);
    let mut script = make_script_with_env_file(Some(".env"), Some(inline));
    script.venv = Some("venv".to_string());
    let env = script.resolved_env("/project", Some("PATH=/file\n"), b"/usr/bin:/bin\xff");
    assert_eq!(
        env.get("PATH").unwrap(),
        b"/project/venv/bin:/usr/bin:/bin\xff"
    );
    assert_eq!(env.get("VIRTUAL_ENV").unwrap(), b"/project/venv");
    assert_eq!(env.len(), 2);
}

#[test]
fn resolved_env_ignores_a_file_that_is_not_named() {
    let script = make_script_with_env_file(None, None);
    let env = script.resolved_env("/tmp", Some("KEY=value"), b"");
    assert_eq!(env.len(), 0);
}

#[test]
fn context_is_seen_from_the_config_dir() {
    let mut script = make_script_with_env_file(Some("vars/.env"), None);
    assert_eq!(script.resolved_context("/project"), None);
    assert_eq!(script.working_dir("/project"), "/project");
    assert_eq!(script.env_file_path("/project").unwrap(), "/project/vars/.env");

    script.context = Some("sub".to_string());
    assert_eq!(script.resolved_context("/project").unwrap(), "/project/sub");
    assert_eq!(script.env_file_path("/project").unwrap(), "/project/sub/vars/.env");

    script.context = Some("/elsewhere".to_string());
    assert_eq!(script.resolved_context("/project").unwrap(), "/elsewhere");
    assert_eq!(script.working_dir("/project"), "/elsewhere");

    script.env_file = Some("/etc/vars".to_string());
    assert_eq!(script.env_file_path("/project").unwrap(), "/etc/vars");
}

#[test]
fn restart_limit_depends_on_the_schedule() {
    let mut script = make_script_with_env_file(None, None);
    assert_eq!(script.effective_max_restarts(), 5);
    script.cron = Some("0 * * * * *".to_string());
    assert_eq!(script.effective_max_restarts(), 3);
    script.max_restarts = Some(0);
    assert_eq!(script.effective_max_restarts(), 0);
    script.max_restarts = Some(17);
    assert_eq!(script.effective_max_restarts(), 17);
}

#[test]
fn definitions_are_compared_by_what_they_mean() {
    let one = make_script_with_env_file(Some("a/./b"), Some(vars(&[("X", "1"), ("Y", "2")])));
    let two = make_script_with_env_file(Some("a//b/"), Some(vars(&[("Y", "2"), ("X", "1")])));
    assert!(one.same_definition(&two));

    let other_value = make_script_with_env_file(Some("a/b"), Some(vars(&[("X", "1"), ("Y", "3")])));
    assert!(!one.same_definition(&other_value));
    let fewer = make_script_with_env_file(Some("a/b"), Some(vars(&[("X", "1")])));
    assert!(!one.same_definition(&fewer));
    assert!(!fewer.same_definition(&one));
    let absolute = make_script_with_env_file(Some("/a/b"), Some(vars(&[("X", "1"), ("Y", "2")])));
    assert!(!one.same_definition(&absolute));
    let none = make_script_with_env_file(Some("a/b"), None);
    assert!(!one.same_definition(&none));

    let mut scheduled = make_script_with_env_file(None, None);
    scheduled.cron = Some("0 * * * * *".to_string());
    assert!(!scheduled.same_definition(&make_script_with_env_file(None, None)));
    let mut limited = make_script_with_env_file(None, None);
    limited.max_restarts = Some(1);
    assert!(!limited.same_definition(&make_script_with_env_file(None, None)));
    let mut always = make_script_with_env_file(None, None);
    always.restart_policy = RestartPolicy::Always;
    assert!(!always.same_definition(&make_script_with_env_file(None, None)));
}

#[test]
fn config_load_tells_why_it_failed() {
    let config = Config {
        settings: Settings {
            log_dir: "./logs".to_string(),
            loki: None,
        },
        scripts: NameMap::new(),
    };
    assert!(Config::load("scripts.yml", ConfigSource::Parsed(config)).is_ok());
    let e = Config::load("x.yml", ConfigSource::Unreadable("denied".to_string())).unwrap_err();
    assert_eq!(e.message(), "failed to read config file x.yml: denied");
    let e = Config::load("x.yml", ConfigSource::Unparsable("line 1".to_string())).unwrap_err();
    assert!(matches!(e, Error::ConfigParse(_)));
    assert_eq!(e.message(), "failed to parse config: line 1");
}

#[test]
fn plain_config_load_gives_the_config_or_the_reason() {
    let config = turtle_harbor::config::Config {
        settings: turtle_harbor::config::Settings {
            log_dir: "logs".to_string(),
        },
        scripts: NameMap::new(),
    };
    let loaded = turtle_harbor::config::Config::load(
        turtle_harbor::config::ConfigSource::Parsed(config),
    );
    assert_eq!(loaded.unwrap().settings.log_dir, "logs");
    let failed = turtle_harbor::config::Config::load(
        turtle_harbor::config::ConfigSource::Unreadable("gone".to_string()),
    );
    assert_eq!(failed.unwrap_err(), "gone");
    let failed = turtle_harbor::config::Config::load(
        turtle_harbor::config::ConfigSource::Unparsable("bad".to_string()),
    );
    assert_eq!(failed.unwrap_err(), "bad");
}
