//! What the client asks, shows, installs and updates.
use flate2::write::GzEncoder;
use flate2::Compression;
use std::io::Write;
use turtle_harbor::client::cli::{
    format_duration, format_status, plan, render, Action, Output, Request, Style, Table,
};
use turtle_harbor::client::commands::{begin_follow, send_command, send_command_follow, FollowStep};
use turtle_harbor::client::service::{
    generate_plist, generate_unit, install, service_path, turtled_bin_path, uninstall, CommandLine,
};
use turtle_harbor::client::updater::{
    asset_suffix, binaries_to_replace, decide_update, extract_binaries, latest_release_url,
    new_version_message, normalize_version, pick_binaries, poll_stop, replace_binary,
    restart_daemon, restart_service, stop_daemon, updated_message, user_agent, Architecture, Asset,
    Release, StopDaemon, StopPoll, UpdateDecision, STOP_ATTEMPTS,
};
use turtle_harbor::common::error::{Error, IoKind};
use turtle_harbor::common::ipc::{Command, ProcessInfo, ProcessStatus, Response};
use turtle_harbor::common::paths::Platform;
use turtle_harbor::time::Duration;

fn text(s: &str) -> String {
    s.to_string()
}

fn line(command: &CommandLine) -> String {
    let mut words = vec![command.program.clone()];
    words.extend(command.arguments.iter().cloned());
    words.join(" ")
}

#[test]
fn durations_are_shown_as_a_clock() {
    let show = |secs| format_duration(Duration { secs, nanos: 999 });
    assert_eq!(show(0), "00:00:00");
    assert_eq!(show(59), "00:00:59");
    assert_eq!(show(3661), "01:01:01");
    assert_eq!(show(201_769), "56:02:49");
    assert_eq!(show(360_000), "100:00:00");
}

#[test]
fn statuses_have_their_colours() {
    assert_eq!(format_status(ProcessStatus::Running), ("running", Style::Green));
    assert_eq!(format_status(ProcessStatus::Stopped), ("stopped", Style::Red));
    assert_eq!(format_status(ProcessStatus::Failed), ("failed", Style::RedBold));
}

fn process(name: &str, pid: u32, status: ProcessStatus) -> ProcessInfo {
    ProcessInfo {
        name: text(name),
        pid,
        status,
        uptime: Duration { secs: 61, nanos: 0 },
        restart_count: 2,
        exit_code: None,
        config_path: Some(text("/home/me/environment/scripts/scripts.yml")),
    }
}

fn table(output: Output) -> Table {
    match output {
        Output::Table(table) => table,
        other => panic!("unexpected output: {:?}", other),
    }
}

fn row(cells: &[turtle_harbor::client::cli::Cell]) -> String {
    let texts: Vec<&str> = cells.iter().map(|c| c.text.as_str()).collect();
    texts.join(" ")
}

#[test]
fn ps_is_shown_as_a_table() {
    let list = vec![process("backend", 4711, ProcessStatus::Running)];
    let shown = table(render(&Request::Ps, &Response::ProcessList(list)));
    assert_eq!(
        row(&shown.header),
        "NAME                 PID    STATUS     UPTIME     RESTARTS"
    );
    assert!(shown.header.iter().all(|c| c.style == Style::Bold));
    assert_eq!(shown.rule, "-".repeat(60));
    assert_eq!(
        row(&shown.rows[0]),
        "backend              4711   running    00:01:01   2       "
    );
    assert_eq!(shown.rows[0][2].style, Style::Green);
}

#[test]
fn list_is_shown_with_configs() {
    let mut exited = process("calendar", 0, ProcessStatus::Stopped);
    exited.exit_code = Some(0);
    exited.uptime = Duration { secs: 0, nanos: 0 };
    exited.restart_count = 0;
    let mut running = process("podcast-transcriber", 49582, ProcessStatus::Running);
    running.uptime = Duration { secs: 201_769, nanos: 0 };
    running.restart_count = 0;
    running.config_path = Some(text("/tuclaw-workspace/scripts.yml"));
    let mut stopped = process("stopped", 0, ProcessStatus::Stopped);
    stopped.config_path = None;
    let list = vec![exited, running, stopped];
    let shown = table(render(&Request::List, &Response::ProcessList(list)));
    assert_eq!(
        row(&shown.header),
        "NAME                 PID      STATUS           UPTIME     RESTARTS  CONFIG"
    );
    assert_eq!(
        shown.rule,
        "----------------------------------------------------------------------------------"
    );
    assert_eq!(
        row(&shown.rows[0]),
        "calendar             -        exited (0)       00:00:00   0         environment/scripts"
    );
    assert_eq!(
        row(&shown.rows[1]),
        "podcast-transcriber  49582    running          56:02:49   0         tuclaw-workspace"
    );
    assert_eq!(
        row(&shown.rows[2]),
        "stopped              -        stopped          00:01:01   2         "
    );
}

#[test]
fn requests_become_commands() {
    let path = || text("/p/scripts.yml");
    let up = Request::Up { script_name: Some(text("a")) };
    assert!(matches!(
        plan(&up, path()),
        Action::Send(Command::Up { name: Some(n), config_path }) if n == "a" && config_path == path()
    ));
    assert!(matches!(
        plan(&Request::Down { script_name: None }, path()),
        Action::Send(Command::Down { name: None, config_path }) if config_path == path()
    ));
    assert!(matches!(
        plan(&Request::Ps, path()),
        Action::Send(Command::Ps { config_path: Some(p) }) if p == path()
    ));
    assert!(matches!(
        plan(&Request::List, path()),
        Action::Send(Command::Ps { config_path: None })
    ));
    assert!(matches!(
        plan(&Request::Reload, path()),
        Action::Send(Command::Reload { config_path }) if config_path == path()
    ));
    let logs = |name: Option<&str>, follow| Request::Logs {
        script_name: name.map(|n| n.to_string()),
        tail: 100,
        follow,
    };
    assert!(matches!(
        plan(&logs(None, true), path()),
        Action::Fail(e) if e == "Error: --follow requires a script name"
    ));
    assert!(matches!(
        plan(&logs(Some("a"), true), path()),
        Action::Follow(Command::Logs { tail: 100, follow: true, .. })
    ));
    assert!(matches!(
        plan(&logs(None, false), path()),
        Action::Send(Command::Logs { name: None, tail: 100, follow: false })
    ));
}

fn shown(request: &Request, response: Response) -> (bool, String) {
    match render(request, &response) {
        Output::Line(line) => (true, line),
        Output::ErrorLine(line) => (false, line),
        Output::Table(_) => panic!("unexpected table"),
    }
}

#[test]
fn answers_are_put_into_words() {
    let up = Request::Up { script_name: None };
    let down = Request::Down { script_name: None };
    let error = || Response::Error(text("boom"));
    let odd = || Response::Logs(text("x"));
    assert_eq!(shown(&up, Response::Success), (true, text("Scripts started successfully")));
    assert_eq!(shown(&up, error()), (false, text("Error: boom")));
    assert_eq!(shown(&up, odd()), (false, text("Unexpected response")));
    assert_eq!(shown(&down, Response::Success), (true, text("Scripts stopped successfully")));
    assert_eq!(shown(&Request::Reload, Response::Success), (true, text("Configuration reloaded")));
    assert_eq!(shown(&Request::Reload, error()), (false, text("Reload error: boom")));
    assert_eq!(
        shown(&Request::Ps, error()),
        (false, text("Error retrieving process list: boom"))
    );
    assert_eq!(
        shown(&Request::List, odd()),
        (false, text("Unexpected response for ps command"))
    );

    let one = Request::Logs { script_name: Some(text("a")), tail: 1, follow: false };
    let all = Request::Logs { script_name: None, tail: 1, follow: false };
    let logs = |s: &str| Response::Logs(text(s));
    assert_eq!(shown(&one, logs("l")), (true, text("=== Logs for a ===\nl")));
    assert_eq!(shown(&all, logs("l")), (true, text("l")));
    assert_eq!(shown(&one, logs("")), (true, text("No logs available for a")));
    assert_eq!(shown(&all, logs("")), (true, text("No logs available for all scripts")));
    assert_eq!(shown(&all, error()), (false, text("Error: boom")));
    assert_eq!(shown(&all, Response::Success), (false, text("Unexpected response")));
}

#[test]
fn an_answer_may_come_too_late() {
    assert!(matches!(send_command(None), Err(Error::CommandTimeout)));
    assert!(matches!(send_command(Some(Ok(Response::Success))), Ok(Response::Success)));
    assert!(matches!(
        send_command(Some(Err(Error::ConfigNotLoaded))),
        Err(Error::ConfigNotLoaded)
    ));
}

#[test]
fn following_shows_output_until_it_ends() {
    let logs = || Response::Logs(text("line\n"));
    assert_eq!(begin_follow(Some(Ok(logs()))).unwrap(), Some(text("line\n")));
    assert_eq!(begin_follow(Some(Ok(Response::Success))).unwrap(), None);
    assert!(matches!(begin_follow(None), Err(Error::CommandTimeout)));
    match begin_follow(Some(Ok(Response::Error(text("no"))))) {
        Err(Error::Io(failure)) => {
            assert_eq!(failure.kind, IoKind::Other);
            assert_eq!(failure.message, "no");
        }
        other => panic!("unexpected: {:?}", other),
    }
    assert!(matches!(send_command_follow(Ok(logs())), FollowStep::Show(s) if s == "line\n"));
    assert!(matches!(send_command_follow(Ok(Response::Success)), FollowStep::Ignore));
    assert!(matches!(
        send_command_follow(Ok(Response::Error(text("gone")))),
        FollowStep::Stop(Some(e)) if e == "gone"
    ));
    assert!(matches!(
        send_command_follow(Err(Error::CommandTimeout)),
        FollowStep::Stop(None)
    ));
}

#[test]
fn the_plist_starts_the_daemon() {
    let expected = r#"<?xml version="1.0" encoding="UTF-8"?>
<!DOCTYPE plist PUBLIC "-//Apple//DTD PLIST 1.0//EN" "http://www.apple.com/DTDs/PropertyList-1.0.dtd">
<plist version="1.0">
<dict>
    <key>Label</key>
    <string>com.turtle-harbor.daemon</string>
    <key>ProgramArguments</key>
    <array>
        <string>/usr/local/bin/turtled</string>
        <string>--http-port</string>
        <string>8080</string>
    </array>
    <key>RunAtLoad</key>
    <true/>
    <key>KeepAlive</key>
    <true/>
    <key>StandardOutPath</key>
    <string>/Users/me/Library/Logs/turtle-harbor/daemon.stdout.log</string>
    <key>StandardErrorPath</key>
    <string>/Users/me/Library/Logs/turtle-harbor/daemon.stderr.log</string>
</dict>
</plist>
"#;
    let logs = "/Users/me/Library/Logs/turtle-harbor";
    assert_eq!(generate_plist("/usr/local/bin/turtled", Some(8080), logs), expected);
    let without = generate_plist("/usr/local/bin/turtled", None, logs);
    assert!(without.contains("    <array>\n        <string>/usr/local/bin/turtled</string>\n    </array>"));
}

#[test]
fn the_unit_starts_the_daemon() {
    let expected = r#"[Unit]
Description=Turtle Harbor daemon
After=network.target

[Service]
Type=simple
ExecStart=/usr/local/bin/turtled --http-port 8080
Restart=on-failure
RestartSec=5

[Install]
WantedBy=default.target
"#;
    assert_eq!(generate_unit("/usr/local/bin/turtled", Some(8080)), expected);
    assert!(generate_unit("/t", None).contains("\nExecStart=/t\n"));
}

#[test]
fn a_service_is_installed_and_removed() {
    assert_eq!(turtled_bin_path("/usr/local/bin/th"), "/usr/local/bin/turtled");
    let e = install(Platform::Linux, "/home/me", 1000, "/b/turtled", false, None, "/l").unwrap_err();
    assert_eq!(
        e,
        "turtled binary not found at /b/turtled. Ensure it's in the same directory as th."
    );

    let linux = install(Platform::Linux, "/home/me", 1000, "/b/turtled", true, None, "/l").unwrap();
    assert_eq!(linux.directory, "/home/me/.config/systemd/user");
    assert_eq!(linux.file, "/home/me/.config/systemd/user/turtle-harbor.service");
    assert_eq!(linux.content, generate_unit("/b/turtled", None));
    assert!(linux.probe.is_none());
    let commands: Vec<String> = linux.commands.iter().map(|c| line(&c.command)).collect();
    assert_eq!(
        commands,
        vec![
            "systemctl --user daemon-reload",
            "systemctl --user enable --now turtle-harbor"
        ]
    );
    assert_eq!(linux.commands[1].failure, "systemctl enable failed");
    assert_eq!(linux.report[1], "  Status:    systemctl --user status turtle-harbor");

    let mac = install(Platform::MacOs, "/Users/me", 501, "/b/turtled", true, Some(1), "/l").unwrap();
    let plist = "/Users/me/Library/LaunchAgents/com.turtle-harbor.daemon.plist";
    assert_eq!(mac.file, plist);
    assert_eq!(line(&mac.probe.unwrap()), "launchctl list com.turtle-harbor.daemon");
    assert_eq!(line(&mac.unload.unwrap()), format!("launchctl bootout gui/501 {}", plist));
    assert_eq!(
        line(&mac.commands[0].command),
        format!("launchctl bootstrap gui/501 {}", plist)
    );

    let gone = uninstall(Platform::Linux, "/home/me", 1000, false);
    assert!(gone.file.is_none());
    assert_eq!(gone.report, "Service is not installed.");
    let linux = uninstall(Platform::Linux, "/home/me", 1000, true);
    assert_eq!(linux.file.unwrap(), service_path(Platform::Linux, "/home/me"));
    assert_eq!(line(&linux.stop.unwrap()), "systemctl --user disable --now turtle-harbor");
    assert_eq!(line(&linux.reload.unwrap()), "systemctl --user daemon-reload");
    let mac = uninstall(Platform::MacOs, "/Users/me", 501, true);
    assert_eq!(mac.file.as_deref(), Some(plist));
    assert!(mac.reload.is_none());
    assert_eq!(mac.report, "Service stopped and removed.");
}

fn release() -> Release {
    Release {
        tag_name: text("v0.7.0"),
        assets: vec![
            Asset {
                name: text("checksums.txt"),
                browser_download_url: text("https://x/checksums.txt"),
            },
            Asset {
                name: text("turtle-harbor-x86_64-unknown-linux-gnu.tar.gz"),
                browser_download_url: text("https://x/linux"),
            },
        ],
    }
}

#[test]
fn versions_are_compared_without_their_letter() {
    assert_eq!(normalize_version("v1.2.3"), "1.2.3");
    assert_eq!(normalize_version("1.2.3"), "1.2.3");
    assert_eq!(normalize_version("vv1"), "v1");
    assert_eq!(normalize_version(""), "");
}

#[test]
fn an_update_is_decided_by_the_release() {
    assert_eq!(
        latest_release_url(),
        "https://api.github.com/repos/pkarpovich/turtle-harbor/releases/latest"
    );
    assert_eq!(user_agent("0.6.2"), "turtle-harbor/0.6.2");
    assert_eq!(
        asset_suffix(Platform::MacOs, Architecture::Aarch64),
        Some("aarch64-apple-darwin")
    );
    assert_eq!(asset_suffix(Platform::Other, Architecture::X86_64), None);
    let linux = asset_suffix(Platform::Linux, Architecture::X86_64).unwrap();
    assert!(matches!(decide_update("0.7.0", &release(), linux), UpdateDecision::UpToDate));
    match decide_update("0.6.2", &release(), linux) {
        UpdateDecision::Download { latest, name, url } => {
            assert_eq!(latest, "0.7.0");
            assert_eq!(name, "turtle-harbor-x86_64-unknown-linux-gnu.tar.gz");
            assert_eq!(url, "https://x/linux");
        }
        other => panic!("unexpected: {:?}", other),
    }
    assert!(matches!(
        decide_update("0.6.2", &release(), "aarch64-apple-darwin"),
        UpdateDecision::NoAsset(e) if e == "no binary found for this platform (aarch64-apple-darwin)"
    ));
    assert_eq!(
        new_version_message("0.6.2", "0.7.0"),
        "New version available: 0.6.2 -> 0.7.0"
    );
    assert_eq!(
        updated_message(Some("turtled 0.7.0\n"), "0.7.0"),
        "Updated successfully: turtled 0.7.0"
    );
    assert_eq!(updated_message(None, "0.7.0"), "Updated to 0.7.0");
}

fn archive(members: &[(&str, &[u8])]) -> Vec<u8> {
    let mut builder = tar::Builder::new(Vec::new());
    for (path, content) in members {
        let mut header = tar::Header::new_gnu();
        header.set_size(content.len() as u64);
        header.set_mode(0o755);
        header.set_cksum();
        builder.append_data(&mut header, path, *content).unwrap();
    }
    let mut encoder = GzEncoder::new(Vec::new(), Compression::default());
    encoder.write_all(&builder.into_inner().unwrap()).unwrap();
    encoder.finish().unwrap()
}

#[test]
fn programs_are_taken_out_of_an_archive() {
    let data = archive(&[
        ("README.md", b"read me"),
        ("turtle-harbor/th", b"client"),
        ("turtled", b"daemon"),
        ("bin/th.old", b"old"),
    ]);
    let found = extract_binaries(&data).unwrap();
    let found: Vec<(&str, &[u8])> = found
        .iter()
        .map(|b| (b.name.as_str(), b.content.as_slice()))
        .collect();
    assert_eq!(found, vec![("th", &b"client"[..]), ("turtled", &b"daemon"[..])]);
}

#[test]
fn a_broken_archive_is_refused() {
    let e = extract_binaries(b"not an archive").unwrap_err();
    assert!(!e.is_empty());
    let mut data = archive(&[("th", &[7u8; 5000])]);
    data.truncate(30);
    assert!(extract_binaries(&data).is_err());
}

#[test]
fn only_the_last_component_tells_a_program() {
    let member = |path: &[u8]| (path.to_vec(), vec![1u8]);
    let picked = pick_binaries(vec![
        member(b"th/readme"),
        member(b"a/b/turtled/"),
        member(b"th\xff"),
        member(b"th/."),
        member(b".."),
    ]);
    let names: Vec<&str> = picked.iter().map(|b| b.name.as_str()).collect();
    assert_eq!(names, vec!["turtled", "th"]);
}

#[test]
fn the_daemon_is_asked_to_end_and_then_forced() {
    assert!(matches!(stop_daemon(false, "/b"), StopDaemon::NotRunning));
    match stop_daemon(true, "/b") {
        StopDaemon::Stop { scripts, daemon } => {
            assert_eq!(line(&scripts), "/b/th down");
            assert_eq!(line(&daemon), "pkill turtled");
        }
        other => panic!("unexpected: {:?}", other),
    }
    assert!(matches!(poll_stop(1, false), StopPoll::Stopped));
    assert!(matches!(poll_stop(1, true), StopPoll::AskAgain));
    assert!(matches!(poll_stop(STOP_ATTEMPTS - 1, true), StopPoll::AskAgain));
    match poll_stop(STOP_ATTEMPTS, true) {
        StopPoll::Kill(command) => assert_eq!(line(&command), "pkill -9 turtled"),
        other => panic!("unexpected: {:?}", other),
    }
}

#[test]
fn programs_are_put_in_their_places() {
    assert_eq!(binaries_to_replace(), ["th", "turtled"]);
    let step = replace_binary("th", "/tmp/x", "/usr/local/bin", true).unwrap();
    assert_eq!(step.message, "Installing th -> /usr/local/bin/th");
    assert_eq!(line(&step.command), "sudo cp -f /tmp/x/th /usr/local/bin/th");
    assert_eq!(step.failure, "sudo cp failed for th");
    let e = replace_binary("turtled", "/tmp/x", "/usr/local/bin", false).unwrap_err();
    assert_eq!(e, "extracted archive missing turtled");
    assert_eq!(
        line(&restart_service(Platform::Linux).unwrap()),
        "systemctl --user restart turtle-harbor"
    );
    assert!(restart_service(Platform::MacOs).is_none());
    assert_eq!(restart_daemon(Some(true), "/b"), None);
    assert_eq!(restart_daemon(Some(false), "/b").as_deref(), Some("/b/turtled"));
    assert_eq!(restart_daemon(None, "/b").as_deref(), Some("/b/turtled"));
}
