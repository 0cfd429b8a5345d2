//! Messages, their frames, failures in words, and where files are kept.
use turtle_harbor::client::error::handle_error;
use turtle_harbor::common::error::{Error, IoFailure, IoKind};
use turtle_harbor::common::ipc::{
    encode_frame, frame_size, get_socket_path, respond, Profile, Response, MAX_MESSAGE_SIZE,
};
use turtle_harbor::common::paths::{log_dir, socket_path, state_file, Directories, Platform};

#[test]
fn a_frame_holds_length_and_message() {
    let payload = b"{\"Ps\":null}".to_vec();
    let frame = encode_frame(&payload);
    assert_eq!(&frame[..4], &[11, 0, 0, 0]);
    assert_eq!(&frame[4..], &payload[..]);
    let header = [frame[0], frame[1], frame[2], frame[3]];
    assert_eq!(frame_size(&header).unwrap(), 11);

    let long = vec![7u8; 70_000];
    let frame = encode_frame(&long);
    assert_eq!(&frame[..4], &70_000u32.to_le_bytes());
    assert_eq!(frame_size(&70_000u32.to_le_bytes()).unwrap(), 70_000);
    assert_eq!(encode_frame(&Vec::new()), vec![0, 0, 0, 0]);
}

#[test]
fn a_message_over_the_limit_is_refused() {
    assert_eq!(MAX_MESSAGE_SIZE, 10 * 1024 * 1024);
    assert_eq!(frame_size(&MAX_MESSAGE_SIZE.to_le_bytes()).unwrap(), MAX_MESSAGE_SIZE);
    let e = frame_size(&(MAX_MESSAGE_SIZE + 1).to_le_bytes()).unwrap_err();
    assert!(matches!(e, Error::MessageTooLarge { size: 10_485_761, max: 10_485_760 }));
    assert_eq!(e.message(), "message size 10485761 exceeds maximum 10485760");
    assert_eq!(handle_error(&e), "Message too large: 10485761 bytes (max 10485760)");
    assert!(frame_size(&[255, 255, 255, 255]).is_err());
}

#[test]
fn profiles_have_their_sockets() {
    assert_eq!(Profile::current(true), Profile::Development);
    assert_eq!(Profile::current(false), Profile::Production);
    let mut linux = dirs(Platform::Linux);
    assert_eq!(get_socket_path(Profile::Development, &linux), "/tmp/turtle-harbor.sock");
    assert_eq!(
        get_socket_path(Profile::Production, &linux),
        "/run/user/1000/turtle-harbor.sock"
    );
    linux.runtime = None;
    assert_eq!(
        get_socket_path(Profile::Production, &linux),
        socket_path(Profile::Production, &linux)
    );
    let mut mac = dirs(Platform::MacOs);
    mac.data = Some("/Users/me/Library/Application Support".to_string());
    assert_eq!(
        get_socket_path(Profile::Production, &mac),
        "/Users/me/Library/Application Support/turtle-harbor/daemon.sock"
    );
}

fn dirs(platform: Platform) -> Directories {
    Directories {
        platform,
        data: Some("/home/me/.local/share".to_string()),
        home: Some("/home/me".to_string()),
        runtime: Some("/run/user/1000".to_string()),
    }
}

#[test]
fn files_are_kept_where_the_platform_has_them() {
    let linux = dirs(Platform::Linux);
    assert_eq!(socket_path(Profile::Production, &linux), "/run/user/1000/turtle-harbor.sock");
    assert_eq!(
        state_file(Profile::Production, &linux),
        "/home/me/.local/share/turtle-harbor/state.json"
    );
    assert_eq!(
        log_dir(Profile::Production, &linux),
        "/home/me/.local/share/turtle-harbor/logs"
    );

    let mut mac = dirs(Platform::MacOs);
    mac.data = Some("/Users/me/Library/Application Support".to_string());
    mac.home = Some("/Users/me".to_string());
    assert_eq!(
        socket_path(Profile::Production, &mac),
        "/Users/me/Library/Application Support/turtle-harbor/daemon.sock"
    );
    assert_eq!(
        state_file(Profile::Production, &mac),
        "/Users/me/Library/Application Support/turtle-harbor/state.json"
    );
    assert_eq!(
        log_dir(Profile::Production, &mac),
        "/Users/me/Library/Logs/turtle-harbor"
    );

    let mut bare = dirs(Platform::Linux);
    bare.runtime = None;
    assert_eq!(
        socket_path(Profile::Production, &bare),
        "/home/me/.local/share/turtle-harbor/daemon.sock"
    );
}

#[test]
fn development_keeps_files_at_hand() {
    let nothing = Directories {
        platform: Platform::Other,
        data: None,
        home: None,
        runtime: None,
    };
    assert_eq!(socket_path(Profile::Development, &nothing), "/tmp/turtle-harbor.sock");
    assert_eq!(state_file(Profile::Development, &nothing), "/tmp/turtle-harbor-state.json");
    assert_eq!(log_dir(Profile::Development, &nothing), "logs");
}

fn io(kind: IoKind) -> Error {
    Error::Io(IoFailure {
        kind,
        message: "broken pipe".to_string(),
    })
}

#[test]
fn failures_are_put_into_words() {
    let cases = vec![
        (
            io(IoKind::Other),
            "IO error: broken pipe",
            "IO error: broken pipe",
        ),
        (
            io(IoKind::NotFound),
            "IO error: broken pipe",
            "Daemon is not running. Please start turtled first",
        ),
        (
            io(IoKind::ConnectionRefused),
            "IO error: broken pipe",
            "Daemon is not running. Please start turtled first",
        ),
        (
            Error::ConfigRead {
                path: "a.yml".to_string(),
                source: "gone".to_string(),
            },
            "failed to read config file a.yml: gone",
            "Failed to read config a.yml: gone",
        ),
        (
            Error::ConfigParse("bad".to_string()),
            "failed to parse config: bad",
            "Configuration error: bad",
        ),
        (
            Error::CommandTimeout,
            "command timed out",
            "Command timed out waiting for daemon response",
        ),
        (
            Error::ScriptNotFound {
                name: "x".to_string(),
            },
            "script 'x' not found",
            "Script 'x' not found",
        ),
        (
            Error::ScriptNameConflict {
                name: "x".to_string(),
                existing_config: "/b.yml".to_string(),
            },
            "script 'x' already exists in /b.yml",
            "Script 'x' already exists in /b.yml",
        ),
        (
            Error::CronParse {
                expression: "* *".to_string(),
                source: "short".to_string(),
            },
            "invalid cron expression '* *': short",
            "Invalid cron '* *': short",
        ),
        (
            Error::ConfigNotLoaded,
            "no configuration loaded - run 'th up' first",
            "No configuration loaded - run 'th up' first",
        ),
        (
            Error::Json("eof".to_string()),
            "JSON serialization error: eof",
            "JSON error: eof",
        ),
    ];
    for (error, text, told) in cases {
        assert_eq!(error.message(), text);
        assert_eq!(handle_error(&error), told);
    }
}

#[test]
fn answers_tell_success_or_failure() {
    assert!(matches!(respond(Ok(())), Response::Success));
    assert!(matches!(
        respond(Err(Error::ConfigNotLoaded)),
        Response::Error(text) if text == "no configuration loaded - run 'th up' first"
    ));
}
