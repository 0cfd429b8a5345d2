//! Lines, files and views of logs, and their shipping.
use turtle_harbor::daemon::log_monitor::{
    format_line, get_log_path, last_lines, read_logs, rotated_path, script_name_of_log, LogLine,
    RotatingWriter, ScriptLog, MAX_FILE_SIZE,
};
use turtle_harbor::daemon::loki_shipper::{push_url, LokiLogEntry, LokiShipper, BATCH_MAX_SIZE};
use turtle_harbor::names::NameMap;
use turtle_harbor::path::{join_path, same_path};
use turtle_harbor::time::{elapsed, Duration, Timestamp};

#[test]
fn lines_are_written_with_time_and_stream() {
    let line = LogLine::read("hello \t\r\n", false);
    assert_eq!(line.stream(), "stdout");
    assert_eq!(
        format_line("2024-05-01 10:00:00.123", &line),
        "[2024-05-01 10:00:00.123] [stdout] hello\n"
    );
    let line = LogLine::read("  oops", true);
    assert_eq!(format_line("t", &line), "[t] [stderr]   oops\n");
}

#[test]
fn long_lines_are_cut() {
    let line = LogLine::read(&"x".repeat(9000), false);
    let written = format_line("t", &line);
    assert_eq!(written.len(), "[t] [stdout] ".len() + 8192 + 1);
    assert!(written.ends_with("x\n"));
    let line = LogLine::read(&"\u{e9}".repeat(4097), false);
    let written = format_line("t", &line);
    assert_eq!(written.len(), "[t] [stdout] ".len() + 8192 + 1);
    let line = LogLine::read(&"x".repeat(8192), false);
    assert_eq!(format_line("t", &line).len(), "[t] [stdout] ".len() + 8192 + 1);
}

#[test]
fn a_full_file_is_rotated() {
    let mut writer = RotatingWriter::new("/logs/app.log", Some(MAX_FILE_SIZE - 3));
    assert!(!writer.write_line("ab"));
    assert_eq!(writer.bytes_written, MAX_FILE_SIZE - 1);
    assert!(writer.write_line("\u{e9}"));
    let steps = writer.rotation();
    let names: Vec<(&str, &str, bool)> = steps
        .iter()
        .map(|s| (s.from.as_str(), s.to.as_str(), s.optional))
        .collect();
    assert_eq!(
        names,
        vec![
            ("/logs/app.log.4", "/logs/app.log.5", true),
            ("/logs/app.log.3", "/logs/app.log.4", true),
            ("/logs/app.log.2", "/logs/app.log.3", true),
            ("/logs/app.log.1", "/logs/app.log.2", true),
            ("/logs/app.log", "/logs/app.log.1", false),
        ]
    );
    writer.rotate();
    assert_eq!(writer.bytes_written, 0);
    assert_eq!(RotatingWriter::new("/logs/new.log", None).bytes_written, 0);
}

#[test]
fn logs_have_their_paths() {
    assert_eq!(get_log_path("/var/log", "backend"), "/var/log/backend.log");
    assert_eq!(get_log_path("logs/", "a.b"), "logs/a.b.log");
    assert_eq!(rotated_path("/logs/a.b.log", 12), "/logs/a.b.log.12");
    assert_eq!(rotated_path("app.log", 1), "app.log.1");
    assert_eq!(rotated_path("/", 1), "./.log.1");
    assert_eq!(script_name_of_log("backend.log").as_deref(), Some("backend"));
    assert_eq!(script_name_of_log("backend.log.1"), None);
    assert_eq!(script_name_of_log(".log"), None);
    assert_eq!(script_name_of_log("blog"), None);
}

#[test]
fn rotated_logs_lie_beside_the_log() {
    for dir in ["/logs", "/logs//", "logs/./", ".", "./", "", "/"] {
        let log = get_log_path(dir, "a.b");
        let first = rotated_path(&log, 1);
        let second = rotated_path(&log, 12);
        assert!(same_path(&first, &join_path(dir, "a.b.log.1")));
        assert!(same_path(&second, &join_path(dir, "a.b.log.12")));
        assert!(!same_path(&first, &log));
        assert!(!same_path(&first, &second));
    }
}

#[test]
fn the_last_lines_are_shown() {
    assert_eq!(last_lines("a\nb\nc\n", 2), "b\nc");
    assert_eq!(last_lines("a\nb\nc", 5), "a\nb\nc");
    assert_eq!(last_lines("a\r\nb\n\n", 2), "b\n");
    assert_eq!(last_lines("a\nb", 0), "");
    assert_eq!(last_lines("", 3), "");
}

fn log(name: &str, content: Option<&str>) -> ScriptLog {
    ScriptLog {
        name: name.to_string(),
        content: content.map(|c| c.to_string()),
    }
}

#[test]
fn several_logs_are_set_apart() {
    assert_eq!(read_logs(&vec![]), "No logs available yet.");
    assert_eq!(read_logs(&vec![log("a", None)]), "No logs available yet.");
    assert_eq!(read_logs(&vec![log("a", Some(""))]), "No logs available yet.");
    assert_eq!(read_logs(&vec![log("a", Some("one"))]), "one");
    assert_eq!(
        read_logs(&vec![log("a", Some("one")), log("b", None), log("c", Some("two"))]),
        "=== a ===\none\n=== c ===\ntwo"
    );
    assert_eq!(
        read_logs(&vec![log("a", None), log("b", Some("two"))]),
        "\n=== b ===\ntwo"
    );
}

fn entry(script: &str, stream: &str, secs: i64, content: &str) -> LokiLogEntry {
    LokiLogEntry {
        script: script.to_string(),
        stream: stream.to_string(),
        timestamp: Timestamp { secs, nanos: 5 },
        content: content.to_string(),
    }
}

#[test]
fn a_batch_is_grouped_by_script_and_stream() {
    let mut shipper = LokiShipper::new();
    let mut extra = NameMap::new();
    extra.insert("host".to_string(), "pi".to_string());
    assert!(shipper.accept(entry("a", "stdout", 1, "one"), &extra).is_none());
    shipper.accept(entry("b", "stdout", 2, "two"), &extra);
    shipper.accept(entry("a", "stderr", 3, "three"), &extra);
    shipper.accept(entry("a", "stdout", -4, "four"), &extra);
    let streams = shipper.flush_batch(&extra).unwrap();
    assert_eq!(streams.len(), 3);
    assert_eq!(streams[0].labels.get("script").unwrap(), "a");
    assert_eq!(streams[0].labels.get("stream").unwrap(), "stdout");
    assert_eq!(streams[0].labels.get("host").unwrap(), "pi");
    assert_eq!(streams[0].labels.len(), 3);
    assert_eq!(
        streams[0].values,
        vec![
            ("1000000005".to_string(), "one".to_string()),
            ("-3999999995".to_string(), "four".to_string()),
        ]
    );
    assert_eq!(streams[1].labels.get("script").unwrap(), "b");
    assert_eq!(streams[2].values, vec![("3000000005".to_string(), "three".to_string())]);
    assert!(shipper.flush_batch(&extra).is_none());
}

#[test]
fn further_labels_win() {
    let mut shipper = LokiShipper::new();
    let mut extra = NameMap::new();
    extra.insert("script".to_string(), "other".to_string());
    shipper.accept(entry("a", "stdout", 1, "one"), &extra);
    let streams = shipper.flush_batch(&extra).unwrap();
    assert_eq!(streams[0].labels.get("script").unwrap(), "other");
    assert_eq!(streams[0].labels.get("stream").unwrap(), "stdout");
}

#[test]
fn a_full_batch_is_shipped() {
    let mut shipper = LokiShipper::new();
    let labels = NameMap::new();
    for i in 1..BATCH_MAX_SIZE {
        assert!(shipper.accept(entry("a", "stdout", i as i64, "line"), &labels).is_none());
    }
    assert_eq!(shipper.batch.len(), 99);
    let streams = shipper.accept(entry("a", "stdout", 100, "line"), &labels).unwrap();
    assert_eq!(streams[0].values.len(), 100);
    assert!(shipper.batch.is_empty());
}

#[test]
fn a_time_too_far_away_is_shipped_as_zero() {
    let mut shipper = LokiShipper::new();
    let labels = NameMap::new();
    shipper.accept(entry("a", "stdout", 10_000_000_000, "late"), &labels);
    shipper.accept(entry("a", "stdout", 9_223_372_036, "last"), &labels);
    let streams = shipper.flush_batch(&labels).unwrap();
    assert_eq!(streams[0].values[0].0, "0");
    assert_eq!(streams[0].values[1].0, "9223372036000000005");
}

#[test]
fn batches_go_to_the_push_address() {
    assert_eq!(push_url("http://loki:3100"), "http://loki:3100/loki/api/v1/push");
    assert_eq!(push_url("http://loki:3100//"), "http://loki:3100/loki/api/v1/push");
    assert_eq!(push_url(""), "/loki/api/v1/push");
}

#[test]
fn spans_do_not_run_backwards() {
    let early = Timestamp { secs: 10, nanos: 900_000_000 };
    let late = Timestamp { secs: 12, nanos: 100_000_000 };
    assert_eq!(elapsed(early, late), Duration { secs: 1, nanos: 200_000_000 });
    assert_eq!(elapsed(late, early), Duration { secs: 0, nanos: 0 });
    assert_eq!(elapsed(late, late), Duration { secs: 0, nanos: 0 });
    let before_epoch = Timestamp { secs: -1, nanos: 0 };
    assert_eq!(elapsed(before_epoch, early), Duration { secs: 11, nanos: 900_000_000 });
}
