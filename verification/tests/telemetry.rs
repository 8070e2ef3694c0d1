use sem::telemetry::{
    env_flag_set, install_id_from_hashes, is_development_exe_path, record_decision,
    spool_event_count, spool_events, spool_lines, state_after_flush, state_after_record,
    telemetry_disabled, TelemetryState,
};
use sem::progress::{progress_enabled, summary_due};
use sem::plugin::{
    entity_change_for, file_change_for, file_change_from_bytes, EntityDiff, FileStatus, InvalidInput,
};

#[test]
fn env_flags() {
    assert!(!env_flag_set(None));
    assert!(!env_flag_set(Some("")));
    assert!(!env_flag_set(Some("0")));
    assert!(env_flag_set(Some("1")));
    assert!(env_flag_set(Some("00")));
    assert!(telemetry_disabled(None, Some("yes"), false));
    assert!(telemetry_disabled(None, None, true));
    assert!(!telemetry_disabled(Some("0"), Some(""), false));
}

#[test]
fn development_paths() {
    assert!(is_development_exe_path("/home/u/sem/crates/target/release/sem"));
    assert!(is_development_exe_path("C:\\src\\sem\\target\\debug\\sem.exe"));
    assert!(!is_development_exe_path("/usr/local/bin/sem"));
    assert!(!is_development_exe_path("/opt/target/releases/sem"));
}

fn state(last_flush: u64, last_flush_attempt: u64) -> TelemetryState {
    TelemetryState { install_id: String::new(), notice_shown: true, last_flush, last_flush_attempt }
}

#[test]
fn flush_is_due_by_count_or_age_and_throttled() {
    let now = 1_000_000;
    // the 25th event triggers a flush
    assert!(record_decision(&state(now, 0), 24, now).flush);
    assert!(!record_decision(&state(now, 0), 23, now).flush);
    // six hours after the last flush
    assert!(record_decision(&state(now - 21600, 0), 0, now).flush);
    assert!(!record_decision(&state(now - 21599, 0), 0, now).flush);
    // but not within ten minutes of the last attempt
    assert!(!record_decision(&state(0, now - 599), 100, now).flush);
    assert!(record_decision(&state(0, now - 600), 100, now).flush);
    // a clock that went backwards counts as no time passed
    assert!(!record_decision(&state(0, now + 5), 100, now).flush);
}

#[test]
fn spool_cap_and_notice() {
    let d = record_decision(&TelemetryState::new(), 499, 10);
    assert!(d.append_event);
    assert!(d.show_notice);
    let d = record_decision(&state(0, 0), 500, 10);
    assert!(!d.append_event);
    assert!(!d.show_notice);
}

#[test]
fn state_updates() {
    let s = state_after_record(TelemetryState::new(), "abc".to_string(), true, 77);
    assert_eq!(s.install_id, "abc");
    assert!(s.notice_shown);
    assert_eq!(s.last_flush_attempt, 77);
    let s = state_after_record(s, "zzz".to_string(), false, 90);
    assert_eq!(s.install_id, "abc");
    assert_eq!(s.last_flush_attempt, 77);
    let s = state_after_flush(s, true, 100);
    assert_eq!(s.last_flush, 100);
    let s = state_after_flush(s, false, 200);
    assert_eq!(s.last_flush, 100);
}

#[test]
fn install_ids_are_zero_padded_hex() {
    assert_eq!(install_id_from_hashes(0, 255), "000000000000000000000000000000ff");
    assert_eq!(
        install_id_from_hashes(0x0123456789abcdef, u64::MAX),
        format!("{:016x}{:016x}", 0x0123456789abcdefu64, u64::MAX)
    );
}

#[test]
fn progress_summary_threshold() {
    assert!(!summary_due(149_999_999));
    assert!(summary_due(150_000_000));
    assert!(progress_enabled(None, true));
    assert!(!progress_enabled(Some("1"), true));
    assert!(!progress_enabled(None, false));
}

#[test]
fn plugin_file_changes() {
    let c = file_change_for("a.py".to_string(), None, "x = 1".to_string());
    assert_eq!(c.status, FileStatus::Added);
    assert_eq!(c.after_content.as_deref(), Some("x = 1"));
    let c = file_change_for("a.py".to_string(), Some("x".to_string()), String::new());
    assert_eq!(c.status, FileStatus::Deleted);
    assert_eq!(c.after_content, None);
    assert_eq!(c.before_content.as_deref(), Some("x"));
    let c = file_change_for("a.py".to_string(), Some("x".to_string()), "y".to_string());
    assert_eq!(c.status, FileStatus::Modified);
    assert_eq!(c.old_file_path, None);
}

#[test]
fn spool_lines_split_like_str_lines() {
    let text = "foo\nbar\n\r\nbaz\r";
    assert_eq!(spool_lines(text), vec!["foo", "bar", "", "baz\r"]);
    assert_eq!(spool_lines(""), Vec::<String>::new());
    assert_eq!(spool_lines("a\n"), vec!["a"]);
    assert_eq!(spool_lines("\n\n"), vec!["", ""]);
    assert_eq!(spool_event_count("{}\n{}\n"), 2);
    assert_eq!(spool_event_count("{}\n{}"), 2);
    assert_eq!(spool_event_count(""), 0);
}

#[test]
fn spool_events_keep_json_lines_only() {
    let content = "{\"command\":\"graph\"}\nnot json\n\n[1, 2]\r\n{broken\n";
    assert_eq!(spool_events(content), vec!["{\"command\":\"graph\"}", "[1, 2]"]);
    assert!(spool_events("garbage\n").is_empty());
}

#[test]
fn plugin_input_is_decoded_after_first() {
    let c = file_change_from_bytes("a.py".to_string(), None, b"x = 1".to_vec()).unwrap();
    assert_eq!(c.status, FileStatus::Added);
    assert_eq!(c.after_content.as_deref(), Some("x = 1"));
    let c = file_change_from_bytes("a.py".to_string(), Some("é".as_bytes().to_vec()), vec![]).unwrap();
    assert_eq!(c.status, FileStatus::Deleted);
    assert_eq!(c.before_content.as_deref(), Some("é"));
    assert!(c.after_content.is_none());
    let r = file_change_from_bytes("a.py".to_string(), Some(vec![0xff]), vec![0xc3]);
    assert!(matches!(r, Err(InvalidInput::After(_))));
    let r = file_change_from_bytes("a.py".to_string(), Some(vec![0xff]), b"ok".to_vec());
    assert!(matches!(r, Err(InvalidInput::Before(_))));
}

fn diff(deleted: bool, content: Option<&str>) -> EntityDiff {
    EntityDiff {
        entity_id: "src/a.rs::function::a".to_string(),
        entity_type: "function".to_string(),
        entity_name: "a\"b".to_string(),
        file_path: "src/a.rs".to_string(),
        line: 42,
        after_content: content.map(|c| c.to_string()),
        deleted,
    }
}

#[test]
fn entity_change_snapshots() {
    let c = entity_change_for(diff(false, Some("fn a() {\n\t\u{1}}")));
    assert_eq!(c.entity_id, "src/a.rs::function::a");
    assert_eq!(c.schema_key, "sem_entity");
    assert_eq!(
        c.snapshot_content.as_deref(),
        Some(
            "{\"content\":\"fn a() {\\n\\t\\u0001}\",\"entity_name\":\"a\\\"b\",\"entity_type\":\"function\",\"file_path\":\"src/a.rs\",\"id\":\"src/a.rs::function::a\",\"line\":42}"
        )
    );
    let c = entity_change_for(diff(false, None));
    assert!(c.snapshot_content.unwrap().starts_with("{\"content\":null,"));
    let c = entity_change_for(diff(true, Some("x")));
    assert!(c.snapshot_content.is_none());
}

#[test]
fn entity_snapshot_matches_serde_json() {
    let d = diff(false, Some("é \u{7f} \u{1f} / \\"));
    let mut map = serde_json::Map::new();
    map.insert("id".to_string(), serde_json::Value::String(d.entity_id.clone()));
    map.insert("entity_type".to_string(), serde_json::Value::String(d.entity_type.clone()));
    map.insert("entity_name".to_string(), serde_json::Value::String(d.entity_name.clone()));
    map.insert("file_path".to_string(), serde_json::Value::String(d.file_path.clone()));
    map.insert("line".to_string(), serde_json::Value::from(d.line));
    map.insert(
        "content".to_string(),
        match &d.after_content {
            Some(c) => serde_json::Value::String(c.clone()),
            None => serde_json::Value::Null,
        },
    );
    let expected = serde_json::to_string(&serde_json::Value::Object(map)).unwrap();
    assert_eq!(entity_change_for(d).snapshot_content.unwrap(), expected);
}
