use ojo::ingest::{cleanup_age_secs, is_schema_file_name, is_trace_file_name, snapshot_due, watch_step, WatchEvent};
use std::path::Path;

#[test]
fn schema_file_names() {
    assert!(is_schema_file_name("event_schema_00000000deadbeef.json"));
    assert!(is_schema_file_name("event_schema_.json"));
    assert!(!is_schema_file_name("event_schema_x.json.tmp"));
    assert!(!is_schema_file_name("schema_1.json"));
    assert!(!is_schema_file_name(".json"));
}

#[test]
fn trace_file_names_follow_path_extension() {
    for name in ["a.bin", ".bin", "x.y.bin", "a.bin.tmp", "..", "bin", "a.BIN", "..bin", "a.", "trace_0_0.bin"] {
        let expected = Path::new(name).extension().is_some_and(|e| e == "bin");
        assert_eq!(is_trace_file_name(name), expected, "{name}");
    }
}

#[test]
fn snapshot_schedule() {
    assert!(snapshot_due(None));
    assert!(!snapshot_due(Some(9)));
    assert!(snapshot_due(Some(10)));
    let s = watch_step(WatchEvent::Changed, Some(3));
    assert!(s.ingest && !s.stop && !s.snapshot && !s.report_error);
    let s = watch_step(WatchEvent::Timeout, None);
    assert!(!s.ingest && !s.stop && s.snapshot);
    let s = watch_step(WatchEvent::WatchError, Some(20));
    assert!(s.report_error && s.snapshot);
    let s = watch_step(WatchEvent::Disconnected, None);
    assert!(s.stop && !s.snapshot);
}

#[test]
fn cleanup_days_to_seconds() {
    assert_eq!(cleanup_age_secs(None), None);
    assert_eq!(cleanup_age_secs(Some(2)), Some(172800));
}
