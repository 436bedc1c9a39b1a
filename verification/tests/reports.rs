use bcachefs_top::batch::{
    batch_document, batch_report, report_from, select_mode, to_json, ReportError, RunMode,
    DEFAULT_INTERVAL_SECS,
};
use bcachefs_top::snapshot::CounterSnapshot;

fn snapshot_of(pairs: &[(&str, u128)]) -> CounterSnapshot {
    CounterSnapshot::from_pairs(pairs.iter().map(|(n, v)| (n.to_string(), *v)).collect())
}

#[test]
fn mode_follows_the_flags() {
    assert_eq!(DEFAULT_INTERVAL_SECS, 2);
    assert_eq!(select_mode(false, 2), RunMode::Interactive);
    assert_eq!(select_mode(false, 10), RunMode::Interactive);
    assert_eq!(select_mode(true, 0), RunMode::Snapshot);
    assert_eq!(select_mode(true, 2), RunMode::Snapshot);
    assert_eq!(select_mode(true, 3), RunMode::Interval);
    assert_eq!(select_mode(true, u64::MAX), RunMode::Interval);
}

#[test]
fn json_is_a_flat_object() {
    let s = snapshot_of(&[("io_write", 524288), ("io_read", 1048576)]);
    assert_eq!(
        to_json(&s),
        Ok("{\n  \"io_read\": 1048576,\n  \"io_write\": 524288\n}".to_string())
    );
}

#[test]
fn json_never_fails() {
    let names = ["", "a", "\u{0}\n\t\\", "größe", "io_read", "\u{10ffff}"];
    let s = snapshot_of(&names.map(|n| (n, u128::MAX)));
    assert!(to_json(&s).is_ok());
    assert!(batch_report(&s, &None).is_ok());
    assert!(batch_report(&s, &Some(snapshot_of(&[("a", 1)]))).is_ok());
}

#[test]
fn json_of_nothing() {
    assert_eq!(to_json(&CounterSnapshot::new()), Ok("{}".to_string()));
}

#[test]
fn json_holds_large_numbers_and_escapes_names() {
    let s = snapshot_of(&[("a\"b", u128::MAX)]);
    assert_eq!(
        to_json(&s),
        Ok("{\n  \"a\\\"b\": 340282366920938463463374607431768211455\n}".to_string())
    );
}

#[test]
fn json_can_be_read_back() {
    let s = snapshot_of(&[("x", 1), ("y", 2)]);
    let text = to_json(&s).unwrap();
    let value: serde_json::Value = serde_json::from_str(&text).unwrap();
    let object = value.as_object().unwrap();
    assert_eq!(object.len(), 2);
    assert_eq!(object.get("x").and_then(|v| v.as_u64()), Some(1));
    assert_eq!(object.get("y").and_then(|v| v.as_u64()), Some(2));
}

#[test]
fn document_is_snapshot_or_diff() {
    let first = snapshot_of(&[("a", 1), ("b", 5)]);
    let second = snapshot_of(&[("a", 4), ("b", 5)]);
    assert_eq!(batch_document(&first, &None), first);
    assert_eq!(batch_document(&first, &Some(second)), snapshot_of(&[("a", 3), ("b", 0)]));
}

#[test]
fn report_of_one_snapshot() {
    let first = snapshot_of(&[("a", 1)]);
    assert_eq!(batch_report(&first, &None), Ok("{\n  \"a\": 1\n}".to_string()));
}

#[test]
fn report_of_an_interval() {
    let first = snapshot_of(&[("a", 1), ("b", 5)]);
    let second = snapshot_of(&[("a", 4), ("b", 5)]);
    assert_eq!(
        batch_report(&first, &Some(second)),
        Ok("{\n  \"a\": 3,\n  \"b\": 0\n}".to_string())
    );
}

#[test]
fn serializer_error_becomes_report_error() {
    let error = serde_json::from_str::<u32>("x").unwrap_err();
    assert_eq!(report_from(Err(error)), Err(ReportError::Serialize));
    assert_eq!(report_from(Ok("{}".to_string())), Ok("{}".to_string()));
}
