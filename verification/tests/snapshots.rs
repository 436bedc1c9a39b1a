use bcachefs_top::diff::calculate_diffs;
use bcachefs_top::names::{compare_bytes, compare_names, Rank};
use bcachefs_top::snapshot::{Counter, CounterSnapshot};

fn snapshot_of(pairs: &[(&str, u128)]) -> CounterSnapshot {
    CounterSnapshot::from_pairs(pairs.iter().map(|(n, v)| (n.to_string(), *v)).collect())
}

#[test]
fn names_compare_by_bytes() {
    assert_eq!(compare_names("io_read", "io_write"), Rank::Before);
    assert_eq!(compare_names("io_write", "io_read"), Rank::After);
    assert_eq!(compare_names("io_read", "io_read"), Rank::Same);
    assert_eq!(compare_names("io", "io_read"), Rank::Before);
    assert_eq!(compare_names("", "a"), Rank::Before);
    assert_eq!(compare_names("", ""), Rank::Same);
    assert_eq!(compare_names("Z", "a"), Rank::Before);
    assert_eq!(compare_names("z", "é"), Rank::Before);
    assert_eq!(compare_bytes(&[1, 2, 3], &[1, 2]), Rank::After);
    assert_eq!(compare_bytes(&[1, 2], &[1, 3]), Rank::Before);
}

#[test]
fn empty_snapshot() {
    let s = CounterSnapshot::new();
    assert_eq!(s.len(), 0);
    assert_eq!(s.get("io_read"), None);
    assert!(!s.contains("io_read"));
    assert!(s.name_list().is_empty());
    assert_eq!(s.search("x"), (false, 0));
}

#[test]
fn insert_keeps_names_ascending() {
    let mut s = CounterSnapshot::new();
    s.insert("journal_write".to_string(), 3);
    s.insert("io_read".to_string(), 1);
    s.insert("write_super".to_string(), 4);
    s.insert("io_write".to_string(), 2);
    assert_eq!(s.len(), 4);
    assert_eq!(
        s.name_list(),
        vec![
            "io_read".to_string(),
            "io_write".to_string(),
            "journal_write".to_string(),
            "write_super".to_string()
        ]
    );
    assert_eq!(s.name_at(0), "io_read");
    assert_eq!(s.value_at(0), 1);
    assert_eq!(s.name_at(3), "write_super");
    assert_eq!(s.value_at(3), 4);
    assert_eq!(s.get("journal_write"), Some(3));
    assert_eq!(s.get("journal"), None);
    assert!(s.contains("io_write"));
    assert_eq!(s.search("io_write"), (true, 1));
    assert_eq!(s.search("io_zzz"), (false, 2));
    assert_eq!(s.search("a"), (false, 0));
    assert_eq!(s.search("zzz"), (false, 4));
}

#[test]
fn insert_replaces_a_value() {
    let mut s = snapshot_of(&[("a", 1), ("b", 2)]);
    s.insert("a".to_string(), 10);
    assert_eq!(s.len(), 2);
    assert_eq!(s.get("a"), Some(10));
    assert_eq!(s.get("b"), Some(2));
}

#[test]
fn append_adds_behind() {
    let mut s = snapshot_of(&[("a", 1)]);
    s.append("b".to_string(), 2);
    assert_eq!(s.len(), 2);
    assert_eq!(s.name_at(1), "b");
    assert_eq!(s.get("b"), Some(2));
}

#[test]
fn from_pairs_last_wins() {
    let s = snapshot_of(&[("b", 1), ("a", 2), ("b", 3)]);
    assert_eq!(s.len(), 2);
    assert_eq!(s.get("a"), Some(2));
    assert_eq!(s.get("b"), Some(3));
    assert_eq!(
        s.counters(),
        &vec![
            Counter { name: "a".to_string(), value: 2 },
            Counter { name: "b".to_string(), value: 3 }
        ]
    );
}

#[test]
fn clone_is_equal() {
    let s = snapshot_of(&[("x", 7), ("y", u128::MAX)]);
    let t = s.clone();
    assert_eq!(s, t);
    assert_eq!(t.get("y"), Some(u128::MAX));
}

#[test]
fn diff_of_growing_counters() {
    let prev = snapshot_of(&[("io_read", 100), ("io_write", 50)]);
    let curr = snapshot_of(&[("io_read", 130), ("io_write", 50)]);
    let d = calculate_diffs(&prev, &curr);
    assert_eq!(d, snapshot_of(&[("io_read", 30), ("io_write", 0)]));
}

#[test]
fn diff_of_a_snapshot_with_itself_is_zero() {
    let s = snapshot_of(&[("a", 5), ("b", 0), ("c", u128::MAX)]);
    let d = calculate_diffs(&s, &s);
    assert_eq!(d, snapshot_of(&[("a", 0), ("b", 0), ("c", 0)]));
}

#[test]
fn diff_adds_up_over_three_samples() {
    let a = snapshot_of(&[("x", 1), ("y", 10)]);
    let b = snapshot_of(&[("x", 4), ("y", 10)]);
    let c = snapshot_of(&[("x", 9), ("y", 25)]);
    let ab = calculate_diffs(&a, &b);
    let bc = calculate_diffs(&b, &c);
    let ac = calculate_diffs(&a, &c);
    assert_eq!(ac.len(), 2);
    for name in ["x", "y"] {
        assert_eq!(ac.get(name).unwrap(), ab.get(name).unwrap() + bc.get(name).unwrap());
    }
    assert_eq!(ac.get("x"), Some(8));
    assert_eq!(ac.get("y"), Some(15));
}

#[test]
fn diff_of_a_counter_that_went_down_is_zero() {
    let prev = snapshot_of(&[("io_read", 100)]);
    let curr = snapshot_of(&[("io_read", 40)]);
    assert_eq!(calculate_diffs(&prev, &curr), snapshot_of(&[("io_read", 0)]));
}

#[test]
fn diff_leaves_out_names_that_one_side_lacks() {
    let prev = snapshot_of(&[("gone", 1), ("kept", 2)]);
    let curr = snapshot_of(&[("kept", 5), ("new", 9)]);
    let d = calculate_diffs(&prev, &curr);
    assert_eq!(d, snapshot_of(&[("kept", 3)]));
    assert_eq!(d.get("new"), None);
    assert_eq!(d.get("gone"), None);
}

#[test]
fn diff_of_empty_snapshots() {
    let e = CounterSnapshot::new();
    let s = snapshot_of(&[("a", 1)]);
    assert_eq!(calculate_diffs(&e, &e).len(), 0);
    assert_eq!(calculate_diffs(&e, &s).len(), 0);
    assert_eq!(calculate_diffs(&s, &e).len(), 0);
}

#[test]
fn consecutive_samples_without_activity_give_zero_diff() {
    let first = snapshot_of(&[("io_read", 77), ("io_write", 12), ("copygc", 0)]);
    let second = snapshot_of(&[("io_read", 77), ("io_write", 12), ("copygc", 0)]);
    let d = calculate_diffs(&first, &second);
    assert_eq!(d.len(), 3);
    for c in d.counters() {
        assert_eq!(c.value, 0);
    }
}
