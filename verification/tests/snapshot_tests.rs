use kv_store::snapshot::KVSnapshot;
use kv_store::{KVCommand, KeyValue};

fn put(key: &str, value: &str) -> KVCommand {
    KVCommand::Put(KeyValue { key: key.to_string(), value: value.to_string() })
}

fn del(key: &str) -> KVCommand {
    KVCommand::Delete(key.to_string())
}

fn get(s: &KVSnapshot, key: &str) -> Option<String> {
    s.get(&key.to_string())
}

#[test]
fn create_keeps_last_writer() {
    let s = KVSnapshot::create(&[put("a", "1"), put("b", "2"), put("a", "3")]);
    assert_eq!(get(&s, "a"), Some("3".to_string()));
    assert_eq!(get(&s, "b"), Some("2".to_string()));
    assert_eq!(get(&s, "c"), None);
}

#[test]
fn create_marks_delete_of_uncovered_key() {
    let s = KVSnapshot::create(&[del("x"), put("y", "1")]);
    assert_eq!(get(&s, "x"), None);
    assert!(s.is_deleted(&"x".to_string()));
    assert!(!s.is_deleted(&"y".to_string()));
}

#[test]
fn create_marks_delete_after_put_in_same_prefix() {
    // the last operation on "k" is a delete, so the marker must be carried
    // even though the delete cancelled a binding made in the same prefix
    let s = KVSnapshot::create(&[put("k", "v"), del("k")]);
    assert_eq!(get(&s, "k"), None);
    assert!(s.is_deleted(&"k".to_string()));
}

#[test]
fn merge_removes_key_deleted_later_in_prefix() {
    // an older snapshot still holds "k"; the newer prefix wrote and then
    // deleted it, so after the merge "k" must be gone
    let mut base = KVSnapshot::create(&[put("k", "w"), put("other", "1")]);
    let delta = KVSnapshot::create(&[put("k", "9"), del("k")]);
    base.merge(delta);
    assert_eq!(get(&base, "k"), None);
    assert_eq!(get(&base, "other"), Some("1".to_string()));
}

#[test]
fn create_drops_marker_when_key_put_back() {
    let s = KVSnapshot::create(&[del("x"), put("x", "1")]);
    assert_eq!(get(&s, "x"), Some("1".to_string()));
    assert!(!s.is_deleted(&"x".to_string()));
}

#[test]
fn create_ignores_reads() {
    let s = KVSnapshot::create(&[KVCommand::Get("a".to_string()), put("a", "1")]);
    assert_eq!(get(&s, "a"), Some("1".to_string()));
}

#[test]
fn merge_overrides_and_deletes() {
    let mut s = KVSnapshot::create(&[put("a", "1"), put("b", "2")]);
    let d = KVSnapshot::create(&[put("b", "9"), del("c"), del("a")]);
    s.merge(d);
    assert_eq!(get(&s, "a"), None);
    assert_eq!(get(&s, "b"), Some("9".to_string()));
    assert_eq!(get(&s, "c"), None);
}

#[test]
fn merge_twice_equals_merge_once() {
    let base = KVSnapshot::create(&[put("a", "1"), put("b", "2"), put("d", "4")]);
    let delta = KVSnapshot::create(&[put("b", "9"), del("a"), del("zz")]);

    let mut once = base.clone();
    once.merge(delta.clone());
    let mut twice = base;
    twice.merge(delta.clone());
    twice.merge(delta);

    for key in ["a", "b", "d", "zz"] {
        assert_eq!(get(&once, key), get(&twice, key));
    }
    assert_eq!(get(&twice, "b"), Some("9".to_string()));
    assert_eq!(get(&twice, "a"), None);
}

#[test]
fn use_snapshots_is_enabled() {
    assert!(KVSnapshot::use_snapshots());
}
