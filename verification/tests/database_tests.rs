use kv_store::{Database, KVCommand, KeyValue};

fn put(db: &mut Database, key: &str, value: &str) {
    let r = db.handle_command(KVCommand::Put(KeyValue {
        key: key.to_string(),
        value: value.to_string(),
    }));
    assert_eq!(r, None);
}

fn get(db: &mut Database, key: &str) -> Option<String> {
    db.handle_command(KVCommand::Get(key.to_string()))
}

#[test]
fn get_on_empty_store_is_absent() {
    let mut db = Database::new();
    assert_eq!(get(&mut db, "a"), None);
}

#[test]
fn put_then_get_returns_value() {
    let mut db = Database::new();
    put(&mut db, "a", "1");
    assert_eq!(get(&mut db, "a"), Some("1".to_string()));
    assert_eq!(get(&mut db, "b"), None);
}

#[test]
fn overwrite_keeps_last_value() {
    let mut db = Database::new();
    put(&mut db, "a", "1");
    put(&mut db, "a", "2");
    assert_eq!(get(&mut db, "a"), Some("2".to_string()));
}

#[test]
fn delete_then_get_is_absent() {
    let mut db = Database::new();
    put(&mut db, "a", "1");
    let r = db.handle_command(KVCommand::Delete("a".to_string()));
    assert_eq!(r, None);
    assert_eq!(get(&mut db, "a"), None);
}

#[test]
fn delete_missing_key_is_silent() {
    let mut db = Database::new();
    assert_eq!(db.handle_command(KVCommand::Delete("ghost".to_string())), None);
    assert_eq!(get(&mut db, "ghost"), None);
}
