use kv_store::parser::parse_command;
use kv_store::KVCommand;

fn expect_put(line: &str) -> (String, String, Option<u64>) {
    match parse_command(line.to_string()) {
        Ok((KVCommand::Put(kv), port)) => (kv.key, kv.value, port),
        _ => panic!("expected a put command"),
    }
}

fn expect_get(line: &str) -> (String, Option<u64>) {
    match parse_command(line.to_string()) {
        Ok((KVCommand::Get(k), port)) => (k, port),
        _ => panic!("expected a get command"),
    }
}

fn expect_delete(line: &str) -> (String, Option<u64>) {
    match parse_command(line.to_string()) {
        Ok((KVCommand::Delete(k), port)) => (k, port),
        _ => panic!("expected a delete command"),
    }
}

#[test]
fn parse_put_without_port() {
    let (key, value, port) = expect_put("put a 1");
    assert_eq!(key, "a");
    assert_eq!(value, "1");
    assert_eq!(port, None);
}

#[test]
fn parse_put_with_port() {
    let (key, value, port) = expect_put("put color blue 8080");
    assert_eq!(key, "color");
    assert_eq!(value, "blue");
    assert_eq!(port, Some(8080));
}

#[test]
fn parse_get_without_port() {
    let (key, port) = expect_get("get a");
    assert_eq!(key, "a");
    assert_eq!(port, None);
}

#[test]
fn parse_get_with_port() {
    let (key, port) = expect_get("get a 9001");
    assert_eq!(key, "a");
    assert_eq!(port, Some(9001));
}

#[test]
fn parse_delete_with_port() {
    let (key, port) = expect_delete("delete stale 3");
    assert_eq!(key, "stale");
    assert_eq!(port, Some(3));
}

#[test]
fn parse_trims_surrounding_whitespace() {
    let (key, port) = expect_get("  get a \n");
    assert_eq!(key, "a");
    assert_eq!(port, None);
}

#[test]
fn parse_double_space_gives_empty_token() {
    let (key, value, port) = expect_put("put  a");
    assert_eq!(key, "");
    assert_eq!(value, "a");
    assert_eq!(port, None);
}

#[test]
fn parse_extra_tokens_are_ignored() {
    let (key, port) = expect_get("get a 7 trailing junk");
    assert_eq!(key, "a");
    assert_eq!(port, Some(7));
}

#[test]
fn parse_help_is_reported_locally() {
    let err = parse_command("help".to_string()).err().expect("help must not parse");
    assert_eq!(
        err.message().as_str(),
        "Commands: put <key> <value>, get <key>, delete <key> (optional <port>)"
    );
}

#[test]
fn parse_unknown_verb_is_error() {
    let err = parse_command("frobnicate x".to_string()).err().expect("unknown verb");
    assert_eq!(err.message().as_str(), "Invalid command type");
}

#[test]
fn parse_empty_line_is_error() {
    assert!(parse_command("".to_string()).is_err());
    assert!(parse_command("   ".to_string()).is_err());
}

#[test]
fn parse_missing_arguments_is_error() {
    let err = parse_command("put a".to_string()).err().expect("put needs two arguments");
    assert_eq!(err.message().as_str(), "Not enough arguments");
    assert!(parse_command("get".to_string()).is_err());
    assert!(parse_command("delete".to_string()).is_err());
}

#[test]
fn parse_trims_unicode_whitespace() {
    let (key, port) = expect_get("\u{A0}get a\u{3000}");
    assert_eq!(key, "a");
    assert_eq!(port, None);
}

#[test]
fn parse_malformed_port_is_error() {
    let err = parse_command("get a 12x".to_string()).err().expect("malformed port");
    assert_eq!(err.message().as_str(), "Invalid port");
    assert!(parse_command("get a -3".to_string()).is_err());
}

#[test]
fn parse_overflowing_port_is_error() {
    assert!(parse_command("get a 99999999999999999999999".to_string()).is_err());
    let (_, port) = expect_get("get a 18446744073709551615");
    assert_eq!(port, Some(u64::MAX));
}
