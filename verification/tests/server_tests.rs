use kv_store::kv::{LogEntry, Message};
use kv_store::network::{Destination, Network};
use kv_store::server::{EngineAction, Server};
use kv_store::snapshot::KVSnapshot;
use kv_store::{APIResponse, Database, KVCommand, KeyValue};

fn node(pid: u64, peers: Vec<u64>) -> Server {
    Server {
        database: Database::new(),
        network: Network::new(pid, peers, true),
        last_decided_idx: 0,
    }
}

fn put(key: &str, value: &str) -> KVCommand {
    KVCommand::Put(KeyValue { key: key.to_string(), value: value.to_string() })
}

fn read(server: &mut Server, key: &str) -> Option<String> {
    server.database.handle_command(KVCommand::Get(key.to_string()))
}

#[test]
fn decided_entries_are_applied_and_acknowledged() {
    let mut s = node(1, vec![2, 3]);
    let due = s.handle_decided_entries(
        2,
        vec![LogEntry::Decided(put("a", "1")), LogEntry::Decided(put("b", "2"))],
    );
    assert!(!due);
    assert_eq!(s.last_decided_idx, 2);
    assert_eq!(read(&mut s, "a"), Some("1".to_string()));
    assert_eq!(read(&mut s, "b"), Some("2".to_string()));

    let out = s.network.take_outgoing();
    assert_eq!(out.len(), 1);
    assert!(matches!(out[0].dest, Destination::Client));
    match &out[0].msg {
        Message::APIResponse(APIResponse::Decided(idx)) => assert_eq!(*idx, 2),
        _ => panic!("expected a Decided acknowledgment"),
    }
}

#[test]
fn replaying_a_decided_suffix_is_a_no_op() {
    let mut s = node(1, vec![2, 3]);
    let entries = vec![LogEntry::Decided(put("a", "1")), LogEntry::Decided(KVCommand::Delete("a".to_string()))];
    assert!(!s.handle_decided_entries(2, entries.clone()));
    assert_eq!(s.last_decided_idx, 2);
    assert_eq!(read(&mut s, "a"), None);
    s.network.take_outgoing();

    // the same report again: cursor unmoved, nothing reapplied, no reply
    assert!(!s.handle_decided_entries(2, entries));
    assert_eq!(s.last_decided_idx, 2);
    assert_eq!(read(&mut s, "a"), None);
    assert!(s.network.take_outgoing().is_empty());
}

#[test]
fn undecided_entries_are_not_applied() {
    let mut s = node(1, vec![2]);
    s.handle_decided_entries(
        1,
        vec![LogEntry::Decided(put("a", "1")), LogEntry::Undecided(put("b", "2"))],
    );
    assert_eq!(read(&mut s, "a"), Some("1".to_string()));
    assert_eq!(read(&mut s, "b"), None);
}

#[test]
fn snapshot_is_due_exactly_at_the_compaction_interval() {
    let mut s = node(1, vec![2, 3]);
    assert!(!s.handle_decided_entries(4, vec![LogEntry::Decided(put("a", "1"))]));
    assert!(s.handle_decided_entries(5, vec![LogEntry::Decided(put("a", "2"))]));
    assert!(!s.handle_decided_entries(7, vec![LogEntry::Decided(put("a", "3"))]));
    assert!(s.handle_decided_entries(10, vec![LogEntry::Decided(put("a", "4"))]));
}

#[test]
fn incoming_messages_become_engine_actions_in_order() {
    let mut s = node(1, vec![2, 3]);
    s.network.deliver_incoming(Message::APIRequest(put("a", "1")));
    s.network.deliver_incoming(Message::OmniPaxosMsg(vec![7, 8, 9]));
    s.network.deliver_incoming(Message::APIRequest(KVCommand::Delete("a".to_string())));

    let actions = s.process_incoming_msgs();
    assert_eq!(actions.len(), 3);
    assert!(matches!(&actions[0], EngineAction::Append(KVCommand::Put(kv)) if kv.key == "a"));
    assert!(matches!(&actions[1], EngineAction::HandleIncoming(p) if p == &vec![7, 8, 9]));
    assert!(matches!(&actions[2], EngineAction::Append(KVCommand::Delete(k)) if k == "a"));

    // a second drain finds nothing
    assert!(s.process_incoming_msgs().is_empty());
}

#[test]
fn client_reads_bypass_the_log_and_are_answered_at_once() {
    let mut s = node(1, vec![2, 3]);
    s.handle_decided_entries(1, vec![LogEntry::Decided(put("a", "1"))]);
    s.network.take_outgoing();

    s.network.deliver_incoming(Message::APIRequest(KVCommand::Get("a".to_string())));
    s.network.deliver_incoming(Message::APIRequest(KVCommand::Get("missing".to_string())));
    let actions = s.process_incoming_msgs();
    assert!(actions.is_empty());

    let out = s.network.take_outgoing();
    assert_eq!(out.len(), 2);
    assert!(matches!(out[0].dest, Destination::Client));
    match &out[0].msg {
        Message::APIResponse(APIResponse::Get(k, v)) => {
            assert_eq!(k, "a");
            assert_eq!(v.as_deref(), Some("1"));
        }
        _ => panic!("expected a read reply"),
    }
    match &out[1].msg {
        Message::APIResponse(APIResponse::Get(k, v)) => {
            assert_eq!(k, "missing");
            assert_eq!(*v, None);
        }
        _ => panic!("expected a read reply"),
    }
}

#[test]
fn stray_responses_are_ignored() {
    let mut s = node(1, vec![2]);
    s.network.deliver_incoming(Message::APIResponse(APIResponse::Decided(3)));
    let actions = s.process_incoming_msgs();
    assert!(actions.is_empty());
    assert!(s.network.take_outgoing().is_empty());
}

#[test]
fn three_node_put_then_get_then_delete() {
    let mut nodes = vec![node(1, vec![2, 3]), node(2, vec![1, 3]), node(3, vec![1, 2])];

    // the client's put reaches node 1 and becomes a log append
    nodes[0].network.deliver_incoming(Message::APIRequest(put("a", "1")));
    let actions = nodes[0].process_incoming_msgs();
    assert!(matches!(&actions[0], EngineAction::Append(KVCommand::Put(kv)) if kv.key == "a"));

    // consensus decides the entry; every node applies it
    for n in nodes.iter_mut() {
        n.handle_decided_entries(1, vec![LogEntry::Decided(put("a", "1"))]);
    }
    for n in nodes.iter_mut() {
        assert_eq!(read(n, "a"), Some("1".to_string()));
    }

    // the delete is decided next; every node sees the key disappear
    for n in nodes.iter_mut() {
        n.handle_decided_entries(2, vec![LogEntry::Decided(KVCommand::Delete("a".to_string()))]);
    }
    for n in nodes.iter_mut() {
        assert_eq!(read(n, "a"), None);
    }
}

#[test]
fn compaction_at_five_preserves_visibility() {
    let mut s = node(1, vec![2, 3]);
    let entries = vec![
        put("a", "1"),
        put("b", "2"),
        KVCommand::Delete("a".to_string()),
        put("c", "3"),
        put("b", "4"),
    ];
    let log: Vec<LogEntry> = entries.iter().cloned().map(LogEntry::Decided).collect();
    let due = s.handle_decided_entries(5, log);
    assert!(due, "a snapshot must be invoked once the decided index reaches 5");

    // the compacted representation shows the same key/value visibility
    let snap = KVSnapshot::create(&entries);
    for key in ["a", "b", "c"] {
        assert_eq!(snap.get(&key.to_string()), read(&mut s, key));
    }
}
