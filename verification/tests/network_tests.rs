use kv_store::framing::{frame, unframe};
use kv_store::kv::Message;
use kv_store::network::{Destination, Network};
use kv_store::{APIResponse, KVCommand};

fn msg(i: u64) -> Message {
    Message::APIResponse(APIResponse::Decided(i))
}

#[test]
fn send_to_sentinel_goes_to_client_channel() {
    // a peer is even (mis)configured with the reserved identity 0
    let mut n = Network::new(1, vec![0, 2, 3], true);
    n.send(0, msg(1));
    let out = n.take_outgoing();
    assert_eq!(out.len(), 1);
    assert!(matches!(out[0].dest, Destination::Client));
}

#[test]
fn send_to_peer_uses_that_connection() {
    let mut n = Network::new(1, vec![2, 3], true);
    n.send(3, msg(1));
    let out = n.take_outgoing();
    assert_eq!(out.len(), 1);
    assert!(matches!(out[0].dest, Destination::Peer(3)));
}

#[test]
fn send_to_unconnected_receiver_is_dropped() {
    let mut n = Network::new(1, vec![2, 3], true);
    n.send(9, msg(1));
    assert!(n.take_outgoing().is_empty());
}

#[test]
fn send_to_client_without_connection_is_dropped() {
    let mut n = Network::new(1, vec![2], false);
    n.send(0, msg(1));
    assert!(n.take_outgoing().is_empty());
}

#[test]
fn drain_returns_arrivals_in_order_once() {
    let mut n = Network::new(1, vec![2], true);
    n.deliver_incoming(Message::APIRequest(KVCommand::Get("a".to_string())));
    n.deliver_incoming(msg(4));
    let got = n.get_received();
    assert_eq!(got.len(), 2);
    assert!(matches!(&got[0], Message::APIRequest(KVCommand::Get(k)) if k == "a"));
    assert!(matches!(&got[1], Message::APIResponse(APIResponse::Decided(4))));
    assert!(n.get_received().is_empty());
}

#[test]
fn addresses_follow_the_derivation() {
    let n = Network::new(5, vec![2], true);
    assert_eq!(n.get_my_api_addr(), "net:8005");
    assert_eq!(n.get_peer_addr(2), "net:8052");

    let wide = Network::new(12, vec![2], true);
    assert_eq!(wide.get_my_api_addr(), "net:80012");
    assert_eq!(wide.get_peer_addr(34), "net:801234");
}

#[test]
fn frame_appends_single_newline() {
    assert_eq!(frame(b"abc".to_vec()), b"abc\n".to_vec());
    assert_eq!(frame(Vec::new()), b"\n".to_vec());
}

#[test]
fn unframe_recovers_payload() {
    assert_eq!(unframe(b"abc\n".to_vec()), Some(b"abc".to_vec()));
    assert_eq!(unframe(frame(b"xy".to_vec())), Some(b"xy".to_vec()));
    assert_eq!(unframe(b"abc".to_vec()), None);
    assert_eq!(unframe(Vec::new()), None);
}
