//! The per-node message transport, modelled as plain state: which outbound
//! connections exist, the shared inbox the reader tasks fill, and the queue
//! of routed messages waiting to be framed and written to a socket. The
//! socket work itself happens outside the library; every routing and
//! buffering decision is made here.

use vstd::prelude::*;

use crate::kv::Message;

verus! {

/// Where one queued message goes: the reserved client channel or a peer.
#[derive(Clone, Debug)]
pub enum Destination {
    Client,
    Peer(u64),
}

/// One routed message waiting to be written out.
#[derive(Clone, Debug)]
pub struct Envelope {
    pub dest: Destination,
    pub msg: Message,
}

/// Which connection a send to `receiver` uses: identity `0` is the client
/// sentinel and always maps to the client channel; any other identity maps
/// to that peer's connection if one was established; otherwise the send is
/// dropped.
pub open spec fn route_spec(peers: Seq<u64>, client_connected: bool, receiver: u64) -> Option<
    Destination,
> {
    if receiver == 0 {
        if client_connected {
            Some(Destination::Client)
        } else {
            None
        }
    } else if peers.contains(receiver) {
        Some(Destination::Peer(receiver))
    } else {
        None
    }
}

/// A send addressed to the client sentinel never reaches a peer connection,
/// even if a peer was configured with identity `0`.
pub proof fn lemma_client_sentinel_never_peer(peers: Seq<u64>, client_connected: bool)
    ensures
        !(route_spec(peers, client_connected, 0) matches Some(Destination::Peer(_))),
{
}

/// The decimal digits of `n`, most significant first.
pub open spec fn dec_string(n: int) -> Seq<char>
    decreases n,
{
    if n < 10 {
        seq![digit_char(n)]
    } else {
        dec_string(n / 10).push(digit_char(n % 10))
    }
}

/// The character of one decimal digit.
pub open spec fn digit_char(d: int) -> char {
    if d == 0 {
        '0'
    } else if d == 1 {
        '1'
    } else if d == 2 {
        '2'
    } else if d == 3 {
        '3'
    } else if d == 4 {
        '4'
    } else if d == 5 {
        '5'
    } else if d == 6 {
        '6'
    } else if d == 7 {
        '7'
    } else if d == 8 {
        '8'
    } else {
        '9'
    }
}

/// The virtual address a node's client channel listens on.
pub open spec fn api_addr(pid: u64) -> Seq<char> {
    "net:800"@ + dec_string(pid as int)
}

/// The virtual address for the connection from `pid` to `receiver`.
pub open spec fn peer_addr(pid: u64, receiver: u64) -> Seq<char> {
    "net:80"@ + dec_string(pid as int) + dec_string(receiver as int)
}

fn digit_str(d: u64) -> (r: &'static str)
    requires
        d < 10,
    ensures
        r@ =~= seq![digit_char(d as int)],
{
    proof {
        reveal_strlit("0");
        reveal_strlit("1");
        reveal_strlit("2");
        reveal_strlit("3");
        reveal_strlit("4");
        reveal_strlit("5");
        reveal_strlit("6");
        reveal_strlit("7");
        reveal_strlit("8");
        reveal_strlit("9");
    }
    match d {
        0 => "0",
        1 => "1",
        2 => "2",
        3 => "3",
        4 => "4",
        5 => "5",
        6 => "6",
        7 => "7",
        8 => "8",
        _ => "9",
    }
}

/// Render an identity or port in decimal.
pub fn u64_to_string(n: u64) -> (r: String)
    ensures
        r@ == dec_string(n as int),
    decreases n,
{
    if n < 10 {
        String::from_str(digit_str(n))
    } else {
        let mut s = u64_to_string(n / 10);
        let ghost prefix = s@;
        s.append(digit_str(n % 10));
        proof {
            assert(s@ =~= prefix.push(digit_char(n as int % 10)));
        }
        s
    }
}

/// Does the list of connected peers hold this identity?
fn peers_contain(v: &Vec<u64>, x: u64) -> (r: bool)
    ensures
        r == v@.contains(x),
{
    let mut i: usize = 0;
    while i < v.len()
        invariant
            i <= v@.len(),
            forall|j: int| 0 <= j < i ==> v@[j] != x,
        decreases v@.len() - i,
    {
        if v[i] == x {
            return true;
        }
        i += 1;
    }
    false
}

/// The peers of one node: every configured cluster member but itself, in
/// configuration order.
pub fn peers_of(nodes: &Vec<u64>, pid: u64) -> (r: Vec<u64>)
    ensures
        r@ == nodes@.filter(|p: u64| p != pid),
{
    let ghost pred = |p: u64| p != pid;
    let mut peers: Vec<u64> = Vec::new();
    let mut i: usize = 0;
    proof {
        reveal(Seq::filter);
        assert(nodes@.take(0) =~= Seq::<u64>::empty());
        assert(peers@ =~= nodes@.take(0).filter(pred));
    }
    while i < nodes.len()
        invariant
            i <= nodes@.len(),
            peers@ == nodes@.take(i as int).filter(|p: u64| p != pid),
        decreases nodes@.len() - i,
    {
        let node = nodes[i];
        if node != pid {
            peers.push(node);
        }
        proof {
            reveal(Seq::filter);
            let t1 = nodes@.take(i as int + 1);
            assert(t1.drop_last() =~= nodes@.take(i as int));
            assert(t1.last() == nodes@[i as int]);
        }
        i += 1;
    }
    proof {
        assert(nodes@.take(nodes@.len() as int) =~= nodes@);
    }
    peers
}

/// The transport state of one node: its identity, the peers it holds an
/// outbound connection to, whether the client channel is connected, the
/// shared inbox, and the outbound queue.
pub struct Network {
    pid: u64,
    peers: Vec<u64>,
    client_connected: bool,
    incoming: Vec<Message>,
    outgoing: Vec<Envelope>,
}

impl Network {
    pub closed spec fn pid(&self) -> u64 {
        self.pid
    }

    pub closed spec fn peers(&self) -> Seq<u64> {
        self.peers@
    }

    pub closed spec fn client_connected(&self) -> bool {
        self.client_connected
    }

    pub closed spec fn incoming(&self) -> Seq<Message> {
        self.incoming@
    }

    pub closed spec fn outgoing(&self) -> Seq<Envelope> {
        self.outgoing@
    }

    /// A fresh transport over the connections that were established, with
    /// an empty inbox and nothing queued.
    pub fn new(pid: u64, peers: Vec<u64>, client_connected: bool) -> (r: Network)
        ensures
            r.pid() == pid,
            r.peers() == peers@,
            r.client_connected() == client_connected,
            r.incoming() == Seq::<Message>::empty(),
            r.outgoing() == Seq::<Envelope>::empty(),
    {
        let r = Network { pid, peers, client_connected, incoming: Vec::new(), outgoing: Vec::new() };
        proof {
            assert(r.incoming() =~= Seq::<Message>::empty());
            assert(r.outgoing() =~= Seq::<Envelope>::empty());
        }
        r
    }

    /// Queue a message for the receiver's connection. Identity `0` is the
    /// client. A send to an identity with no connection is silently dropped.
    pub fn send(&mut self, receiver: u64, msg: Message)
        ensures
            final(self).pid() == old(self).pid(),
            final(self).peers() == old(self).peers(),
            final(self).client_connected() == old(self).client_connected(),
            final(self).incoming() == old(self).incoming(),
            final(self).outgoing() == match route_spec(
                old(self).peers(),
                old(self).client_connected(),
                receiver,
            ) {
                Some(d) => old(self).outgoing().push(Envelope { dest: d, msg }),
                None => old(self).outgoing(),
            },
    {
        if receiver == 0 {
            if self.client_connected {
                self.outgoing.push(Envelope { dest: Destination::Client, msg });
            }
        } else {
            if peers_contain(&self.peers, receiver) {
                self.outgoing.push(Envelope { dest: Destination::Peer(receiver), msg });
            }
        }
    }

    /// A reader task hands one decoded message to the shared inbox.
    pub fn deliver_incoming(&mut self, msg: Message)
        ensures
            final(self).pid() == old(self).pid(),
            final(self).peers() == old(self).peers(),
            final(self).client_connected() == old(self).client_connected(),
            final(self).outgoing() == old(self).outgoing(),
            final(self).incoming() == old(self).incoming().push(msg),
    {
        self.incoming.push(msg);
    }

    /// Remove and return everything received since the previous call, in
    /// arrival order, by swapping the inbox for an empty one.
    pub fn get_received(&mut self) -> (r: Vec<Message>)
        ensures
            final(self).pid() == old(self).pid(),
            final(self).peers() == old(self).peers(),
            final(self).client_connected() == old(self).client_connected(),
            final(self).outgoing() == old(self).outgoing(),
            final(self).incoming() == Seq::<Message>::empty(),
            r@ == old(self).incoming(),
    {
        let mut drained: Vec<Message> = Vec::new();
        core::mem::swap(&mut drained, &mut self.incoming);
        proof {
            assert(self.incoming() =~= Seq::<Message>::empty());
        }
        drained
    }

    /// Remove and return the queued outbound messages, oldest first.
    pub fn take_outgoing(&mut self) -> (r: Vec<Envelope>)
        ensures
            final(self).pid() == old(self).pid(),
            final(self).peers() == old(self).peers(),
            final(self).client_connected() == old(self).client_connected(),
            final(self).incoming() == old(self).incoming(),
            final(self).outgoing() == Seq::<Envelope>::empty(),
            r@ == old(self).outgoing(),
    {
        let mut drained: Vec<Envelope> = Vec::new();
        core::mem::swap(&mut drained, &mut self.outgoing);
        proof {
            assert(self.outgoing() =~= Seq::<Envelope>::empty());
        }
        drained
    }

    /// The address this node's client channel uses.
    pub fn get_my_api_addr(&self) -> (r: String)
        ensures
            r@ == api_addr(self.pid()),
    {
        let mut s = String::from_str("net:800");
        let ghost prefix = s@;
        let digits = u64_to_string(self.pid);
        s.append(digits.as_str());
        proof {
            assert(s@ =~= api_addr(self.pid));
        }
        s
    }

    /// The address of the connection from this node to `receiver_pid`.
    pub fn get_peer_addr(&self, receiver_pid: u64) -> (r: String)
        ensures
            r@ == peer_addr(self.pid(), receiver_pid),
    {
        let mut s = String::from_str("net:80");
        let own = u64_to_string(self.pid);
        s.append(own.as_str());
        let peer = u64_to_string(receiver_pid);
        s.append(peer.as_str());
        proof {
            assert(s@ =~= peer_addr(self.pid, receiver_pid));
        }
        s
    }
}

} // verus!
