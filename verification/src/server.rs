//! The replication coordinator: it drains the transport inbox, answers
//! reads from storage, turns replicated client writes and consensus
//! payloads into engine actions, applies newly decided log entries to
//! storage exactly once, acknowledges the client, and decides when the
//! decided prefix is due for compaction. The consensus engine itself is an
//! external collaborator; the loop that runs it performs each returned
//! action and reports back what the engine decided.

use vstd::prelude::*;

use crate::database::Database;
use crate::kv::{apply_commands, APIResponse, KVCommand, KeyValue, LogEntry, Message};
use crate::network::{Envelope, Destination, Network};

verus! {

/// Every how many decided entries the decided prefix is compacted.
pub const SNAPSHOT_INTERVAL: u64 = 5;

/// What the coordinator asks the consensus engine to do for one message.
#[derive(Clone, Debug)]
pub enum EngineAction {
    /// Submit a client write or delete as a new log entry.
    Append(KVCommand),
    /// Hand a peer's consensus payload to the engine.
    HandleIncoming(Vec<u8>),
}

/// The engine actions a batch of messages gives rise to, in order.
pub open spec fn engine_actions_of(msgs: Seq<Message>) -> Seq<EngineAction>
    decreases msgs.len(),
{
    if msgs.len() == 0 {
        Seq::empty()
    } else {
        engine_actions_of(msgs.drop_last()) + match msgs.last() {
            Message::OmniPaxosMsg(p) => seq![EngineAction::HandleIncoming(p)],
            Message::APIRequest(cmd) => match cmd {
                KVCommand::Get(_) => Seq::empty(),
                _ => seq![EngineAction::Append(cmd)],
            },
            Message::APIResponse(_) => Seq::empty(),
        }
    }
}

/// `env` is a correct reply, addressed to the client, for a read of `k`
/// against contents `m`.
pub open spec fn read_reply_for(m: Map<Seq<char>, Seq<char>>, k: Seq<char>, env: Envelope) -> bool {
    &&& env.dest matches Destination::Client
    &&& match env.msg {
        Message::APIResponse(resp) => match resp {
            APIResponse::Get(k2, v) => k2@ == k && match v {
                Some(s) => m.contains_key(k) && s@ == m[k],
                None => !m.contains_key(k),
            },
            _ => false,
        },
        _ => false,
    }
}

/// The outbound queue grew from `pre` to `post` by exactly one correct
/// client-addressed read reply per read in `msgs`, in order — and, when the
/// client channel is down, did not grow at all.
pub open spec fn replies_match(
    msgs: Seq<Message>,
    m: Map<Seq<char>, Seq<char>>,
    client: bool,
    pre: Seq<Envelope>,
    post: Seq<Envelope>,
) -> bool
    decreases msgs.len(),
{
    if msgs.len() == 0 {
        post == pre
    } else {
        match msgs.last() {
            Message::APIRequest(cmd) => match cmd {
                KVCommand::Get(k) => if client {
                    &&& post.len() >= 1
                    &&& read_reply_for(m, k@, post.last())
                    &&& replies_match(msgs.drop_last(), m, client, pre, post.drop_last())
                } else {
                    replies_match(msgs.drop_last(), m, client, pre, post)
                },
                _ => replies_match(msgs.drop_last(), m, client, pre, post),
            },
            _ => replies_match(msgs.drop_last(), m, client, pre, post),
        }
    }
}

/// The commands carried by the decided entries of a suffix, in log order.
pub open spec fn decided_of(s: Seq<LogEntry>) -> Seq<KVCommand>
    decreases s.len(),
{
    if s.len() == 0 {
        Seq::empty()
    } else {
        decided_of(s.drop_last()) + match s.last() {
            LogEntry::Decided(c) => seq![c],
            _ => Seq::empty(),
        }
    }
}

/// How one report of a decided suffix moves storage contents and the
/// decided cursor: only a strictly advanced index applies anything, and the
/// cursor never moves backwards.
pub open spec fn decided_step(
    m: Map<Seq<char>, Seq<char>>,
    last: u64,
    new_idx: u64,
    entries: Seq<LogEntry>,
) -> (Map<Seq<char>, Seq<char>>, u64) {
    if last < new_idx {
        (apply_commands(m, decided_of(entries)), new_idx)
    } else {
        (m, last)
    }
}

/// One node's coordinator state: storage, transport, and the highest log
/// index already applied to storage.
pub struct Server {
    pub database: Database,
    pub network: Network,
    pub last_decided_idx: u64,
}

impl Server {
    pub open spec fn wf(&self) -> bool {
        self.database.wf()
    }

    /// Transport configuration (identity, connections) is untouched.
    pub open spec fn same_links(&self, other: &Server) -> bool {
        &&& self.network.pid() == other.network.pid()
        &&& self.network.peers() == other.network.peers()
        &&& self.network.client_connected() == other.network.client_connected()
    }

    /// Handle one inbound message: a consensus payload and a client write
    /// each become an engine action; a client read is answered immediately
    /// from storage, bypassing the log; a stray response is ignored.
    /// Storage contents and the decided cursor never change here.
    pub fn process_message(&mut self, msg: Message) -> (r: Option<EngineAction>)
        requires
            old(self).wf(),
        ensures
            final(self).wf(),
            old(self).same_links(final(self)),
            final(self).database@ == old(self).database@,
            final(self).last_decided_idx == old(self).last_decided_idx,
            final(self).network.incoming() == old(self).network.incoming(),
            match msg {
                Message::OmniPaxosMsg(p) => {
                    &&& r == Some(EngineAction::HandleIncoming(p))
                    &&& final(self).network.outgoing() == old(self).network.outgoing()
                },
                Message::APIRequest(cmd) => match cmd {
                    KVCommand::Get(k) => {
                        &&& r is None
                        &&& if old(self).network.client_connected() {
                            &&& final(self).network.outgoing().len() == old(
                                self,
                            ).network.outgoing().len() + 1
                            &&& final(self).network.outgoing().drop_last() == old(
                                self,
                            ).network.outgoing()
                            &&& read_reply_for(
                                old(self).database@,
                                k@,
                                final(self).network.outgoing().last(),
                            )
                        } else {
                            final(self).network.outgoing() == old(self).network.outgoing()
                        }
                    },
                    _ => {
                        &&& r == Some(EngineAction::Append(cmd))
                        &&& final(self).network.outgoing() == old(self).network.outgoing()
                    },
                },
                Message::APIResponse(_) => {
                    &&& r is None
                    &&& final(self).network.outgoing() == old(self).network.outgoing()
                },
            },
    {
        match msg {
            Message::APIRequest(kv_cmd) => match kv_cmd {
                KVCommand::Get(key) => {
                    let value = self.database.handle_command(KVCommand::Get(key.clone()));
                    let reply = Message::APIResponse(APIResponse::Get(key, value));
                    self.network.send(0, reply);
                    None
                },
                cmd => Some(EngineAction::Append(cmd)),
            },
            Message::OmniPaxosMsg(p) => Some(EngineAction::HandleIncoming(p)),
            Message::APIResponse(_) => None,
        }
    }

    /// Drain the inbox and handle every message in arrival order: reads are
    /// answered at once, and the actions for the engine come back in order.
    pub fn process_incoming_msgs(&mut self) -> (actions: Vec<EngineAction>)
        requires
            old(self).wf(),
        ensures
            final(self).wf(),
            old(self).same_links(final(self)),
            final(self).database@ == old(self).database@,
            final(self).last_decided_idx == old(self).last_decided_idx,
            final(self).network.incoming() == Seq::<Message>::empty(),
            actions@ == engine_actions_of(old(self).network.incoming()),
            replies_match(
                old(self).network.incoming(),
                old(self).database@,
                old(self).network.client_connected(),
                old(self).network.outgoing(),
                final(self).network.outgoing(),
            ),
    {
        let mut messages = self.network.get_received();
        let ghost msgs = messages@;
        let ghost m0 = self.database@;
        let ghost pre = self.network.outgoing();
        let n = messages.len();
        let mut actions: Vec<EngineAction> = Vec::new();
        assert(msgs.take(0) =~= Seq::<Message>::empty());
        assert(actions@ =~= engine_actions_of(msgs.take(0)));
        assert(messages@ =~= msgs.subrange(0, n as int));
        let mut i: usize = 0;
        while i < n
            invariant
                i <= n,
                n == msgs.len(),
                messages@ == msgs.subrange(i as int, n as int),
                self.wf(),
                self.database@ == m0,
                self.last_decided_idx == old(self).last_decided_idx,
                old(self).same_links(self),
                self.network.incoming() == Seq::<Message>::empty(),
                actions@ == engine_actions_of(msgs.take(i as int)),
                replies_match(
                    msgs.take(i as int),
                    m0,
                    self.network.client_connected(),
                    pre,
                    self.network.outgoing(),
                ),
            decreases msgs.len() - i,
        {
            let ghost client = self.network.client_connected();
            let ghost mid = self.network.outgoing();
            let msg = messages.remove(0);
            proof {
                assert(msg == msgs[i as int]);
                assert(messages@ =~= msgs.subrange(i as int + 1, n as int));
            }
            let r = self.process_message(msg);
            if let Some(a) = r {
                actions.push(a);
            }
            proof {
                let t1 = msgs.take(i as int + 1);
                assert(t1.drop_last() =~= msgs.take(i as int));
                assert(t1.last() == msgs[i as int]);
                assert(actions@ =~= engine_actions_of(t1));
                match msgs[i as int] {
                    Message::APIRequest(cmd) => match cmd {
                        KVCommand::Get(k) => if client {
                            let post = self.network.outgoing();
                            assert(replies_match(t1.drop_last(), m0, client, pre, mid));
                            assert(post.len() == mid.len() + 1);
                            assert(post.drop_last() == mid);
                            assert(read_reply_for(m0, k@, post.last()));
                            assert(t1.last() == Message::APIRequest(KVCommand::Get(k)));
                            assert(replies_match(t1, m0, client, pre, post));
                        },
                        _ => {},
                    },
                    _ => {},
                }
            }
            i += 1;
        }
        assert(msgs.take(msgs.len() as int) =~= msgs);
        actions
    }

    /// Apply the commands of the decided entries to storage, in log order.
    pub fn update_database(&mut self, decided_entries: Vec<LogEntry>)
        requires
            old(self).wf(),
        ensures
            final(self).wf(),
            old(self).same_links(final(self)),
            final(self).database@ == apply_commands(old(self).database@, decided_of(
                decided_entries@,
            )),
            final(self).last_decided_idx == old(self).last_decided_idx,
            final(self).network.incoming() == old(self).network.incoming(),
            final(self).network.outgoing() == old(self).network.outgoing(),
    {
        let ghost m0 = self.database@;
        let ghost es = decided_entries@;
        let mut remaining = decided_entries;
        let n = remaining.len();
        assert(es.take(0) =~= Seq::<LogEntry>::empty());
        assert(remaining@ =~= es.subrange(0, n as int));
        let mut i: usize = 0;
        while i < n
            invariant
                i <= n,
                n == es.len(),
                remaining@ == es.subrange(i as int, n as int),
                self.wf(),
                self.database@ == apply_commands(m0, decided_of(es.take(i as int))),
                self.last_decided_idx == old(self).last_decided_idx,
                old(self).same_links(self),
                self.network.incoming() == old(self).network.incoming(),
                self.network.outgoing() == old(self).network.outgoing(),
            decreases es.len() - i,
        {
            let ghost applied = decided_of(es.take(i as int));
            let entry = remaining.remove(0);
            proof {
                assert(entry == es[i as int]);
                assert(remaining@ =~= es.subrange(i as int + 1, n as int));
            }
            match entry {
                LogEntry::Decided(cmd) => {
                    let ghost c = cmd;
                    self.database.handle_command(cmd);
                    proof {
                        assert(applied.push(c).drop_last() =~= applied);
                        assert(self.database@ == apply_commands(m0, applied.push(c)));
                    }
                },
                _ => {},
            }
            proof {
                assert(es.take(i as int + 1).drop_last() =~= es.take(i as int));
                assert(es.take(i as int + 1).last() == es[i as int]);
                match es[i as int] {
                    LogEntry::Decided(c) => {
                        assert(decided_of(es.take(i as int + 1)) =~= applied.push(c));
                    },
                    _ => {
                        assert(decided_of(es.take(i as int + 1)) =~= applied);
                    },
                }
            }
            i += 1;
        }
        assert(es.take(es.len() as int) =~= es);
    }

    /// Take the engine's report of its decided index together with the
    /// newly decided suffix. Only a strictly advanced index applies the
    /// suffix to storage, moves the cursor, and acknowledges the client
    /// with `Decided`; the return value says whether the decided prefix is
    /// now due for compaction.
    pub fn handle_decided_entries(
        &mut self,
        new_decided_idx: u64,
        decided_entries: Vec<LogEntry>,
    ) -> (snapshot_due: bool)
        requires
            old(self).wf(),
        ensures
            final(self).wf(),
            old(self).same_links(final(self)),
            final(self).network.incoming() == old(self).network.incoming(),
            (final(self).database@, final(self).last_decided_idx) == decided_step(
                old(self).database@,
                old(self).last_decided_idx,
                new_decided_idx,
                decided_entries@,
            ),
            if old(self).last_decided_idx < new_decided_idx {
                &&& snapshot_due == (new_decided_idx % SNAPSHOT_INTERVAL == 0)
                &&& if old(self).network.client_connected() {
                    final(self).network.outgoing() == old(self).network.outgoing().push(
                        Envelope {
                            dest: Destination::Client,
                            msg: Message::APIResponse(APIResponse::Decided(new_decided_idx)),
                        },
                    )
                } else {
                    final(self).network.outgoing() == old(self).network.outgoing()
                }
            } else {
                &&& !snapshot_due
                &&& final(self).network.outgoing() == old(self).network.outgoing()
            },
    {
        if self.last_decided_idx < new_decided_idx {
            self.update_database(decided_entries);
            self.last_decided_idx = new_decided_idx;
            let reply = Message::APIResponse(APIResponse::Decided(new_decided_idx));
            self.network.send(0, reply);
            new_decided_idx % SNAPSHOT_INTERVAL == 0
        } else {
            false
        }
    }
}

/// Each decided index is applied exactly once: the cursor never moves
/// backwards, and a report that does not advance it — replaying an already
/// applied suffix — changes storage not at all.
pub proof fn lemma_apply_exactly_once(
    m: Map<Seq<char>, Seq<char>>,
    last: u64,
    new_idx: u64,
    entries: Seq<LogEntry>,
)
    ensures
        decided_step(m, last, new_idx, entries).1 >= last,
        ({
            let stepped = decided_step(m, last, new_idx, entries);
            decided_step(stepped.0, stepped.1, new_idx, entries) == stepped
        }),
{
}

/// Read after decide, writes: once a suffix whose last decided entry is
/// `Put{k, v}` has been applied, a read of `k` sees `v`.
pub proof fn lemma_read_after_decided_write(
    m: Map<Seq<char>, Seq<char>>,
    last: u64,
    new_idx: u64,
    entries: Seq<LogEntry>,
    kv: KeyValue,
)
    requires
        last < new_idx,
    ensures
        ({
            let stepped = decided_step(m, last, new_idx, entries.push(
                LogEntry::Decided(KVCommand::Put(kv)),
            ));
            stepped.0.contains_key(kv.key@) && stepped.0[kv.key@] == kv.value@
        }),
{
    let t = entries.push(LogEntry::Decided(KVCommand::Put(kv)));
    assert(t.drop_last() =~= entries);
    assert(decided_of(t) =~= decided_of(entries).push(KVCommand::Put(kv)));
    crate::kv::lemma_write_then_read(m, decided_of(entries), kv);
}

/// Read after decide, deletes: once a suffix whose last decided entry is
/// `Delete{k}` has been applied, a read of `k` sees nothing.
pub proof fn lemma_read_after_decided_delete(
    m: Map<Seq<char>, Seq<char>>,
    last: u64,
    new_idx: u64,
    entries: Seq<LogEntry>,
    k: String,
)
    requires
        last < new_idx,
    ensures
        !decided_step(m, last, new_idx, entries.push(
            LogEntry::Decided(KVCommand::Delete(k)),
        )).0.contains_key(k@),
{
    let t = entries.push(LogEntry::Decided(KVCommand::Delete(k)));
    assert(t.drop_last() =~= entries);
    assert(decided_of(t) =~= decided_of(entries).push(KVCommand::Delete(k)));
    crate::kv::lemma_delete_then_read(m, decided_of(entries), k);
}

} // verus!
