//! Core data model: key/value pairs, client commands, responses, wire
//! messages, and the log entries a node applies, together with the
//! mathematical meaning of a command as a transformation of the store.

use vstd::prelude::*;

verus! {

/// A single key/value pair.
#[derive(Clone, Debug)]
pub struct KeyValue {
    pub key: String,
    pub value: String,
}

/// A client command. `Put` and `Delete` are replicated through the log;
/// `Get` is answered directly from local storage.
#[derive(Clone, Debug)]
pub enum KVCommand {
    Put(KeyValue),
    Delete(String),
    Get(String),
}

/// A reply sent back to the client: either the highest log index that has
/// been durably agreed and applied, or the answer to a read.
#[derive(Clone, Debug)]
pub enum APIResponse {
    Decided(u64),
    Get(String, Option<String>),
}

/// A message exchanged on the wire. A consensus-engine payload is opaque to
/// this library and carried as the exact bytes of one frame.
#[derive(Clone, Debug)]
pub enum Message {
    OmniPaxosMsg(Vec<u8>),
    APIRequest(KVCommand),
    APIResponse(APIResponse),
}

/// One entry of the replicated log as reported by the consensus engine.
/// Only `Decided` entries carry a command that must be applied to storage.
#[derive(Clone, Debug)]
pub enum LogEntry {
    Decided(KVCommand),
    Undecided(KVCommand),
    Compacted,
}

/// The effect of one command on the abstract store.
pub open spec fn apply_command(
    m: Map<Seq<char>, Seq<char>>,
    c: KVCommand,
) -> Map<Seq<char>, Seq<char>> {
    match c {
        KVCommand::Put(kv) => m.insert(kv.key@, kv.value@),
        KVCommand::Delete(k) => m.remove(k@),
        KVCommand::Get(_) => m,
    }
}

/// The effect of a sequence of commands, applied left to right.
pub open spec fn apply_commands(
    m: Map<Seq<char>, Seq<char>>,
    s: Seq<KVCommand>,
) -> Map<Seq<char>, Seq<char>>
    decreases s.len(),
{
    if s.len() == 0 {
        m
    } else {
        apply_command(apply_commands(m, s.drop_last()), s.last())
    }
}

/// A write that nothing later in the sequence overrides is visible
/// afterwards: appending `Put{k, v}` makes a read of `k` return `v`.
pub proof fn lemma_write_then_read(m: Map<Seq<char>, Seq<char>>, s: Seq<KVCommand>, kv: KeyValue)
    ensures
        apply_commands(m, s.push(KVCommand::Put(kv))).contains_key(kv.key@),
        apply_commands(m, s.push(KVCommand::Put(kv)))[kv.key@] == kv.value@,
{
    let t = s.push(KVCommand::Put(kv));
    assert(t.drop_last() =~= s);
}

/// A delete that nothing later in the sequence overrides is visible
/// afterwards: appending `Delete{k}` makes a read of `k` return nothing.
pub proof fn lemma_delete_then_read(m: Map<Seq<char>, Seq<char>>, s: Seq<KVCommand>, k: String)
    ensures
        !apply_commands(m, s.push(KVCommand::Delete(k))).contains_key(k@),
{
    let t = s.push(KVCommand::Delete(k));
    assert(t.drop_last() =~= s);
}

} // verus!
