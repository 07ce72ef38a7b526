//! The node's local key/value storage, viewed as a finite map. The
//! coordinator applies decided log entries here and answers reads from it.

use vstd::prelude::*;

use crate::kv::{apply_command, KVCommand, KeyValue};
use crate::store::{assoc_map, store_delete, store_get, store_put, unique_keys};

verus! {

/// In-memory key/value storage with exactly-once application semantics
/// visible through its map view.
pub struct Database {
    entries: Vec<KeyValue>,
}

impl View for Database {
    type V = Map<Seq<char>, Seq<char>>;

    closed spec fn view(&self) -> Map<Seq<char>, Seq<char>> {
        assoc_map(self.entries@)
    }
}

impl Database {
    /// Each key is bound at most once.
    pub closed spec fn wf(&self) -> bool {
        unique_keys(self.entries@)
    }

    /// An empty store.
    pub fn new() -> (r: Database)
        ensures
            r.wf(),
            r@ == Map::<Seq<char>, Seq<char>>::empty(),
    {
        Database { entries: Vec::new() }
    }

    /// Run one command against the store: `Put` binds, `Delete` unbinds,
    /// `Get` answers from the current bindings and changes nothing.
    pub fn handle_command(&mut self, command: KVCommand) -> (r: Option<String>)
        requires
            old(self).wf(),
        ensures
            final(self).wf(),
            final(self)@ == apply_command(old(self)@, command),
            match command {
                KVCommand::Get(k) => match r {
                    Some(v) => old(self)@.contains_key(k@) && v@ == old(self)@[k@],
                    None => !old(self)@.contains_key(k@),
                },
                _ => r is None,
            },
    {
        match command {
            KVCommand::Put(KeyValue { key, value }) => {
                store_put(&mut self.entries, key, value);
                None
            },
            KVCommand::Delete(key) => {
                store_delete(&mut self.entries, &key);
                None
            },
            KVCommand::Get(key) => store_get(&self.entries, &key),
        }
    }
}

} // verus!
