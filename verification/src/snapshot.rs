//! Log compaction: an aggregated representation of a decided prefix. A
//! snapshot records the surviving bindings together with a delete marker
//! for every key whose last write in the prefix was a delete, so that
//! merging the snapshot into any older one reproduces the effect of the
//! prefix — a later delete removes the key regardless of what the older
//! snapshot held.

use vstd::prelude::*;

use crate::kv::{apply_commands, KVCommand, KeyValue};
use crate::store::{assoc_map, store_delete, store_put, unique_keys};

verus! {

/// The keys a sequence of strings mentions.
pub open spec fn key_set(s: Seq<String>) -> Set<Seq<char>> {
    Set::new(|k: Seq<char>| exists|i: int| 0 <= i < s.len() && s[i]@ == k)
}

/// No two strings in the sequence read the same.
pub open spec fn unique_views(s: Seq<String>) -> bool {
    forall|i: int, j: int| 0 <= i < j < s.len() ==> s[i]@ != s[j]@
}

/// The bindings that survive a decided prefix, starting from nothing.
pub open spec fn snapshot_map(entries: Seq<KVCommand>) -> Map<Seq<char>, Seq<char>> {
    apply_commands(Map::empty(), entries)
}

/// The delete markers a snapshot of the prefix carries: exactly the keys
/// whose last binding-changing command in the prefix is a delete.
pub open spec fn snapshot_deleted(entries: Seq<KVCommand>) -> Set<Seq<char>>
    decreases entries.len(),
{
    if entries.len() == 0 {
        Set::empty()
    } else {
        let d = snapshot_deleted(entries.drop_last());
        match entries.last() {
            KVCommand::Put(kv) => d.remove(kv.key@),
            KVCommand::Delete(k) => d.insert(k@),
            KVCommand::Get(_) => d,
        }
    }
}

/// The contents after merging a newer snapshot (`dm`, `del`) into contents `m`.
pub open spec fn merged(
    m: Map<Seq<char>, Seq<char>>,
    dm: Map<Seq<char>, Seq<char>>,
    del: Set<Seq<char>>,
) -> Map<Seq<char>, Seq<char>> {
    m.union_prefer_right(dm).remove_keys(del)
}

/// A marked key has no surviving binding: its last command was a delete.
pub proof fn lemma_snapshot_disjoint(entries: Seq<KVCommand>)
    ensures
        snapshot_deleted(entries).disjoint(snapshot_map(entries).dom()),
    decreases entries.len(),
{
    if entries.len() > 0 {
        lemma_snapshot_disjoint(entries.drop_last());
        let d = snapshot_deleted(entries.drop_last());
        let m = snapshot_map(entries.drop_last());
        match entries.last() {
            KVCommand::Put(kv) => {
                assert forall|k: Seq<char>| snapshot_deleted(entries).contains(k)
                    implies !snapshot_map(entries).dom().contains(k) by {
                    assert(k != kv.key@ && d.contains(k));
                }
            },
            KVCommand::Delete(key) => {
                assert forall|k: Seq<char>| snapshot_deleted(entries).contains(k)
                    implies !snapshot_map(entries).dom().contains(k) by {
                    if k != key@ {
                        assert(d.contains(k));
                    }
                }
            },
            KVCommand::Get(_) => {},
        }
    }
}

/// An aggregated decided prefix: surviving bindings plus delete markers.
#[derive(Clone, Debug)]
pub struct KVSnapshot {
    snapshotted: Vec<KeyValue>,
    deleted_keys: Vec<String>,
}

impl KVSnapshot {
    /// The surviving bindings.
    pub closed spec fn map(&self) -> Map<Seq<char>, Seq<char>> {
        assoc_map(self.snapshotted@)
    }

    /// The delete markers.
    pub closed spec fn deleted(&self) -> Set<Seq<char>> {
        key_set(self.deleted_keys@)
    }

    /// Bindings and markers each name a key once, and no marker covers a
    /// binding.
    pub closed spec fn wf(&self) -> bool {
        &&& unique_keys(self.snapshotted@)
        &&& unique_views(self.deleted_keys@)
        &&& self.deleted().disjoint(self.map().dom())
    }

    /// Aggregate a decided prefix into a snapshot.
    pub fn create(entries: &[KVCommand]) -> (r: KVSnapshot)
        ensures
            r.wf(),
            r.map() == snapshot_map(entries@),
            r.deleted() == snapshot_deleted(entries@),
    {
        let mut snapshotted: Vec<KeyValue> = Vec::new();
        let mut deleted_keys: Vec<String> = Vec::new();
        let n = entries.len();
        assert(entries@.take(0) =~= Seq::<KVCommand>::empty());
        let mut i: usize = 0;
        while i < n
            invariant
                i <= n,
                n == entries@.len(),
                unique_keys(snapshotted@),
                unique_views(deleted_keys@),
                assoc_map(snapshotted@) == snapshot_map(entries@.take(i as int)),
                key_set(deleted_keys@) == snapshot_deleted(entries@.take(i as int)),
            decreases n - i,
        {
            let ghost post = entries@.take(i as int + 1);
            proof {
                assert(post.drop_last() =~= entries@.take(i as int));
                assert(post.last() == entries@[i as int]);
            }
            match &entries[i] {
                KVCommand::Put(kv) => {
                    store_put(&mut snapshotted, kv.key.clone(), kv.value.clone());
                    let ghost dpre = deleted_keys@;
                    match find_str(&deleted_keys, &kv.key) {
                        Some(j) => {
                            proof {
                                lemma_unique_views_remove(dpre, j as int);
                            }
                            deleted_keys.remove(j);
                            assert(key_set(deleted_keys@) =~= snapshot_deleted(post));
                        },
                        None => {
                            assert(key_set(deleted_keys@) =~= key_set(dpre).remove(kv.key@));
                        },
                    }
                },
                KVCommand::Delete(key) => {
                    store_delete(&mut snapshotted, key);
                    let ghost dpre = deleted_keys@;
                    match find_str(&deleted_keys, key) {
                        Some(_) => {
                            assert(key_set(dpre).insert(key@) =~= key_set(dpre));
                        },
                        None => {
                            deleted_keys.push(key.clone());
                            proof {
                                lemma_key_set_push(dpre, deleted_keys@[dpre.len() as int]);
                            }
                        },
                    }
                    assert(key_set(deleted_keys@) =~= snapshot_deleted(post));
                },
                KVCommand::Get(_) => {},
            }
            i += 1;
        }
        assert(entries@.take(n as int) =~= entries@);
        proof {
            lemma_snapshot_disjoint(entries@);
        }
        KVSnapshot { snapshotted, deleted_keys }
    }

    /// Fold a newer snapshot into this one: its bindings override, its
    /// delete markers remove, and the merged snapshot carries no markers.
    pub fn merge(&mut self, delta: KVSnapshot)
        requires
            old(self).wf(),
            delta.wf(),
        ensures
            final(self).wf(),
            final(self).map() == merged(old(self).map(), delta.map(), delta.deleted()),
            final(self).deleted() == Set::<Seq<char>>::empty(),
    {
        let ghost m0 = self.map();
        let ghost dseq = delta.snapshotted@;
        let mut i: usize = 0;
        assert(dseq.take(0) =~= Seq::<KeyValue>::empty());
        assert(m0.union_prefer_right(assoc_map(dseq.take(0))) =~= m0);
        while i < delta.snapshotted.len()
            invariant
                i <= dseq.len(),
                delta.snapshotted@ == dseq,
                unique_keys(self.snapshotted@),
                assoc_map(self.snapshotted@) == m0.union_prefer_right(assoc_map(dseq.take(i as int))),
            decreases dseq.len() - i,
        {
            let ghost pre = dseq.take(i as int);
            store_put(
                &mut self.snapshotted,
                delta.snapshotted[i].key.clone(),
                delta.snapshotted[i].value.clone(),
            );
            proof {
                assert(dseq.take(i as int + 1).drop_last() =~= pre);
                assert(assoc_map(self.snapshotted@) =~= m0.union_prefer_right(
                    assoc_map(dseq.take(i as int + 1)),
                ));
            }
            i += 1;
        }
        assert(dseq.take(dseq.len() as int) =~= dseq);
        let ghost u = m0.union_prefer_right(delta.map());
        let ghost kseq = delta.deleted_keys@;
        let mut j: usize = 0;
        assert(key_set(kseq.take(0)) =~= Set::<Seq<char>>::empty());
        assert(u.remove_keys(key_set(kseq.take(0))) =~= u);
        while j < delta.deleted_keys.len()
            invariant
                j <= kseq.len(),
                delta.deleted_keys@ == kseq,
                unique_keys(self.snapshotted@),
                assoc_map(self.snapshotted@) == u.remove_keys(key_set(kseq.take(j as int))),
            decreases kseq.len() - j,
        {
            let ghost pre = kseq.take(j as int);
            store_delete(&mut self.snapshotted, &delta.deleted_keys[j]);
            proof {
                assert(kseq.take(j as int + 1) =~= pre.push(kseq[j as int]));
                lemma_key_set_push(pre, kseq[j as int]);
                assert(assoc_map(self.snapshotted@) =~= u.remove_keys(
                    key_set(kseq.take(j as int + 1)),
                ));
            }
            j += 1;
        }
        assert(kseq.take(kseq.len() as int) =~= kseq);
        self.deleted_keys = Vec::new();
        assert(key_set(Seq::<String>::empty()) =~= Set::<Seq<char>>::empty());
    }

    /// The value the snapshot's surviving bindings hold for a key.
    pub fn get(&self, key: &String) -> (r: Option<String>)
        requires
            self.wf(),
        ensures
            match r {
                Some(v) => self.map().contains_key(key@) && v@ == self.map()[key@],
                None => !self.map().contains_key(key@),
            },
    {
        crate::store::store_get(&self.snapshotted, key)
    }

    /// Does the snapshot carry a delete marker for this key?
    pub fn is_deleted(&self, key: &String) -> (r: bool)
        ensures
            r == self.deleted().contains(key@),
    {
        find_str(&self.deleted_keys, key).is_some()
    }

    /// Compaction aggregates prefixes into snapshots rather than keeping them.
    pub fn use_snapshots() -> (r: bool)
        ensures
            r,
    {
        true
    }
}

/// Look up the position of a string by its characters.
fn find_str(v: &Vec<String>, key: &String) -> (r: Option<usize>)
    ensures
        match r {
            Some(i) => i < v@.len() && v@[i as int]@ == key@ && key_set(v@).contains(key@),
            None => !key_set(v@).contains(key@),
        },
{
    let mut i: usize = 0;
    while i < v.len()
        invariant
            i <= v@.len(),
            forall|j: int| 0 <= j < i ==> v@[j]@ != key@,
        decreases v@.len() - i,
    {
        if v[i].eq(key) {
            return Some(i);
        }
        i += 1;
    }
    None
}

/// Appending one string adds exactly its characters to the key set.
pub proof fn lemma_key_set_push(s: Seq<String>, x: String)
    ensures
        key_set(s.push(x)) =~= key_set(s).insert(x@),
{
    let t = s.push(x);
    assert forall|k: Seq<char>| key_set(s).insert(x@).contains(k) implies key_set(t).contains(
        k,
    ) by {
        if k == x@ {
            assert(t[s.len() as int]@ == k);
        } else {
            let i = choose|i: int| 0 <= i < s.len() && s[i]@ == k;
            assert(t[i]@ == k);
        }
    }
}

/// Removing the only string that reads `s[i]` removes exactly its characters
/// from the key set, and the rest stay distinct.
pub proof fn lemma_unique_views_remove(s: Seq<String>, i: int)
    requires
        unique_views(s),
        0 <= i < s.len(),
    ensures
        unique_views(s.remove(i)),
        key_set(s.remove(i)) =~= key_set(s).remove(s[i]@),
{
    let t = s.remove(i);
    assert(forall|j: int|
        0 <= j < t.len() ==> t[j] == (if j < i {
            s[j]
        } else {
            s[j + 1]
        }));
    assert forall|k: Seq<char>| key_set(s).remove(s[i]@).contains(k) implies key_set(t).contains(
        k,
    ) by {
        let j = choose|j: int| 0 <= j < s.len() && s[j]@ == k;
        if j < i {
            assert(t[j]@ == k);
        } else {
            assert(t[j - 1]@ == k);
        }
    }
}

/// Merging the same snapshot twice leaves exactly what merging it once
/// leaves: per key, the last writer wins and a delete marker removes the
/// key whatever was there before.
pub proof fn lemma_merge_idempotent(
    m: Map<Seq<char>, Seq<char>>,
    dm: Map<Seq<char>, Seq<char>>,
    del: Set<Seq<char>>,
)
    requires
        del.disjoint(dm.dom()),
    ensures
        merged(merged(m, dm, del), dm, del) == merged(m, dm, del),
{
    assert(merged(merged(m, dm, del), dm, del) =~= merged(m, dm, del));
}

/// Compaction keeps key/value visibility against any base: a snapshot of a
/// decided prefix, merged into any older contents, shows exactly what
/// applying the prefix to those contents shows.
pub proof fn lemma_snapshot_preserves_visibility(
    m: Map<Seq<char>, Seq<char>>,
    entries: Seq<KVCommand>,
)
    ensures
        merged(m, snapshot_map(entries), snapshot_deleted(entries)) == apply_commands(m, entries),
    decreases entries.len(),
{
    if entries.len() == 0 {
        assert(merged(m, snapshot_map(entries), snapshot_deleted(entries)) =~= m);
    } else {
        let dl = entries.drop_last();
        lemma_snapshot_preserves_visibility(m, dl);
        match entries.last() {
            KVCommand::Put(kv) => {
                assert(merged(m, snapshot_map(entries), snapshot_deleted(entries)) =~= merged(
                    m,
                    snapshot_map(dl),
                    snapshot_deleted(dl),
                ).insert(kv.key@, kv.value@));
            },
            KVCommand::Delete(k) => {
                assert(merged(m, snapshot_map(entries), snapshot_deleted(entries)) =~= merged(
                    m,
                    snapshot_map(dl),
                    snapshot_deleted(dl),
                ).remove(k@));
            },
            KVCommand::Get(_) => {
                assert(snapshot_map(entries) == snapshot_map(dl));
                assert(snapshot_deleted(entries) == snapshot_deleted(dl));
            },
        }
    }
}

} // verus!
