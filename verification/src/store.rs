//! An association list of key/value pairs with unique keys, viewed as a
//! finite map from key characters to value characters. Both the node's
//! storage and the snapshot type are built on it.

use vstd::prelude::*;

use crate::kv::KeyValue;

verus! {

/// The map an association list denotes; a later entry overrides an earlier
/// one with the same key.
pub open spec fn assoc_map(s: Seq<KeyValue>) -> Map<Seq<char>, Seq<char>>
    decreases s.len(),
{
    if s.len() == 0 {
        Map::empty()
    } else {
        assoc_map(s.drop_last()).insert(s.last().key@, s.last().value@)
    }
}

/// Every key occurs at most once.
pub open spec fn unique_keys(s: Seq<KeyValue>) -> bool {
    forall|i: int, j: int| 0 <= i < j < s.len() ==> s[i].key@ != s[j].key@
}

/// Some entry carries this key.
pub open spec fn has_key(s: Seq<KeyValue>, k: Seq<char>) -> bool {
    exists|i: int| 0 <= i < s.len() && s[i].key@ == k
}

/// The denoted map holds exactly the keys of the list.
pub proof fn lemma_assoc_map_dom(s: Seq<KeyValue>, k: Seq<char>)
    ensures
        assoc_map(s).contains_key(k) <==> has_key(s, k),
    decreases s.len(),
{
    if s.len() > 0 {
        lemma_assoc_map_dom(s.drop_last(), k);
        if s.last().key@ == k {
            assert(s[s.len() - 1].key@ == k);
        } else if has_key(s.drop_last(), k) {
            let i = choose|i: int| 0 <= i < s.drop_last().len() && s.drop_last()[i].key@ == k;
            assert(s[i].key@ == k);
        } else if has_key(s, k) {
            let i = choose|i: int| 0 <= i < s.len() && s[i].key@ == k;
            assert(s.drop_last()[i].key@ == k);
        }
    }
}

/// With unique keys, the entry at position `i` is what the map returns for
/// its key.
pub proof fn lemma_assoc_map_found(s: Seq<KeyValue>, i: int)
    requires
        unique_keys(s),
        0 <= i < s.len(),
    ensures
        assoc_map(s).contains_key(s[i].key@),
        assoc_map(s)[s[i].key@] == s[i].value@,
    decreases s.len(),
{
    if i == s.len() - 1 {
    } else {
        assert(s[i].key@ != s.last().key@);
        assert(s.drop_last()[i] == s[i]);
        lemma_assoc_map_found(s.drop_last(), i);
    }
}

/// Removing the entry at position `i` removes exactly its key from the map.
pub proof fn lemma_assoc_map_remove(s: Seq<KeyValue>, i: int)
    requires
        unique_keys(s),
        0 <= i < s.len(),
    ensures
        assoc_map(s.remove(i)) =~= assoc_map(s).remove(s[i].key@),
    decreases s.len(),
{
    let k = s[i].key@;
    if i == s.len() - 1 {
        assert(s.remove(i) =~= s.drop_last());
        assert(forall|j: int| 0 <= j < s.drop_last().len() ==> s.drop_last()[j].key@ != k);
        lemma_assoc_map_dom(s.drop_last(), k);
        assert(assoc_map(s.drop_last()).insert(k, s[i].value@).remove(k) =~= assoc_map(
            s.drop_last(),
        ));
    } else {
        let t = s.remove(i);
        assert(t.last() == s.last());
        assert(t.drop_last() =~= s.drop_last().remove(i));
        lemma_assoc_map_remove(s.drop_last(), i);
        assert(s[i].key@ != s.last().key@);
        assert(assoc_map(t) =~= assoc_map(s.drop_last()).remove(k).insert(
            s.last().key@,
            s.last().value@,
        ));
        assert(assoc_map(s.drop_last()).remove(k).insert(s.last().key@, s.last().value@)
            =~= assoc_map(s.drop_last()).insert(s.last().key@, s.last().value@).remove(k));
    }
}

/// After removing the only entry with key `k`, no entry carries `k` and the
/// remaining keys are still unique.
pub proof fn lemma_unique_keys_remove(s: Seq<KeyValue>, i: int)
    requires
        unique_keys(s),
        0 <= i < s.len(),
    ensures
        unique_keys(s.remove(i)),
        !has_key(s.remove(i), s[i].key@),
{
    let t = s.remove(i);
    assert(forall|j: int|
        0 <= j < t.len() ==> t[j] == (if j < i {
            s[j]
        } else {
            s[j + 1]
        }));
}

/// Look up the position of a key.
pub fn find_key(s: &Vec<KeyValue>, key: &String) -> (r: Option<usize>)
    ensures
        match r {
            Some(i) => i < s@.len() && s@[i as int].key@ == key@,
            None => !has_key(s@, key@),
        },
{
    let mut i: usize = 0;
    while i < s.len()
        invariant
            i <= s@.len(),
            forall|j: int| 0 <= j < i ==> s@[j].key@ != key@,
        decreases s@.len() - i,
    {
        if s[i].key.eq(key) {
            return Some(i);
        }
        i += 1;
    }
    None
}

/// Read the value stored under a key, if any.
pub fn store_get(s: &Vec<KeyValue>, key: &String) -> (r: Option<String>)
    requires
        unique_keys(s@),
    ensures
        match r {
            Some(v) => assoc_map(s@).contains_key(key@) && v@ == assoc_map(s@)[key@],
            None => !assoc_map(s@).contains_key(key@),
        },
{
    proof {
        lemma_assoc_map_dom(s@, key@);
    }
    match find_key(s, key) {
        Some(i) => {
            proof {
                lemma_assoc_map_found(s@, i as int);
            }
            Some(s[i].value.clone())
        },
        None => None,
    }
}

/// Bind a key to a value, replacing any earlier binding.
pub fn store_put(s: &mut Vec<KeyValue>, key: String, value: String)
    requires
        unique_keys(old(s)@),
    ensures
        unique_keys(final(s)@),
        assoc_map(final(s)@) == assoc_map(old(s)@).insert(key@, value@),
{
    let ghost pre = s@;
    let ghost k = key@;
    if let Some(i) = find_key(s, &key) {
        proof {
            lemma_assoc_map_remove(pre, i as int);
            lemma_unique_keys_remove(pre, i as int);
        }
        s.remove(i);
        assert(assoc_map(s@) =~= assoc_map(pre).remove(k));
    }
    proof {
        lemma_assoc_map_dom(s@, k);
    }
    let ghost mid = s@;
    s.push(KeyValue { key, value });
    proof {
        assert(s@.drop_last() =~= mid);
        assert(forall|j: int| 0 <= j < mid.len() ==> mid[j] == s@[j]);
        assert(assoc_map(s@) =~= assoc_map(pre).insert(k, value@));
    }
}

/// Drop the binding of a key, if there is one.
pub fn store_delete(s: &mut Vec<KeyValue>, key: &String)
    requires
        unique_keys(old(s)@),
    ensures
        unique_keys(final(s)@),
        assoc_map(final(s)@) == assoc_map(old(s)@).remove(key@),
{
    let ghost pre = s@;
    match find_key(s, key) {
        Some(i) => {
            proof {
                lemma_assoc_map_remove(pre, i as int);
                lemma_unique_keys_remove(pre, i as int);
            }
            s.remove(i);
            assert(assoc_map(s@) =~= assoc_map(pre).remove(key@));
        },
        None => {
            proof {
                lemma_assoc_map_dom(pre, key@);
                assert(assoc_map(pre).remove(key@) =~= assoc_map(pre));
            }
        },
    }
}

} // verus!
