//! The network simulator's routing core: a virtual full mesh described by a
//! symmetric port mapping, a partition table of ordered port pairs, and the
//! central forwarding decision that either relays a frame byte-for-byte or
//! drops it because the pair is partitioned.

use std::collections::HashMap;

use vstd::prelude::*;

verus! {

broadcast use vstd::std_specs::hash::group_hash_axioms;

/// Traffic from `from` to `to` is currently dropped.
pub open spec fn partitioned(partitions: Seq<(u64, u64)>, from: u64, to: u64) -> bool {
    exists|i: int|
        0 <= i < partitions.len() && partitions[i].0 == from && partitions[i].1 == to
}

/// The symmetric port mapping a configuration of pairs builds: each pair is
/// entered in both directions, later pairs overriding earlier ones.
pub open spec fn mappings_of(pairs: Seq<(u64, u64)>) -> Map<u64, u64>
    decreases pairs.len(),
{
    if pairs.len() == 0 {
        Map::empty()
    } else {
        mappings_of(pairs.drop_last()).insert(pairs.last().0, pairs.last().1).insert(
            pairs.last().1,
            pairs.last().0,
        )
    }
}

/// Where a frame read from `from` is forwarded, if anywhere: to the mapped
/// peer port, unless the ordered pair is partitioned or the port is not in
/// the mesh.
pub open spec fn forward_spec(
    mappings: Map<u64, u64>,
    partitions: Seq<(u64, u64)>,
    from: u64,
) -> Option<u64> {
    if mappings.contains_key(from) && !partitioned(partitions, from, mappings[from]) {
        Some(mappings[from])
    } else {
        None
    }
}

/// Scan the partition table for an exact ordered match.
pub fn is_partitioned(partitions: &Vec<(u64, u64)>, from: u64, to: u64) -> (r: bool)
    ensures
        r == partitioned(partitions@, from, to),
{
    let mut i: usize = 0;
    while i < partitions.len()
        invariant
            i <= partitions@.len(),
            forall|j: int|
                0 <= j < i ==> !(partitions@[j].0 == from && partitions@[j].1 == to),
        decreases partitions@.len() - i,
    {
        if partitions[i].0 == from && partitions[i].1 == to {
            return true;
        }
        i += 1;
    }
    false
}

/// Build the virtual full mesh from the configured port pairs.
pub fn build_port_mappings(pairs: &Vec<(u64, u64)>) -> (r: HashMap<u64, u64>)
    ensures
        r@ == mappings_of(pairs@),
{
    let mut map: HashMap<u64, u64> = HashMap::new();
    let ghost ps = pairs@;
    assert(ps.take(0) =~= Seq::<(u64, u64)>::empty());
    let mut i: usize = 0;
    while i < pairs.len()
        invariant
            i <= ps.len(),
            pairs@ == ps,
            map@ == mappings_of(ps.take(i as int)),
        decreases ps.len() - i,
    {
        let (a, b) = pairs[i];
        map.insert(a, b);
        map.insert(b, a);
        proof {
            assert(ps.take(i as int + 1).drop_last() =~= ps.take(i as int));
            assert(ps.take(i as int + 1).last() == ps[i as int]);
        }
        i += 1;
    }
    assert(ps.take(ps.len() as int) =~= ps);
    map
}

/// The central routing actor's decision for one tagged frame: relay the
/// exact bytes to the mapped destination, or drop them if the ordered pair
/// is partitioned (or the source port is outside the mesh).
pub fn forward_frame(
    mappings: &HashMap<u64, u64>,
    partitions: &Vec<(u64, u64)>,
    from: u64,
    frame: Vec<u8>,
) -> (r: Option<(u64, Vec<u8>)>)
    ensures
        match r {
            Some(out) => {
                &&& forward_spec(mappings@, partitions@, from) == Some(out.0)
                &&& out.1@ == frame@
            },
            None => forward_spec(mappings@, partitions@, from) is None,
        },
{
    match mappings.get(&from) {
        Some(to) => {
            let to = *to;
            if is_partitioned(partitions, from, to) {
                None
            } else {
                Some((to, frame))
            }
        },
        None => None,
    }
}

/// Partition enforcement: while a partition from `a` to `b` is active, no
/// frame originating at `a` is forwarded to `b`; a pair that is not
/// partitioned keeps flowing.
pub proof fn lemma_partition_enforcement(
    mappings: Map<u64, u64>,
    partitions: Seq<(u64, u64)>,
    a: u64,
    c: u64,
)
    ensures
        partitioned(partitions, a, mappings[a]) ==> forward_spec(mappings, partitions, a) is None,
        mappings.contains_key(c) && !partitioned(partitions, c, mappings[c])
            ==> forward_spec(mappings, partitions, c) == Some(mappings[c]),
{
}

} // verus!
