//! The map from digest to files, kept in a concurrent hash map.

use dashmap::DashMap;
use std::collections::hash_map::RandomState;
use vstd::prelude::*;

verus! {

/// The digest map: digest to the indices of the files that
/// have it, in the order in which they were recorded.
pub type DigestMap = DashMap<String, Vec<usize>, RandomState>;

/// `dashmap::DashMap`, a concurrent hash map. Its contents are known to the
/// verifier only through `digest_buckets`.
#[verifier::external_type_specification]
#[verifier::external_body]
#[verifier::reject_recursive_types(K)]
#[verifier::reject_recursive_types(V)]
#[verifier::reject_recursive_types(S)]
pub struct ExDashMap<K, V, S>(DashMap<K, V, S>);

/// What a digest map holds: for each digest in it, the indices recorded
/// under that digest, oldest first.
pub uninterp spec fn digest_buckets(map: DigestMap) -> Map<Seq<char>, Seq<usize>>;

/// The indices held under `digest`, or none if the digest is not in the map.
pub open spec fn bucket_or_empty(buckets: Map<Seq<char>, Seq<usize>>, digest: Seq<char>) -> Seq<
    usize,
> {
    if buckets.contains_key(digest) {
        buckets[digest]
    } else {
        Seq::empty()
    }
}

/// `DashMap::new`: a map that holds nothing.
#[verifier::external_body]
pub(crate) fn digest_map_new() -> (map: DigestMap)
    ensures
        digest_buckets(map) =~= Map::empty(),
{
    DashMap::new()
}

/// `DashMap::entry` followed by `Entry::or_default` and a push onto the
/// vector found or made: `index` is appended to the indices under `digest`,
/// a digest not yet in the map starts with none, and no other digest is
/// touched.
#[verifier::external_body]
pub(crate) fn digest_map_record(map: &mut DigestMap, digest: String, index: usize)
    ensures
        digest_buckets(*final(map)) == digest_buckets(*old(map)).insert(
            digest@,
            bucket_or_empty(digest_buckets(*old(map)), digest@).push(index),
        ),
{
    map.entry(digest).or_default().push(index);
}

/// `DashMap::iter`, each item copied out: every digest of the map comes out
/// exactly once, together with the indices held under it. The order in which
/// the digests come out is not fixed.
#[verifier::external_body]
pub(crate) fn digest_map_entries(map: &DigestMap) -> (entries: Vec<(String, Vec<usize>)>)
    ensures
        forall|e: int|
            0 <= e < entries.len() ==> digest_buckets(*map).contains_key(
                (#[trigger] entries[e]).0@,
            ) && digest_buckets(*map)[entries[e].0@] == entries[e].1@,
        forall|e1: int, e2: int|
            0 <= e1 < e2 < entries.len() ==> (#[trigger] entries[e1]).0@ != (#[trigger] entries[e2]).0@,
        forall|digest: Seq<char>|
            digest_buckets(*map).contains_key(digest) ==> exists|e: int|
                0 <= e < entries.len() && (#[trigger] entries[e]).0@ == digest,
{
    map.iter().map(|entry| (entry.key().clone(), entry.value().clone())).collect()
}

} // verus!
