//! Duplicate detection: which files are worth hashing, and how digests are
//! turned into groups of identical files.

use crate::analyzer::DuplicateGroup;
use crate::digest_map::digest_buckets;
use crate::digest_map::digest_map_entries;
use crate::digest_map::digest_map_new;
use crate::digest_map::digest_map_record;
use crate::digest_map::DigestMap;
use crate::grouping::entries_fit;
use crate::grouping::entries_in_range;
use crate::grouping::entry_group;
use crate::grouping::group_entries;
use crate::grouping::group_fits;
use crate::grouping::is_descending;
use crate::grouping::is_partial_report;
use crate::grouping::is_report_of;
use crate::scanner::FileEntry;
use std::collections::HashMap;
use vstd::prelude::*;

verus! {

broadcast use vstd::std_specs::hash::group_hash_axioms;

/// A file that may take part in duplicate detection: large enough, and not a
/// symbolic link.
pub open spec fn is_candidate(file: FileEntry, min_size: u64) -> bool {
    file.size >= min_size && !file.is_symlink
}

/// Some other candidate has exactly the size of the file at `i`.
pub open spec fn shares_size(files: Seq<FileEntry>, min_size: u64, i: int) -> bool {
    exists|j: int|
        0 <= j < files.len() && j != i && is_candidate(#[trigger] files[j], min_size)
            && files[j].size == files[i].size
}

/// The file at `i` has to be hashed: it is a candidate whose size it shares
/// with another candidate.
pub open spec fn is_hash_target(files: Seq<FileEntry>, min_size: u64, i: int) -> bool {
    &&& 0 <= i < files.len()
    &&& is_candidate(files[i], min_size)
    &&& shares_size(files, min_size, i)
}

/// How many of the first `n` files are candidates of size `size`.
pub open spec fn candidates_of_size(files: Seq<FileEntry>, min_size: u64, size: u64, n: nat) -> nat
    decreases n,
{
    if n == 0 || n > files.len() {
        0
    } else {
        candidates_of_size(files, min_size, size, (n - 1) as nat) + if is_candidate(
            files[n - 1],
            min_size,
        ) && files[n - 1].size == size {
            1nat
        } else {
            0
        }
    }
}

proof fn lemma_census_bound(files: Seq<FileEntry>, min_size: u64, size: u64, n: nat)
    requires
        n <= files.len(),
    ensures
        candidates_of_size(files, min_size, size, n) <= n,
    decreases n,
{
    if n > 0 {
        lemma_census_bound(files, min_size, size, (n - 1) as nat);
    }
}

proof fn lemma_census_none(files: Seq<FileEntry>, min_size: u64, size: u64, n: nat)
    requires
        n <= files.len(),
    ensures
        candidates_of_size(files, min_size, size, n) == 0 <==> forall|j: int|
            0 <= j < n ==> !(is_candidate(#[trigger] files[j], min_size) && files[j].size == size),
    decreases n,
{
    if n > 0 {
        lemma_census_none(files, min_size, size, (n - 1) as nat);
    }
}

proof fn lemma_census_two(files: Seq<FileEntry>, min_size: u64, size: u64, n: nat, a: int, b: int)
    requires
        n <= files.len(),
        0 <= a < b < n,
        is_candidate(files[a], min_size),
        files[a].size == size,
        is_candidate(files[b], min_size),
        files[b].size == size,
    ensures
        candidates_of_size(files, min_size, size, n) >= 2,
    decreases n,
{
    let rest = (n - 1) as nat;
    if b == n - 1 {
        lemma_census_none(files, min_size, size, rest);
    } else {
        lemma_census_two(files, min_size, size, rest, a, b);
    }
}

/// A candidate shares its size exactly when the census of its size counts two
/// or more.
proof fn lemma_target_by_census(files: Seq<FileEntry>, min_size: u64, i: int)
    requires
        0 <= i < files.len(),
        is_candidate(files[i], min_size),
    ensures
        shares_size(files, min_size, i) <==> candidates_of_size(
            files,
            min_size,
            files[i].size,
            files.len(),
        ) >= 2,
{
    let size = files[i].size;
    let n = files.len();
    let count = candidates_of_size(files, min_size, size, n);
    if shares_size(files, min_size, i) {
        let j = choose|j: int|
            0 <= j < files.len() && j != i && is_candidate(#[trigger] files[j], min_size)
                && files[j].size == files[i].size;
        if i < j {
            lemma_census_two(files, min_size, size, n, i, j);
        } else {
            lemma_census_two(files, min_size, size, n, j, i);
        }
    }
    if count >= 2 && !shares_size(files, min_size, i) {
        assert forall|j: int| 0 <= j < n && j != i implies !(is_candidate(
            #[trigger] files[j],
            min_size,
        ) && files[j].size == size) by {}
        lemma_census_only(files, min_size, size, n, i);
    }
}

proof fn lemma_census_only(files: Seq<FileEntry>, min_size: u64, size: u64, n: nat, at: int)
    requires
        n <= files.len(),
        forall|j: int|
            0 <= j < n && j != at ==> !(is_candidate(#[trigger] files[j], min_size)
                && files[j].size == size),
    ensures
        candidates_of_size(files, min_size, size, n) <= 1,
    decreases n,
{
    if n > 0 {
        let rest = (n - 1) as nat;
        if at == n - 1 {
            lemma_census_none(files, min_size, size, rest);
        } else {
            lemma_census_only(files, min_size, size, rest, at);
        }
    }
}

/// The census says for each size how many candidates have it.
spec fn is_census(census: Map<u64, usize>, files: Seq<FileEntry>, min_size: u64, n: nat) -> bool {
    forall|size: u64|
        {
            let count = #[trigger] candidates_of_size(files, min_size, size, n);
            &&& census.contains_key(size) <==> count > 0
            &&& census.contains_key(size) ==> census[size] == count
        }
}

/// Counts the candidates of each size.
fn size_census(files: &Vec<FileEntry>, min_size: u64) -> (census: HashMap<u64, usize>)
    ensures
        is_census(census@, files@, min_size, files@.len()),
{
    let mut census: HashMap<u64, usize> = HashMap::new();
    let mut k: usize = 0;
    while k < files.len()
        invariant
            k <= files.len(),
            is_census(census@, files@, min_size, k as nat),
        decreases files.len() - k,
    {
        let file = &files[k];
        let ghost before = census@;
        if file.size >= min_size && !file.is_symlink {
            let seen: usize = match census.get(&file.size) {
                Some(count) => *count,
                None => 0,
            };
            proof {
                assert(seen == candidates_of_size(files@, min_size, file.size, k as nat));
                lemma_census_bound(files@, min_size, file.size, k as nat);
            }
            census.insert(file.size, seen + 1);
        }
        proof {
            assert forall|size: u64|
                {
                    let count = #[trigger] candidates_of_size(
                        files@,
                        min_size,
                        size,
                        (k + 1) as nat,
                    );
                    &&& census@.contains_key(size) <==> count > 0
                    &&& census@.contains_key(size) ==> census@[size] == count
                } by {
                let earlier = candidates_of_size(files@, min_size, size, k as nat);
                assert(before.contains_key(size) <==> earlier > 0);
            }
        }
        k = k + 1;
    }
    census
}

/// Whether the census counts at least two candidates of `size`.
fn is_shared(census: &HashMap<u64, usize>, size: u64) -> (shared: bool)
    ensures
        shared == (census@.contains_key(size) && census@[size] >= 2),
{
    match census.get(&size) {
        Some(count) => *count >= 2,
        None => false,
    }
}

/// The digest recorded for the file at `i`, if it was hashed successfully.
pub open spec fn digest_at(digests: Seq<Option<String>>, i: int) -> Option<Seq<char>> {
    if 0 <= i < digests.len() {
        match digests[i] {
            Some(digest) => Some(digest@),
            None => None,
        }
    } else {
        None
    }
}

/// The file at `i` was to be hashed and its content has the digest `digest`.
pub open spec fn is_member(
    files: Seq<FileEntry>,
    min_size: u64,
    digests: Seq<Option<String>>,
    digest: Seq<char>,
    i: int,
) -> bool {
    is_hash_target(files, min_size, i) && digest_at(digests, i) == Some(digest)
}

/// The indices below `n` of the files with the digest `digest`, ascending.
pub open spec fn bucket_upto(
    files: Seq<FileEntry>,
    min_size: u64,
    digests: Seq<Option<String>>,
    digest: Seq<char>,
    n: nat,
) -> Seq<usize>
    decreases n,
{
    if n == 0 {
        Seq::empty()
    } else {
        let earlier = bucket_upto(files, min_size, digests, digest, (n - 1) as nat);
        if is_member(files, min_size, digests, digest, n - 1) {
            earlier.push((n - 1) as usize)
        } else {
            earlier
        }
    }
}

/// The indices of all files with the digest `digest`, ascending.
pub open spec fn bucket(
    files: Seq<FileEntry>,
    min_size: u64,
    digests: Seq<Option<String>>,
    digest: Seq<char>,
) -> Seq<usize> {
    bucket_upto(files, min_size, digests, digest, files.len())
}

/// A bucket holds exactly the members below its bound, each once, in
/// ascending order.
pub proof fn lemma_bucket_contents(
    files: Seq<FileEntry>,
    min_size: u64,
    digests: Seq<Option<String>>,
    digest: Seq<char>,
    n: nat,
)
    requires
        n <= files.len() <= usize::MAX,
    ensures
        forall|m: int|
            0 <= m < bucket_upto(files, min_size, digests, digest, n).len() ==> {
                let i = #[trigger] bucket_upto(files, min_size, digests, digest, n)[m];
                i < n && is_member(files, min_size, digests, digest, i as int)
            },
        forall|m1: int, m2: int|
            0 <= m1 < m2 < bucket_upto(files, min_size, digests, digest, n).len() ==> bucket_upto(
                files,
                min_size,
                digests,
                digest,
                n,
            )[m1] < bucket_upto(files, min_size, digests, digest, n)[m2],
        forall|i: int|
            0 <= i < n && is_member(files, min_size, digests, digest, i) ==> exists|m: int|
                0 <= m < bucket_upto(files, min_size, digests, digest, n).len() && #[trigger] bucket_upto(
                    files,
                    min_size,
                    digests,
                    digest,
                    n,
                )[m] == i,
    decreases n,
{
    if n > 0 {
        let earlier = bucket_upto(files, min_size, digests, digest, (n - 1) as nat);
        let now = bucket_upto(files, min_size, digests, digest, n);
        lemma_bucket_contents(files, min_size, digests, digest, (n - 1) as nat);
        assert forall|i: int|
            0 <= i < n && is_member(files, min_size, digests, digest, i) implies exists|m: int|
            0 <= m < now.len() && #[trigger] now[m] == i by {
            if i == n - 1 {
                assert(now[now.len() - 1] == i);
            } else {
                let m = choose|m: int| 0 <= m < earlier.len() && #[trigger] earlier[m] == i;
                assert(now[m] == i);
            }
        }
    }
}

/// The map holds, for every digest, the bucket of that digest among the
/// first `n` files, and nothing under a digest whose bucket is empty.
spec fn buckets_filled(
    buckets: Map<Seq<char>, Seq<usize>>,
    files: Seq<FileEntry>,
    min_size: u64,
    digests: Seq<Option<String>>,
    n: nat,
) -> bool {
    forall|digest: Seq<char>|
        {
            let expected = #[trigger] bucket_upto(files, min_size, digests, digest, n);
            &&& buckets.contains_key(digest) <==> expected.len() > 0
            &&& buckets.contains_key(digest) ==> buckets[digest] == expected
        }
}

/// Records the digest of every hashed file under its digest.
fn fill_digest_map(files: &Vec<FileEntry>, min_size: u64, digests: &Vec<Option<String>>) -> (map:
    DigestMap)
    ensures
        buckets_filled(digest_buckets(map), files@, min_size, digests@, files@.len()),
{
    let census = size_census(files, min_size);
    let mut map = digest_map_new();
    let mut i: usize = 0;
    while i < files.len()
        invariant
            i <= files.len(),
            is_census(census@, files@, min_size, files@.len()),
            buckets_filled(digest_buckets(map), files@, min_size, digests@, i as nat),
        decreases files.len() - i,
    {
        let file = &files[i];
        let ghost before = digest_buckets(map);
        let ghost recorded: Option<Seq<char>> = None;
        if file.size >= min_size && !file.is_symlink && is_shared(&census, file.size) && i
            < digests.len() {
            proof {
                lemma_target_by_census(files@, min_size, i as int);
                assert(is_hash_target(files@, min_size, i as int));
            }
            match &digests[i] {
                Some(digest) => {
                    digest_map_record(&mut map, digest.clone(), i);
                    proof {
                        recorded = Some(digest@);
                    }
                },
                None => {},
            }
        } else {
            proof {
                if file.size >= min_size && !file.is_symlink {
                    lemma_target_by_census(files@, min_size, i as int);
                }
            }
        }
        proof {
            let after = digest_buckets(map);
            assert forall|digest: Seq<char>|
                {
                    let expected = #[trigger] bucket_upto(
                        files@,
                        min_size,
                        digests@,
                        digest,
                        (i + 1) as nat,
                    );
                    &&& after.contains_key(digest) <==> expected.len() > 0
                    &&& after.contains_key(digest) ==> after[digest] == expected
                } by {
                let earlier = bucket_upto(files@, min_size, digests@, digest, i as nat);
                assert(before.contains_key(digest) <==> earlier.len() > 0);
                assert(is_member(files@, min_size, digests@, digest, i as int) <==> recorded
                    == Some(digest));
                if recorded == Some(digest) {
                    if !before.contains_key(digest) {
                        assert(earlier =~= Seq::empty());
                    }
                }
            }
        }
        i = i + 1;
    }
    map
}

/// `groups` is the list of duplicate groups of `files` under the digests
/// `digests`: one group for each digest that two or more hashed files have,
/// made of exactly those files in the order of the file list, no digest
/// twice, and the groups ordered by wasted space, largest first.
pub open spec fn is_duplicate_report(
    files: Seq<FileEntry>,
    min_size: u64,
    digests: Seq<Option<String>>,
    groups: Seq<DuplicateGroup>,
) -> bool {
    &&& forall|k: int|
        0 <= k < groups.len() ==> {
            let members = bucket(files, min_size, digests, (#[trigger] groups[k]).hash@);
            &&& members.len() >= 2
            &&& groups[k]@ == entry_group(files, groups[k].hash@, members)
        }
    &&& forall|k1: int, k2: int|
        0 <= k1 < k2 < groups.len() ==> (#[trigger] groups[k1]).hash@ != (#[trigger] groups[k2]).hash@
    &&& forall|digest: Seq<char>|
        (#[trigger] bucket(files, min_size, digests, digest)).len() >= 2 ==> exists|k: int|
            0 <= k < groups.len() && (#[trigger] groups[k]).hash@ == digest
    &&& is_descending(groups)
}

/// The wasted space of every group to be reported can be held in 64 bits.
pub open spec fn wasted_space_fits(
    files: Seq<FileEntry>,
    min_size: u64,
    digests: Seq<Option<String>>,
) -> bool {
    forall|digest: Seq<char>|
        (#[trigger] bucket(files, min_size, digests, digest)).len() >= 2 ==> group_fits(
            files,
            bucket(files, min_size, digests, digest),
        )
}

/// The entries list the buckets of every digest, each digest once.
spec fn entries_list_buckets(
    files: Seq<FileEntry>,
    min_size: u64,
    digests: Seq<Option<String>>,
    entries: Seq<(String, Vec<usize>)>,
) -> bool {
    &&& forall|e: int|
        0 <= e < entries.len() ==> (#[trigger] entries[e]).1@.len() > 0 && entries[e].1@ == bucket(
            files,
            min_size,
            digests,
            entries[e].0@,
        )
    &&& forall|e1: int, e2: int|
        0 <= e1 < e2 < entries.len() ==> (#[trigger] entries[e1]).0@ != (#[trigger] entries[e2]).0@
    &&& forall|digest: Seq<char>|
        (#[trigger] bucket(files, min_size, digests, digest)).len() > 0 ==> exists|e: int|
            0 <= e < entries.len() && (#[trigger] entries[e]).0@ == digest
}

proof fn lemma_entries_in_range(
    files: Seq<FileEntry>,
    min_size: u64,
    digests: Seq<Option<String>>,
    entries: Seq<(String, Vec<usize>)>,
)
    requires
        files.len() <= usize::MAX,
        entries_list_buckets(files, min_size, digests, entries),
    ensures
        entries_in_range(files, entries),
        entries_fit(files, entries, entries.len() as int) <==> wasted_space_fits(
            files,
            min_size,
            digests,
        ),
{
    assert forall|e: int, m: int|
        0 <= e < entries.len() && 0 <= m < entries[e].1@.len() implies (#[trigger] entries[e].1@[m])
        < files.len() by {
        lemma_bucket_contents(files, min_size, digests, entries[e].0@, files.len());
    }
    if entries_fit(files, entries, entries.len() as int) {
        assert forall|digest: Seq<char>|
            (#[trigger] bucket(files, min_size, digests, digest)).len() >= 2 implies group_fits(
            files,
            bucket(files, min_size, digests, digest),
        ) by {
            let e = choose|e: int| 0 <= e < entries.len() && (#[trigger] entries[e]).0@ == digest;
            assert(entries[e].1@.len() >= 2);
        }
    }
    if wasted_space_fits(files, min_size, digests) {
        assert forall|e: int|
            0 <= e < entries.len() && (#[trigger] entries[e]).1@.len() >= 2 implies group_fits(
            files,
            entries[e].1@,
        ) by {
            assert(bucket(files, min_size, digests, entries[e].0@).len() >= 2);
        }
    }
}

proof fn lemma_report_from_entries(
    files: Seq<FileEntry>,
    min_size: u64,
    digests: Seq<Option<String>>,
    entries: Seq<(String, Vec<usize>)>,
    groups: Seq<DuplicateGroup>,
)
    requires
        entries_list_buckets(files, min_size, digests, entries),
        is_report_of(files, entries, groups),
    ensures
        is_duplicate_report(files, min_size, digests, groups),
{
    let origin = choose|origin: Seq<int>|
        is_partial_report(files, entries, entries.len() as int, groups, origin);
    assert forall|k: int| 0 <= k < groups.len() implies {
        let members = bucket(files, min_size, digests, (#[trigger] groups[k]).hash@);
        &&& members.len() >= 2
        &&& groups[k]@ == entry_group(files, groups[k].hash@, members)
    } by {
        let e = origin[k];
        assert(groups[k]@.hash == entries[e].0@);
    }
    assert forall|k1: int, k2: int| 0 <= k1 < k2 < groups.len() implies (#[trigger] groups[k1]).hash@
        != (#[trigger] groups[k2]).hash@ by {
        let e1 = origin[k1];
        let e2 = origin[k2];
        assert(groups[k1]@.hash == entries[e1].0@);
        assert(groups[k2]@.hash == entries[e2].0@);
        assert(e1 != e2);
        if e1 < e2 {
            assert(entries[e1].0@ != entries[e2].0@);
        } else {
            assert(entries[e2].0@ != entries[e1].0@);
        }
    }
    assert forall|digest: Seq<char>|
        (#[trigger] bucket(files, min_size, digests, digest)).len() >= 2 implies exists|k: int|
        0 <= k < groups.len() && (#[trigger] groups[k]).hash@ == digest by {
        let e = choose|e: int| 0 <= e < entries.len() && (#[trigger] entries[e]).0@ == digest;
        assert(entries[e].1@.len() >= 2);
        let k = choose|k: int| 0 <= k < groups.len() && #[trigger] origin[k] == e;
        assert(groups[k]@.hash == entries[e].0@);
    }
    assert forall|k1: int, k2: int| 0 <= k1 < k2 < groups.len() implies (
    #[trigger] groups[k1]).wasted_space >= (#[trigger] groups[k2]).wasted_space by {
        let e1 = origin[k1];
        let e2 = origin[k2];
    }
}

/// The number of worker threads used when none is configured and the
/// platform does not say how many it has.
pub const DEFAULT_THREAD_COUNT: usize = 4;

/// The number of worker threads for a configuration: the configured number
/// if there is one, else the detected parallelism if it is positive, else
/// the default.
pub open spec fn resolved_thread_count(configured: Option<usize>, detected: Option<usize>) -> usize {
    match configured {
        Some(count) => count,
        None => match detected {
            Some(count) => if count > 0 {
                count
            } else {
                DEFAULT_THREAD_COUNT
            },
            None => DEFAULT_THREAD_COUNT,
        },
    }
}

/// Finds files with identical content among the files of a scan.
pub struct DuplicateFinder {
    min_size: u64,
    thread_count: usize,
}

impl DuplicateFinder {
    /// The smallest size a file must have to be considered.
    pub closed spec fn min_size_spec(&self) -> u64 {
        self.min_size
    }

    /// The number of worker threads to hash with.
    pub closed spec fn thread_count_spec(&self) -> usize {
        self.thread_count
    }

    /// A finder for files of at least `min_size` bytes. Without a configured
    /// thread count the detected parallelism is used, and without that a
    /// fixed default, so that an unconfigured count is never zero.
    pub fn new(min_size: u64, thread_count: Option<usize>, detected: Option<usize>) -> (finder: Self)
        ensures
            finder.min_size_spec() == min_size,
            finder.thread_count_spec() == resolved_thread_count(thread_count, detected),
            thread_count is None ==> finder.thread_count_spec() > 0,
    {
        let thread_count = match thread_count {
            Some(count) => count,
            None => match detected {
                Some(count) => if count > 0 {
                    count
                } else {
                    DEFAULT_THREAD_COUNT
                },
                None => DEFAULT_THREAD_COUNT,
            },
        };
        DuplicateFinder { min_size, thread_count }
    }

    /// The smallest size a file must have to be considered.
    #[verifier::when_used_as_spec(min_size_spec)]
    pub fn min_size(&self) -> (min_size: u64)
        ensures
            min_size == self.min_size_spec(),
    {
        self.min_size
    }

    /// The number of worker threads to hash with.
    #[verifier::when_used_as_spec(thread_count_spec)]
    pub fn thread_count(&self) -> (count: usize)
        ensures
            count == self.thread_count_spec(),
    {
        self.thread_count
    }

    /// The indices of the files that have to be hashed, ascending: the
    /// candidates whose exact size is shared by at least one other candidate.
    /// No other file can have a duplicate, so no other file is ever read.
    pub fn select_candidates(&self, files: &Vec<FileEntry>) -> (targets: Vec<usize>)
        ensures
            forall|t: int|
                0 <= t < targets@.len() ==> is_hash_target(
                    files@,
                    self.min_size_spec(),
                    (#[trigger] targets@[t]) as int,
                ),
            forall|t1: int, t2: int| 0 <= t1 < t2 < targets@.len() ==> targets@[t1] < targets@[t2],
            forall|i: int|
                is_hash_target(files@, self.min_size_spec(), i) ==> exists|t: int|
                    0 <= t < targets@.len() && #[trigger] targets@[t] == i,
    {
        let census = size_census(files, self.min_size);
        let mut targets: Vec<usize> = Vec::new();
        let mut i: usize = 0;
        while i < files.len()
            invariant
                i <= files.len(),
                is_census(census@, files@, self.min_size, files@.len()),
                forall|t: int|
                    0 <= t < targets@.len() ==> (#[trigger] targets@[t]) < i && is_hash_target(
                        files@,
                        self.min_size,
                        targets@[t] as int,
                    ),
                forall|t1: int, t2: int|
                    0 <= t1 < t2 < targets@.len() ==> targets@[t1] < targets@[t2],
                forall|x: int|
                    0 <= x < i && is_hash_target(files@, self.min_size, x) ==> exists|t: int|
                        0 <= t < targets@.len() && #[trigger] targets@[t] == x,
            decreases files.len() - i,
        {
            let file = &files[i];
            let ghost before = targets@;
            if file.size >= self.min_size && !file.is_symlink {
                proof {
                    lemma_target_by_census(files@, self.min_size, i as int);
                }
                if is_shared(&census, file.size) {
                    targets.push(i);
                }
            }
            proof {
                assert forall|x: int|
                    0 <= x < i + 1 && is_hash_target(files@, self.min_size, x) implies exists|
                    t: int,
                | 0 <= t < targets@.len() && #[trigger] targets@[t] == x by {
                    if x == i {
                        assert(targets@[targets@.len() - 1] == x);
                    } else {
                        let t = choose|t: int| 0 <= t < before.len() && #[trigger] before[t] == x;
                        assert(targets@[t] == x);
                    }
                }
            }
            i = i + 1;
        }
        targets
    }

    /// Groups the files by digest, or returns `None` where the wasted space
    /// of some group cannot be held in 64 bits.
    ///
    /// `digests` holds for each file, by its index, the digest of its content,
    /// or `None` where the file was not hashed or could not be read. Only the
    /// digests of files that had to be hashed count; a file without digest is
    /// in no group.
    pub fn try_find_duplicates(&self, files: &Vec<FileEntry>, digests: &Vec<Option<String>>) -> (out:
        Option<Vec<DuplicateGroup>>)
        ensures
            match out {
                Some(groups) => wasted_space_fits(files@, self.min_size_spec(), digests@)
                    && is_duplicate_report(files@, self.min_size_spec(), digests@, groups@),
                None => !wasted_space_fits(files@, self.min_size_spec(), digests@),
            },
    {
        let map = fill_digest_map(files, self.min_size, digests);
        let entries = digest_map_entries(&map);
        proof {
            let buckets = digest_buckets(map);
            assert forall|e: int| 0 <= e < entries@.len() implies (#[trigger] entries@[e]).1@.len()
                > 0 && entries@[e].1@ == bucket(files@, self.min_size, digests@, entries@[e].0@) by {
                let expected = bucket_upto(
                    files@,
                    self.min_size,
                    digests@,
                    entries@[e].0@,
                    files@.len(),
                );
                assert(buckets.contains_key(entries@[e].0@));
            }
            assert forall|digest: Seq<char>|
                (#[trigger] bucket(files@, self.min_size, digests@, digest)).len()
                    > 0 implies exists|e: int|
                0 <= e < entries@.len() && (#[trigger] entries@[e]).0@ == digest by {
                let expected = bucket_upto(files@, self.min_size, digests@, digest, files@.len());
                assert(buckets.contains_key(digest));
            }
            assert(files@.len() == files.len());
            lemma_entries_in_range(files@, self.min_size, digests@, entries@);
        }
        let out = group_entries(files, &entries);
        proof {
            if out is Some {
                lemma_report_from_entries(files@, self.min_size, digests@, entries@, out->0@);
            }
        }
        out
    }

    /// Groups the files by digest.
    ///
    /// `digests` holds for each file, by its index, the digest of its content,
    /// or `None` where the file was not hashed or could not be read.
    pub fn find_duplicates(&self, files: &Vec<FileEntry>, digests: &Vec<Option<String>>) -> (groups:
        Vec<DuplicateGroup>)
        requires
            wasted_space_fits(files@, self.min_size_spec(), digests@),
        ensures
            is_duplicate_report(files@, self.min_size_spec(), digests@, groups@),
    {
        match self.try_find_duplicates(files, digests) {
            Some(groups) => groups,
            None => {
                proof {
                    assert(false);
                }
                Vec::new()
            },
        }
    }
}

/// How many of the flags are set.
pub open spec fn set_count(flags: Seq<bool>) -> nat
    decreases flags.len(),
{
    if flags.len() == 0 {
        0
    } else {
        set_count(flags.drop_last()) + if flags.last() {
            1nat
        } else {
            0
        }
    }
}

proof fn lemma_set_count_update(flags: Seq<bool>, at: int, value: bool)
    requires
        0 <= at < flags.len(),
    ensures
        set_count(flags.update(at, value)) + if flags[at] {
            1nat
        } else {
            0
        } == set_count(flags) + if value {
            1nat
        } else {
            0
        },
    decreases flags.len(),
{
    let changed = flags.update(at, value);
    if at == flags.len() - 1 {
        assert(changed.drop_last() =~= flags.drop_last());
    } else {
        lemma_set_count_update(flags.drop_last(), at, value);
        assert(changed.drop_last() =~= flags.drop_last().update(at, value));
    }
}

proof fn lemma_set_count_bounds(flags: Seq<bool>)
    ensures
        set_count(flags) <= flags.len(),
        set_count(flags) == 0 <==> forall|i: int| 0 <= i < flags.len() ==> !flags[i],
    decreases flags.len(),
{
    if flags.len() > 0 {
        lemma_set_count_bounds(flags.drop_last());
        if set_count(flags) == 0 {
            assert forall|i: int| 0 <= i < flags.len() implies !flags[i] by {
                if i < flags.len() - 1 {
                    assert(flags.drop_last()[i] == flags[i]);
                }
            }
        } else if !flags.last() {
            let i = choose|i: int| 0 <= i < flags.len() - 1 && flags.drop_last()[i];
            assert(flags[i]);
        }
    }
}

/// The hashing of one batch of files: which files are still being hashed,
/// what came of those that are done, and how far the batch is.
///
/// The files of the batch may finish in any order. Each one is recorded once,
/// with its digest or with the fact that it could not be read; either way
/// the count of finished files goes up by one.
pub struct HashingSession {
    pending: Vec<bool>,
    digests: Vec<Option<String>>,
    completed: usize,
    total: usize,
}

impl HashingSession {
    /// What was recorded for each file, by its index: the digest of a file
    /// that was hashed, and nothing for any other file.
    pub closed spec fn digests(&self) -> Seq<Option<String>> {
        self.digests@
    }

    /// Whether the file at `i` is still to be recorded.
    pub closed spec fn is_pending(&self, i: int) -> bool {
        0 <= i < self.pending@.len() && self.pending@[i]
    }

    /// The number of files recorded so far.
    pub closed spec fn completed(&self) -> nat {
        self.completed as nat
    }

    /// The number of files of the batch.
    pub closed spec fn total(&self) -> nat {
        self.total as nat
    }

    /// The number of files that the session knows of.
    pub closed spec fn file_count(&self) -> nat {
        self.pending@.len()
    }

    /// The files done and the files still to be recorded are together the
    /// files of the batch, and nothing is recorded yet for a file that is
    /// still to be recorded.
    pub closed spec fn is_valid(&self) -> bool {
        &&& self.digests@.len() == self.pending@.len()
        &&& self.completed + set_count(self.pending@) == self.total
        &&& forall|i: int|
            0 <= i < self.pending@.len() && self.pending@[i] ==> self.digests@[i] is None
    }

    /// A session for the files that `finder` selects among `files`: all of
    /// them are still to be recorded, and none is done.
    pub fn begin(finder: &DuplicateFinder, files: &Vec<FileEntry>) -> (session: Self)
        ensures
            session.is_valid(),
            session.file_count() == files@.len(),
            session.digests().len() == files@.len(),
            session.completed() == 0,
            forall|i: int|
                session.is_pending(i) == is_hash_target(files@, finder.min_size_spec(), i),
            forall|i: int| 0 <= i < files@.len() ==> session.digests()[i] is None,
    {
        let targets = finder.select_candidates(files);
        let mut pending: Vec<bool> = Vec::new();
        let mut digests: Vec<Option<String>> = Vec::new();
        let mut i: usize = 0;
        while i < files.len()
            invariant
                i <= files.len(),
                pending@.len() == i,
                digests@.len() == i,
                set_count(pending@) == 0,
                forall|x: int| 0 <= x < i ==> !pending@[x],
                forall|x: int| 0 <= x < i ==> digests@[x] is None,
            decreases files.len() - i,
        {
            proof {
                assert(pending@.push(false).drop_last() =~= pending@);
            }
            pending.push(false);
            digests.push(None);
            i = i + 1;
        }
        let mut t: usize = 0;
        while t < targets.len()
            invariant
                t <= targets.len(),
                pending@.len() == files@.len(),
                digests@.len() == files@.len(),
                forall|x: int| 0 <= x < digests@.len() ==> digests@[x] is None,
                set_count(pending@) == t,
                forall|x: int|
                    0 <= x < targets@.len() ==> is_hash_target(
                        files@,
                        finder.min_size_spec(),
                        (#[trigger] targets@[x]) as int,
                    ),
                forall|x: int, y: int| 0 <= x < y < targets@.len() ==> targets@[x] < targets@[y],
                forall|x: int|
                    0 <= x < pending@.len() ==> (pending@[x] <==> exists|y: int|
                        0 <= y < t && #[trigger] targets@[y] == x),
            decreases targets.len() - t,
        {
            let index = targets[t];
            let ghost before = pending@;
            proof {
                if before[index as int] {
                    let y = choose|y: int| 0 <= y < t && #[trigger] targets@[y] == index as int;
                    assert(targets@[y] < targets@[t as int]);
                }
                lemma_set_count_update(before, index as int, true);
            }
            pending.set(index, true);
            proof {
                assert forall|x: int| 0 <= x < pending@.len() implies (pending@[x] <==> exists|
                    y: int,
                | 0 <= y < t + 1 && #[trigger] targets@[y] == x) by {
                    if x == index {
                        assert(targets@[t as int] == x);
                    } else if before[x] {
                        let y = choose|y: int| 0 <= y < t && #[trigger] targets@[y] == x;
                        assert(targets@[y] == x);
                    }
                }
            }
            t = t + 1;
        }
        let session = HashingSession { pending, digests, completed: 0, total: targets.len() };
        proof {
            assert forall|i: int|
                session.is_pending(i) == is_hash_target(files@, finder.min_size_spec(), i) by {
                if is_hash_target(files@, finder.min_size_spec(), i) {
                    let y = choose|y: int| 0 <= y < targets@.len() && #[trigger] targets@[y] == i;
                    assert(targets@[y] == i);
                }
            }
        }
        session
    }

    /// Records what came of hashing the file at `index`: its digest, or
    /// `None` where it could not be read. The result says whether the file
    /// was still to be recorded; what is said of any other file, or of a file
    /// a second time, changes nothing.
    pub fn record(&mut self, index: usize, outcome: Option<String>) -> (accepted: bool)
        requires
            old(self).is_valid(),
        ensures
            final(self).is_valid(),
            final(self).file_count() == old(self).file_count(),
            accepted == old(self).is_pending(index as int),
            final(self).total() == old(self).total(),
            accepted ==> {
                &&& final(self).completed() == old(self).completed() + 1
                &&& final(self).digests() == old(self).digests().update(index as int, outcome)
                &&& forall|i: int|
                    final(self).is_pending(i) == (old(self).is_pending(i) && i != index)
            },
            !accepted ==> {
                &&& final(self).completed() == old(self).completed()
                &&& final(self).digests() == old(self).digests()
                &&& forall|i: int| final(self).is_pending(i) == old(self).is_pending(i)
            },
    {
        if index >= self.pending.len() || !self.pending[index] {
            return false;
        }
        proof {
            lemma_set_count_update(self.pending@, index as int, false);
            lemma_set_count_bounds(self.pending@);
        }
        self.pending.set(index, false);
        self.digests.set(index, outcome);
        self.completed = self.completed + 1;
        true
    }

    /// How many files of the batch are done, and how many the batch has.
    pub fn progress(&self) -> (out: (usize, usize))
        ensures
            out.0 == self.completed(),
            out.1 == self.total(),
    {
        (self.completed, self.total)
    }

    /// Ends the batch and groups the files by what was recorded for them.
    /// Every file of the batch must have been recorded: groups are never
    /// made from a batch that is still running. The result is `None` where
    /// the wasted space of some group cannot be held in 64 bits.
    pub fn finish(self, finder: &DuplicateFinder, files: &Vec<FileEntry>) -> (out: Option<
        Vec<DuplicateGroup>,
    >)
        requires
            self.is_valid(),
            forall|i: int| !self.is_pending(i),
        ensures
            match out {
                Some(groups) => wasted_space_fits(files@, finder.min_size_spec(), self.digests())
                    && is_duplicate_report(
                    files@,
                    finder.min_size_spec(),
                    self.digests(),
                    groups@,
                ),
                None => !wasted_space_fits(files@, finder.min_size_spec(), self.digests()),
            },
    {
        finder.try_find_duplicates(files, &self.digests)
    }

    /// Whether every file of the batch was recorded.
    pub fn is_complete(&self) -> (done: bool)
        requires
            self.is_valid(),
        ensures
            done == (forall|i: int| !self.is_pending(i)),
            done == (self.completed() == self.total()),
    {
        proof {
            lemma_set_count_bounds(self.pending@);
            if set_count(self.pending@) != 0 {
                let i = choose|i: int| 0 <= i < self.pending@.len() && self.pending@[i];
                assert(self.is_pending(i));
            }
        }
        self.completed == self.total
    }
}

} // verus!
