//! What holds of every list of duplicate groups.

use crate::analyzer::DuplicateGroup;
use crate::analyzer::GroupModel;
use crate::duplicates::bucket;
use crate::duplicates::bucket_upto;
use crate::duplicates::digest_at;
use crate::duplicates::is_candidate;
use crate::duplicates::is_duplicate_report;
use crate::duplicates::is_hash_target;
use crate::duplicates::is_member;
use crate::duplicates::lemma_bucket_contents;
use crate::duplicates::shares_size;
use crate::duplicates::wasted_space_fits;
use crate::grouping::entry_group;
use crate::grouping::group_fits;
use crate::scanner::FileEntry;
use vstd::prelude::*;

verus! {

/// No two files have the same path.
pub open spec fn distinct_file_paths(files: Seq<FileEntry>) -> bool {
    forall|i: int, j: int| 0 <= i < j < files.len() ==> files[i].path@ != files[j].path@
}

/// Files that were hashed to the same digest have the same size.
pub open spec fn digests_respect_size(
    files: Seq<FileEntry>,
    min_size: u64,
    digests: Seq<Option<String>>,
) -> bool {
    forall|digest: Seq<char>, i: int, j: int|
        #![trigger is_member(files, min_size, digests, digest, i),
            is_member(files, min_size, digests, digest, j)]
        is_member(files, min_size, digests, digest, i) && is_member(
            files,
            min_size,
            digests,
            digest,
            j,
        ) ==> files[i].size == files[j].size
}

/// Every group of a report has at least two members.
pub proof fn lemma_groups_have_two_members(
    files: Seq<FileEntry>,
    min_size: u64,
    digests: Seq<Option<String>>,
    groups: Seq<DuplicateGroup>,
)
    requires
        is_duplicate_report(files, min_size, digests, groups),
    ensures
        forall|k: int| 0 <= k < groups.len() ==> (#[trigger] groups[k]).files@.len() >= 2,
{
    assert forall|k: int| 0 <= k < groups.len() implies (#[trigger] groups[k]).files@.len() >= 2 by {
        let members = bucket(files, min_size, digests, groups[k].hash@);
        assert(groups[k]@.files.len() == members.len());
    }
}

/// `path` is the path of a file that is at least `min_size` bytes long, is
/// no symbolic link, shares its size with another such file, and was hashed
/// to `digest`.
pub open spec fn is_hashed_path(
    files: Seq<FileEntry>,
    min_size: u64,
    digests: Seq<Option<String>>,
    digest: Seq<char>,
    path: crate::path::PathModel,
) -> bool {
    exists|i: int|
        {
            &&& 0 <= i < files.len()
            &&& (#[trigger] files[i]).path@ == path
            &&& files[i].size >= min_size
            &&& !files[i].is_symlink
            &&& shares_size(files, min_size, i)
            &&& digest_at(digests, i) == Some(digest)
        }
}

/// Every member of every group is the path of a file that is large enough,
/// is no symbolic link, shares its size with another such file, and was
/// hashed to the digest of the group. A file below the minimum size, a
/// symbolic link and a file that could not be read are never among them.
pub proof fn lemma_members_were_hashed(
    files: Seq<FileEntry>,
    min_size: u64,
    digests: Seq<Option<String>>,
    groups: Seq<DuplicateGroup>,
)
    requires
        files.len() <= usize::MAX,
        is_duplicate_report(files, min_size, digests, groups),
    ensures
        forall|k: int, m: int|
            0 <= k < groups.len() && 0 <= m < groups[k]@.files.len() ==> is_hashed_path(
                files,
                min_size,
                digests,
                groups[k].hash@,
                #[trigger] groups[k]@.files[m],
            ),
{
    assert forall|k: int, m: int|
        0 <= k < groups.len() && 0 <= m < groups[k]@.files.len() implies is_hashed_path(
        files,
        min_size,
        digests,
        groups[k].hash@,
        #[trigger] groups[k]@.files[m],
    ) by {
        let digest = groups[k].hash@;
        let members = bucket(files, min_size, digests, digest);
        lemma_bucket_contents(files, min_size, digests, digest, files.len());
        let i = members[m] as int;
        assert(is_member(files, min_size, digests, digest, i));
        assert(files[i].path@ == groups[k]@.files[m]);
    }
}

/// Where no two files have the same path, a file that is too small, is a
/// symbolic link, shares its size with no other candidate or has no digest
/// is a member of no group.
pub proof fn lemma_excluded_files_absent(
    files: Seq<FileEntry>,
    min_size: u64,
    digests: Seq<Option<String>>,
    groups: Seq<DuplicateGroup>,
    i: int,
)
    requires
        files.len() <= usize::MAX,
        distinct_file_paths(files),
        is_duplicate_report(files, min_size, digests, groups),
        0 <= i < files.len(),
        files[i].size < min_size || files[i].is_symlink || !shares_size(files, min_size, i)
            || digest_at(digests, i) is None,
    ensures
        forall|k: int, m: int|
            0 <= k < groups.len() && 0 <= m < groups[k]@.files.len() ==> (
            #[trigger] groups[k]@.files[m]) != files[i].path@,
{
    lemma_members_were_hashed(files, min_size, digests, groups);
    assert forall|k: int, m: int|
        0 <= k < groups.len() && 0 <= m < groups[k]@.files.len() implies (
    #[trigger] groups[k]@.files[m]) != files[i].path@ by {
        let path = groups[k]@.files[m];
        assert(is_hashed_path(files, min_size, digests, groups[k].hash@, path));
        let j = choose|j: int|
            {
                &&& 0 <= j < files.len()
                &&& (#[trigger] files[j]).path@ == path
                &&& files[j].size >= min_size
                &&& !files[j].is_symlink
                &&& shares_size(files, min_size, j)
                &&& digest_at(digests, j) == Some(groups[k].hash@)
            };
        if i < j {
            assert(files[i].path@ != files[j].path@);
        } else if j < i {
            assert(files[j].path@ != files[i].path@);
        }
    }
}

/// Where files with the same digest have the same size, every member of a
/// group has the size that the group records.
pub proof fn lemma_members_have_group_size(
    files: Seq<FileEntry>,
    min_size: u64,
    digests: Seq<Option<String>>,
    groups: Seq<DuplicateGroup>,
)
    requires
        files.len() <= usize::MAX,
        is_duplicate_report(files, min_size, digests, groups),
        digests_respect_size(files, min_size, digests),
    ensures
        forall|k: int, m: int|
            0 <= k < groups.len() && 0 <= m < bucket(
                files,
                min_size,
                digests,
                groups[k].hash@,
            ).len() ==> {
                let i = #[trigger] bucket(files, min_size, digests, groups[k].hash@)[m] as int;
                &&& groups[k]@.files[m] == files[i].path@
                &&& files[i].size == groups[k].file_size
            },
{
    assert forall|k: int, m: int|
        0 <= k < groups.len() && 0 <= m < bucket(
            files,
            min_size,
            digests,
            groups[k].hash@,
        ).len() implies {
        let i = #[trigger] bucket(files, min_size, digests, groups[k].hash@)[m] as int;
        &&& groups[k]@.files[m] == files[i].path@
        &&& files[i].size == groups[k].file_size
    } by {
        let digest = groups[k].hash@;
        let members = bucket(files, min_size, digests, digest);
        lemma_bucket_contents(files, min_size, digests, digest, files.len());
        let i = members[m] as int;
        let first = members[0] as int;
        assert(is_member(files, min_size, digests, digest, i));
        assert(is_member(files, min_size, digests, digest, first));
        assert(groups[k]@.file_size == files[first].size);
    }
}

/// The digests `first` and `second` say the same of every file that had to
/// be hashed.
pub open spec fn same_target_digests(
    files: Seq<FileEntry>,
    min_size: u64,
    first: Seq<Option<String>>,
    second: Seq<Option<String>>,
) -> bool {
    forall|i: int|
        is_hash_target(files, min_size, i) ==> #[trigger] digest_at(first, i) == digest_at(second, i)
}

proof fn lemma_same_buckets(
    files: Seq<FileEntry>,
    min_size: u64,
    first: Seq<Option<String>>,
    second: Seq<Option<String>>,
    digest: Seq<char>,
    n: nat,
)
    requires
        same_target_digests(files, min_size, first, second),
    ensures
        bucket_upto(files, min_size, first, digest, n) == bucket_upto(
            files,
            min_size,
            second,
            digest,
            n,
        ),
    decreases n,
{
    if n > 0 {
        lemma_same_buckets(files, min_size, first, second, digest, (n - 1) as nat);
        if is_hash_target(files, min_size, n - 1) {
            assert(digest_at(first, n - 1) == digest_at(second, n - 1));
        }
    }
}

/// A report depends on nothing but the digests of the files that had to be
/// hashed: whatever was recorded for other files, in whatever order the
/// files were hashed and on however many threads, the same digests give the
/// same reports.
pub proof fn lemma_report_depends_on_target_digests(
    files: Seq<FileEntry>,
    min_size: u64,
    first: Seq<Option<String>>,
    second: Seq<Option<String>>,
    groups: Seq<DuplicateGroup>,
)
    requires
        same_target_digests(files, min_size, first, second),
        is_duplicate_report(files, min_size, first, groups),
    ensures
        is_duplicate_report(files, min_size, second, groups),
{
    assert forall|digest: Seq<char>|
        bucket(files, min_size, first, digest) == #[trigger] bucket(
            files,
            min_size,
            second,
            digest,
        ) by {
        lemma_same_buckets(files, min_size, first, second, digest, files.len());
    }
    assert forall|k: int| 0 <= k < groups.len() implies {
        let members = bucket(files, min_size, second, (#[trigger] groups[k]).hash@);
        &&& members.len() >= 2
        &&& groups[k]@ == entry_group(files, groups[k].hash@, members)
    } by {
        lemma_same_buckets(files, min_size, first, second, groups[k].hash@, files.len());
    }
    assert forall|digest: Seq<char>|
        (#[trigger] bucket(files, min_size, second, digest)).len() >= 2 implies exists|k: int|
        0 <= k < groups.len() && (#[trigger] groups[k]).hash@ == digest by {
        lemma_same_buckets(files, min_size, first, second, digest, files.len());
        assert(bucket(files, min_size, first, digest).len() >= 2);
    }
}

/// `group` is one of `groups`.
pub open spec fn has_group(groups: Seq<DuplicateGroup>, group: GroupModel) -> bool {
    exists|x: int| 0 <= x < groups.len() && (#[trigger] groups[x])@ == group
}

/// Two reports for the same files and digests hold the same groups: each
/// group of one is a group of the other. Only the order of groups that waste
/// the same may differ.
pub proof fn lemma_reports_agree(
    files: Seq<FileEntry>,
    min_size: u64,
    digests: Seq<Option<String>>,
    first: Seq<DuplicateGroup>,
    second: Seq<DuplicateGroup>,
)
    requires
        is_duplicate_report(files, min_size, digests, first),
        is_duplicate_report(files, min_size, digests, second),
    ensures
        forall|k: int| 0 <= k < first.len() ==> has_group(second, (#[trigger] first[k])@),
        forall|x: int| 0 <= x < second.len() ==> has_group(first, (#[trigger] second[x])@),
{
    lemma_report_included(files, min_size, digests, first, second);
    lemma_report_included(files, min_size, digests, second, first);
}

proof fn lemma_report_included(
    files: Seq<FileEntry>,
    min_size: u64,
    digests: Seq<Option<String>>,
    first: Seq<DuplicateGroup>,
    second: Seq<DuplicateGroup>,
)
    requires
        is_duplicate_report(files, min_size, digests, first),
        is_duplicate_report(files, min_size, digests, second),
    ensures
        forall|k: int| 0 <= k < first.len() ==> has_group(second, (#[trigger] first[k])@),
{
    assert forall|k: int| 0 <= k < first.len() implies has_group(second, (#[trigger] first[k])@) by {
        let digest = first[k].hash@;
        assert(bucket(files, min_size, digests, digest).len() >= 2);
        let x = choose|x: int| 0 <= x < second.len() && (#[trigger] second[x]).hash@ == digest;
        assert(second[x]@ == first[k]@);
    }
}

/// The sum of the sizes of the candidates among the first `n` files.
pub open spec fn candidate_total_upto(files: Seq<FileEntry>, min_size: u64, n: nat) -> nat
    decreases n,
{
    if n == 0 || n > files.len() {
        0
    } else {
        candidate_total_upto(files, min_size, (n - 1) as nat) + if is_candidate(
            files[n - 1],
            min_size,
        ) {
            files[n - 1].size as nat
        } else {
            0
        }
    }
}

/// The sum of the sizes of all candidates.
pub open spec fn candidate_total(files: Seq<FileEntry>, min_size: u64) -> nat {
    candidate_total_upto(files, min_size, files.len())
}

/// The bytes held by the members of all groups together: for each group its
/// file size times the number of its members.
pub open spec fn group_bytes(groups: Seq<DuplicateGroup>) -> int
    decreases groups.len(),
{
    if groups.len() == 0 {
        0
    } else {
        group_bytes(groups.drop_last()) + groups.last().file_size * groups.last().files@.len()
    }
}

/// The sum of the sizes of the members of `digest` among the first `n` files.
spec fn member_bytes(
    files: Seq<FileEntry>,
    min_size: u64,
    digests: Seq<Option<String>>,
    digest: Seq<char>,
    n: nat,
) -> nat
    decreases n,
{
    if n == 0 || n > files.len() {
        0
    } else {
        member_bytes(files, min_size, digests, digest, (n - 1) as nat) + if is_member(
            files,
            min_size,
            digests,
            digest,
            n - 1,
        ) {
            files[n - 1].size as nat
        } else {
            0
        }
    }
}

/// The member bytes of several digests together.
spec fn member_bytes_over(
    files: Seq<FileEntry>,
    min_size: u64,
    digests: Seq<Option<String>>,
    keys: Seq<Seq<char>>,
    n: nat,
) -> nat
    decreases keys.len(),
{
    if keys.len() == 0 {
        0
    } else {
        member_bytes_over(files, min_size, digests, keys.drop_last(), n) + member_bytes(
            files,
            min_size,
            digests,
            keys.last(),
            n,
        )
    }
}

/// The file at `i` is a member of one of `keys`.
spec fn is_member_of_any(
    files: Seq<FileEntry>,
    min_size: u64,
    digests: Seq<Option<String>>,
    keys: Seq<Seq<char>>,
    i: int,
) -> bool {
    exists|x: int| 0 <= x < keys.len() && is_member(files, min_size, digests, #[trigger] keys[x], i)
}

spec fn distinct_keys(keys: Seq<Seq<char>>) -> bool {
    forall|x: int, y: int| 0 <= x < y < keys.len() ==> keys[x] != keys[y]
}

proof fn lemma_member_bytes_over_step(
    files: Seq<FileEntry>,
    min_size: u64,
    digests: Seq<Option<String>>,
    keys: Seq<Seq<char>>,
    n: nat,
)
    requires
        distinct_keys(keys),
        1 <= n <= files.len(),
    ensures
        member_bytes_over(files, min_size, digests, keys, n) == member_bytes_over(
            files,
            min_size,
            digests,
            keys,
            (n - 1) as nat,
        ) + if is_member_of_any(files, min_size, digests, keys, n - 1) {
            files[n - 1].size as nat
        } else {
            0
        },
    decreases keys.len(),
{
    if keys.len() > 0 {
        let rest = keys.drop_last();
        let key = keys.last();
        lemma_member_bytes_over_step(files, min_size, digests, rest, n);
        let in_rest = is_member_of_any(files, min_size, digests, rest, n - 1);
        let in_last = is_member(files, min_size, digests, key, n - 1);
        if in_rest {
            let x = choose|x: int|
                0 <= x < rest.len() && is_member(files, min_size, digests, #[trigger] rest[x], n - 1);
            assert(keys[x] == rest[x]);
            assert(is_member(files, min_size, digests, keys[x], n - 1));
            assert(keys[x] != keys[keys.len() - 1]);
            assert(!in_last);
        }
        if in_last {
            assert(is_member(files, min_size, digests, keys[keys.len() - 1], n - 1));
        }
        if is_member_of_any(files, min_size, digests, keys, n - 1) {
            let x = choose|x: int|
                0 <= x < keys.len() && is_member(files, min_size, digests, #[trigger] keys[x], n - 1);
            if x < rest.len() {
                assert(rest[x] == keys[x]);
                assert(in_rest);
            } else {
                assert(in_last);
            }
        }
    }
}

proof fn lemma_member_bytes_over_zero(
    files: Seq<FileEntry>,
    min_size: u64,
    digests: Seq<Option<String>>,
    keys: Seq<Seq<char>>,
)
    ensures
        member_bytes_over(files, min_size, digests, keys, 0) == 0,
    decreases keys.len(),
{
    if keys.len() > 0 {
        lemma_member_bytes_over_zero(files, min_size, digests, keys.drop_last());
    }
}

proof fn lemma_member_bytes_over_bounded(
    files: Seq<FileEntry>,
    min_size: u64,
    digests: Seq<Option<String>>,
    keys: Seq<Seq<char>>,
    n: nat,
)
    requires
        distinct_keys(keys),
        n <= files.len(),
    ensures
        member_bytes_over(files, min_size, digests, keys, n) <= candidate_total_upto(
            files,
            min_size,
            n,
        ),
    decreases n,
{
    if n == 0 {
        lemma_member_bytes_over_zero(files, min_size, digests, keys);
    } else {
        lemma_member_bytes_over_bounded(files, min_size, digests, keys, (n - 1) as nat);
        lemma_member_bytes_over_step(files, min_size, digests, keys, n);
    }
}

proof fn lemma_member_bytes_of_equal_sizes(
    files: Seq<FileEntry>,
    min_size: u64,
    digests: Seq<Option<String>>,
    digest: Seq<char>,
    size: u64,
    n: nat,
)
    requires
        n <= files.len(),
        forall|i: int|
            #![trigger is_member(files, min_size, digests, digest, i)]
            is_member(files, min_size, digests, digest, i) ==> files[i].size == size,
    ensures
        member_bytes(files, min_size, digests, digest, n) == size * bucket_upto(
            files,
            min_size,
            digests,
            digest,
            n,
        ).len(),
    decreases n,
{
    if n > 0 {
        lemma_member_bytes_of_equal_sizes(files, min_size, digests, digest, size, (n - 1) as nat);
        let earlier = bucket_upto(files, min_size, digests, digest, (n - 1) as nat).len();
        if is_member(files, min_size, digests, digest, n - 1) {
            assert(size * (earlier + 1) == size * earlier + size) by (nonlinear_arith);
        }
    }
}

/// The digests of the groups, in order.
spec fn group_keys(groups: Seq<DuplicateGroup>) -> Seq<Seq<char>> {
    Seq::new(groups.len(), |k: int| groups[k].hash@)
}

proof fn lemma_group_bytes_are_member_bytes(
    files: Seq<FileEntry>,
    min_size: u64,
    digests: Seq<Option<String>>,
    groups: Seq<DuplicateGroup>,
    upto: int,
)
    requires
        files.len() <= usize::MAX,
        is_duplicate_report(files, min_size, digests, groups),
        digests_respect_size(files, min_size, digests),
        0 <= upto <= groups.len(),
    ensures
        group_bytes(groups.take(upto)) == member_bytes_over(
            files,
            min_size,
            digests,
            group_keys(groups).take(upto),
            files.len(),
        ),
    decreases upto,
{
    if upto > 0 {
        lemma_group_bytes_are_member_bytes(files, min_size, digests, groups, upto - 1);
        assert(groups.take(upto).drop_last() =~= groups.take(upto - 1));
        assert(group_keys(groups).take(upto).drop_last() =~= group_keys(groups).take(upto - 1));
        let group = groups[upto - 1];
        let digest = group.hash@;
        let members = bucket(files, min_size, digests, digest);
        lemma_bucket_contents(files, min_size, digests, digest, files.len());
        let first = members[0] as int;
        assert(is_member(files, min_size, digests, digest, first));
        assert(group@.file_size == files[first].size);
        assert(group@.files.len() == members.len());
        assert forall|i: int|
            #![trigger is_member(files, min_size, digests, digest, i)]
            is_member(files, min_size, digests, digest, i) implies files[i].size
            == group.file_size by {
            assert(is_member(files, min_size, digests, digest, first));
        }
        lemma_member_bytes_of_equal_sizes(
            files,
            min_size,
            digests,
            digest,
            group.file_size,
            files.len(),
        );
    }
}

/// Where files with the same digest have the same size, the groups of a
/// report hold no more bytes between them than the candidates do: for each
/// group its file size times the number of its members, added up, is at most
/// the sum of the sizes of all candidates.
pub proof fn lemma_group_bytes_bounded(
    files: Seq<FileEntry>,
    min_size: u64,
    digests: Seq<Option<String>>,
    groups: Seq<DuplicateGroup>,
)
    requires
        files.len() <= usize::MAX,
        is_duplicate_report(files, min_size, digests, groups),
        digests_respect_size(files, min_size, digests),
    ensures
        group_bytes(groups) <= candidate_total(files, min_size),
{
    let keys = group_keys(groups);
    lemma_group_bytes_are_member_bytes(files, min_size, digests, groups, groups.len() as int);
    assert(groups.take(groups.len() as int) =~= groups);
    assert(keys.take(groups.len() as int) =~= keys);
    lemma_member_bytes_over_bounded(files, min_size, digests, keys, files.len());
}

/// Where files with the same digest have the same size and the sizes of all
/// candidates together can be held in 64 bits, so can the wasted space of
/// every group.
pub proof fn lemma_wasted_space_fits(
    files: Seq<FileEntry>,
    min_size: u64,
    digests: Seq<Option<String>>,
)
    requires
        files.len() <= usize::MAX,
        digests_respect_size(files, min_size, digests),
        candidate_total(files, min_size) <= u64::MAX,
    ensures
        wasted_space_fits(files, min_size, digests),
{
    assert forall|digest: Seq<char>|
        (#[trigger] bucket(files, min_size, digests, digest)).len() >= 2 implies group_fits(
        files,
        bucket(files, min_size, digests, digest),
    ) by {
        let members = bucket(files, min_size, digests, digest);
        lemma_bucket_contents(files, min_size, digests, digest, files.len());
        let first = members[0] as int;
        let size = files[first].size;
        assert(is_member(files, min_size, digests, digest, first));
        assert forall|i: int|
            #![trigger is_member(files, min_size, digests, digest, i)]
            is_member(files, min_size, digests, digest, i) implies files[i].size == size by {
            assert(is_member(files, min_size, digests, digest, first));
        }
        lemma_member_bytes_of_equal_sizes(files, min_size, digests, digest, size, files.len());
        let keys = seq![digest];
        assert(keys.drop_last() =~= Seq::<Seq<char>>::empty());
        assert(keys.last() == digest);
        assert(member_bytes_over(files, min_size, digests, keys.drop_last(), files.len()) == 0);
        assert(member_bytes_over(files, min_size, digests, keys, files.len()) == member_bytes(
            files,
            min_size,
            digests,
            digest,
            files.len(),
        ));
        lemma_member_bytes_over_bounded(files, min_size, digests, keys, files.len());
        let count = members.len();
        assert(size * (count - 1) <= size * count) by (nonlinear_arith)
            requires
                count >= 1,
                size >= 0,
        ;
    }
}

proof fn lemma_candidate_total_prefix(files: Seq<FileEntry>, min_size: u64, n: nat)
    requires
        n <= files.len(),
    ensures
        candidate_total_upto(files, min_size, n) <= crate::scanner::total_size(files.take(n as int)),
    decreases n,
{
    if n > 0 {
        lemma_candidate_total_prefix(files, min_size, (n - 1) as nat);
        assert(files.take(n as int).drop_last() =~= files.take(n - 1));
    }
}

/// The candidates are some of the files, so their sizes add up to no more
/// than the sizes of all files.
pub proof fn lemma_candidate_total_le_total_size(files: Seq<FileEntry>, min_size: u64)
    ensures
        candidate_total(files, min_size) <= crate::scanner::total_size(files),
{
    lemma_candidate_total_prefix(files, min_size, files.len());
    assert(files.take(files.len() as int) =~= files);
}

} // verus!
