//! From the entries of a digest map to the ordered list of duplicate groups.

use crate::analyzer::DuplicateGroup;
use crate::analyzer::GroupModel;
use crate::path::NodePath;
use crate::scanner::FileEntry;
use vstd::prelude::*;

verus! {

/// The group that the files at `members` form under `digest`: the size is
/// that of the first member, and all but one of the members are wasted.
pub open spec fn entry_group(files: Seq<FileEntry>, digest: Seq<char>, members: Seq<usize>) -> GroupModel {
    GroupModel {
        hash: digest,
        file_size: files[members[0] as int].size,
        files: Seq::new(members.len(), |m: int| files[members[m] as int].path@),
        wasted_space: files[members[0] as int].size * (members.len() - 1),
    }
}

/// The wasted space of the group that `members` form can be held in 64 bits.
pub open spec fn group_fits(files: Seq<FileEntry>, members: Seq<usize>) -> bool {
    files[members[0] as int].size * (members.len() - 1) <= u64::MAX
}

/// Every index in every entry is the index of a file.
pub open spec fn entries_in_range(files: Seq<FileEntry>, entries: Seq<(String, Vec<usize>)>) -> bool {
    forall|e: int, m: int|
        0 <= e < entries.len() && 0 <= m < entries[e].1@.len() ==> (#[trigger] entries[e].1@[m])
            < files.len()
}

/// The wasted space of every group that the entries give can be held in 64
/// bits.
pub open spec fn entries_fit(files: Seq<FileEntry>, entries: Seq<(String, Vec<usize>)>, upto: int) -> bool {
    forall|e: int|
        0 <= e < upto && (#[trigger] entries[e]).1@.len() >= 2 ==> group_fits(files, entries[e].1@)
}

/// `groups` holds one group for each of the first `upto` entries that has two
/// members or more, and nothing else. `origin` says from which entry each group
/// comes. The groups are ordered by wasted space, largest first, and groups
/// that waste the same stand in the order of their entries.
pub open spec fn is_partial_report(
    files: Seq<FileEntry>,
    entries: Seq<(String, Vec<usize>)>,
    upto: int,
    groups: Seq<DuplicateGroup>,
    origin: Seq<int>,
) -> bool {
    &&& origin.len() == groups.len()
    &&& forall|k: int|
        0 <= k < groups.len() ==> {
            &&& 0 <= #[trigger] origin[k] < upto
            &&& entries[origin[k]].1@.len() >= 2
            &&& groups[k]@ == entry_group(files, entries[origin[k]].0@, entries[origin[k]].1@)
        }
    &&& forall|e: int|
        0 <= e < upto && (#[trigger] entries[e]).1@.len() >= 2 ==> exists|k: int|
            0 <= k < groups.len() && #[trigger] origin[k] == e
    &&& forall|k1: int, k2: int|
        #![trigger origin[k1], origin[k2]]
        0 <= k1 < k2 < groups.len() ==> groups[k1].wasted_space > groups[k2].wasted_space || (
        groups[k1].wasted_space == groups[k2].wasted_space && origin[k1] < origin[k2])
}

/// `groups` is the report for all of `entries`.
pub open spec fn is_report_of(
    files: Seq<FileEntry>,
    entries: Seq<(String, Vec<usize>)>,
    groups: Seq<DuplicateGroup>,
) -> bool {
    exists|origin: Seq<int>| is_partial_report(files, entries, entries.len() as int, groups, origin)
}

/// Builds the group of one digest, or `None` if its wasted space cannot be
/// held in 64 bits.
fn build_group(files: &Vec<FileEntry>, digest: &String, members: &Vec<usize>) -> (out: Option<
    DuplicateGroup,
>)
    requires
        members@.len() >= 2,
        forall|m: int| 0 <= m < members@.len() ==> members@[m] < files@.len(),
    ensures
        match out {
            Some(group) => group_fits(files@, members@) && group@ == entry_group(
                files@,
                digest@,
                members@,
            ),
            None => !group_fits(files@, members@),
        },
{
    let file_size: u64 = files[members[0]].size;
    let others: usize = members.len() - 1;
    let wasted_space: u64 = match file_size.checked_mul(others as u64) {
        Some(wasted) => wasted,
        None => {
            return None;
        },
    };
    let mut paths: Vec<NodePath> = Vec::new();
    let mut m: usize = 0;
    while m < members.len()
        invariant
            m <= members.len(),
            paths@.len() == m,
            forall|x: int| 0 <= x < members@.len() ==> members@[x] < files@.len(),
            forall|x: int| 0 <= x < m ==> (#[trigger] paths@[x])@ == files@[members@[x] as int].path@,
        decreases members.len() - m,
    {
        paths.push(files[members[m]].path.clone());
        m = m + 1;
    }
    let group = DuplicateGroup { hash: digest.clone(), file_size, files: paths, wasted_space };
    assert(group@ =~= entry_group(files@, digest@, members@));
    Some(group)
}

/// The groups waste less and less from the front to the back.
pub open spec fn is_descending(groups: Seq<DuplicateGroup>) -> bool {
    forall|k1: int, k2: int|
        0 <= k1 < k2 < groups.len() ==> (#[trigger] groups[k1]).wasted_space >= (
        #[trigger] groups[k2]).wasted_space
}

/// Puts `group` behind the last group that wastes at least as much.
fn insert_by_wasted(sorted: &mut Vec<DuplicateGroup>, group: DuplicateGroup) -> (at: usize)
    requires
        is_descending(old(sorted)@),
    ensures
        at <= old(sorted)@.len(),
        final(sorted)@ == old(sorted)@.insert(at as int, group),
        forall|k: int| 0 <= k < at ==> (#[trigger] old(sorted)@[k]).wasted_space >= group.wasted_space,
        forall|k: int|
            at <= k < old(sorted)@.len() ==> (#[trigger] old(sorted)@[k]).wasted_space
                < group.wasted_space,
{
    let mut at: usize = 0;
    while at < sorted.len() && sorted[at].wasted_space >= group.wasted_space
        invariant
            at <= sorted.len(),
            sorted@ == old(sorted)@,
            forall|k: int| 0 <= k < at ==> (#[trigger] sorted@[k]).wasted_space >= group.wasted_space,
        decreases sorted.len() - at,
    {
        at = at + 1;
    }
    proof {
        assert forall|k: int| at <= k < sorted@.len() implies (#[trigger] sorted@[k]).wasted_space
            < group.wasted_space by {
            if k > at {
                assert(sorted@[at as int].wasted_space >= sorted@[k].wasted_space);
            }
        }
    }
    sorted.insert(at, group);
    at
}

/// Turns the entries of a digest map into the list of duplicate groups.
///
/// An entry with fewer than two members gives no group. The groups are
/// ordered by wasted space, largest first; groups that waste the same keep
/// the order of their entries. The result is `None` exactly when the wasted
/// space of some group cannot be held in 64 bits.
pub fn group_entries(files: &Vec<FileEntry>, entries: &Vec<(String, Vec<usize>)>) -> (out: Option<
    Vec<DuplicateGroup>,
>)
    requires
        entries_in_range(files@, entries@),
    ensures
        match out {
            Some(groups) => entries_fit(files@, entries@, entries@.len() as int) && is_report_of(
                files@,
                entries@,
                groups@,
            ),
            None => !entries_fit(files@, entries@, entries@.len() as int),
        },
{
    let mut sorted: Vec<DuplicateGroup> = Vec::new();
    let ghost mut origin: Seq<int> = Seq::empty();
    let mut e: usize = 0;
    while e < entries.len()
        invariant
            e <= entries.len(),
            entries_in_range(files@, entries@),
            entries_fit(files@, entries@, e as int),
            is_partial_report(files@, entries@, e as int, sorted@, origin),
        decreases entries.len() - e,
    {
        let members = &entries[e].1;
        if members.len() >= 2 {
            proof {
                assert forall|m: int| 0 <= m < members@.len() implies members@[m] < files@.len() by {
                    assert(entries@[e as int].1@[m] < files@.len());
                }
            }
            match build_group(files, &entries[e].0, members) {
                Some(group) => {
                    let ghost before = sorted@;
                    let ghost before_origin = origin;
                    proof {
                        assert(is_descending(before)) by {
                            assert forall|k1: int, k2: int| 0 <= k1 < k2 < before.len() implies (
                            #[trigger] before[k1]).wasted_space >= (
                            #[trigger] before[k2]).wasted_space by {
                                let a = origin[k1];
                                let b = origin[k2];
                            }
                        }
                    }
                    let at = insert_by_wasted(&mut sorted, group);
                    proof {
                        origin = before_origin.insert(at as int, e as int);
                        before.insert_ensures(at as int, group);
                        before_origin.insert_ensures(at as int, e as int);
                        assert forall|x: int|
                            0 <= x < e + 1 && (#[trigger] entries@[x]).1@.len() >= 2 implies exists|
                            k: int,
                        |
                            0 <= k < sorted@.len() && #[trigger] origin[k] == x by {
                            if x == e {
                                assert(origin[at as int] == x);
                            } else {
                                let k = choose|k: int|
                                    0 <= k < before.len() && #[trigger] before_origin[k] == x;
                                if k < at {
                                    assert(origin[k] == x);
                                } else {
                                    assert(origin[k + 1] == x);
                                }
                            }
                        }
                        assert forall|k: int| 0 <= k < sorted@.len() implies {
                            &&& 0 <= #[trigger] origin[k] < e + 1
                            &&& entries@[origin[k]].1@.len() >= 2
                            &&& sorted@[k]@ == entry_group(
                                files@,
                                entries@[origin[k]].0@,
                                entries@[origin[k]].1@,
                            )
                        } by {
                            if k < at {
                                assert(origin[k] == before_origin[k]);
                            } else if k > at {
                                assert(origin[k] == before_origin[k - 1]);
                                assert(sorted@[k] == before[k - 1]);
                            }
                        }
                        assert forall|k1: int, k2: int|
                            #![trigger origin[k1], origin[k2]]
                            0 <= k1 < k2 < sorted@.len() implies sorted@[k1].wasted_space
                            > sorted@[k2].wasted_space || (sorted@[k1].wasted_space
                            == sorted@[k2].wasted_space && origin[k1] < origin[k2]) by {
                            let a = if k1 < at {
                                k1
                            } else {
                                k1 - 1
                            };
                            let b = if k2 < at {
                                k2
                            } else {
                                k2 - 1
                            };
                            if k1 != at && k2 != at {
                                assert(sorted@[k1] == before[a]);
                                assert(sorted@[k2] == before[b]);
                                assert(origin[k1] == before_origin[a]);
                                assert(origin[k2] == before_origin[b]);
                            } else if k1 == at {
                                assert(sorted@[k2] == before[b]);
                                assert(before[b].wasted_space < group.wasted_space);
                            } else {
                                assert(sorted@[k1] == before[a]);
                                assert(before[a].wasted_space >= group.wasted_space);
                                assert(origin[k1] == before_origin[a]);
                                assert(before_origin[a] < e);
                            }
                        }
                    }
                },
                None => {
                    return None;
                },
            }
        }
        e = e + 1;
    }
    Some(sorted)
}

} // verus!
