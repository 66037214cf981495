//! What a report shows and in which order.

use crate::analyzer::DuplicateGroup;
use crate::analyzer::TypeShare;
use crate::ranking::is_ranking;
use crate::ranking::is_selection;
use crate::ranking::ranks_of;
use crate::ranking::Ranked;
use crate::ranking::TopList;
use crate::text::decimal;
use crate::text::push_decimal;
use vstd::prelude::*;

verus! {

/// The parts of a report.
#[derive(Debug, Clone, Copy, PartialEq, Eq, Structural)]
pub enum ReportSection {
    Summary,
    Header,
    SizeBreakdown,
    FileTypeDistribution,
    LargestFiles,
    LargestDirectories,
    DuplicateAnalysis,
    PerformanceStatistics,
    Footer,
}

/// The parts of a report, in the order in which they are shown: in quiet
/// mode the summary alone, else everything from header to footer, with the
/// duplicate analysis where duplicates were looked for.
pub open spec fn sections_of(quiet: bool, has_duplicates: bool) -> Seq<ReportSection> {
    if quiet {
        seq![ReportSection::Summary]
    } else if has_duplicates {
        seq![
            ReportSection::Header,
            ReportSection::SizeBreakdown,
            ReportSection::FileTypeDistribution,
            ReportSection::LargestFiles,
            ReportSection::LargestDirectories,
            ReportSection::DuplicateAnalysis,
            ReportSection::PerformanceStatistics,
            ReportSection::Footer,
        ]
    } else {
        seq![
            ReportSection::Header,
            ReportSection::SizeBreakdown,
            ReportSection::FileTypeDistribution,
            ReportSection::LargestFiles,
            ReportSection::LargestDirectories,
            ReportSection::PerformanceStatistics,
            ReportSection::Footer,
        ]
    }
}

/// The parts of a report, in the order in which they are shown.
pub fn generate_report(quiet: bool, has_duplicates: bool) -> (sections: Vec<ReportSection>)
    ensures
        sections@ == sections_of(quiet, has_duplicates),
{
    let mut sections: Vec<ReportSection> = Vec::new();
    if quiet {
        sections.push(ReportSection::Summary);
        assert(sections@ =~= sections_of(quiet, has_duplicates));
        return sections;
    }
    sections.push(ReportSection::Header);
    sections.push(ReportSection::SizeBreakdown);
    sections.push(ReportSection::FileTypeDistribution);
    sections.push(ReportSection::LargestFiles);
    sections.push(ReportSection::LargestDirectories);
    if has_duplicates {
        sections.push(ReportSection::DuplicateAnalysis);
    }
    sections.push(ReportSection::PerformanceStatistics);
    sections.push(ReportSection::Footer);
    assert(sections@ =~= sections_of(quiet, has_duplicates));
    sections
}

/// A place in a list together with the rank of what stands there.
struct Place {
    index: usize,
    weight: u64,
}

impl Ranked for Place {
    closed spec fn rank(&self) -> u64 {
        self.weight
    }

    fn rank_value(&self) -> (rank: u64) {
        self.weight
    }
}

/// The total sizes of a list of categories, in order.
pub open spec fn share_sizes(shares: Seq<TypeShare>) -> Seq<u64> {
    Seq::new(shares.len(), |i: int| shares[i].stats.total_size)
}

/// The places of a list of indices, in order.
pub open spec fn places_of(indices: Seq<usize>) -> Seq<int> {
    Seq::new(indices.len(), |k: int| indices[k] as int)
}

/// The places of the `top_count` categories that hold the most, the one
/// that holds most first; categories that hold the same stand in the order
/// of the list.
pub fn ranked_types(shares: &Vec<TypeShare>, top_count: usize) -> (order: Vec<usize>)
    ensures
        is_ranking(share_sizes(shares@), top_count as int, places_of(order@)),
{
    let mut top: TopList<Place> = TopList::new(top_count);
    let mut i: usize = 0;
    while i < shares.len()
        invariant
            i <= shares.len(),
            top.is_valid(),
            top.limit() == top_count,
            top.offered().len() == i,
            forall|j: int|
                0 <= j < i ==> (#[trigger] top.offered()[j]).index == j && top.offered()[j].weight
                    == shares@[j].stats.total_size,
        decreases shares.len() - i,
    {
        top.offer(Place { index: i, weight: shares[i].stats.total_size });
        i = i + 1;
    }
    let ghost offered = top.offered();
    let picked = top.into_vec();
    let ghost origin = choose|origin: Seq<int>|
        is_selection(offered, top_count as int, picked@, origin);
    proof {
        assert(ranks_of(offered) =~= share_sizes(shares@));
    }
    let mut order: Vec<usize> = Vec::new();
    let mut k: usize = 0;
    while k < picked.len()
        invariant
            k <= picked.len(),
            order@.len() == k,
            picked@.len() == origin.len(),
            forall|x: int|
                #![trigger origin[x]]
                0 <= x < picked@.len() ==> 0 <= origin[x] < offered.len() && picked@[x]
                    == offered[origin[x]],
            forall|j: int| 0 <= j < offered.len() ==> (#[trigger] offered[j]).index == j,
            forall|x: int| 0 <= x < k ==> #[trigger] order@[x] == origin[x],
        decreases picked.len() - k,
    {
        proof {
            let j = origin[k as int];
            assert(picked@[k as int] == offered[j]);
        }
        order.push(picked[k].index);
        k = k + 1;
    }
    proof {
        assert(places_of(order@) =~= origin);
    }
    order
}

/// How many members of a duplicate group a report lists at most.
pub const SHOWN_MEMBERS: usize = 3;

/// The mark in front of the member at place `j` of a group of `count`
/// members: the closing mark for the last member shown, the branching mark
/// for the others.
pub open spec fn member_mark(j: int, count: int) -> Seq<char> {
    if j == count - 1 || j == SHOWN_MEMBERS - 1 {
        "└─"@
    } else {
        "├─"@
    }
}

/// The line of the member at place `j`.
pub open spec fn member_line(group: DuplicateGroup, j: int) -> Seq<char> {
    "       "@ + member_mark(j, group.files@.len() as int) + " "@ + group.files@[j]@.render()
}

/// The line that says how many members are not shown.
pub open spec fn more_line(hidden: nat) -> Seq<char> {
    "       └─ ... and "@ + decimal(hidden) + " more files"@
}

/// The lines that list the members of a group: the first three members, and
/// a last line that counts the others where there are more.
pub open spec fn member_lines_of(group: DuplicateGroup) -> Seq<Seq<char>> {
    let count = group.files@.len();
    if count > SHOWN_MEMBERS {
        Seq::new(SHOWN_MEMBERS as nat, |j: int| member_line(group, j)).push(
            more_line((count - SHOWN_MEMBERS) as nat),
        )
    } else {
        Seq::new(count, |j: int| member_line(group, j))
    }
}

/// The texts of a list of lines.
pub open spec fn line_texts(lines: Seq<String>) -> Seq<Seq<char>> {
    Seq::new(lines.len(), |i: int| lines[i]@)
}

/// The lines that list the members of a duplicate group in a report.
pub fn member_lines(group: &DuplicateGroup) -> (lines: Vec<String>)
    ensures
        line_texts(lines@) == member_lines_of(*group),
{
    let count = group.files.len();
    let shown = if count > SHOWN_MEMBERS {
        SHOWN_MEMBERS
    } else {
        count
    };
    let mut lines: Vec<String> = Vec::new();
    let mut j: usize = 0;
    while j < shown
        invariant
            j <= shown <= count,
            count == group.files@.len(),
            lines@.len() == j,
            forall|x: int| 0 <= x < j ==> (#[trigger] lines@[x])@ == member_line(*group, x),
        decreases shown - j,
    {
        let mut line = "       ".to_owned();
        if j == count - 1 || j == SHOWN_MEMBERS - 1 {
            line.append("└─");
        } else {
            line.append("├─");
        }
        line.append(" ");
        line.append(group.files[j].display().as_str());
        lines.push(line);
        j = j + 1;
    }
    if count > SHOWN_MEMBERS {
        let mut line = "       └─ ... and ".to_owned();
        push_decimal(&mut line, (count - SHOWN_MEMBERS) as u64);
        line.append(" more files");
        lines.push(line);
    }
    assert(line_texts(lines@) =~= member_lines_of(*group));
    lines
}

} // verus!
