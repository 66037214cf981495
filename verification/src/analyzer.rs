//! The results of an analysis and how they are put together.

use crate::cli::Args;
use crate::duplicates::DuplicateFinder;
use crate::path::NodePath;
use crate::path::PathModel;
use crate::ranking::is_ranking;
use crate::ranking::ranks_of;
use crate::ranking::Ranked;
use crate::ranking::TopList;
use crate::scanner::total_size;
use crate::scanner::DirectoryEntry;
use crate::scanner::FileEntry;
use crate::scanner::DirectoryScanner;
use crate::scanner::PatternError;
use crate::scanner::ScanResults;
use crate::utils::category_of;
use crate::utils::FileTypeClassifier;
use crate::utils::SizeBreakdown;
use vstd::prelude::*;

verus! {

/// A set of files with identical content.
#[derive(Debug)]
pub struct DuplicateGroup {
    pub hash: String,
    pub file_size: u64,
    pub files: Vec<NodePath>,
    pub wasted_space: u64,
}

/// The mathematical value of a duplicate group.
#[verifier::ext_equal]
pub struct GroupModel {
    pub hash: Seq<char>,
    pub file_size: u64,
    pub files: Seq<PathModel>,
    pub wasted_space: int,
}

impl View for DuplicateGroup {
    type V = GroupModel;

    open spec fn view(&self) -> GroupModel {
        GroupModel {
            hash: self.hash@,
            file_size: self.file_size,
            files: Seq::new(self.files@.len(), |m: int| self.files@[m]@),
            wasted_space: self.wasted_space as int,
        }
    }
}

/// A file as it appears in a report: where it is, how large it is, and what
/// category it belongs to.
#[derive(Debug)]
pub struct FileInfo {
    pub path: NodePath,
    pub size: u64,
    pub file_type: String,
    pub modified: Option<i64>,
}

/// The mathematical value of a `FileInfo`.
#[verifier::ext_equal]
pub struct FileInfoModel {
    pub path: PathModel,
    pub size: u64,
    pub file_type: Seq<char>,
    pub modified: Option<i64>,
}

impl View for FileInfo {
    type V = FileInfoModel;

    open spec fn view(&self) -> FileInfoModel {
        FileInfoModel {
            path: self.path@,
            size: self.size,
            file_type: self.file_type@,
            modified: self.modified,
        }
    }
}

impl Clone for FileInfo {
    fn clone(&self) -> (out: Self)
        ensures
            out@ == self@,
    {
        FileInfo {
            path: self.path.clone(),
            size: self.size,
            file_type: self.file_type.clone(),
            modified: self.modified,
        }
    }
}

impl Ranked for FileInfo {
    open spec fn rank(&self) -> u64 {
        self.size
    }

    fn rank_value(&self) -> (rank: u64) {
        self.size
    }
}

/// A directory as it appears in a report.
#[derive(Debug)]
pub struct DirectoryInfo {
    pub path: NodePath,
    pub size: u64,
    pub file_count: u64,
    pub subdirectory_count: u64,
}

/// The mathematical value of a `DirectoryInfo`.
#[verifier::ext_equal]
pub struct DirectoryInfoModel {
    pub path: PathModel,
    pub size: u64,
    pub file_count: u64,
    pub subdirectory_count: u64,
}

impl View for DirectoryInfo {
    type V = DirectoryInfoModel;

    open spec fn view(&self) -> DirectoryInfoModel {
        DirectoryInfoModel {
            path: self.path@,
            size: self.size,
            file_count: self.file_count,
            subdirectory_count: self.subdirectory_count,
        }
    }
}

impl Ranked for DirectoryInfo {
    open spec fn rank(&self) -> u64 {
        self.size
    }

    fn rank_value(&self) -> (rank: u64) {
        self.size
    }
}

/// What is known of the files of one category.
#[derive(Debug)]
pub struct TypeStats {
    pub count: u64,
    pub total_size: u64,
    pub average_size: u64,
    pub largest_file: Option<FileInfo>,
}

/// One category with what is known of its files.
#[derive(Debug)]
pub struct TypeShare {
    pub file_type: String,
    pub stats: TypeStats,
}

/// The report entry of a file under the category table `table`.
pub open spec fn info_of(table: Seq<(Seq<char>, Seq<char>)>, file: FileEntry) -> FileInfoModel {
    FileInfoModel {
        path: file.path@,
        size: file.size,
        file_type: category_of(table, file.path@),
        modified: file.modified,
    }
}

/// The report entries of a list of files, in order.
pub open spec fn infos_of(table: Seq<(Seq<char>, Seq<char>)>, files: Seq<FileEntry>) -> Seq<
    FileInfoModel,
> {
    Seq::new(files.len(), |i: int| info_of(table, files[i]))
}

/// The sizes of a list of files, in order.
pub open spec fn file_sizes(files: Seq<FileEntry>) -> Seq<u64> {
    Seq::new(files.len(), |i: int| files[i].size)
}

/// The report entry of a directory.
pub open spec fn directory_info_of(directory: DirectoryEntry) -> DirectoryInfoModel {
    DirectoryInfoModel {
        path: directory.path@,
        size: directory.total_size,
        file_count: directory.file_count,
        subdirectory_count: directory.subdirectory_count,
    }
}

/// The cumulative sizes of a list of directories, in order.
pub open spec fn directory_sizes(directories: Seq<DirectoryEntry>) -> Seq<u64> {
    Seq::new(directories.len(), |i: int| directories[i].total_size)
}

/// The number of entries of the category `label`.
pub open spec fn type_count(infos: Seq<FileInfoModel>, label: Seq<char>) -> nat
    decreases infos.len(),
{
    if infos.len() == 0 {
        0
    } else {
        type_count(infos.drop_last(), label) + if infos.last().file_type == label {
            1nat
        } else {
            0
        }
    }
}

/// The sum of the sizes of the entries of the category `label`.
pub open spec fn type_size(infos: Seq<FileInfoModel>, label: Seq<char>) -> nat
    decreases infos.len(),
{
    if infos.len() == 0 {
        0
    } else {
        type_size(infos.drop_last(), label) + if infos.last().file_type == label {
            infos.last().size as nat
        } else {
            0
        }
    }
}

/// The size of the entry at `at`, or zero where there is none.
pub open spec fn size_at(infos: Seq<FileInfoModel>, at: Option<int>) -> u64 {
    match at {
        Some(i) => infos[i].size,
        None => 0,
    }
}

/// The place of the largest entry of the category `label`: the first one of
/// the greatest size, and none while every entry of the category is empty.
pub open spec fn type_largest(infos: Seq<FileInfoModel>, label: Seq<char>) -> Option<int>
    decreases infos.len(),
{
    if infos.len() == 0 {
        None
    } else {
        let earlier = type_largest(infos.drop_last(), label);
        if infos.last().file_type == label && size_at(infos.drop_last(), earlier)
            < infos.last().size {
            Some(infos.len() - 1)
        } else {
            earlier
        }
    }
}

/// The sum of the sizes of all entries.
pub open spec fn info_total(infos: Seq<FileInfoModel>) -> nat
    decreases infos.len(),
{
    if infos.len() == 0 {
        0
    } else {
        info_total(infos.drop_last()) + infos.last().size as nat
    }
}

/// `stats` is what is known of the category `label` among `infos`.
pub open spec fn stats_match(infos: Seq<FileInfoModel>, label: Seq<char>, stats: TypeStats) -> bool {
    &&& stats.count == type_count(infos, label)
    &&& stats.total_size == type_size(infos, label)
    &&& stats.count > 0
    &&& stats.average_size == stats.total_size / stats.count
    &&& match type_largest(infos, label) {
        Some(i) => stats.largest_file is Some && stats.largest_file->0@ == infos[i],
        None => stats.largest_file is None,
    }
}

/// `shares` holds one entry for each category that occurs among `infos`,
/// with what is known of that category.
pub open spec fn is_type_distribution(infos: Seq<FileInfoModel>, shares: Seq<TypeShare>) -> bool {
    &&& forall|e: int|
        0 <= e < shares.len() ==> stats_match(
            infos,
            (#[trigger] shares[e]).file_type@,
            shares[e].stats,
        )
    &&& forall|e1: int, e2: int|
        0 <= e1 < e2 < shares.len() ==> (#[trigger] shares[e1]).file_type@ != (
        #[trigger] shares[e2]).file_type@
    &&& forall|i: int|
        0 <= i < infos.len() ==> exists|e: int|
            0 <= e < shares.len() && (#[trigger] shares[e]).file_type@ == (#[trigger] infos[i]).file_type
}

proof fn lemma_type_bounds(infos: Seq<FileInfoModel>, label: Seq<char>)
    ensures
        type_count(infos, label) <= infos.len(),
        type_size(infos, label) <= info_total(infos),
        match type_largest(infos, label) {
            Some(i) => 0 <= i < infos.len(),
            None => true,
        },
    decreases infos.len(),
{
    if infos.len() > 0 {
        lemma_type_bounds(infos.drop_last(), label);
    }
}

proof fn lemma_type_absent(infos: Seq<FileInfoModel>, label: Seq<char>)
    requires
        forall|i: int| 0 <= i < infos.len() ==> (#[trigger] infos[i]).file_type != label,
    ensures
        type_count(infos, label) == 0,
        type_size(infos, label) == 0,
        type_largest(infos, label) is None,
    decreases infos.len(),
{
    if infos.len() > 0 {
        let rest = infos.drop_last();
        assert forall|i: int| 0 <= i < rest.len() implies (#[trigger] rest[i]).file_type != label by {
            assert(rest[i] == infos[i]);
        }
        lemma_type_absent(rest, label);
        assert(infos.last() == infos[infos.len() - 1]);
    }
}

/// The index of the entry for the category `label`, if there is one.
fn find_share(shares: &Vec<TypeShare>, label: &String) -> (found: Option<usize>)
    ensures
        match found {
            Some(e) => e < shares@.len() && shares@[e as int].file_type@ == label@,
            None => forall|e: int| 0 <= e < shares@.len() ==> (#[trigger] shares@[e]).file_type@ != label@,
        },
{
    let mut e: usize = 0;
    while e < shares.len()
        invariant
            e <= shares.len(),
            forall|x: int| 0 <= x < e ==> (#[trigger] shares@[x]).file_type@ != label@,
        decreases shares.len() - e,
    {
        if shares[e].file_type == *label {
            return Some(e);
        }
        e = e + 1;
    }
    None
}

/// Counts one more file into the shares of its category.
fn tally(shares: &mut Vec<TypeShare>, info: &FileInfo, Ghost(seen): Ghost<Seq<FileInfoModel>>)
    requires
        is_type_distribution(seen, old(shares)@),
        info_total(seen) + info.size <= u64::MAX,
        seen.len() < u64::MAX,
    ensures
        is_type_distribution(seen.push(info@), final(shares)@),
{
    let ghost now = seen.push(info@);
    let ghost label = info.file_type@;
    let ghost before = shares@;
    proof {
        assert(now.drop_last() =~= seen);
        assert(now.last() == info@);
        lemma_type_bounds(seen, label);
    }
    let at: usize = match find_share(shares, &info.file_type) {
        Some(e) => e,
        None => {
            proof {
                assert forall|i: int| 0 <= i < seen.len() implies (#[trigger] seen[i]).file_type
                    != label by {
                    let e = choose|e: int|
                        0 <= e < before.len() && (#[trigger] before[e]).file_type@ == seen[i].file_type;
                }
                lemma_type_absent(seen, label);
            }
            shares.push(
                TypeShare {
                    file_type: info.file_type.clone(),
                    stats: TypeStats { count: 0, total_size: 0, average_size: 0, largest_file: None },
                },
            );
            shares.len() - 1
        },
    };
    let ghost grown = shares@;
    let largest_size: u64 = match &shares[at].stats.largest_file {
        Some(largest) => largest.size,
        None => 0,
    };
    let count: u64 = shares[at].stats.count + 1;
    let total: u64 = shares[at].stats.total_size + info.size;
    let largest: Option<FileInfo> = if largest_size < info.size {
        Some(info.clone())
    } else {
        None
    };
    shares[at].stats.count = count;
    shares[at].stats.total_size = total;
    shares[at].stats.average_size = total / count;
    if largest_size < info.size {
        shares[at].stats.largest_file = largest;
    }
    proof {
        assert forall|e: int| 0 <= e < shares@.len() implies stats_match(
            now,
            (#[trigger] shares@[e]).file_type@,
            shares@[e].stats,
        ) by {
            if e != at {
                assert(shares@[e] == before[e]);
                assert(before[e].file_type@ != label);
                lemma_type_bounds(seen, before[e].file_type@);
            } else {
                let stats = shares@[e].stats;
                assert(shares@[e].file_type@ == label);
                assert(stats.count == type_count(now, label));
                assert(stats.total_size == type_size(now, label));
                assert(stats.average_size == stats.total_size / stats.count);
                match type_largest(seen, label) {
                    Some(i) => {
                        assert(now[i] == seen[i]);
                    },
                    None => {},
                }
                assert(largest_size == size_at(seen, type_largest(seen, label)));
            }
        }
        assert forall|e1: int, e2: int| 0 <= e1 < e2 < shares@.len() implies (
        #[trigger] shares@[e1]).file_type@ != (#[trigger] shares@[e2]).file_type@ by {
            assert(shares@[e1].file_type@ == grown[e1].file_type@);
            assert(shares@[e2].file_type@ == grown[e2].file_type@);
        }
        assert forall|i: int| 0 <= i < now.len() implies exists|e: int|
            0 <= e < shares@.len() && (#[trigger] shares@[e]).file_type@ == (
            #[trigger] now[i]).file_type by {
            if i == seen.len() {
                assert(shares@[at as int].file_type@ == now[i].file_type);
            } else {
                let e = choose|e: int|
                    0 <= e < before.len() && (#[trigger] before[e]).file_type@ == seen[i].file_type;
                assert(shares@[e].file_type@ == now[i].file_type);
            }
        }
    }
}

/// The values of a list of report entries, in order.
pub open spec fn info_views(infos: Seq<FileInfo>) -> Seq<FileInfoModel> {
    Seq::new(infos.len(), |i: int| infos[i]@)
}

proof fn lemma_info_total_of_files(table: Seq<(Seq<char>, Seq<char>)>, files: Seq<FileEntry>)
    ensures
        info_total(infos_of(table, files)) == total_size(files),
    decreases files.len(),
{
    if files.len() > 0 {
        lemma_info_total_of_files(table, files.drop_last());
        assert(infos_of(table, files).drop_last() =~= infos_of(table, files.drop_last()));
    }
}

proof fn lemma_info_total_prefix(infos: Seq<FileInfoModel>, k: int)
    requires
        0 <= k <= infos.len(),
    ensures
        info_total(infos.take(k)) <= info_total(infos),
    decreases infos.len() - k,
{
    if k < infos.len() {
        lemma_info_total_prefix(infos, k + 1);
        assert(infos.take(k + 1).drop_last() =~= infos.take(k));
    } else {
        assert(infos.take(k) =~= infos);
    }
}

/// What is known of each category among `infos`: how many entries it has,
/// how much they hold, their average size and the largest of them.
pub fn type_distribution(infos: &Vec<FileInfo>) -> (shares: Vec<TypeShare>)
    requires
        info_total(info_views(infos@)) <= u64::MAX,
    ensures
        is_type_distribution(info_views(infos@), shares@),
{
    let ghost models = info_views(infos@);
    let mut shares: Vec<TypeShare> = Vec::new();
    let mut i: usize = 0;
    while i < infos.len()
        invariant
            i <= infos.len(),
            models == info_views(infos@),
            info_total(models) <= u64::MAX,
            is_type_distribution(models.take(i as int), shares@),
        decreases infos.len() - i,
    {
        proof {
            lemma_info_total_prefix(models, i + 1);
            assert(models.take(i + 1).drop_last() =~= models.take(i as int));
            assert(models.take(i as int).push(infos@[i as int]@) =~= models.take(i + 1));
        }
        tally(&mut shares, &infos[i], Ghost(models.take(i as int)));
        i = i + 1;
    }
    proof {
        assert(models.take(infos.len() as int) =~= models);
    }
    shares
}

/// `picked` holds the report entries of the `limit` largest of `files`,
/// largest first, files of equal size in the order of the file list.
pub open spec fn is_largest_files(
    table: Seq<(Seq<char>, Seq<char>)>,
    files: Seq<FileEntry>,
    limit: int,
    picked: Seq<FileInfo>,
) -> bool {
    exists|origin: Seq<int>|
        {
            &&& is_ranking(file_sizes(files), limit, origin)
            &&& picked.len() == origin.len()
            &&& forall|k: int|
                0 <= k < picked.len() ==> (#[trigger] picked[k])@ == info_of(table, files[origin[k]])
        }
}

/// `picked` holds the report entries of the `limit` largest of
/// `directories`, largest first, directories of equal size in the order of
/// the list.
pub open spec fn is_largest_directories(
    directories: Seq<DirectoryEntry>,
    limit: int,
    picked: Seq<DirectoryInfo>,
) -> bool {
    exists|origin: Seq<int>|
        {
            &&& is_ranking(directory_sizes(directories), limit, origin)
            &&& picked.len() == origin.len()
            &&& forall|k: int|
                0 <= k < picked.len() ==> (#[trigger] picked[k])@ == directory_info_of(
                    directories[origin[k]],
                )
        }
}

/// The report entries of the `top_count` largest directories.
pub fn largest_directories(directories: &Vec<DirectoryEntry>, top_count: usize) -> (picked: Vec<
    DirectoryInfo,
>)
    ensures
        is_largest_directories(directories@, top_count as int, picked@),
{
    let mut top: TopList<DirectoryInfo> = TopList::new(top_count);
    let mut i: usize = 0;
    while i < directories.len()
        invariant
            i <= directories.len(),
            top.is_valid(),
            top.limit() == top_count,
            top.offered().len() == i,
            forall|j: int| 0 <= j < i ==> (#[trigger] top.offered()[j])@ == directory_info_of(directories@[j]),
        decreases directories.len() - i,
    {
        let entry = &directories[i];
        let info = DirectoryInfo {
            path: entry.path.clone(),
            size: entry.total_size,
            file_count: entry.file_count,
            subdirectory_count: entry.subdirectory_count,
        };
        assert(info@ =~= directory_info_of(*entry));
        top.offer(info);
        i = i + 1;
    }
    let ghost offered = top.offered();
    let picked = top.into_vec();
    proof {
        let origin = choose|origin: Seq<int>|
            crate::ranking::is_selection(offered, top_count as int, picked@, origin);
        assert(ranks_of(offered) =~= directory_sizes(directories@));
        assert forall|k: int| 0 <= k < picked@.len() implies (#[trigger] picked@[k])@
            == directory_info_of(directories@[origin[k]]) by {
            assert(picked@[k] == offered[origin[k]]);
        }
    }
    picked
}

/// How many files the duplicate groups hold and how much space they waste.
#[derive(Debug, Clone, Copy, PartialEq, Eq, Structural)]
pub struct DuplicateTotals {
    pub duplicate_files: u64,
    pub wasted_space: u64,
}

/// The number of members of all groups together.
pub open spec fn member_total(groups: Seq<DuplicateGroup>) -> nat
    decreases groups.len(),
{
    if groups.len() == 0 {
        0
    } else {
        member_total(groups.drop_last()) + groups.last().files@.len()
    }
}

/// The wasted space of all groups together.
pub open spec fn wasted_total(groups: Seq<DuplicateGroup>) -> nat
    decreases groups.len(),
{
    if groups.len() == 0 {
        0
    } else {
        wasted_total(groups.drop_last()) + groups.last().wasted_space as nat
    }
}

proof fn lemma_totals_grow(groups: Seq<DuplicateGroup>, k: int)
    requires
        0 <= k <= groups.len(),
    ensures
        member_total(groups.take(k)) <= member_total(groups),
        wasted_total(groups.take(k)) <= wasted_total(groups),
    decreases groups.len() - k,
{
    if k < groups.len() {
        lemma_totals_grow(groups, k + 1);
        assert(groups.take(k + 1).drop_last() =~= groups.take(k));
    } else {
        assert(groups.take(k) =~= groups);
    }
}

/// The totals over all duplicate groups, or `None` where one of them cannot
/// be held in 64 bits.
pub fn duplicate_totals(groups: &Vec<DuplicateGroup>) -> (out: Option<DuplicateTotals>)
    ensures
        match out {
            Some(totals) => totals.duplicate_files == member_total(groups@) && totals.wasted_space
                == wasted_total(groups@),
            None => member_total(groups@) > u64::MAX || wasted_total(groups@) > u64::MAX,
        },
{
    let mut duplicate_files: u64 = 0;
    let mut wasted_space: u64 = 0;
    let mut k: usize = 0;
    while k < groups.len()
        invariant
            k <= groups.len(),
            duplicate_files == member_total(groups@.take(k as int)),
            wasted_space == wasted_total(groups@.take(k as int)),
        decreases groups.len() - k,
    {
        proof {
            assert(groups@.take(k + 1).drop_last() =~= groups@.take(k as int));
            lemma_totals_grow(groups@, k + 1);
        }
        let members = groups[k].files.len() as u64;
        let wasted = groups[k].wasted_space;
        if members > u64::MAX - duplicate_files || wasted > u64::MAX - wasted_space {
            return None;
        }
        duplicate_files = duplicate_files + members;
        wasted_space = wasted_space + wasted;
        k = k + 1;
    }
    proof {
        assert(groups@.take(groups.len() as int) =~= groups@);
    }
    Some(DuplicateTotals { duplicate_files, wasted_space })
}

/// Where, when and how far a scan went, and what it found in all.
#[derive(Debug)]
pub struct ScanInfo {
    pub path: NodePath,
    /// When the analysis ended, in seconds since the Unix epoch.
    pub timestamp: i64,
    pub depth_limit: usize,
    pub total_files: u64,
    pub total_directories: u64,
    pub total_size: u64,
    pub scan_duration_ms: u64,
}

/// Complete analysis results.
#[derive(Debug)]
pub struct AnalysisResults {
    pub scan_info: ScanInfo,
    pub size_breakdown: SizeBreakdown,
    pub file_type_distribution: Vec<TypeShare>,
    pub largest_files: Vec<FileInfo>,
    pub largest_directories: Vec<DirectoryInfo>,
    pub duplicate_groups: Option<Vec<DuplicateGroup>>,
    pub duplicate_totals: DuplicateTotals,
}

/// The totals that belong to a list of duplicate groups, or to none.
pub open spec fn totals_match(groups: Option<Vec<DuplicateGroup>>, totals: DuplicateTotals) -> bool {
    match groups {
        Some(list) => totals.duplicate_files == member_total(list@) && totals.wasted_space
            == wasted_total(list@),
        None => totals.duplicate_files == 0 && totals.wasted_space == 0,
    }
}

/// The totals of a list of duplicate groups, or of none, can be held in 64
/// bits.
pub open spec fn totals_fit(groups: Option<Vec<DuplicateGroup>>) -> bool {
    match groups {
        Some(list) => member_total(list@) <= u64::MAX && wasted_total(list@) <= u64::MAX,
        None => true,
    }
}

/// Main analyzer that puts the phases of an analysis together.
pub struct DirectoryAnalyzer {
    args: Args,
    scanner: DirectoryScanner,
    duplicate_finder: Option<DuplicateFinder>,
    classifier: FileTypeClassifier,
}

impl DirectoryAnalyzer {
    /// The options of the analysis.
    pub closed spec fn options(&self) -> Args {
        self.args
    }

    /// The scanner of the analysis.
    pub closed spec fn scanner_spec(&self) -> DirectoryScanner {
        self.scanner
    }

    /// The duplicate finder of the analysis, if duplicates are looked for.
    pub closed spec fn finder_spec(&self) -> Option<DuplicateFinder> {
        self.duplicate_finder
    }

    /// The category table of the analysis.
    pub closed spec fn table(&self) -> Seq<(Seq<char>, Seq<char>)> {
        self.classifier.table()
    }

    /// An analyzer for the given options. It fails where an exclude pattern
    /// is no regular expression. A duplicate finder is made exactly where
    /// duplicates are asked for; `detected` is the parallelism of the
    /// platform, if known.
    pub fn new(args: Args, detected: Option<usize>) -> (out: Result<Self, PatternError>)
        ensures
            match out {
                Ok(analyzer) => {
                    &&& analyzer.options() == args
                    &&& analyzer.table() == crate::utils::known_types()
                    &&& analyzer.scanner_spec().shows_hidden() == args.show_hidden
                    &&& analyzer.scanner_spec().patterns() == crate::scanner::texts_of(
                        args.exclude_patterns@,
                    )
                    &&& analyzer.finder_spec() is Some == args.find_duplicates
                    &&& args.find_duplicates ==> {
                        &&& analyzer.finder_spec()->0.min_size_spec() == args.min_duplicate_size
                        &&& analyzer.finder_spec()->0.thread_count_spec()
                            == crate::duplicates::resolved_thread_count(args.threads, detected)
                    }
                },
                Err(error) => {
                    &&& error.index < args.exclude_patterns@.len()
                    &&& error.pattern@ == args.exclude_patterns@[error.index as int]@
                    &&& !crate::scanner::pattern_compiles(args.exclude_patterns@[error.index as int]@)
                },
            },
    {
        let scanner = match DirectoryScanner::new(&args) {
            Ok(scanner) => scanner,
            Err(error) => {
                return Err(error);
            },
        };
        let duplicate_finder = if args.find_duplicates {
            Some(DuplicateFinder::new(args.min_duplicate_size, args.threads, detected))
        } else {
            None
        };
        let classifier = FileTypeClassifier::new();
        Ok(DirectoryAnalyzer { args, scanner, duplicate_finder, classifier })
    }

    /// The options of the analysis.
    pub fn args(&self) -> (args: &Args)
        ensures
            *args == self.options(),
    {
        &self.args
    }

    /// The scanner of the analysis.
    pub fn scanner(&self) -> (scanner: &DirectoryScanner)
        ensures
            *scanner == self.scanner_spec(),
    {
        &self.scanner
    }

    /// The duplicate finder of the analysis, if duplicates are looked for.
    pub fn duplicate_finder(&self) -> (finder: Option<&DuplicateFinder>)
        ensures
            match finder {
                Some(found) => self.finder_spec() == Some(*found),
                None => self.finder_spec() is None,
            },
    {
        self.duplicate_finder.as_ref()
    }

    /// Everything that is told from the scan alone: the size bands, what is
    /// known of each category, the largest files and the largest
    /// directories, the last two cut off after the configured number.
    pub fn analyze_files_and_directories(&self, scan_results: &ScanResults) -> (out: (
        SizeBreakdown,
        Vec<TypeShare>,
        Vec<FileInfo>,
        Vec<DirectoryInfo>,
    ))
        requires
            total_size(scan_results.files@) <= u64::MAX,
        ensures
            out.0.describes(scan_results.files@),
            is_type_distribution(infos_of(self.table(), scan_results.files@), out.1@),
            is_largest_files(
                self.table(),
                scan_results.files@,
                self.options().top_count as int,
                out.2@,
            ),
            is_largest_directories(
                scan_results.directories@,
                self.options().top_count as int,
                out.3@,
            ),
    {
        let files = &scan_results.files;
        let ghost table = self.table();
        let ghost models = infos_of(table, files@);
        let mut shares: Vec<TypeShare> = Vec::new();
        let mut top: TopList<FileInfo> = TopList::new(self.args.top_count);
        let mut i: usize = 0;
        proof {
            lemma_info_total_of_files(table, files@);
        }
        while i < files.len()
            invariant
                i <= files.len(),
                table == self.table(),
                models == infos_of(table, files@),
                info_total(models) <= u64::MAX,
                is_type_distribution(models.take(i as int), shares@),
                top.is_valid(),
                top.limit() == self.args.top_count,
                top.offered().len() == i,
                forall|j: int| 0 <= j < i ==> (#[trigger] top.offered()[j])@ == models[j],
            decreases files.len() - i,
        {
            let file = &files[i];
            let info = FileInfo {
                path: file.path.clone(),
                size: file.size,
                file_type: self.classifier.classify(&file.path),
                modified: file.modified,
            };
            proof {
                assert(info@ =~= models[i as int]);
                lemma_info_total_prefix(models, i + 1);
                assert(models.take(i + 1).drop_last() =~= models.take(i as int));
                assert(models.take(i as int).push(info@) =~= models.take(i + 1));
            }
            tally(&mut shares, &info, Ghost(models.take(i as int)));
            top.offer(info);
            i = i + 1;
        }
        let ghost offered = top.offered();
        let largest_files = top.into_vec();
        proof {
            assert(models.take(files.len() as int) =~= models);
            let origin = choose|origin: Seq<int>|
                crate::ranking::is_selection(
                    offered,
                    self.args.top_count as int,
                    largest_files@,
                    origin,
                );
            assert(ranks_of(offered) =~= file_sizes(files@)) by {
                assert forall|j: int| 0 <= j < offered.len() implies ranks_of(offered)[j]
                    == file_sizes(files@)[j] by {
                    assert(offered[j]@ == models[j]);
                }
            }
            assert forall|k: int| 0 <= k < largest_files@.len() implies (
            #[trigger] largest_files@[k])@ == info_of(table, files@[origin[k]]) by {
                assert(largest_files@[k] == offered[origin[k]]);
                assert(offered[origin[k]]@ == models[origin[k]]);
            }
        }
        let largest_directories = largest_directories(&scan_results.directories, self.args.top_count);
        let size_breakdown = SizeBreakdown::from_scan_results(scan_results);
        (size_breakdown, shares, largest_files, largest_directories)
    }

    /// Puts the results of an analysis together from what the scan found,
    /// the duplicate groups if duplicates were looked for, the time at which
    /// the analysis ended and how long it took. The result is `None` where
    /// the totals of the duplicate groups cannot be held in 64 bits.
    pub fn analyze(
        &self,
        scan_results: &ScanResults,
        duplicate_groups: Option<Vec<DuplicateGroup>>,
        timestamp: i64,
        scan_duration_ms: u64,
    ) -> (out: Option<AnalysisResults>)
        requires
            total_size(scan_results.files@) <= u64::MAX,
        ensures
            out is Some == totals_fit(duplicate_groups),
            match out {
                Some(results) => {
                    &&& results.scan_info.path@ == self.options().path@
                    &&& results.scan_info.timestamp == timestamp
                    &&& results.scan_info.depth_limit == self.options().max_depth
                    &&& results.scan_info.total_files == scan_results.total_files
                    &&& results.scan_info.total_directories == scan_results.total_directories
                    &&& results.scan_info.total_size == scan_results.total_size
                    &&& results.scan_info.scan_duration_ms == scan_duration_ms
                    &&& results.size_breakdown.describes(scan_results.files@)
                    &&& is_type_distribution(
                        infos_of(self.table(), scan_results.files@),
                        results.file_type_distribution@,
                    )
                    &&& is_largest_files(
                        self.table(),
                        scan_results.files@,
                        self.options().top_count as int,
                        results.largest_files@,
                    )
                    &&& is_largest_directories(
                        scan_results.directories@,
                        self.options().top_count as int,
                        results.largest_directories@,
                    )
                    &&& results.duplicate_groups == duplicate_groups
                    &&& totals_match(duplicate_groups, results.duplicate_totals)
                },
                None => true,
            },
    {
        let duplicate_totals = match &duplicate_groups {
            Some(groups) => match duplicate_totals(groups) {
                Some(totals) => totals,
                None => {
                    return None;
                },
            },
            None => DuplicateTotals { duplicate_files: 0, wasted_space: 0 },
        };
        let (size_breakdown, file_type_distribution, largest_files, largest_directories) =
            self.analyze_files_and_directories(scan_results);
        Some(
            AnalysisResults {
                scan_info: ScanInfo {
                    path: self.args.path.clone(),
                    timestamp,
                    depth_limit: self.args.max_depth,
                    total_files: scan_results.total_files,
                    total_directories: scan_results.total_directories,
                    total_size: scan_results.total_size,
                    scan_duration_ms,
                },
                size_breakdown,
                file_type_distribution,
                largest_files,
                largest_directories,
                duplicate_groups,
                duplicate_totals,
            },
        )
    }
}

} // verus!
