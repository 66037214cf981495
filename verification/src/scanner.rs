//! The entry model of a scan and the bottom-up rollup of directory totals.

use crate::cli::Args;
use crate::path::NodePath;
use crate::path::PathModel;
use regex::Regex;
use vstd::prelude::*;

verus! {

/// A file found by the walker. The size is the one read from metadata at
/// scan time; `modified` is in whole seconds since the Unix epoch.
#[derive(Debug)]
pub struct FileEntry {
    pub path: NodePath,
    pub size: u64,
    pub modified: Option<i64>,
    pub is_symlink: bool,
    pub depth: usize,
}

/// A directory found by the walker, with the totals that aggregation fills.
#[derive(Debug)]
pub struct DirectoryEntry {
    pub path: NodePath,
    pub total_size: u64,
    pub file_count: u64,
    pub subdirectory_count: u64,
    pub depth: usize,
}

/// What went wrong with an entry that could not be scanned.
#[derive(Debug, Clone, Copy, PartialEq, Eq, Structural)]
pub enum ErrorType {
    PermissionDenied,
    FileNotFound,
    IoError,
    Other,
}

/// An entry that could not be scanned, with the message of the failure.
#[derive(Debug)]
pub struct ScanError {
    pub path: NodePath,
    pub error: String,
    pub error_type: ErrorType,
}

/// Everything a scan has found.
#[derive(Debug)]
pub struct ScanResults {
    pub files: Vec<FileEntry>,
    pub directories: Vec<DirectoryEntry>,
    pub total_files: u64,
    pub total_directories: u64,
    pub total_size: u64,
    pub errors: Vec<ScanError>,
}

impl ScanResults {
    /// The totals are those of the lists.
    pub open spec fn is_consistent(&self) -> bool {
        &&& self.total_files == self.files@.len()
        &&& self.total_directories == self.directories@.len()
        &&& self.total_size == total_size(self.files@)
    }
}

/// The sum of the sizes of all files.
pub open spec fn total_size(files: Seq<FileEntry>) -> nat
    decreases files.len(),
{
    if files.len() == 0 {
        0
    } else {
        total_size(files.drop_last()) + files.last().size as nat
    }
}

/// The sum of the sizes of the files that lie anywhere beneath `dir`.
pub open spec fn cumulative_size(files: Seq<FileEntry>, dir: PathModel) -> nat
    decreases files.len(),
{
    if files.len() == 0 {
        0
    } else {
        cumulative_size(files.drop_last(), dir) + if dir.is_ancestor_of(files.last().path@) {
            files.last().size as nat
        } else {
            0
        }
    }
}

/// The number of files whose immediate parent is `dir`.
pub open spec fn direct_file_count(files: Seq<FileEntry>, dir: PathModel) -> nat
    decreases files.len(),
{
    if files.len() == 0 {
        0
    } else {
        direct_file_count(files.drop_last(), dir) + if dir.is_parent_of(files.last().path@) {
            1nat
        } else {
            0
        }
    }
}

/// The paths of a list of directories, in order.
pub open spec fn directory_paths(dirs: Seq<DirectoryEntry>) -> Seq<PathModel> {
    Seq::new(dirs.len(), |i: int| dirs[i].path@)
}

/// The number of paths in `paths` whose immediate parent is `dir`.
pub open spec fn child_count(paths: Seq<PathModel>, dir: PathModel) -> nat
    decreases paths.len(),
{
    if paths.len() == 0 {
        0
    } else {
        child_count(paths.drop_last(), dir) + if dir.is_parent_of(paths.last()) {
            1nat
        } else {
            0
        }
    }
}

/// No two directories have the same path.
pub open spec fn distinct_paths(dirs: Seq<DirectoryEntry>) -> bool {
    forall|i: int, j: int| 0 <= i < j < dirs.len() ==> dirs[i].path@ != dirs[j].path@
}

/// Every directory still has the empty totals it was created with.
pub open spec fn seeded_empty(dirs: Seq<DirectoryEntry>) -> bool {
    forall|i: int| 0 <= i < dirs.len() ==> dirs[i].total_size == 0 && dirs[i].file_count == 0
}

/// `out` is `dirs` with every total filled in from `files`: same directories
/// in the same order, each with the size of everything beneath it, the
/// number of files directly in it and the number of directories directly in
/// it.
pub open spec fn aggregated(
    files: Seq<FileEntry>,
    dirs: Seq<DirectoryEntry>,
    out: Seq<DirectoryEntry>,
) -> bool {
    &&& out.len() == dirs.len()
    &&& forall|j: int|
        0 <= j < dirs.len() ==> {
            &&& (#[trigger] out[j]).path@ == dirs[j].path@
            &&& out[j].depth == dirs[j].depth
            &&& out[j].total_size == cumulative_size(files, dirs[j].path@)
            &&& out[j].file_count == direct_file_count(files, dirs[j].path@)
            &&& out[j].subdirectory_count == child_count(directory_paths(dirs), dirs[j].path@)
        }
}

/// What lies beneath a directory is part of everything.
pub proof fn lemma_cumulative_le_total(files: Seq<FileEntry>, dir: PathModel)
    ensures
        cumulative_size(files, dir) <= total_size(files),
    decreases files.len(),
{
    if files.len() > 0 {
        lemma_cumulative_le_total(files.drop_last(), dir);
    }
}

/// A directory holds no more files than there are.
pub proof fn lemma_direct_count_le_len(files: Seq<FileEntry>, dir: PathModel)
    ensures
        direct_file_count(files, dir) <= files.len(),
    decreases files.len(),
{
    if files.len() > 0 {
        lemma_direct_count_le_len(files.drop_last(), dir);
    }
}

/// The total of a prefix of the files is no more than the total of all.
pub proof fn lemma_total_size_prefix(files: Seq<FileEntry>, k: int)
    requires
        0 <= k <= files.len(),
    ensures
        total_size(files.take(k)) <= total_size(files),
    decreases files.len() - k,
{
    if k < files.len() {
        lemma_total_size_prefix(files, k + 1);
        assert(files.take(k + 1).drop_last() =~= files.take(k));
    } else {
        assert(files.take(k) =~= files);
    }
}

/// The index of the directory whose path is the first `len` names of `path`,
/// if there is one.
fn find_prefix(dirs: &Vec<DirectoryEntry>, path: &NodePath, len: usize) -> (found: Option<usize>)
    requires
        len <= path@.names.len(),
    ensures
        match found {
            Some(j) => j < dirs.len() && dirs[j as int].path@ == path@.prefix(len as int),
            None => forall|j: int| 0 <= j < dirs.len() ==> dirs[j].path@ != path@.prefix(len as int),
        },
{
    let mut j: usize = 0;
    while j < dirs.len()
        invariant
            j <= dirs.len(),
            len <= path@.names.len(),
            forall|i: int| 0 <= i < j ==> dirs[i].path@ != path@.prefix(len as int),
        decreases dirs.len() - j,
    {
        if dirs[j].path.is_prefix_of(path, len) {
            return Some(j);
        }
        j = j + 1;
    }
    None
}

/// What one file adds to the size of the directory at `dir`.
pub open spec fn size_share(file: FileEntry, dir: PathModel) -> nat {
    if dir.is_ancestor_of(file.path@) {
        file.size as nat
    } else {
        0
    }
}

/// What one file adds to the direct file count of the directory at `dir`.
pub open spec fn count_share(file: FileEntry, dir: PathModel) -> nat {
    if dir.is_parent_of(file.path@) {
        1
    } else {
        0
    }
}

/// Walks the ancestors of `file` from its parent up to the root and adds the
/// file to each of them that is a known directory. An ancestor that is not
/// among `dirs` is passed over; the walk goes on above it.
fn add_file(dirs: &mut Vec<DirectoryEntry>, file: &FileEntry)
    requires
        distinct_paths(old(dirs)@),
        forall|j: int|
            0 <= j < old(dirs).len() ==> old(dirs)[j].total_size + file.size <= u64::MAX
                && old(dirs)[j].file_count < u64::MAX,
    ensures
        final(dirs).len() == old(dirs).len(),
        forall|j: int|
            0 <= j < old(dirs).len() ==> {
                &&& (#[trigger] final(dirs)[j]).path == old(dirs)[j].path
                &&& final(dirs)[j].depth == old(dirs)[j].depth
                &&& final(dirs)[j].subdirectory_count == old(dirs)[j].subdirectory_count
                &&& final(dirs)[j].total_size == old(dirs)[j].total_size + size_share(
                    *file,
                    old(dirs)[j].path@,
                )
                &&& final(dirs)[j].file_count == old(dirs)[j].file_count + count_share(
                    *file,
                    old(dirs)[j].path@,
                )
            },
{
    let n: usize = file.path.len();
    let mut level: usize = n;
    let ghost target = file.path@;
    while level > 0
        invariant
            level <= n,
            n == target.names.len(),
            target == file.path@,
            dirs.len() == old(dirs).len(),
            distinct_paths(old(dirs)@),
            forall|j: int|
                0 <= j < old(dirs).len() ==> old(dirs)[j].total_size + file.size <= u64::MAX
                    && old(dirs)[j].file_count < u64::MAX,
            forall|j: int|
                0 <= j < dirs.len() ==> {
                    &&& (#[trigger] dirs[j]).path == old(dirs)[j].path
                    &&& dirs[j].depth == old(dirs)[j].depth
                    &&& dirs[j].subdirectory_count == old(dirs)[j].subdirectory_count
                    &&& dirs[j].total_size == old(dirs)[j].total_size + if dirs[j].path@.is_ancestor_of(
                        target,
                    ) && dirs[j].path@.names.len() >= level {
                        file.size as nat
                    } else {
                        0
                    }
                    &&& dirs[j].file_count == old(dirs)[j].file_count + if dirs[j].path@.is_parent_of(
                        target,
                    ) && dirs[j].path@.names.len() >= level {
                        1nat
                    } else {
                        0
                    }
                },
        decreases level,
    {
        level = level - 1;
        let ghost before = dirs@;
        let ghost here = target.prefix(level as int);
        proof {
            assert(target.names.take(n as int - 1) =~= target.names.drop_last());
            assert(here.names.len() == level);
        }
        match find_prefix(dirs, &file.path, level) {
            Some(j) => {
                dirs[j].total_size = dirs[j].total_size + file.size;
                if level + 1 == n {
                    dirs[j].file_count = dirs[j].file_count + 1;
                }
                proof {
                    assert forall|i: int| 0 <= i < dirs.len() && i != j implies before[i].path@
                        != here by {
                        if i < j {
                            assert(old(dirs)[i].path@ != old(dirs)[j as int].path@);
                        } else {
                            assert(old(dirs)[j as int].path@ != old(dirs)[i].path@);
                        }
                    }
                }
            },
            None => {},
        }
        proof {
            assert forall|i: int| 0 <= i < dirs.len() implies {
                &&& (dirs[i].path@.is_ancestor_of(target) && dirs[i].path@.names.len() >= level)
                    == ((before[i].path@.is_ancestor_of(target) && before[i].path@.names.len()
                    >= level + 1) || before[i].path@ == here)
                &&& (dirs[i].path@.is_parent_of(target) && dirs[i].path@.names.len() >= level)
                    == ((before[i].path@.is_parent_of(target) && before[i].path@.names.len()
                    >= level + 1) || (before[i].path@ == here && level + 1 == n))
            } by {
                let p = dirs[i].path@;
                assert(p == before[i].path@);
                if p.is_parent_of(target) {
                    assert(p.names.len() == n - 1);
                    assert(p =~= target.prefix(n as int - 1));
                }
                if p == here && level + 1 == n {
                    assert(p =~= target.parent().unwrap());
                }
            }
        }
    }
}

/// The number of directories in `dirs` whose immediate parent is `dir`.
fn count_children(dirs: &Vec<DirectoryEntry>, dir: &NodePath) -> (count: u64)
    ensures
        count == child_count(directory_paths(dirs@), dir@),
{
    let ghost paths = directory_paths(dirs@);
    let mut count: u64 = 0;
    let mut i: usize = 0;
    while i < dirs.len()
        invariant
            i <= dirs.len(),
            paths == directory_paths(dirs@),
            count == child_count(paths.take(i as int), dir@),
            count <= i,
        decreases dirs.len() - i,
    {
        let other = &dirs[i].path;
        let n: usize = other.len();
        let is_child = n > 0 && dir.is_prefix_of(other, n - 1);
        proof {
            assert(paths.take(i as int + 1).drop_last() =~= paths.take(i as int));
            assert(paths.take(i as int + 1).last() == other@);
            if n > 0 {
                assert(other@.names.take(n as int - 1) =~= other@.names.drop_last());
            }
        }
        if is_child {
            count = count + 1;
        }
        i = i + 1;
    }
    proof {
        assert(paths.take(dirs.len() as int) =~= paths);
    }
    count
}

/// Fills in the totals of every directory from the flat list of files.
///
/// Each file is added to the cumulative size of every directory above it and
/// counted once, by the directory that directly holds it. A file whose
/// ancestors are not all among `directories` adds to those that are, and
/// nothing else happens. Each directory also gets the number of directories
/// directly beneath it. The directories come back in the order given.
pub fn aggregate(files: &Vec<FileEntry>, directories: Vec<DirectoryEntry>) -> (out: Vec<
    DirectoryEntry,
>)
    requires
        distinct_paths(directories@),
        seeded_empty(directories@),
        total_size(files@) <= u64::MAX,
    ensures
        aggregated(files@, directories@, out@),
{
    let ghost given = directories@;
    let ghost paths = directory_paths(given);
    let mut dirs = directories;
    let mut k: usize = 0;
    while k < files.len()
        invariant
            k <= files.len(),
            dirs.len() == given.len(),
            distinct_paths(given),
            total_size(files@) <= u64::MAX,
            forall|j: int|
                0 <= j < given.len() ==> {
                    &&& (#[trigger] dirs[j]).path == given[j].path
                    &&& dirs[j].depth == given[j].depth
                    &&& dirs[j].total_size == cumulative_size(files@.take(k as int), given[j].path@)
                    &&& dirs[j].file_count == direct_file_count(
                        files@.take(k as int),
                        given[j].path@,
                    )
                },
        decreases files.len() - k,
    {
        proof {
            assert(files@.take(k as int + 1).drop_last() =~= files@.take(k as int));
            lemma_total_size_prefix(files@, k as int + 1);
            assert forall|j: int| 0 <= j < dirs.len() implies dirs[j].total_size + files[k as int].size
                <= u64::MAX && dirs[j].file_count < u64::MAX by {
                lemma_cumulative_le_total(files@.take(k as int), given[j].path@);
                lemma_direct_count_le_len(files@.take(k as int), given[j].path@);
            }
            assert forall|i: int, j: int| 0 <= i < j < dirs.len() implies dirs[i].path@
                != dirs[j].path@ by {
                assert(dirs[i].path == given[i].path);
                assert(dirs[j].path == given[j].path);
            }
        }
        add_file(&mut dirs, &files[k]);
        k = k + 1;
    }
    proof {
        assert(files@.take(files.len() as int) =~= files@);
        assert(directory_paths(dirs@) =~= paths);
    }
    let mut j: usize = 0;
    while j < dirs.len()
        invariant
            j <= dirs.len(),
            dirs.len() == given.len(),
            paths == directory_paths(given),
            directory_paths(dirs@) == paths,
            forall|i: int|
                0 <= i < given.len() ==> {
                    &&& (#[trigger] dirs[i]).path@ == given[i].path@
                    &&& dirs[i].depth == given[i].depth
                    &&& dirs[i].total_size == cumulative_size(files@, given[i].path@)
                    &&& dirs[i].file_count == direct_file_count(files@, given[i].path@)
                },
            forall|i: int|
                0 <= i < j ==> (#[trigger] dirs[i]).subdirectory_count == child_count(
                    paths,
                    given[i].path@,
                ),
        decreases dirs.len() - j,
    {
        let count = count_children(&dirs, &dirs[j].path);
        dirs[j].subdirectory_count = count;
        proof {
            assert(directory_paths(dirs@) =~= paths);
        }
        j = j + 1;
    }
    dirs
}

/// The sum of the direct file counts of all directories.
pub open spec fn file_count_sum(dirs: Seq<DirectoryEntry>) -> nat
    decreases dirs.len(),
{
    if dirs.len() == 0 {
        0
    } else {
        file_count_sum(dirs.drop_last()) + dirs.last().file_count as nat
    }
}

/// Every file's immediate parent is one of the directories.
pub open spec fn parents_known(files: Seq<FileEntry>, dirs: Seq<DirectoryEntry>) -> bool {
    forall|i: int|
        0 <= i < files.len() ==> exists|j: int|
            0 <= j < dirs.len() && (#[trigger] dirs[j]).path@.is_parent_of(
                (#[trigger] files[i]).path@,
            )
}

/// The number of files directly held by any of `paths`, each path counted
/// for itself.
spec fn direct_count_over(files: Seq<FileEntry>, paths: Seq<PathModel>) -> nat
    decreases paths.len(),
{
    if paths.len() == 0 {
        0
    } else {
        direct_count_over(files, paths.drop_last()) + direct_file_count(files, paths.last())
    }
}

/// How many of `paths` are the immediate parent of `target`.
spec fn holders(paths: Seq<PathModel>, target: PathModel) -> nat
    decreases paths.len(),
{
    if paths.len() == 0 {
        0
    } else {
        holders(paths.drop_last(), target) + if paths.last().is_parent_of(target) {
            1nat
        } else {
            0
        }
    }
}

proof fn lemma_direct_count_over_step(files: Seq<FileEntry>, paths: Seq<PathModel>)
    requires
        files.len() > 0,
    ensures
        direct_count_over(files, paths) == direct_count_over(files.drop_last(), paths) + holders(
            paths,
            files.last().path@,
        ),
    decreases paths.len(),
{
    if paths.len() > 0 {
        lemma_direct_count_over_step(files, paths.drop_last());
    }
}

proof fn lemma_direct_count_over_empty(files: Seq<FileEntry>, paths: Seq<PathModel>)
    requires
        files.len() == 0,
    ensures
        direct_count_over(files, paths) == 0,
    decreases paths.len(),
{
    if paths.len() > 0 {
        lemma_direct_count_over_empty(files, paths.drop_last());
    }
}

proof fn lemma_holders_none(paths: Seq<PathModel>, target: PathModel)
    requires
        forall|j: int| 0 <= j < paths.len() ==> !paths[j].is_parent_of(target),
    ensures
        holders(paths, target) == 0,
    decreases paths.len(),
{
    if paths.len() > 0 {
        lemma_holders_none(paths.drop_last(), target);
    }
}

proof fn lemma_holders_one(paths: Seq<PathModel>, target: PathModel, at: int)
    requires
        forall|i: int, j: int| 0 <= i < j < paths.len() ==> paths[i] != paths[j],
        0 <= at < paths.len(),
        paths[at].is_parent_of(target),
    ensures
        holders(paths, target) == 1,
    decreases paths.len(),
{
    let rest = paths.drop_last();
    if at == paths.len() - 1 {
        assert forall|j: int| 0 <= j < rest.len() implies !rest[j].is_parent_of(target) by {
            assert(paths[j] != paths[at]);
        }
        lemma_holders_none(rest, target);
    } else {
        assert(paths[at] != paths.last());
        lemma_holders_one(rest, target, at);
    }
}

proof fn lemma_direct_count_over_total(files: Seq<FileEntry>, paths: Seq<PathModel>)
    requires
        forall|i: int, j: int| 0 <= i < j < paths.len() ==> paths[i] != paths[j],
        forall|i: int|
            0 <= i < files.len() ==> exists|j: int|
                0 <= j < paths.len() && (#[trigger] paths[j]).is_parent_of(
                    (#[trigger] files[i]).path@,
                ),
    ensures
        direct_count_over(files, paths) == files.len(),
    decreases files.len(),
{
    if files.len() == 0 {
        lemma_direct_count_over_empty(files, paths);
    } else {
        let rest = files.drop_last();
        assert forall|i: int| 0 <= i < rest.len() implies exists|j: int|
            0 <= j < paths.len() && (#[trigger] paths[j]).is_parent_of(
                (#[trigger] rest[i]).path@,
            ) by {
            assert(rest[i] == files[i]);
        }
        lemma_direct_count_over_total(rest, paths);
        lemma_direct_count_over_step(files, paths);
        let last = files[files.len() - 1];
        let at = choose|j: int| 0 <= j < paths.len() && (#[trigger] paths[j]).is_parent_of(last.path@);
        lemma_holders_one(paths, last.path@, at);
    }
}

proof fn lemma_file_count_sum_is_direct_count_over(
    files: Seq<FileEntry>,
    paths: Seq<PathModel>,
    out: Seq<DirectoryEntry>,
)
    requires
        out.len() == paths.len(),
        forall|j: int|
            0 <= j < out.len() ==> (#[trigger] out[j]).file_count == direct_file_count(
                files,
                paths[j],
            ),
    ensures
        file_count_sum(out) == direct_count_over(files, paths),
    decreases out.len(),
{
    if out.len() > 0 {
        assert forall|j: int| 0 <= j < out.drop_last().len() implies (#[trigger] out.drop_last()[j]).file_count
            == direct_file_count(files, paths.drop_last()[j]) by {
            assert(out.drop_last()[j] == out[j]);
        }
        lemma_file_count_sum_is_direct_count_over(files, paths.drop_last(), out.drop_last());
    }
}

/// Where every file's immediate parent is among the directories, the direct
/// file counts of the aggregated directories add up to the number of files:
/// each file is counted by exactly one directory.
pub proof fn lemma_file_counts_cover_files(
    files: Seq<FileEntry>,
    dirs: Seq<DirectoryEntry>,
    out: Seq<DirectoryEntry>,
)
    requires
        distinct_paths(dirs),
        parents_known(files, dirs),
        aggregated(files, dirs, out),
    ensures
        file_count_sum(out) == files.len(),
{
    let paths = directory_paths(dirs);
    assert forall|j: int| 0 <= j < out.len() implies (#[trigger] out[j]).file_count
        == direct_file_count(files, paths[j]) by {}
    lemma_file_count_sum_is_direct_count_over(files, paths, out);
    assert forall|i: int| 0 <= i < files.len() implies exists|j: int|
        0 <= j < paths.len() && (#[trigger] paths[j]).is_parent_of((#[trigger] files[i]).path@) by {
        let j = choose|j: int|
            0 <= j < dirs.len() && (#[trigger] dirs[j]).path@.is_parent_of(files[i].path@);
        assert(paths[j].is_parent_of(files[i].path@));
    }
    lemma_direct_count_over_total(files, paths);
}

/// Whatever lies beneath a directory lies beneath each directory above it, so
/// the upper one is at least as large.
pub proof fn lemma_cumulative_size_nests(files: Seq<FileEntry>, upper: PathModel, lower: PathModel)
    requires
        upper.is_ancestor_of(lower),
    ensures
        cumulative_size(files, lower) <= cumulative_size(files, upper),
    decreases files.len(),
{
    if files.len() > 0 {
        lemma_cumulative_size_nests(files.drop_last(), upper, lower);
        let f = files.last().path@;
        if lower.is_ancestor_of(f) {
            let n = upper.names.len() as int;
            assert(lower.names.take(n) =~= f.names.take(n));
            assert(upper =~= f.prefix(n));
        }
    }
}

/// `regex::Regex`, a compiled regular expression. The verifier knows of it
/// only the pattern it was compiled from.
#[verifier::external_type_specification]
#[verifier::external_body]
pub struct ExRegex(Regex);

/// `regex::Error`, the reason why a pattern did not compile.
#[verifier::external_type_specification]
#[verifier::external_body]
pub struct ExRegexError(regex::Error);

/// Whether `pattern` is a regular expression that `Regex::new` accepts.
pub uninterp spec fn pattern_compiles(pattern: Seq<char>) -> bool;

/// The pattern that a regular expression was compiled from, as
/// `Regex::as_str` gives it.
pub uninterp spec fn regex_source(regex: Regex) -> Seq<char>;

/// Whether the regular expression `pattern`, compiled with the options that
/// `Regex::new` uses, matches somewhere in `text`, as `Regex::is_match`
/// says.
pub uninterp spec fn pattern_matches(pattern: Seq<char>, text: Seq<char>) -> bool;

/// The regular expression was compiled by `Regex::new`, so that nothing but
/// its pattern decides what it matches.
pub uninterp spec fn is_plain_regex(regex: Regex) -> bool;

/// `Regex::new`: compiles `pattern`. It succeeds on the patterns that
/// compile, and the regular expression it gives remembers its pattern.
#[verifier::external_body]
fn compile_pattern(pattern: &str) -> (out: Result<Regex, regex::Error>)
    ensures
        match out {
            Ok(regex) => pattern_compiles(pattern@) && regex_source(regex) == pattern@
                && is_plain_regex(regex),
            Err(_) => !pattern_compiles(pattern@),
        },
{
    Regex::new(pattern)
}

/// `Regex::is_match` on a regular expression that `Regex::new` has
/// compiled: whether its pattern matches somewhere in `text`.
#[verifier::external_body]
fn regex_is_match(regex: &Regex, text: &str) -> (found: bool)
    requires
        is_plain_regex(*regex),
    ensures
        found == pattern_matches(regex_source(*regex), text@),
{
    regex.is_match(text)
}

/// The `Display` text of a `regex::Error`.
#[verifier::external_body]
fn pattern_error_text(error: &regex::Error) -> (text: String) {
    error.to_string()
}

/// `text` holds `pattern` at the place `at`.
pub open spec fn occurs_at(text: Seq<char>, pattern: Seq<char>, at: int) -> bool {
    0 <= at && at + pattern.len() <= text.len() && text.subrange(at, at + pattern.len()) == pattern
}

/// `str::contains` with a string as the pattern: whether `pattern` occurs
/// somewhere in `text`.
#[verifier::external_body]
fn text_contains(text: &str, pattern: &str) -> (found: bool)
    ensures
        found == exists|at: int| occurs_at(text@, pattern@, at),
{
    text.contains(pattern)
}

/// An exclude pattern that is no regular expression.
#[derive(Debug)]
pub struct PatternError {
    /// The place of the pattern among the exclude patterns.
    pub index: usize,
    /// The pattern as it was given.
    pub pattern: String,
    /// What the compiler of regular expressions said of it.
    pub reason: String,
}

/// Decides which entries of a traversal are looked at.
pub struct DirectoryScanner {
    show_hidden: bool,
    exclude_patterns: Vec<Regex>,
}

/// The name starts with a dot, which marks a hidden entry.
pub open spec fn is_hidden_name(name: Seq<char>) -> bool {
    name.len() > 0 && name[0] == '.'
}

/// One of `patterns` matches somewhere in `text`.
pub open spec fn any_pattern_matches(patterns: Seq<Seq<char>>, text: Seq<char>) -> bool {
    exists|i: int| 0 <= i < patterns.len() && pattern_matches(#[trigger] patterns[i], text)
}

/// The texts of a list of strings, in order.
pub open spec fn texts_of(strings: Seq<String>) -> Seq<Seq<char>> {
    Seq::new(strings.len(), |i: int| strings[i]@)
}

/// What to do with an entry that the traversal has reached.
#[derive(Debug, Clone, Copy, PartialEq, Eq, Structural)]
pub enum EntryAction {
    /// Leave it out.
    Skip,
    /// Read its metadata and record it as a file.
    File,
    /// Record it as a directory.
    Directory,
}

impl DirectoryScanner {
    /// Every exclude pattern was compiled by `Regex::new`.
    #[verifier::type_invariant]
    spec fn patterns_are_plain(self) -> bool {
        forall|i: int|
            0 <= i < self.exclude_patterns@.len() ==> is_plain_regex(
                #[trigger] self.exclude_patterns@[i],
            )
    }

    /// Whether hidden entries are looked at.
    pub closed spec fn shows_hidden(&self) -> bool {
        self.show_hidden
    }

    /// The exclude patterns, in order.
    pub closed spec fn patterns(&self) -> Seq<Seq<char>> {
        Seq::new(self.exclude_patterns@.len(), |i: int| regex_source(self.exclude_patterns@[i]))
    }

    /// A scanner for the given options. Every exclude pattern must be a
    /// regular expression; the first one that is not is the error.
    pub fn new(args: &Args) -> (out: Result<Self, PatternError>)
        ensures
            match out {
                Ok(scanner) => {
                    &&& scanner.shows_hidden() == args.show_hidden
                    &&& scanner.patterns() == texts_of(args.exclude_patterns@)
                    &&& forall|i: int|
                        0 <= i < args.exclude_patterns@.len() ==> pattern_compiles(
                            (#[trigger] args.exclude_patterns@[i])@,
                        )
                },
                Err(error) => {
                    &&& error.index < args.exclude_patterns@.len()
                    &&& error.pattern@ == args.exclude_patterns@[error.index as int]@
                    &&& !pattern_compiles(args.exclude_patterns@[error.index as int]@)
                    &&& forall|i: int|
                        0 <= i < error.index ==> pattern_compiles(
                            (#[trigger] args.exclude_patterns@[i])@,
                        )
                },
            },
    {
        let exclude_patterns = &args.exclude_patterns;
        let mut compiled: Vec<Regex> = Vec::new();
        let mut i: usize = 0;
        while i < exclude_patterns.len()
            invariant
                i <= exclude_patterns.len(),
                *exclude_patterns == args.exclude_patterns,
                compiled@.len() == i,
                forall|k: int|
                    0 <= k < i ==> pattern_compiles((#[trigger] exclude_patterns@[k])@)
                        && regex_source(compiled@[k]) == exclude_patterns@[k]@,
                forall|k: int| 0 <= k < i ==> is_plain_regex(#[trigger] compiled@[k]),
            decreases exclude_patterns.len() - i,
        {
            match compile_pattern(exclude_patterns[i].as_str()) {
                Ok(regex) => {
                    compiled.push(regex);
                },
                Err(error) => {
                    return Err(
                        PatternError {
                            index: i,
                            pattern: exclude_patterns[i].clone(),
                            reason: pattern_error_text(&error),
                        },
                    );
                },
            }
            i = i + 1;
        }
        let scanner = DirectoryScanner { show_hidden: args.show_hidden, exclude_patterns: compiled };
        assert(scanner.patterns() =~= texts_of(args.exclude_patterns@));
        Ok(scanner)
    }

    /// Whether an entry is left out: a hidden entry where hidden entries are
    /// not shown, and any entry whose path one of the exclude patterns
    /// matches. `path_text` is the whole path of the entry as text and
    /// `file_name` its last name.
    pub fn should_exclude(&self, path_text: &str, file_name: &str) -> (excluded: bool)
        ensures
            excluded == ((!self.shows_hidden() && is_hidden_name(file_name@)) || any_pattern_matches(
                self.patterns(),
                path_text@,
            )),
    {
        if !self.show_hidden && file_name.unicode_len() > 0 && file_name.get_char(0) == '.' {
            return true;
        }
        let ghost patterns = self.patterns();
        proof {
            use_type_invariant(self);
        }
        let mut i: usize = 0;
        while i < self.exclude_patterns.len()
            invariant
                i <= self.exclude_patterns.len(),
                patterns == self.patterns(),
                forall|k: int|
                    0 <= k < self.exclude_patterns@.len() ==> is_plain_regex(
                        #[trigger] self.exclude_patterns@[k],
                    ),
                forall|k: int| 0 <= k < i ==> !pattern_matches(#[trigger] patterns[k], path_text@),
            decreases self.exclude_patterns.len() - i,
        {
            if regex_is_match(&self.exclude_patterns[i], path_text) {
                assert(pattern_matches(patterns[i as int], path_text@));
                return true;
            }
            i = i + 1;
        }
        false
    }

    /// What to do with an entry of the traversal: an excluded entry is
    /// skipped, a file is recorded as a file, a directory as a directory, and
    /// anything else is skipped.
    pub fn entry_action(&self, path_text: &str, file_name: &str, is_file: bool, is_directory: bool) -> (action:
        EntryAction)
        ensures
            action == if (!self.shows_hidden() && is_hidden_name(file_name@)) || any_pattern_matches(
                self.patterns(),
                path_text@,
            ) {
                EntryAction::Skip
            } else if is_file {
                EntryAction::File
            } else if is_directory {
                EntryAction::Directory
            } else {
                EntryAction::Skip
            },
    {
        if self.should_exclude(path_text, file_name) {
            EntryAction::Skip
        } else if is_file {
            EntryAction::File
        } else if is_directory {
            EntryAction::Directory
        } else {
            EntryAction::Skip
        }
    }
}

/// The kind of a failure of the traversal, told from its message.
pub open spec fn walk_error_type(message: Seq<char>) -> ErrorType {
    if exists|at: int| occurs_at(message, "Permission denied"@, at) {
        ErrorType::PermissionDenied
    } else {
        ErrorType::Other
    }
}

/// The kind of a failure of the traversal: a failure whose message speaks of
/// a denied permission is one of permission, any other is of no known kind.
pub fn classify_walk_error(message: &str) -> (kind: ErrorType)
    ensures
        kind == walk_error_type(message@),
{
    if text_contains(message, "Permission denied") {
        ErrorType::PermissionDenied
    } else {
        ErrorType::Other
    }
}

/// The message recorded for a file whose metadata could not be read.
pub open spec fn file_failure_text() -> Seq<char> {
    "Failed to process file"@
}

/// The path recorded for a failure of the traversal that names no path.
pub open spec fn unknown_path() -> PathModel {
    PathModel { anchored: false, names: seq!["unknown"@] }
}

/// One of the directories has the path `path`.
pub open spec fn holds_path(dirs: Seq<DirectoryEntry>, path: PathModel) -> bool {
    exists|j: int| 0 <= j < dirs.len() && (#[trigger] dirs[j]).path@ == path
}

/// Collects what a traversal finds, entry by entry.
pub struct ScanAccumulator {
    files: Vec<FileEntry>,
    directories: Vec<DirectoryEntry>,
    errors: Vec<ScanError>,
    total_size: u64,
}

impl ScanAccumulator {
    /// The files recorded so far, in order.
    pub closed spec fn files(&self) -> Seq<FileEntry> {
        self.files@
    }

    /// The directories recorded so far, in order of their first recording.
    pub closed spec fn directories(&self) -> Seq<DirectoryEntry> {
        self.directories@
    }

    /// The failures recorded so far, in order.
    pub closed spec fn errors(&self) -> Seq<ScanError> {
        self.errors@
    }

    /// No directory is held twice, every directory is empty as yet, and the
    /// running total is the sum of the sizes of the files.
    pub closed spec fn is_valid(&self) -> bool {
        &&& distinct_paths(self.directories@)
        &&& seeded_empty(self.directories@)
        &&& self.total_size == total_size(self.files@)
    }

    /// An accumulator that holds nothing.
    pub fn new() -> (out: Self)
        ensures
            out.is_valid(),
            out.files() == Seq::<FileEntry>::empty(),
            out.directories() == Seq::<DirectoryEntry>::empty(),
            out.errors() == Seq::<ScanError>::empty(),
    {
        ScanAccumulator { files: Vec::new(), directories: Vec::new(), errors: Vec::new(), total_size: 0 }
    }

    /// The number of files recorded so far.
    pub fn file_count(&self) -> (count: usize)
        ensures
            count == self.files().len(),
    {
        self.files.len()
    }

    /// The number of directories recorded so far.
    pub fn directory_count(&self) -> (count: usize)
        ensures
            count == self.directories().len(),
    {
        self.directories.len()
    }

    /// Whether a file of `size` bytes can be recorded: whether the total of
    /// all sizes still fits in 64 bits with it.
    pub fn has_room_for(&self, size: u64) -> (room: bool)
        requires
            self.is_valid(),
        ensures
            room == (total_size(self.files()) + size <= u64::MAX),
    {
        size <= u64::MAX - self.total_size
    }

    /// Records a file.
    pub fn record_file(&mut self, entry: FileEntry)
        requires
            old(self).is_valid(),
            total_size(old(self).files()) + entry.size <= u64::MAX,
        ensures
            final(self).is_valid(),
            final(self).files() == old(self).files().push(entry),
            final(self).directories() == old(self).directories(),
            final(self).errors() == old(self).errors(),
    {
        proof {
            assert(self.files@.push(entry).drop_last() =~= self.files@);
        }
        self.total_size = self.total_size + entry.size;
        self.files.push(entry);
    }

    /// Records that the metadata of the file at `path` could not be read.
    pub fn record_file_failure(&mut self, path: NodePath)
        requires
            old(self).is_valid(),
        ensures
            final(self).is_valid(),
            final(self).files() == old(self).files(),
            final(self).directories() == old(self).directories(),
            final(self).errors().len() == old(self).errors().len() + 1,
            final(self).errors().drop_last() == old(self).errors(),
            final(self).errors().last().path == path,
            final(self).errors().last().error@ == file_failure_text(),
            final(self).errors().last().error_type == ErrorType::IoError,
    {
        let ghost before = self.errors@;
        self.errors.push(
            ScanError {
                path,
                error: "Failed to process file".to_owned(),
                error_type: ErrorType::IoError,
            },
        );
        assert(self.errors@.drop_last() =~= before);
    }

    /// Records a failure of the traversal itself. Where the failure names no
    /// path, the path `unknown` stands for it. The kind of the failure is
    /// told from its message.
    pub fn record_walk_error(&mut self, path: Option<NodePath>, message: String)
        requires
            old(self).is_valid(),
        ensures
            final(self).is_valid(),
            final(self).files() == old(self).files(),
            final(self).directories() == old(self).directories(),
            final(self).errors().len() == old(self).errors().len() + 1,
            final(self).errors().drop_last() == old(self).errors(),
            final(self).errors().last().path@ == match path {
                Some(given) => given@,
                None => unknown_path(),
            },
            final(self).errors().last().error@ == message@,
            final(self).errors().last().error_type == walk_error_type(message@),
    {
        let ghost before = self.errors@;
        let error_type = classify_walk_error(message.as_str());
        let path = match path {
            Some(given) => given,
            None => {
                let mut names: Vec<String> = Vec::new();
                names.push("unknown".to_owned());
                let made = NodePath::new(false, names);
                assert(made@ =~= unknown_path());
                made
            },
        };
        self.errors.push(ScanError { path, error: message, error_type });
        assert(self.errors@.drop_last() =~= before);
    }

    /// Records a directory, with empty totals. A directory that was already
    /// recorded under the same path is replaced, so that no path is held
    /// twice.
    pub fn record_directory(&mut self, path: NodePath, depth: usize)
        requires
            old(self).is_valid(),
        ensures
            final(self).is_valid(),
            final(self).files() == old(self).files(),
            final(self).errors() == old(self).errors(),
            directory_paths(final(self).directories()) == if holds_path(
                old(self).directories(),
                path@,
            ) {
                directory_paths(old(self).directories())
            } else {
                directory_paths(old(self).directories()).push(path@)
            },
            forall|j: int|
                #![trigger final(self).directories()[j]]
                0 <= j < final(self).directories().len() && final(self).directories()[j].path@
                    == path@ ==> final(self).directories()[j].depth == depth,
            forall|j: int|
                #![trigger old(self).directories()[j]]
                0 <= j < old(self).directories().len() && old(self).directories()[j].path@
                    != path@ ==> final(self).directories()[j] == old(self).directories()[j],
    {
        let ghost before = self.directories@;
        let length = path.len();
        proof {
            assert(path@.names.take(length as int) =~= path@.names);
            assert(path@.prefix(length as int) =~= path@);
        }
        let found = find_prefix(&self.directories, &path, length);
        let entry = DirectoryEntry { path, total_size: 0, file_count: 0, subdirectory_count: 0, depth };
        match found {
            Some(j) => {
                self.directories.set(j, entry);
                proof {
                    assert(directory_paths(self.directories@) =~= directory_paths(before));
                    assert forall|a: int, b: int| 0 <= a < b < self.directories@.len() implies self.directories@[a].path@
                        != self.directories@[b].path@ by {
                        assert(directory_paths(self.directories@)[a] == directory_paths(before)[a]);
                        assert(directory_paths(self.directories@)[b] == directory_paths(before)[b]);
                        assert(before[a].path@ != before[b].path@);
                    }
                    assert(before[j as int].path@ == entry.path@);
                }
            },
            None => {
                self.directories.push(entry);
                proof {
                    assert(directory_paths(self.directories@) =~= directory_paths(before).push(
                        entry.path@,
                    ));
                    assert forall|a: int, b: int| 0 <= a < b < self.directories@.len() implies self.directories@[a].path@
                        != self.directories@[b].path@ by {
                        if b < before.len() {
                            assert(before[a].path@ != before[b].path@);
                        } else {
                            assert(before[a].path@ != entry.path@);
                        }
                    }
                }
            },
        }
    }

    /// Ends the scan: fills in the totals of every directory and hands out
    /// everything that was found.
    pub fn finish(self) -> (results: ScanResults)
        requires
            self.is_valid(),
        ensures
            results.is_consistent(),
            results.files@ == self.files(),
            results.errors@ == self.errors(),
            aggregated(self.files(), self.directories(), results.directories@),
    {
        let directories = aggregate(&self.files, self.directories);
        ScanResults {
            total_files: self.files.len() as u64,
            total_directories: directories.len() as u64,
            total_size: self.total_size,
            files: self.files,
            directories,
            errors: self.errors,
        }
    }
}

} // verus!
