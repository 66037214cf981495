//! Helpers around a scan: file categories, size bands, durations as text.

use crate::path::NodePath;
use crate::path::PathModel;
use crate::scanner::total_size;
use crate::scanner::FileEntry;
use crate::scanner::ScanResults;
use crate::text::decimal;
use crate::text::decimal_padded3;
use crate::text::push_decimal;
use crate::text::push_decimal_padded3;
use std::time::Duration;
use vstd::prelude::*;

verus! {

/// One line of the category table: files with this extension belong to this
/// category.
pub struct TypeRule {
    pub extension: String,
    pub category: String,
}

/// Sorts files into categories by their extension.
pub struct FileTypeClassifier {
    type_map: Vec<TypeRule>,
}

/// The label of a file that fits no category.
pub open spec fn other_label() -> Seq<char> {
    "Other"@
}

/// The lines that give each of `extensions` the category `category`.
pub open spec fn category_rules(extensions: Seq<&'static str>, category: Seq<char>) -> Seq<
    (Seq<char>, Seq<char>),
> {
    Seq::new(extensions.len(), |i: int| (extensions[i]@, category))
}

/// The category table: every known extension with its category.
pub open spec fn known_types() -> Seq<(Seq<char>, Seq<char>)> {
    category_rules(seq!["pdf", "doc", "docx", "txt", "rtf", "odt", "pages"], "Documents"@)
        + category_rules(
        seq!["jpg", "jpeg", "png", "gif", "bmp", "svg", "tiff", "webp", "ico"],
        "Images"@,
    ) + category_rules(seq!["mp4", "avi", "mkv", "mov", "wmv", "flv", "webm", "m4v"], "Videos"@)
        + category_rules(seq!["mp3", "wav", "flac", "aac", "ogg", "wma", "m4a"], "Audio"@)
        + category_rules(
        seq!["zip", "tar", "gz", "bz2", "xz", "7z", "rar", "tar.gz", "tar.bz2"],
        "Archives"@,
    ) + category_rules(
        seq!["rs", "py", "js", "ts", "html", "css", "cpp", "c", "h", "java", "go", "php"],
        "Code"@,
    ) + category_rules(seq!["exe", "bin", "app", "deb", "rpm", "msi", "dmg"], "Executables"@)
}

/// The category that the first matching line of `table` gives `extension`.
pub open spec fn lookup(table: Seq<(Seq<char>, Seq<char>)>, extension: Seq<char>) -> Option<
    Seq<char>,
>
    decreases table.len(),
{
    if table.len() == 0 {
        None
    } else if table[0].0 == extension {
        Some(table[0].1)
    } else {
        lookup(table.drop_first(), extension)
    }
}

/// The label for an extension: its category, or the label for everything
/// else.
pub open spec fn label_for(table: Seq<(Seq<char>, Seq<char>)>, extension: Seq<char>) -> Seq<char> {
    match lookup(table, extension) {
        Some(category) => category,
        None => other_label(),
    }
}

/// `text` in lower case, as `str::to_lowercase` of the standard library
/// gives it.
pub uninterp spec fn lowercase_of(text: Seq<char>) -> Seq<char>;

/// `str::to_lowercase`: the lower-case form of `text` by the Unicode rules.
#[verifier::external_body]
fn to_lowercase(text: &str) -> (lowered: String)
    ensures
        lowered@ == lowercase_of(text@),
{
    text.to_lowercase()
}

/// The label of a path: that of its extension in lower case, or the label
/// for everything else where the path has no extension.
pub open spec fn category_of(table: Seq<(Seq<char>, Seq<char>)>, path: PathModel) -> Seq<char> {
    match path.extension() {
        Some(extension) => label_for(table, lowercase_of(extension)),
        None => other_label(),
    }
}

/// Appends the lines for one category.
fn add_category(rules: &mut Vec<TypeRule>, extensions: Vec<&'static str>, category: &str)
    ensures
        rule_table(final(rules)@) == rule_table(old(rules)@) + category_rules(
            extensions@,
            category@,
        ),
{
    let mut i: usize = 0;
    while i < extensions.len()
        invariant
            i <= extensions.len(),
            rule_table(rules@) == rule_table(old(rules)@) + category_rules(
                extensions@.take(i as int),
                category@,
            ),
        decreases extensions.len() - i,
    {
        let ghost before = rules@;
        rules.push(TypeRule { extension: extensions[i].to_owned(), category: category.to_owned() });
        proof {
            assert(rule_table(rules@) =~= rule_table(before).push((extensions@[i as int]@, category@)));
            assert(category_rules(extensions@.take(i + 1), category@) =~= category_rules(
                extensions@.take(i as int),
                category@,
            ).push((extensions@[i as int]@, category@)));
        }
        i = i + 1;
    }
    proof {
        assert(extensions@.take(extensions.len() as int) =~= extensions@);
    }
}

/// The table that a list of lines stands for.
pub open spec fn rule_table(rules: Seq<TypeRule>) -> Seq<(Seq<char>, Seq<char>)> {
    Seq::new(rules.len(), |i: int| (rules[i].extension@, rules[i].category@))
}

impl FileTypeClassifier {
    /// The category table of this classifier.
    pub closed spec fn table(&self) -> Seq<(Seq<char>, Seq<char>)> {
        rule_table(self.type_map@)
    }

    /// A classifier with the table of known types.
    pub fn new() -> (classifier: Self)
        ensures
            classifier.table() == known_types(),
    {
        let mut type_map: Vec<TypeRule> = Vec::new();
        assert(rule_table(type_map@) =~= Seq::empty());
        add_category(
            &mut type_map,
            vec!["pdf", "doc", "docx", "txt", "rtf", "odt", "pages"],
            "Documents",
        );
        add_category(
            &mut type_map,
            vec!["jpg", "jpeg", "png", "gif", "bmp", "svg", "tiff", "webp", "ico"],
            "Images",
        );
        add_category(
            &mut type_map,
            vec!["mp4", "avi", "mkv", "mov", "wmv", "flv", "webm", "m4v"],
            "Videos",
        );
        add_category(&mut type_map, vec!["mp3", "wav", "flac", "aac", "ogg", "wma", "m4a"], "Audio");
        add_category(
            &mut type_map,
            vec!["zip", "tar", "gz", "bz2", "xz", "7z", "rar", "tar.gz", "tar.bz2"],
            "Archives",
        );
        add_category(
            &mut type_map,
            vec!["rs", "py", "js", "ts", "html", "css", "cpp", "c", "h", "java", "go", "php"],
            "Code",
        );
        add_category(
            &mut type_map,
            vec!["exe", "bin", "app", "deb", "rpm", "msi", "dmg"],
            "Executables",
        );
        FileTypeClassifier { type_map }
    }

    /// The label for an extension that is already in lower case.
    pub fn label_for_extension(&self, extension: &str) -> (label: String)
        ensures
            label@ == label_for(self.table(), extension@),
    {
        let wanted: String = extension.to_owned();
        let ghost table = self.table();
        assert(table.skip(0) =~= table);
        let mut i: usize = 0;
        while i < self.type_map.len()
            invariant
                i <= self.type_map.len(),
                table == rule_table(self.type_map@),
                wanted@ == extension@,
                lookup(table, extension@) == lookup(table.skip(i as int), extension@),
            decreases self.type_map.len() - i,
        {
            proof {
                assert(table.skip(i as int).drop_first() =~= table.skip(i + 1));
                assert(table.skip(i as int)[0] == table[i as int]);
            }
            if self.type_map[i].extension == wanted {
                return self.type_map[i].category.clone();
            }
            i = i + 1;
        }
        "Other".to_owned()
    }

    /// The label of the category of a file, by its extension.
    pub fn classify(&self, path: &NodePath) -> (label: String)
        ensures
            label@ == category_of(self.table(), path@),
    {
        match path.extension() {
            Some(extension) => {
                let lowered = to_lowercase(extension);
                self.label_for_extension(lowered.as_str())
            },
            None => "Other".to_owned(),
        }
    }
}

/// Files below this size are small.
pub const ONE_MB: u64 = 1_048_576;

/// Files of this size and above are large.
pub const HUNDRED_MB: u64 = 104_857_600;

/// The three bands of file sizes.
#[derive(Debug, Clone, Copy, PartialEq, Eq, Structural)]
pub enum SizeBand {
    Small,
    Medium,
    Large,
}

/// The band that a size falls into.
pub open spec fn band_of(size: u64) -> SizeBand {
    if size < ONE_MB {
        SizeBand::Small
    } else if size < HUNDRED_MB {
        SizeBand::Medium
    } else {
        SizeBand::Large
    }
}

/// The number of files in a band.
pub open spec fn band_count(files: Seq<FileEntry>, band: SizeBand) -> nat
    decreases files.len(),
{
    if files.len() == 0 {
        0
    } else {
        band_count(files.drop_last(), band) + if band_of(files.last().size) == band {
            1nat
        } else {
            0
        }
    }
}

/// The sum of the sizes of the files in a band.
pub open spec fn band_size(files: Seq<FileEntry>, band: SizeBand) -> nat
    decreases files.len(),
{
    if files.len() == 0 {
        0
    } else {
        band_size(files.drop_last(), band) + if band_of(files.last().size) == band {
            files.last().size as nat
        } else {
            0
        }
    }
}

proof fn lemma_band_bounds(files: Seq<FileEntry>, band: SizeBand)
    ensures
        band_count(files, band) <= files.len(),
        band_size(files, band) <= total_size(files),
    decreases files.len(),
{
    if files.len() > 0 {
        lemma_band_bounds(files.drop_last(), band);
    }
}

/// How many files are small, medium and large, and how much they hold.
#[derive(Debug)]
pub struct SizeBreakdown {
    pub small_files_count: u64,
    pub small_files_size: u64,
    pub medium_files_count: u64,
    pub medium_files_size: u64,
    pub large_files_count: u64,
    pub large_files_size: u64,
}

impl SizeBreakdown {
    /// The breakdown says for each band how many of `files` fall into it and
    /// how much they hold together.
    pub open spec fn describes(&self, files: Seq<FileEntry>) -> bool {
        &&& self.small_files_count == band_count(files, SizeBand::Small)
        &&& self.small_files_size == band_size(files, SizeBand::Small)
        &&& self.medium_files_count == band_count(files, SizeBand::Medium)
        &&& self.medium_files_size == band_size(files, SizeBand::Medium)
        &&& self.large_files_count == band_count(files, SizeBand::Large)
        &&& self.large_files_size == band_size(files, SizeBand::Large)
    }

    /// The breakdown of the files of a scan. The sizes of all files together
    /// must fit in 64 bits, as they do in a scan that has a total.
    pub fn from_scan_results(results: &ScanResults) -> (breakdown: Self)
        requires
            total_size(results.files@) <= u64::MAX,
        ensures
            breakdown.describes(results.files@),
    {
        let files = &results.files;
        let mut breakdown = SizeBreakdown {
            small_files_count: 0,
            small_files_size: 0,
            medium_files_count: 0,
            medium_files_size: 0,
            large_files_count: 0,
            large_files_size: 0,
        };
        let mut k: usize = 0;
        while k < files.len()
            invariant
                k <= files.len(),
                total_size(files@) <= u64::MAX,
                breakdown.small_files_count == band_count(files@.take(k as int), SizeBand::Small),
                breakdown.small_files_size == band_size(files@.take(k as int), SizeBand::Small),
                breakdown.medium_files_count == band_count(files@.take(k as int), SizeBand::Medium),
                breakdown.medium_files_size == band_size(files@.take(k as int), SizeBand::Medium),
                breakdown.large_files_count == band_count(files@.take(k as int), SizeBand::Large),
                breakdown.large_files_size == band_size(files@.take(k as int), SizeBand::Large),
            decreases files.len() - k,
        {
            proof {
                let next = files@.take(k + 1);
                assert(next.drop_last() =~= files@.take(k as int));
                lemma_band_bounds(next, SizeBand::Small);
                lemma_band_bounds(next, SizeBand::Medium);
                lemma_band_bounds(next, SizeBand::Large);
                crate::scanner::lemma_total_size_prefix(files@, k + 1);
            }
            let size = files[k].size;
            if size < ONE_MB {
                breakdown.small_files_count = breakdown.small_files_count + 1;
                breakdown.small_files_size = breakdown.small_files_size + size;
            } else if size < HUNDRED_MB {
                breakdown.medium_files_count = breakdown.medium_files_count + 1;
                breakdown.medium_files_size = breakdown.medium_files_size + size;
            } else {
                breakdown.large_files_count = breakdown.large_files_count + 1;
                breakdown.large_files_size = breakdown.large_files_size + size;
            }
            k = k + 1;
        }
        proof {
            assert(files@.take(files.len() as int) =~= files@);
        }
        breakdown
    }
}

/// The text of a duration of `total_seconds` whole seconds and `millis`
/// milliseconds on top: hours, minutes and seconds where it has an hour;
/// minutes and seconds where it has a minute; seconds with three decimals
/// where it has a second; else the milliseconds.
pub open spec fn duration_text(total_seconds: u64, millis: u32) -> Seq<char> {
    let hours = (total_seconds / 3600) as nat;
    let minutes = ((total_seconds % 3600) / 60) as nat;
    let seconds = (total_seconds % 60) as nat;
    if hours > 0 {
        decimal(hours) + seq!['h', ' '] + decimal(minutes) + seq!['m', ' '] + decimal(seconds)
            + seq!['s']
    } else if minutes > 0 {
        decimal(minutes) + seq!['m', ' '] + decimal(seconds) + seq!['s']
    } else if seconds > 0 {
        decimal(seconds) + seq!['.'] + decimal_padded3(millis as nat) + seq!['s']
    } else {
        decimal(millis as nat) + seq!['m', 's']
    }
}

/// A duration given by its whole seconds and the milliseconds on top, as
/// text.
pub fn format_duration_parts(total_seconds: u64, millis: u32) -> (text: String)
    ensures
        text@ == duration_text(total_seconds, millis),
{
    let hours = total_seconds / 3600;
    let minutes = (total_seconds % 3600) / 60;
    let seconds = total_seconds % 60;
    let mut text = String::new();
    proof {
        reveal_strlit("h ");
        reveal_strlit("m ");
        reveal_strlit("s");
        reveal_strlit(".");
        reveal_strlit("ms");
        assert("h "@ =~= seq!['h', ' ']);
        assert("m "@ =~= seq!['m', ' ']);
        assert("s"@ =~= seq!['s']);
        assert("."@ =~= seq!['.']);
        assert("ms"@ =~= seq!['m', 's']);
    }
    if hours > 0 {
        push_decimal(&mut text, hours);
        text.append("h ");
        push_decimal(&mut text, minutes);
        text.append("m ");
        push_decimal(&mut text, seconds);
        text.append("s");
    } else if minutes > 0 {
        push_decimal(&mut text, minutes);
        text.append("m ");
        push_decimal(&mut text, seconds);
        text.append("s");
    } else if seconds > 0 {
        push_decimal(&mut text, seconds);
        text.append(".");
        push_decimal_padded3(&mut text, millis as u64);
        text.append("s");
    } else {
        push_decimal(&mut text, millis as u64);
        text.append("ms");
    }
    assert(text@ =~= duration_text(total_seconds, millis));
    text
}

/// The whole seconds of a duration, as `Duration::as_secs` gives them.
pub uninterp spec fn duration_seconds(duration: Duration) -> u64;

/// The milliseconds of a duration on top of its whole seconds, as
/// `Duration::subsec_millis` gives them.
pub uninterp spec fn duration_subsec_millis(duration: Duration) -> u32;

/// `Duration::as_secs`: the number of whole seconds in the duration.
pub assume_specification[ Duration::as_secs ](duration: &Duration) -> (seconds: u64)
    ensures
        seconds == duration_seconds(*duration),
;

/// `Duration::subsec_millis`: the part of the duration below one second, in
/// whole milliseconds, which is less than one thousand.
pub assume_specification[ Duration::subsec_millis ](duration: &Duration) -> (millis: u32)
    ensures
        millis == duration_subsec_millis(*duration),
        millis < 1000,
;

/// A duration as text.
pub fn format_duration(duration: Duration) -> (text: String)
    ensures
        text@ == duration_text(duration_seconds(duration), duration_subsec_millis(duration)),
{
    let total_seconds = duration.as_secs();
    let millis = duration.subsec_millis();
    format_duration_parts(total_seconds, millis)
}

/// Why a path cannot be analyzed. Each error holds the path as shown to the
/// user.
#[derive(Debug)]
pub enum DirectoryError {
    /// Nothing exists at the path.
    Missing(String),
    /// The path exists and is not a directory.
    NotADirectory(String),
}

impl DirectoryError {
    /// The text of the error.
    pub open spec fn message_text(&self) -> Seq<char> {
        match self {
            DirectoryError::Missing(path) => "Path does not exist: "@ + path@,
            DirectoryError::NotADirectory(path) => "Path is not a directory: "@ + path@,
        }
    }

    /// The text of the error.
    pub fn message(&self) -> (text: String)
        ensures
            text@ == self.message_text(),
    {
        match self {
            DirectoryError::Missing(path) => {
                let mut text = "Path does not exist: ".to_owned();
                text.append(path.as_str());
                text
            },
            DirectoryError::NotADirectory(path) => {
                let mut text = "Path is not a directory: ".to_owned();
                text.append(path.as_str());
                text
            },
        }
    }
}

/// Decides whether a path can be analyzed from what the filesystem says of
/// it: it must exist, and it must be a directory. `shown` is the path as it
/// is shown to the user.
pub fn validate_directory(exists: bool, is_directory: bool, shown: &str) -> (out: Result<
    (),
    DirectoryError,
>)
    ensures
        match out {
            Ok(_) => exists && is_directory,
            Err(DirectoryError::Missing(path)) => !exists && path@ == shown@,
            Err(DirectoryError::NotADirectory(path)) => exists && !is_directory && path@ == shown@,
        },
{
    if !exists {
        return Err(DirectoryError::Missing(shown.to_owned()));
    }
    if !is_directory {
        return Err(DirectoryError::NotADirectory(shown.to_owned()));
    }
    Ok(())
}

} // verus!
