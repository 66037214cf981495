//! What an export holds: the rows of the CSV table and the name of the file.

use crate::analyzer::AnalysisResults;
use crate::analyzer::DirectoryInfo;
use crate::analyzer::DirectoryInfoModel;
use crate::analyzer::DuplicateGroup;
use crate::analyzer::FileInfo;
use crate::analyzer::FileInfoModel;
use crate::cli::ExportFormat;
use crate::path::NodePath;
use crate::path::PathModel;
use crate::text::decimal;
use crate::text::decimal_string;
use chrono::DateTime;
use vstd::prelude::*;

verus! {

/// The time `seconds` after the Unix epoch in the form of RFC 3339, as
/// chrono writes it for a time in UTC; empty for a time that chrono cannot
/// hold.
pub uninterp spec fn rfc3339_text(seconds: i64) -> Seq<char>;

/// The time `seconds` after the Unix epoch as year, month, day, an
/// underscore, hour, minute and second, all in digits, as chrono writes it
/// for a time in UTC; empty for a time that chrono cannot hold.
pub uninterp spec fn compact_time_text(seconds: i64) -> Seq<char>;

/// `DateTime::from_timestamp` and then `DateTime::to_rfc3339` on the time it
/// gives.
#[verifier::external_body]
fn format_rfc3339(seconds: i64) -> (text: String)
    ensures
        text@ == rfc3339_text(seconds),
{
    match DateTime::from_timestamp(seconds, 0) {
        Some(time) => time.to_rfc3339(),
        None => String::new(),
    }
}

/// `DateTime::from_timestamp` and then `DateTime::format` on the time it
/// gives, with the pattern for a time stamp in a file name.
#[verifier::external_body]
fn format_compact_time(seconds: i64) -> (text: String)
    ensures
        text@ == compact_time_text(seconds),
{
    match DateTime::from_timestamp(seconds, 0) {
        Some(time) => time.format("%Y%m%d_%H%M%S").to_string(),
        None => String::new(),
    }
}

/// The name of the report file written at the time `now` in the format
/// `format`, where no name is asked for.
pub open spec fn report_file_name(now: i64, format: ExportFormat) -> Seq<char> {
    "diranalyzer_report_"@ + compact_time_text(now) + "."@ + format.name()
}

/// The path of the file to export to: the one asked for, or else a file in
/// the working directory named after the time `now` and the format.
pub fn generate_output_path(format: &ExportFormat, output_path: &Option<NodePath>, now: i64) -> (out:
    NodePath)
    ensures
        match output_path {
            Some(path) => out@ == path@,
            None => out@ == (PathModel {
                anchored: false,
                names: seq![report_file_name(now, *format)],
            }),
        },
{
    match output_path {
        Some(path) => path.clone(),
        None => {
            let mut name = "diranalyzer_report_".to_owned();
            name.append(format_compact_time(now).as_str());
            name.append(".");
            name.append(format.to_string().as_str());
            let mut names: Vec<String> = Vec::new();
            names.push(name);
            let out = NodePath::new(false, names);
            assert(out@ =~= (PathModel {
                anchored: false,
                names: seq![report_file_name(now, *format)],
            }));
            out
        },
    }
}

/// The first row of the table, which names the columns.
pub open spec fn header_row() -> Seq<Seq<char>> {
    seq!["Type"@, "Path"@, "Size"@, "FileType"@, "Modified"@, "Depth"@]
}

/// The time of the last change as text, empty where it is not known.
pub open spec fn modified_text(modified: Option<i64>) -> Seq<char> {
    match modified {
        Some(seconds) => rfc3339_text(seconds),
        None => ""@,
    }
}

/// The row of a file.
pub open spec fn file_row(info: FileInfoModel) -> Seq<Seq<char>> {
    seq![
        "File"@,
        info.path.render(),
        decimal(info.size as nat),
        info.file_type,
        modified_text(info.modified),
        ""@,
    ]
}

/// The row of a directory.
pub open spec fn directory_row(info: DirectoryInfoModel) -> Seq<Seq<char>> {
    seq!["Directory"@, info.path.render(), decimal(info.size as nat), "Directory"@, ""@, ""@]
}

/// The row of one member of a duplicate group.
pub open spec fn duplicate_row(path: PathModel, file_size: u64) -> Seq<Seq<char>> {
    seq!["Duplicate"@, path.render(), decimal(file_size as nat), "Duplicate"@, ""@, ""@]
}

/// The rows of a list of files, in order.
pub open spec fn file_rows(infos: Seq<FileInfo>) -> Seq<Seq<Seq<char>>> {
    Seq::new(infos.len(), |i: int| file_row(infos[i]@))
}

/// The rows of a list of directories, in order.
pub open spec fn directory_rows(infos: Seq<DirectoryInfo>) -> Seq<Seq<Seq<char>>> {
    Seq::new(infos.len(), |i: int| directory_row(infos[i]@))
}

/// The rows of the members of one group, in order.
pub open spec fn group_rows(group: DuplicateGroup) -> Seq<Seq<Seq<char>>> {
    Seq::new(group.files@.len(), |m: int| duplicate_row(group.files@[m]@, group.file_size))
}

/// The rows of the members of all groups, group after group.
pub open spec fn duplicate_rows(groups: Seq<DuplicateGroup>) -> Seq<Seq<Seq<char>>>
    decreases groups.len(),
{
    if groups.len() == 0 {
        Seq::empty()
    } else {
        duplicate_rows(groups.drop_last()) + group_rows(groups.last())
    }
}

/// The whole table: the header, the largest files, the largest directories
/// and, where duplicates were looked for, every member of every group.
pub open spec fn csv_table(results: AnalysisResults) -> Seq<Seq<Seq<char>>> {
    seq![header_row()] + file_rows(results.largest_files@) + directory_rows(
        results.largest_directories@,
    ) + match results.duplicate_groups {
        Some(groups) => duplicate_rows(groups@),
        None => Seq::empty(),
    }
}

/// The texts of the rows of a table.
pub open spec fn table_texts(rows: Seq<Vec<String>>) -> Seq<Seq<Seq<char>>> {
    Seq::new(rows.len(), |r: int| Seq::new(rows[r]@.len(), |c: int| rows[r]@[c]@))
}

/// A row of six columns.
fn make_row(kind: &str, path: String, size: String, file_type: String, modified: String) -> (row:
    Vec<String>)
    ensures
        row@.len() == 6,
        row@[0]@ == kind@,
        row@[1]@ == path@,
        row@[2]@ == size@,
        row@[3]@ == file_type@,
        row@[4]@ == modified@,
        row@[5]@ == ""@,
{
    let mut row: Vec<String> = Vec::new();
    row.push(kind.to_owned());
    row.push(path);
    row.push(size);
    row.push(file_type);
    row.push(modified);
    row.push("".to_owned());
    row
}

/// The rows of the CSV export of `results`, the header first.
pub fn csv_rows(results: &AnalysisResults) -> (rows: Vec<Vec<String>>)
    ensures
        table_texts(rows@) == csv_table(*results),
{
    let mut rows: Vec<Vec<String>> = Vec::new();
    let mut header: Vec<String> = Vec::new();
    header.push("Type".to_owned());
    header.push("Path".to_owned());
    header.push("Size".to_owned());
    header.push("FileType".to_owned());
    header.push("Modified".to_owned());
    header.push("Depth".to_owned());
    assert(Seq::new(header@.len(), |c: int| header@[c]@) =~= header_row());
    rows.push(header);
    assert(table_texts(rows@) =~= seq![header_row()]);

    let files = &results.largest_files;
    let mut i: usize = 0;
    while i < files.len()
        invariant
            i <= files.len(),
            table_texts(rows@) == seq![header_row()] + file_rows(files@.take(i as int)),
        decreases files.len() - i,
    {
        let info = &files[i];
        let modified = match info.modified {
            Some(seconds) => format_rfc3339(seconds),
            None => "".to_owned(),
        };
        let row = make_row(
            "File",
            info.path.display(),
            decimal_string(info.size),
            info.file_type.clone(),
            modified,
        );
        let ghost before = rows@;
        rows.push(row);
        proof {
            assert(Seq::new(row@.len(), |c: int| row@[c]@) =~= file_row(info@));
            assert(table_texts(rows@) =~= table_texts(before).push(file_row(info@)));
            assert(file_rows(files@.take(i + 1)) =~= file_rows(files@.take(i as int)).push(
                file_row(info@),
            ));
        }
        i = i + 1;
    }
    proof {
        assert(files@.take(files.len() as int) =~= files@);
    }
    let ghost with_files = seq![header_row()] + file_rows(files@);

    let directories = &results.largest_directories;
    let mut j: usize = 0;
    while j < directories.len()
        invariant
            j <= directories.len(),
            table_texts(rows@) == with_files + directory_rows(directories@.take(j as int)),
        decreases directories.len() - j,
    {
        let info = &directories[j];
        let row = make_row(
            "Directory",
            info.path.display(),
            decimal_string(info.size),
            "Directory".to_owned(),
            "".to_owned(),
        );
        let ghost before = rows@;
        rows.push(row);
        proof {
            assert(Seq::new(row@.len(), |c: int| row@[c]@) =~= directory_row(info@));
            assert(table_texts(rows@) =~= table_texts(before).push(directory_row(info@)));
            assert(directory_rows(directories@.take(j + 1)) =~= directory_rows(
                directories@.take(j as int),
            ).push(directory_row(info@)));
        }
        j = j + 1;
    }
    proof {
        assert(directories@.take(directories.len() as int) =~= directories@);
    }
    let ghost with_directories = with_files + directory_rows(directories@);

    match &results.duplicate_groups {
        Some(groups) => {
            let mut g: usize = 0;
            while g < groups.len()
                invariant
                    g <= groups.len(),
                    table_texts(rows@) == with_directories + duplicate_rows(groups@.take(g as int)),
                decreases groups.len() - g,
            {
                let group = &groups[g];
                let ghost so_far = with_directories + duplicate_rows(groups@.take(g as int));
                let mut m: usize = 0;
                while m < group.files.len()
                    invariant
                        m <= group.files.len(),
                        table_texts(rows@) == so_far + group_rows(*group).take(m as int),
                    decreases group.files.len() - m,
                {
                    let row = make_row(
                        "Duplicate",
                        group.files[m].display(),
                        decimal_string(group.file_size),
                        "Duplicate".to_owned(),
                        "".to_owned(),
                    );
                    let ghost before = rows@;
                    rows.push(row);
                    proof {
                        let wanted = duplicate_row(group.files@[m as int]@, group.file_size);
                        assert(Seq::new(row@.len(), |c: int| row@[c]@) =~= wanted);
                        assert(table_texts(rows@) =~= table_texts(before).push(wanted));
                        assert(group_rows(*group).take(m + 1) =~= group_rows(*group).take(
                            m as int,
                        ).push(wanted));
                    }
                    m = m + 1;
                }
                proof {
                    assert(group_rows(*group).take(group.files.len() as int) =~= group_rows(*group));
                    assert(groups@.take(g + 1).drop_last() =~= groups@.take(g as int));
                    assert(groups@.take(g + 1).last() == *group);
                    assert(so_far + group_rows(*group) =~= with_directories + duplicate_rows(
                        groups@.take(g + 1),
                    ));
                }
                g = g + 1;
            }
            proof {
                assert(groups@.take(groups.len() as int) =~= groups@);
            }
        },
        None => {
            proof {
                assert(with_directories + Seq::<Seq<Seq<char>>>::empty() =~= with_directories);
            }
        },
    }
    rows
}

} // verus!
