use diranalyzer::analyzer::duplicate_totals;
use diranalyzer::analyzer::largest_directories;
use diranalyzer::analyzer::type_distribution;
use diranalyzer::analyzer::DirectoryAnalyzer;
use diranalyzer::analyzer::DuplicateGroup;
use diranalyzer::analyzer::FileInfo;
use diranalyzer::cli::Args;
use diranalyzer::cli::ExportFormat;
use diranalyzer::export::csv_rows;
use diranalyzer::export::generate_output_path;
use diranalyzer::path::NodePath;
use diranalyzer::ranking::TopList;
use diranalyzer::reporter::generate_report;
use diranalyzer::reporter::member_lines;
use diranalyzer::reporter::ranked_types;
use diranalyzer::reporter::ReportSection;
use diranalyzer::scanner::FileEntry;
use diranalyzer::scanner::ScanAccumulator;
use diranalyzer::scanner::ScanResults;
use diranalyzer::text::decimal_string;
use diranalyzer::utils::SizeBreakdown;

fn path(text: &str) -> NodePath {
    let anchored = text.starts_with('/');
    let names = text.split('/').filter(|name| !name.is_empty()).map(|name| name.to_string()).collect();
    NodePath::new(anchored, names)
}

fn file(text: &str, size: u64) -> FileEntry {
    let path = path(text);
    let depth = path.len();
    FileEntry { path, size, modified: None, is_symlink: false, depth }
}

fn scan(files: Vec<FileEntry>, directories: &[&str]) -> ScanResults {
    let mut scan = ScanAccumulator::new();
    for (depth, directory) in directories.iter().enumerate() {
        scan.record_directory(path(directory), depth);
    }
    for entry in files {
        assert!(scan.has_room_for(entry.size));
        scan.record_file(entry);
    }
    scan.finish()
}

fn info(text: &str, size: u64, file_type: &str) -> FileInfo {
    FileInfo { path: path(text), size, file_type: file_type.to_string(), modified: None }
}

fn group(hash: &str, size: u64, members: &[&str]) -> DuplicateGroup {
    DuplicateGroup {
        hash: hash.to_string(),
        file_size: size,
        files: members.iter().map(|m| path(m)).collect(),
        wasted_space: size * (members.len() as u64 - 1),
    }
}

const MB: u64 = 1024 * 1024;

#[test]
fn size_breakdown_counts_each_band() {
    let results = scan(
        vec![
            file("/d/a", 0),
            file("/d/b", MB - 1),
            file("/d/c", MB),
            file("/d/e", 100 * MB - 1),
            file("/d/f", 100 * MB),
            file("/d/g", 5 * 1024 * MB),
        ],
        &["/d"],
    );
    let breakdown = SizeBreakdown::from_scan_results(&results);
    assert_eq!(breakdown.small_files_count, 2);
    assert_eq!(breakdown.small_files_size, MB - 1);
    assert_eq!(breakdown.medium_files_count, 2);
    assert_eq!(breakdown.medium_files_size, 101 * MB - 1);
    assert_eq!(breakdown.large_files_count, 2);
    assert_eq!(breakdown.large_files_size, 100 * MB + 5 * 1024 * MB);
}

#[test]
fn type_distribution_tallies_each_category() {
    let infos = vec![
        info("a.rs", 10, "Code"),
        info("b.jpg", 50, "Images"),
        info("c.rs", 30, "Code"),
        info("d.rs", 30, "Code"),
        info("e", 0, "Other"),
        info("f.py", 1, "Code"),
    ];
    let shares = type_distribution(&infos);
    assert_eq!(shares.len(), 3);
    let code = shares.iter().find(|s| s.file_type == "Code").unwrap();
    assert_eq!(code.stats.count, 4);
    assert_eq!(code.stats.total_size, 71);
    assert_eq!(code.stats.average_size, 17);
    assert_eq!(code.stats.largest_file.as_ref().unwrap().path.display(), "c.rs");
    let images = shares.iter().find(|s| s.file_type == "Images").unwrap();
    assert_eq!(images.stats.count, 1);
    assert_eq!(images.stats.average_size, 50);
    assert_eq!(images.stats.largest_file.as_ref().unwrap().size, 50);
    let other = shares.iter().find(|s| s.file_type == "Other").unwrap();
    assert_eq!(other.stats.count, 1);
    assert_eq!(other.stats.total_size, 0);
    assert!(other.stats.largest_file.is_none());
    assert!(type_distribution(&Vec::new()).is_empty());
}

#[test]
fn analysis_of_a_scan() {
    let results = scan(
        vec![
            file("/d/small.txt", 10),
            file("/d/src/main.rs", 300),
            file("/d/src/lib.rs", 200),
            file("/d/img/photo.PNG", 300),
            file("/d/img/raw", 7),
        ],
        &["/d", "/d/src", "/d/img"],
    );
    let mut args = Args::new(path("/d"));
    args.top_count = 3;
    args.find_duplicates = true;
    args.threads = Some(2);
    let analyzer = DirectoryAnalyzer::new(args, Some(16)).unwrap();
    assert_eq!(analyzer.duplicate_finder().unwrap().thread_count(), 2);
    assert_eq!(analyzer.duplicate_finder().unwrap().min_size(), 1024);
    assert_eq!(analyzer.args().top_count, 3);
    assert!(analyzer.scanner().should_exclude("/d/.x", ".x"));

    let (breakdown, shares, files, directories) = analyzer.analyze_files_and_directories(&results);
    assert_eq!(breakdown.small_files_count, 5);
    assert_eq!(breakdown.small_files_size, 817);
    assert_eq!(shares.len(), 4);
    let names: Vec<String> = files.iter().map(|f| f.path.display()).collect();
    assert_eq!(names, vec!["/d/src/main.rs", "/d/img/photo.PNG", "/d/src/lib.rs"]);
    assert_eq!(files[1].file_type, "Images");
    assert_eq!(files[0].file_type, "Code");
    let names: Vec<String> = directories.iter().map(|d| d.path.display()).collect();
    assert_eq!(names, vec!["/d", "/d/src", "/d/img"]);
    assert_eq!(directories[0].size, 817);
    assert_eq!(directories[0].file_count, 1);
    assert_eq!(directories[0].subdirectory_count, 2);
    assert_eq!(directories[1].size, 500);
    assert_eq!(directories[2].size, 307);

    let groups = vec![group("aa", 300, &["/d/src/main.rs", "/d/img/photo.PNG"])];
    let done = analyzer.analyze(&results, Some(groups), 1_700_000_000, 42).unwrap();
    assert_eq!(done.scan_info.path.display(), "/d");
    assert_eq!(done.scan_info.timestamp, 1_700_000_000);
    assert_eq!(done.scan_info.depth_limit, 10);
    assert_eq!(done.scan_info.total_files, 5);
    assert_eq!(done.scan_info.total_directories, 3);
    assert_eq!(done.scan_info.total_size, 817);
    assert_eq!(done.scan_info.scan_duration_ms, 42);
    assert_eq!(done.duplicate_totals.duplicate_files, 2);
    assert_eq!(done.duplicate_totals.wasted_space, 300);
    assert_eq!(done.largest_files.len(), 3);

    let plain = DirectoryAnalyzer::new(Args::new(path("/d")), None).unwrap();
    assert!(plain.duplicate_finder().is_none());
    let done = plain.analyze(&results, None, 0, 0).unwrap();
    assert!(done.duplicate_groups.is_none());
    assert_eq!(done.duplicate_totals.duplicate_files, 0);
    assert_eq!(done.duplicate_totals.wasted_space, 0);
    assert_eq!(done.largest_files.len(), 5);

    let heavy = vec![group("x", u64::MAX, &["a", "b"]), group("y", 1, &["c", "d"])];
    assert!(plain.analyze(&results, Some(heavy), 0, 0).is_none());
}

#[test]
fn an_analyzer_needs_patterns_that_compile() {
    let mut args = Args::new(path("/d"));
    args.exclude_patterns = vec!["(".to_string()];
    match DirectoryAnalyzer::new(args, None) {
        Err(error) => assert_eq!(error.index, 0),
        Ok(_) => panic!("the pattern should not compile"),
    }
}

#[test]
fn largest_directories_keep_the_order_of_equal_sizes() {
    let results = scan(
        vec![file("/r/a/1", 5), file("/r/b/2", 9), file("/r/c/3", 5), file("/r/e/4", 1)],
        &["/r/a", "/r/b", "/r/c", "/r/e"],
    );
    let top = largest_directories(&results.directories, 3);
    let names: Vec<String> = top.iter().map(|d| d.path.display()).collect();
    assert_eq!(names, vec!["/r/b", "/r/a", "/r/c"]);
    assert!(largest_directories(&results.directories, 0).is_empty());
    assert_eq!(largest_directories(&results.directories, 10).len(), 4);
}

#[test]
fn a_top_list_keeps_the_foremost() {
    let mut top: TopList<FileInfo> = TopList::new(3);
    for (rank, name) in [(5, "a"), (9, "b"), (5, "c"), (1, "d"), (9, "e"), (7, "f"), (9, "g")] {
        top.offer(info(name, rank, "Other"));
    }
    let names: Vec<String> = top.into_vec().iter().map(|s| s.path.display()).collect();
    assert_eq!(names, vec!["b", "e", "g"]);

    let mut top: TopList<FileInfo> = TopList::new(10);
    for (rank, name) in [(5, "a"), (9, "b"), (5, "c")] {
        top.offer(info(name, rank, "Other"));
    }
    let names: Vec<String> = top.into_vec().iter().map(|s| s.path.display()).collect();
    assert_eq!(names, vec!["b", "a", "c"]);

    let mut none: TopList<FileInfo> = TopList::new(0);
    none.offer(info("a", 1, "Other"));
    assert!(none.into_vec().is_empty());
}

#[test]
fn duplicate_totals_add_up() {
    let groups = vec![group("a", 10, &["x", "y", "z"]), group("b", 4, &["p", "q"])];
    let totals = duplicate_totals(&groups).unwrap();
    assert_eq!(totals.duplicate_files, 5);
    assert_eq!(totals.wasted_space, 24);
    let none = duplicate_totals(&Vec::new()).unwrap();
    assert_eq!(none.duplicate_files, 0);
    assert_eq!(none.wasted_space, 0);
    let heavy = vec![group("a", u64::MAX, &["x", "y"]), group("b", 1, &["p", "q"])];
    assert!(duplicate_totals(&heavy).is_none());
}

#[test]
fn report_sections_follow_the_mode() {
    assert_eq!(generate_report(true, true), vec![ReportSection::Summary]);
    assert_eq!(generate_report(true, false), vec![ReportSection::Summary]);
    let full = generate_report(false, true);
    assert_eq!(full.len(), 8);
    assert_eq!(full[0], ReportSection::Header);
    assert_eq!(full[5], ReportSection::DuplicateAnalysis);
    assert_eq!(full[7], ReportSection::Footer);
    let plain = generate_report(false, false);
    assert_eq!(plain.len(), 7);
    assert!(!plain.contains(&ReportSection::DuplicateAnalysis));
    assert_eq!(plain[5], ReportSection::PerformanceStatistics);
}

#[test]
fn categories_are_ranked_by_what_they_hold() {
    let infos = vec![
        info("a.rs", 10, "Code"),
        info("b.jpg", 50, "Images"),
        info("c.mp3", 10, "Audio"),
        info("d.zip", 70, "Archives"),
    ];
    let shares = type_distribution(&infos);
    let order = ranked_types(&shares, 3);
    let names: Vec<&str> = order.iter().map(|&i| shares[i].file_type.as_str()).collect();
    assert_eq!(names, vec!["Archives", "Images", "Code"]);
    assert_eq!(ranked_types(&shares, 20).len(), 4);
}

#[test]
fn member_lines_show_three_and_count_the_rest() {
    let two = group("a", 1, &["/x/1", "/x/2"]);
    assert_eq!(member_lines(&two), vec!["       ├─ /x/1", "       └─ /x/2"]);
    let three = group("a", 1, &["/x/1", "/x/2", "/x/3"]);
    assert_eq!(member_lines(&three), vec!["       ├─ /x/1", "       ├─ /x/2", "       └─ /x/3"]);
    let five = group("a", 1, &["/x/1", "/x/2", "/x/3", "/x/4", "/x/5"]);
    assert_eq!(
        member_lines(&five),
        vec!["       ├─ /x/1", "       ├─ /x/2", "       └─ /x/3", "       └─ ... and 2 more files"]
    );
    let one = group("a", 1, &["/x/1"]);
    assert_eq!(member_lines(&one), vec!["       └─ /x/1"]);
}

#[test]
fn csv_rows_list_files_directories_and_duplicates() {
    let mut files = vec![file("/d/src/main.rs", 300), file("/d/notes", 12)];
    files[0].modified = Some(0);
    let results = scan(files, &["/d", "/d/src"]);
    let analyzer = DirectoryAnalyzer::new(Args::new(path("/d")), None).unwrap();
    let groups = vec![group("aa", 300, &["/d/src/main.rs", "/e/copy.rs"])];
    let done = analyzer.analyze(&results, Some(groups), 0, 0).unwrap();
    let rows = csv_rows(&done);
    let expected: Vec<Vec<&str>> = vec![
        vec!["Type", "Path", "Size", "FileType", "Modified", "Depth"],
        vec!["File", "/d/src/main.rs", "300", "Code", "1970-01-01T00:00:00+00:00", ""],
        vec!["File", "/d/notes", "12", "Other", "", ""],
        vec!["Directory", "/d", "312", "Directory", "", ""],
        vec!["Directory", "/d/src", "300", "Directory", "", ""],
        vec!["Duplicate", "/d/src/main.rs", "300", "Duplicate", "", ""],
        vec!["Duplicate", "/e/copy.rs", "300", "Duplicate", "", ""],
    ];
    assert_eq!(rows, expected);

    let done = analyzer.analyze(&results, None, 0, 0).unwrap();
    assert_eq!(csv_rows(&done).len(), 5);
}

#[test]
fn the_output_path_is_the_one_asked_for_or_named_after_the_time() {
    let asked = Some(path("/tmp/report.json"));
    assert_eq!(generate_output_path(&ExportFormat::Json, &asked, 0).display(), "/tmp/report.json");
    let made = generate_output_path(&ExportFormat::Csv, &None, 1_700_000_000);
    assert_eq!(made.display(), "diranalyzer_report_20231114_221320.csv");
    assert_eq!(made.len(), 1);
    let made = generate_output_path(&ExportFormat::Json, &None, 0);
    assert_eq!(made.display(), "diranalyzer_report_19700101_000000.json");
    assert_eq!(ExportFormat::Json.to_string(), "json");
    assert_eq!(ExportFormat::Csv.to_string(), "csv");
}

#[test]
fn default_options() {
    let args = Args::new(path("/data"));
    assert_eq!(args.max_depth, 10);
    assert_eq!(args.min_duplicate_size, 1024);
    assert_eq!(args.top_count, 20);
    assert!(!args.find_duplicates && !args.show_hidden && !args.follow_links && !args.verbose && !args.quiet);
    assert!(args.export.is_none() && args.output.is_none() && args.threads.is_none());
    assert!(args.exclude_patterns.is_empty());
}

#[test]
fn decimal_strings() {
    assert_eq!(decimal_string(0), "0");
    assert_eq!(decimal_string(7), "7");
    assert_eq!(decimal_string(10), "10");
    assert_eq!(decimal_string(1234567890), "1234567890");
    assert_eq!(decimal_string(u64::MAX), "18446744073709551615");
}
