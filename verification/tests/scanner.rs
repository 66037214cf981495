use diranalyzer::cli::Args;
use diranalyzer::path::NodePath;
use diranalyzer::scanner::aggregate;
use diranalyzer::scanner::classify_walk_error;
use diranalyzer::scanner::DirectoryEntry;
use diranalyzer::scanner::DirectoryScanner;
use diranalyzer::scanner::EntryAction;
use diranalyzer::scanner::ErrorType;
use diranalyzer::scanner::FileEntry;
use diranalyzer::scanner::ScanAccumulator;

fn path(text: &str) -> NodePath {
    let anchored = text.starts_with('/');
    let names = text.split('/').filter(|name| !name.is_empty()).map(|name| name.to_string()).collect();
    NodePath::new(anchored, names)
}

fn file(text: &str, size: u64) -> FileEntry {
    let path = path(text);
    let depth = path.len();
    FileEntry { path, size, modified: Some(1_700_000_000), is_symlink: false, depth }
}

fn directory(text: &str) -> DirectoryEntry {
    let path = path(text);
    let depth = path.len();
    DirectoryEntry { path, total_size: 0, file_count: 0, subdirectory_count: 0, depth }
}

fn totals(directories: &[DirectoryEntry], text: &str) -> (u64, u64, u64) {
    let wanted = path(text);
    let found = directories.iter().find(|d| d.path.same_as(&wanted)).unwrap();
    (found.total_size, found.file_count, found.subdirectory_count)
}

#[test]
fn parent_drops_the_last_name() {
    assert!(path("/a/b").parent().unwrap().same_as(&path("/a")));
    assert!(path("/a").parent().unwrap().same_as(&path("/")));
    assert!(path("/").parent().is_none());
    assert!(path("a").parent().unwrap().same_as(&path("")));
    assert!(path("").parent().is_none());
    assert!(!path("/a").same_as(&path("a")));
    assert!(!path("a/b").same_as(&path("a/c")));
    assert!(!path("a/b").same_as(&path("a")));
    assert!(path("a/b/c").prefix(2).same_as(&path("a/b")));
    assert!(path("a/b").is_prefix_of(&path("a/b/c"), 2));
    assert!(!path("a/b").is_prefix_of(&path("a/b/c"), 1));
    assert!(!path("a/x").is_prefix_of(&path("a/b/c"), 2));
    assert_eq!(path("/usr/lib").display(), "/usr/lib");
    assert_eq!(path("usr/lib/x").display(), "usr/lib/x");
    assert_eq!(path("/").display(), "/");
    assert_eq!(path("").display(), "");
    assert_eq!(path("x").clone().display(), "x");
    assert_eq!(path("/a/b.txt").file_name().map(|name| name.as_str()), Some("b.txt"));
    assert_eq!(path("/a/..").file_name(), None);
    assert_eq!(path("/").file_name(), None);
}

#[test]
fn direct_counts_add_up_to_the_number_of_files() {
    let files = vec![
        file("/r/one", 1),
        file("/r/a/two", 2),
        file("/r/a/three", 3),
        file("/r/a/b/four", 4),
        file("/r/c/five", 5),
        file("/r/a/b/six", 6),
    ];
    let directories = vec![directory("/r"), directory("/r/a"), directory("/r/a/b"), directory("/r/c")];
    let out = aggregate(&files, directories);
    let counted: u64 = out.iter().map(|d| d.file_count).sum();
    assert_eq!(counted, files.len() as u64);
    assert_eq!(totals(&out, "/r"), (21, 1, 2));
    assert_eq!(totals(&out, "/r/a"), (15, 2, 1));
    assert_eq!(totals(&out, "/r/a/b"), (10, 2, 0));
    assert_eq!(totals(&out, "/r/c"), (5, 1, 0));
    for (given, rolled) in ["/r", "/r/a", "/r/a/b", "/r/c"].iter().zip(out.iter()) {
        assert!(rolled.path.same_as(&path(given)));
    }
}

#[test]
fn a_file_under_an_unknown_directory_still_counts_above_it() {
    let files = vec![file("/r/gone/x", 7), file("/r/y", 1), file("/elsewhere/z", 100)];
    let directories = vec![directory("/r"), directory("/other")];
    let out = aggregate(&files, directories);
    assert_eq!(totals(&out, "/r"), (8, 1, 0));
    assert_eq!(totals(&out, "/other"), (0, 0, 0));
}

#[test]
fn the_root_is_nobodys_subdirectory() {
    let directories = vec![directory("/"), directory("/a"), directory("/a/b"), directory("/c")];
    let files = vec![file("/top", 3), file("/a/b/deep", 4)];
    let out = aggregate(&files, directories);
    assert_eq!(totals(&out, "/"), (7, 1, 2));
    assert_eq!(totals(&out, "/a"), (4, 0, 1));
    assert_eq!(totals(&out, "/a/b"), (4, 1, 0));
    assert_eq!(totals(&out, "/c"), (0, 0, 0));
}

#[test]
fn aggregate_of_nothing() {
    assert!(aggregate(&Vec::new(), Vec::new()).is_empty());
    let out = aggregate(&Vec::new(), vec![directory("a")]);
    assert_eq!(totals(&out, "a"), (0, 0, 0));
    assert!(aggregate(&vec![file("a/x", 1)], Vec::new()).is_empty());
}

#[test]
fn relative_and_rooted_paths_do_not_mix() {
    let files = vec![file("a/x", 5)];
    let directories = vec![directory("/a"), directory("a")];
    let out = aggregate(&files, directories);
    assert_eq!(totals(&out, "/a"), (0, 0, 0));
    assert_eq!(totals(&out, "a"), (5, 1, 0));
}

fn scanner(show_hidden: bool, patterns: &[&str]) -> DirectoryScanner {
    let mut args = Args::new(path("/data"));
    args.show_hidden = show_hidden;
    args.exclude_patterns = patterns.iter().map(|p| p.to_string()).collect();
    DirectoryScanner::new(&args).unwrap()
}

#[test]
fn hidden_entries_and_excluded_paths_are_skipped() {
    let plain = scanner(false, &[]);
    assert!(plain.should_exclude("/data/.git", ".git"));
    assert!(!plain.should_exclude("/data/src", "src"));
    assert!(!plain.should_exclude("/data/.git/config", "config"));
    assert!(!plain.should_exclude("", ""));

    let all = scanner(true, &[]);
    assert!(!all.should_exclude("/data/.git", ".git"));

    let filtered = scanner(true, &[r"\.tmp$", "^/data/target"]);
    assert!(filtered.should_exclude("/data/a.tmp", "a.tmp"));
    assert!(filtered.should_exclude("/data/target/debug/x", "x"));
    assert!(!filtered.should_exclude("/data/a.tmp.keep", "a.tmp.keep"));
    assert!(!filtered.should_exclude("/home/data/target", "target"));

    assert_eq!(filtered.entry_action("/data/a.tmp", "a.tmp", true, false), EntryAction::Skip);
    assert_eq!(filtered.entry_action("/data/a.rs", "a.rs", true, false), EntryAction::File);
    assert_eq!(filtered.entry_action("/data/src", "src", false, true), EntryAction::Directory);
    assert_eq!(filtered.entry_action("/data/pipe", "pipe", false, false), EntryAction::Skip);
    assert_eq!(plain.entry_action("/data/.cache", ".cache", false, true), EntryAction::Skip);
}

#[test]
fn a_pattern_that_is_no_regular_expression_is_refused() {
    let mut args = Args::new(path("/data"));
    args.exclude_patterns = vec!["ok".to_string(), "foo(bar".to_string(), "[".to_string()];
    match DirectoryScanner::new(&args) {
        Err(error) => {
            assert_eq!(error.index, 1);
            assert_eq!(error.pattern, "foo(bar");
            assert!(!error.reason.is_empty());
        }
        Ok(_) => panic!("the pattern should not compile"),
    }
}

#[test]
fn walk_errors_are_told_apart_by_their_message() {
    assert_eq!(classify_walk_error("IO error for operation on /x: Permission denied (os error 13)"), ErrorType::PermissionDenied);
    assert_eq!(classify_walk_error("Permission denied"), ErrorType::PermissionDenied);
    assert_eq!(classify_walk_error("permission denied"), ErrorType::Other);
    assert_eq!(classify_walk_error("No such file or directory"), ErrorType::Other);
    assert_eq!(classify_walk_error(""), ErrorType::Other);
}

#[test]
fn the_accumulator_collects_a_scan() {
    let mut scan = ScanAccumulator::new();
    scan.record_directory(path("/r"), 0);
    scan.record_directory(path("/r/a"), 1);
    assert!(scan.has_room_for(10));
    scan.record_file(file("/r/a/x", 10));
    scan.record_file(file("/r/y", 5));
    scan.record_directory(path("/r/a"), 1);
    scan.record_file_failure(path("/r/broken"));
    scan.record_walk_error(None, "Permission denied".to_string());
    scan.record_walk_error(Some(path("/r/lost")), "vanished".to_string());
    assert_eq!(scan.file_count(), 2);
    assert_eq!(scan.directory_count(), 2);
    assert!(!scan.has_room_for(u64::MAX));
    assert!(scan.has_room_for(u64::MAX - 15));
    assert!(!scan.has_room_for(u64::MAX - 14));

    let results = scan.finish();
    assert_eq!(results.total_files, 2);
    assert_eq!(results.total_directories, 2);
    assert_eq!(results.total_size, 15);
    assert_eq!(totals(&results.directories, "/r"), (15, 1, 1));
    assert_eq!(totals(&results.directories, "/r/a"), (10, 1, 0));
    assert_eq!(results.errors.len(), 3);
    assert_eq!(results.errors[0].error, "Failed to process file");
    assert_eq!(results.errors[0].error_type, ErrorType::IoError);
    assert!(results.errors[0].path.same_as(&path("/r/broken")));
    assert_eq!(results.errors[1].error_type, ErrorType::PermissionDenied);
    assert!(results.errors[1].path.same_as(&path("unknown")));
    assert_eq!(results.errors[2].error_type, ErrorType::Other);
    assert_eq!(results.errors[2].error, "vanished");
}
