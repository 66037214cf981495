//! The options of a run.

use crate::path::NodePath;
use vstd::prelude::*;

verus! {

/// The formats in which results can be exported.
#[derive(Debug, Clone, Copy, PartialEq, Eq, Structural)]
pub enum ExportFormat {
    /// Export as JSON.
    Json,
    /// Export as CSV.
    Csv,
}

impl ExportFormat {
    /// The name of the format, as it is written on the command line and at
    /// the end of file names.
    pub open spec fn name(&self) -> Seq<char> {
        match self {
            ExportFormat::Json => "json"@,
            ExportFormat::Csv => "csv"@,
        }
    }

    /// The name of the format.
    pub fn to_string(&self) -> (text: String)
        ensures
            text@ == self.name(),
    {
        match self {
            ExportFormat::Json => "json".to_owned(),
            ExportFormat::Csv => "csv".to_owned(),
        }
    }
}

/// How deep the traversal goes where nothing else is asked for.
pub const DEFAULT_MAX_DEPTH: usize = 10;

/// The smallest file that duplicate detection looks at where nothing else is
/// asked for, in bytes.
pub const DEFAULT_MIN_DUPLICATE_SIZE: u64 = 1024;

/// How many items the lists of a report hold where nothing else is asked
/// for.
pub const DEFAULT_TOP_COUNT: usize = 20;

/// The options of a run.
#[derive(Debug)]
pub struct Args {
    /// Directory path to analyze.
    pub path: NodePath,
    /// Maximum depth for directory traversal.
    pub max_depth: usize,
    /// Enable duplicate file detection.
    pub find_duplicates: bool,
    /// Minimum file size for duplicate detection, in bytes.
    pub min_duplicate_size: u64,
    /// Show hidden files and directories.
    pub show_hidden: bool,
    /// Export results in this format.
    pub export: Option<ExportFormat>,
    /// Output file path for export.
    pub output: Option<NodePath>,
    /// Number of top items to display in reports.
    pub top_count: usize,
    /// Patterns of paths to leave out.
    pub exclude_patterns: Vec<String>,
    /// Follow symbolic links.
    pub follow_links: bool,
    /// Verbose output.
    pub verbose: bool,
    /// Quiet mode.
    pub quiet: bool,
    /// Number of threads for parallel processing.
    pub threads: Option<usize>,
}

impl Args {
    /// The options for analyzing `path` with everything else left as it is
    /// when nothing is asked for.
    pub fn new(path: NodePath) -> (args: Self)
        ensures
            args.path == path,
            args.max_depth == DEFAULT_MAX_DEPTH,
            !args.find_duplicates,
            args.min_duplicate_size == DEFAULT_MIN_DUPLICATE_SIZE,
            !args.show_hidden,
            args.export is None,
            args.output is None,
            args.top_count == DEFAULT_TOP_COUNT,
            args.exclude_patterns@.len() == 0,
            !args.follow_links,
            !args.verbose,
            !args.quiet,
            args.threads is None,
    {
        Args {
            path,
            max_depth: DEFAULT_MAX_DEPTH,
            find_duplicates: false,
            min_duplicate_size: DEFAULT_MIN_DUPLICATE_SIZE,
            show_hidden: false,
            export: None,
            output: None,
            top_count: DEFAULT_TOP_COUNT,
            exclude_patterns: Vec::new(),
            follow_links: false,
            verbose: false,
            quiet: false,
            threads: None,
        }
    }
}

} // verus!
