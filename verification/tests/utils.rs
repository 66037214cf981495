use diranalyzer::path::NodePath;
use diranalyzer::utils::format_duration;
use diranalyzer::utils::format_duration_parts;
use diranalyzer::utils::validate_directory;
use diranalyzer::utils::DirectoryError;
use diranalyzer::utils::FileTypeClassifier;

fn path(text: &str) -> NodePath {
    let anchored = text.starts_with('/');
    let names = text.split('/').filter(|name| !name.is_empty()).map(|name| name.to_string()).collect();
    NodePath::new(anchored, names)
}

#[test]
fn test_file_type_classification() {
    let classifier = FileTypeClassifier::new();

    assert_eq!(classifier.classify(&path("test.rs")), "Code");
    assert_eq!(classifier.classify(&path("image.jpg")), "Images");
    assert_eq!(classifier.classify(&path("document.pdf")), "Documents");
    assert_eq!(classifier.classify(&path("archive.zip")), "Archives");
    assert_eq!(classifier.classify(&path("unknown.xyz")), "Other");
}

#[test]
fn test_duration_formatting() {
    let duration = std::time::Duration::from_millis(1500);
    assert_eq!(format_duration(duration), "1.500s");

    let duration = std::time::Duration::from_secs(65);
    assert_eq!(format_duration(duration), "1m 5s");
}

#[test]
fn duration_text_covers_every_range() {
    assert_eq!(format_duration_parts(0, 0), "0ms");
    assert_eq!(format_duration_parts(0, 7), "7ms");
    assert_eq!(format_duration_parts(0, 999), "999ms");
    assert_eq!(format_duration_parts(1, 0), "1.000s");
    assert_eq!(format_duration_parts(1, 5), "1.005s");
    assert_eq!(format_duration_parts(59, 42), "59.042s");
    assert_eq!(format_duration_parts(60, 999), "1m 0s");
    assert_eq!(format_duration_parts(3599, 0), "59m 59s");
    assert_eq!(format_duration_parts(3600, 0), "1h 0m 0s");
    assert_eq!(format_duration_parts(3661, 1), "1h 1m 1s");
    assert_eq!(format_duration_parts(360000, 0), "100h 0m 0s");
    assert_eq!(format_duration(std::time::Duration::from_millis(12)), "12ms");
}

#[test]
fn classification_ignores_case_and_uses_the_last_extension() {
    let classifier = FileTypeClassifier::new();
    assert_eq!(classifier.classify(&path("/photos/HOLIDAY.JPG")), "Images");
    assert_eq!(classifier.classify(&path("backup.tar.gz")), "Archives");
    assert_eq!(classifier.classify(&path("song.Mp3")), "Audio");
    assert_eq!(classifier.classify(&path("clip.mkv")), "Videos");
    assert_eq!(classifier.classify(&path("setup.exe")), "Executables");
    assert_eq!(classifier.classify(&path("notes")), "Other");
    assert_eq!(classifier.classify(&path(".bashrc")), "Other");
    assert_eq!(classifier.classify(&path("trailing.")), "Other");
    assert_eq!(classifier.classify(&path("a/..")), "Other");
    assert_eq!(classifier.classify(&path("")), "Other");
    assert_eq!(classifier.label_for_extension("pdf"), "Documents");
    assert_eq!(classifier.label_for_extension("PDF"), "Other");
}

#[test]
fn extension_follows_the_last_dot() {
    assert_eq!(path("a/b.txt").extension(), Some("txt"));
    assert_eq!(path("a/b.tar.gz").extension(), Some("gz"));
    assert_eq!(path("a/.hidden").extension(), None);
    assert_eq!(path("a/.hidden.txt").extension(), Some("txt"));
    assert_eq!(path("a/name.").extension(), Some(""));
    assert_eq!(path("a/name").extension(), None);
    assert_eq!(path("a/..").extension(), None);
    assert_eq!(path("a/.").extension(), None);
    assert_eq!(path("a/...").extension(), Some(""));
}

#[test]
fn validate_directory_tells_the_two_failures_apart() {
    assert!(validate_directory(true, true, "/data").is_ok());
    match validate_directory(false, false, "/nowhere") {
        Err(error @ DirectoryError::Missing(_)) => {
            assert_eq!(error.message(), "Path does not exist: /nowhere");
        }
        other => panic!("unexpected outcome: {:?}", other),
    }
    match validate_directory(true, false, "/etc/hosts") {
        Err(error @ DirectoryError::NotADirectory(_)) => {
            assert_eq!(error.message(), "Path is not a directory: /etc/hosts");
        }
        other => panic!("unexpected outcome: {:?}", other),
    }
    assert!(matches!(validate_directory(false, true, "x"), Err(DirectoryError::Missing(_))));
}
