use diranalyzer::path::NodePath;
use diranalyzer::scanner::aggregate;
use diranalyzer::scanner::DirectoryEntry;
use diranalyzer::scanner::FileEntry;

fn path(text: &str) -> NodePath {
    let anchored = text.starts_with('/');
    let names = text.split('/').filter(|name| !name.is_empty()).map(|name| name.to_string()).collect();
    NodePath::new(anchored, names)
}

fn file(text: &str, size: u64) -> FileEntry {
    let path = path(text);
    let depth = path.len();
    FileEntry { path, size, modified: None, is_symlink: false, depth }
}

fn directory(text: &str) -> DirectoryEntry {
    let path = path(text);
    let depth = path.len();
    DirectoryEntry { path, total_size: 0, file_count: 0, subdirectory_count: 0, depth }
}

fn find<'a>(directories: &'a [DirectoryEntry], text: &str) -> &'a DirectoryEntry {
    let wanted = path(text);
    directories.iter().find(|d| d.path.same_as(&wanted)).unwrap()
}

#[test]
fn aggregate_rolls_sizes_up_to_every_ancestor() {
    let files = vec![
        file("root/a/x.bin", 10),
        file("root/a/y.bin", 10),
        file("root/b/z.bin", 10),
        file("root/a/b/w.bin", 5),
    ];
    let directories = vec![directory("root"), directory("root/a"), directory("root/b"), directory("root/a/b")];
    let out = aggregate(&files, directories);
    assert_eq!(out.len(), 4);
    let a = find(&out, "root/a");
    assert_eq!(a.total_size, 25);
    assert_eq!(a.file_count, 2);
    assert_eq!(a.subdirectory_count, 1);
    let root = find(&out, "root");
    assert_eq!(root.total_size, 35);
    assert_eq!(root.file_count, 0);
    assert_eq!(root.subdirectory_count, 2);
    let b = find(&out, "root/b");
    assert_eq!(b.total_size, 10);
    assert_eq!(b.file_count, 1);
    assert_eq!(b.subdirectory_count, 0);
    let nested = find(&out, "root/a/b");
    assert_eq!(nested.total_size, 5);
    assert_eq!(nested.file_count, 1);
    assert_eq!(nested.subdirectory_count, 0);
}
