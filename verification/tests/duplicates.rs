use diranalyzer::analyzer::DuplicateGroup;
use diranalyzer::grouping::group_entries;
use diranalyzer::duplicates::DuplicateFinder;
use diranalyzer::duplicates::HashingSession;
use diranalyzer::hasher::hash_bytes;
use diranalyzer::hasher::ContentHasher;
use diranalyzer::hasher::CHUNK_SIZE;
use diranalyzer::path::NodePath;
use diranalyzer::scanner::aggregate;
use diranalyzer::scanner::DirectoryEntry;
use diranalyzer::scanner::FileEntry;

fn path(text: &str) -> NodePath {
    let anchored = text.starts_with('/');
    let names = text.split('/').filter(|name| !name.is_empty()).map(|name| name.to_string()).collect();
    NodePath::new(anchored, names)
}

fn file(text: &str, size: u64) -> FileEntry {
    let path = path(text);
    let depth = path.len();
    FileEntry { path, size, modified: None, is_symlink: false, depth }
}

fn link(text: &str, size: u64) -> FileEntry {
    let mut entry = file(text, size);
    entry.is_symlink = true;
    entry
}

fn directory(text: &str) -> DirectoryEntry {
    let path = path(text);
    let depth = path.len();
    DirectoryEntry { path, total_size: 0, file_count: 0, subdirectory_count: 0, depth }
}

fn shown(path: &NodePath) -> String {
    let mut text = if path.anchored { String::from("/") } else { String::new() };
    text.push_str(&path.names.join("/"));
    text
}

fn members(group: &DuplicateGroup) -> Vec<String> {
    group.files.iter().map(shown).collect()
}

fn digests_of(files: &[FileEntry], targets: &[usize], contents: &[Option<&[u8]>]) -> Vec<Option<String>> {
    let mut digests: Vec<Option<String>> = files.iter().map(|_| None).collect();
    for &index in targets {
        digests[index] = contents[index].map(hash_bytes);
    }
    digests
}

#[test]
fn sha256_of_known_contents() {
    assert_eq!(hash_bytes(b""), "e3b0c44298fc1c149afbf4c8996fb92427ae41e4649b934ca495991b7852b855");
    assert_eq!(hash_bytes(b"abc"), "ba7816bf8f01cfea414140de5dae2223b00361a396177a9cb410ff61f20015ad");
    assert_eq!(
        hash_bytes(b"0123456789"),
        "84d89877f0d4041efb6bf91a16f0248f2fd573e6af05c19f96bedb9f882f7882"
    );
}

#[test]
fn chunked_hashing_equals_hashing_at_once() {
    let data: Vec<u8> = (0..(3 * CHUNK_SIZE + 17)).map(|i| (i % 251) as u8).collect();
    let whole = hash_bytes(&data);

    let mut hasher = ContentHasher::new();
    let mut buffer = [0u8; 1000];
    let mut offset = 0;
    loop {
        let step = std::cmp::min(buffer.len(), data.len() - offset);
        buffer[..step].copy_from_slice(&data[offset..offset + step]);
        offset += step;
        if !hasher.absorb(&buffer, step) {
            break;
        }
    }
    assert_eq!(hasher.finish(), whole);

    let mut other = data.clone();
    other[5000] ^= 1;
    assert_ne!(hash_bytes(&other), whole);
}

#[test]
fn absorb_stops_at_an_empty_read() {
    let mut hasher = ContentHasher::new();
    assert!(hasher.absorb(b"abcdef", 3));
    assert!(!hasher.absorb(b"abcdef", 0));
    assert_eq!(hasher.finish(), hash_bytes(b"abc"));
}

#[test]
fn end_to_end_example() {
    let files = vec![
        file("root/a/x.bin", 10),
        file("root/a/y.bin", 10),
        file("root/b/z.bin", 10),
        file("root/a/b/w.bin", 5),
    ];
    let contents: Vec<Option<&[u8]>> = vec![
        Some(b"0123456789".as_slice()),
        Some(b"0123456789".as_slice()),
        Some(b"9876543210".as_slice()),
        Some(b"01234".as_slice()),
    ];
    let directories = vec![directory("root"), directory("root/a"), directory("root/b"), directory("root/a/b")];
    let rolled = aggregate(&files, directories);
    let a = rolled.iter().find(|d| d.path.same_as(&path("root/a"))).unwrap();
    assert_eq!(a.total_size, 25);
    assert_eq!(a.file_count, 2);
    assert_eq!(a.subdirectory_count, 1);

    let finder = DuplicateFinder::new(1, Some(2), None);
    let targets = finder.select_candidates(&files);
    assert_eq!(targets, vec![0, 1, 2]);
    let digests = digests_of(&files, &targets, &contents);
    let groups = finder.find_duplicates(&files, &digests);
    assert_eq!(groups.len(), 1);
    assert_eq!(groups[0].file_size, 10);
    assert_eq!(groups[0].wasted_space, 10);
    assert_eq!(members(&groups[0]), vec!["root/a/x.bin", "root/a/y.bin"]);
    assert_eq!(groups[0].hash, hash_bytes(b"0123456789"));
}

#[test]
fn same_prefix_but_different_size_is_never_hashed() {
    let files = vec![file("d/short.bin", 4), file("d/long.bin", 8)];
    let finder = DuplicateFinder::new(0, Some(1), None);
    assert_eq!(finder.select_candidates(&files), Vec::<usize>::new());
    let same = hash_bytes(b"abcd");
    let digests = vec![Some(same.clone()), Some(same)];
    let groups = finder.find_duplicates(&files, &digests);
    assert!(groups.is_empty());
}

#[test]
fn small_files_and_links_are_left_out() {
    let files = vec![
        file("d/a", 100),
        link("d/b", 100),
        file("d/c", 100),
        file("d/tiny1", 3),
        file("d/tiny2", 3),
        link("d/l1", 500),
        link("d/l2", 500),
    ];
    let finder = DuplicateFinder::new(50, Some(1), None);
    assert_eq!(finder.select_candidates(&files), vec![0, 2]);
    let digest = hash_bytes(b"same");
    let digests: Vec<Option<String>> = files.iter().map(|_| Some(digest.clone())).collect();
    let groups = finder.find_duplicates(&files, &digests);
    assert_eq!(groups.len(), 1);
    assert_eq!(members(&groups[0]), vec!["d/a", "d/c"]);
    assert_eq!(groups[0].wasted_space, 100);
}

#[test]
fn a_file_at_the_minimum_size_is_a_candidate() {
    let files = vec![file("d/a", 1024), file("d/b", 1024), file("d/c", 1023), file("d/e", 1023)];
    let finder = DuplicateFinder::new(1024, None, Some(8));
    assert_eq!(finder.min_size(), 1024);
    assert_eq!(finder.select_candidates(&files), vec![0, 1]);
}

#[test]
fn an_unreadable_file_drops_out_of_its_group() {
    let files = vec![file("d/a", 7), file("d/b", 7), file("d/c", 7)];
    let finder = DuplicateFinder::new(1, Some(1), None);
    assert_eq!(finder.select_candidates(&files), vec![0, 1, 2]);
    let digest = hash_bytes(b"content");

    let digests = vec![Some(digest.clone()), None, Some(digest.clone())];
    let groups = finder.find_duplicates(&files, &digests);
    assert_eq!(groups.len(), 1);
    assert_eq!(members(&groups[0]), vec!["d/a", "d/c"]);
    assert_eq!(groups[0].wasted_space, 7);

    let digests = vec![Some(digest.clone()), None, None];
    let groups = finder.find_duplicates(&files, &digests);
    assert!(groups.is_empty());

    let digests: Vec<Option<String>> = vec![None, None, None];
    assert!(finder.find_duplicates(&files, &digests).is_empty());

    let short: Vec<Option<String>> = vec![Some(digest.clone())];
    assert!(finder.find_duplicates(&files, &short).is_empty());
}

#[test]
fn groups_are_ordered_by_wasted_space() {
    let files = vec![
        file("d/s1", 10),
        file("d/b1", 1000),
        file("d/m1", 100),
        file("d/s2", 10),
        file("d/m2", 100),
        file("d/b2", 1000),
        file("d/m3", 100),
        file("d/s3", 10),
        file("d/s4", 10),
    ];
    let finder = DuplicateFinder::new(1, Some(4), None);
    let digests: Vec<Option<String>> = files
        .iter()
        .map(|f| Some(hash_bytes(f.size.to_string().as_bytes())))
        .collect();
    let groups = finder.find_duplicates(&files, &digests);
    assert_eq!(groups.len(), 3);
    assert_eq!(groups[0].wasted_space, 1000);
    assert_eq!(members(&groups[0]), vec!["d/b1", "d/b2"]);
    assert_eq!(groups[1].wasted_space, 200);
    assert_eq!(members(&groups[1]), vec!["d/m1", "d/m2", "d/m3"]);
    assert_eq!(groups[2].wasted_space, 30);
    assert_eq!(groups[2].file_size, 10);
    assert_eq!(members(&groups[2]), vec!["d/s1", "d/s2", "d/s3", "d/s4"]);
    for group in &groups {
        assert!(group.files.len() >= 2);
        assert_eq!(group.wasted_space, group.file_size * (group.files.len() as u64 - 1));
    }
}

#[test]
fn two_runs_report_the_same_groups() {
    let files: Vec<FileEntry> = (0..40).map(|i| file(&format!("d/f{}", i), 64)).collect();
    let finder_one = DuplicateFinder::new(1, Some(1), None);
    let finder_eight = DuplicateFinder::new(1, Some(8), None);
    let digests: Vec<Option<String>> =
        (0..40).map(|i| Some(hash_bytes(format!("{}", i % 7).as_bytes()))).collect();
    let mut first: Vec<(String, Vec<String>)> = finder_one
        .find_duplicates(&files, &digests)
        .iter()
        .map(|g| (g.hash.clone(), members(g)))
        .collect();
    let mut second: Vec<(String, Vec<String>)> = finder_eight
        .find_duplicates(&files, &digests)
        .iter()
        .map(|g| (g.hash.clone(), members(g)))
        .collect();
    assert_eq!(first.len(), 7);
    first.sort();
    second.sort();
    assert_eq!(first, second);
}

#[test]
fn equal_waste_keeps_the_order_of_the_entries() {
    let files = vec![file("a", 5), file("b", 5), file("c", 5), file("d", 5), file("e", 9), file("f", 9)];
    let entries = vec![
        ("one".to_string(), vec![0, 1]),
        ("single".to_string(), vec![2]),
        ("big".to_string(), vec![4, 5]),
        ("two".to_string(), vec![2, 3]),
        ("empty".to_string(), vec![]),
    ];
    let groups = group_entries(&files, &entries).unwrap();
    let hashes: Vec<&str> = groups.iter().map(|g| g.hash.as_str()).collect();
    assert_eq!(hashes, vec!["big", "one", "two"]);
    assert_eq!(groups[0].wasted_space, 9);
    assert_eq!(groups[1].wasted_space, 5);
    assert_eq!(members(&groups[2]), vec!["c", "d"]);
}

#[test]
fn wasted_space_that_does_not_fit_is_reported() {
    let files = vec![file("a", u64::MAX), file("b", 1), file("c", 1)];
    let entries = vec![("x".to_string(), vec![0, 1, 2])];
    assert!(group_entries(&files, &entries).is_none());
    let entries = vec![("x".to_string(), vec![0, 1])];
    let groups = group_entries(&files, &entries).unwrap();
    assert_eq!(groups[0].wasted_space, u64::MAX);

    let files = vec![file("a", u64::MAX), file("b", u64::MAX), file("c", u64::MAX)];
    let finder = DuplicateFinder::new(1, Some(1), None);
    let digest = hash_bytes(b"x");
    let digests = vec![Some(digest.clone()), Some(digest.clone()), Some(digest)];
    assert!(finder.try_find_duplicates(&files, &digests).is_none());
}

#[test]
fn thread_count_is_never_zero_when_not_configured() {
    assert_eq!(DuplicateFinder::new(0, None, None).thread_count(), 4);
    assert_eq!(DuplicateFinder::new(0, None, Some(0)).thread_count(), 4);
    assert_eq!(DuplicateFinder::new(0, None, Some(12)).thread_count(), 12);
    assert_eq!(DuplicateFinder::new(0, Some(3), Some(12)).thread_count(), 3);
    assert_eq!(DuplicateFinder::new(0, Some(0), Some(12)).thread_count(), 0);
}

#[test]
fn a_session_counts_every_file_once() {
    let files = vec![file("d/a", 7), file("d/b", 7), file("d/c", 7), file("d/lonely", 9)];
    let finder = DuplicateFinder::new(1, Some(2), None);
    let mut session = HashingSession::begin(&finder, &files);
    assert_eq!(session.progress(), (0, 3));
    assert!(!session.is_complete());

    let digest = hash_bytes(b"content");
    assert!(session.record(2, Some(digest.clone())));
    assert_eq!(session.progress(), (1, 3));
    assert!(!session.record(2, None));
    assert_eq!(session.progress(), (1, 3));
    assert!(!session.record(3, Some(digest.clone())));
    assert!(!session.record(17, Some(digest.clone())));
    assert_eq!(session.progress(), (1, 3));
    assert!(session.record(1, None));
    assert_eq!(session.progress(), (2, 3));
    assert!(!session.is_complete());
    assert!(session.record(0, Some(digest.clone())));
    assert_eq!(session.progress(), (3, 3));
    assert!(session.is_complete());

    let groups = session.finish(&finder, &files).unwrap();
    assert_eq!(groups.len(), 1);
    assert_eq!(members(&groups[0]), vec!["d/a", "d/c"]);
}

#[test]
fn the_order_of_hashing_does_not_matter() {
    let files: Vec<FileEntry> = (0..12).map(|i| file(&format!("d/f{}", i), 32)).collect();
    let finder = DuplicateFinder::new(1, Some(4), None);
    let digest_of = |i: usize| Some(hash_bytes(format!("{}", i % 3).as_bytes()));

    let mut forward = HashingSession::begin(&finder, &files);
    for i in 0..12 {
        assert!(forward.record(i, digest_of(i)));
    }
    let mut backward = HashingSession::begin(&finder, &files);
    for i in (0..12).rev() {
        assert!(backward.record(i, digest_of(i)));
    }
    let mut first: Vec<(String, Vec<String>)> =
        forward.finish(&finder, &files).unwrap().iter().map(|g| (g.hash.clone(), members(g))).collect();
    let mut second: Vec<(String, Vec<String>)> =
        backward.finish(&finder, &files).unwrap().iter().map(|g| (g.hash.clone(), members(g))).collect();
    first.sort();
    second.sort();
    assert_eq!(first.len(), 3);
    assert_eq!(first, second);
    assert_eq!(first[0].1.len(), 4);
}

#[test]
fn a_session_without_a_batch_is_complete_at_once() {
    let files = vec![file("d/a", 1), file("d/b", 2)];
    let finder = DuplicateFinder::new(1, None, None);
    let session = HashingSession::begin(&finder, &files);
    assert_eq!(session.progress(), (0, 0));
    assert!(session.is_complete());
    assert!(session.finish(&finder, &files).unwrap().is_empty());
}

#[test]
fn groups_hold_no_more_than_the_candidates() {
    let files = vec![
        file("d/a1", 40),
        file("d/a2", 40),
        file("d/a3", 40),
        file("d/b1", 40),
        file("d/c1", 900),
        file("d/c2", 900),
        file("d/solo", 77),
        link("d/link", 40),
        file("d/tiny", 1),
    ];
    let finder = DuplicateFinder::new(10, Some(1), None);
    let contents = ["a", "a", "a", "b", "c", "c", "s", "a", "a"];
    let digests: Vec<Option<String>> = contents.iter().map(|c| Some(hash_bytes(c.as_bytes()))).collect();
    let groups = finder.find_duplicates(&files, &digests);
    assert_eq!(groups.len(), 2);
    let candidate_total: u64 =
        files.iter().filter(|f| f.size >= 10 && !f.is_symlink).map(|f| f.size).sum();
    let group_total: u64 = groups.iter().map(|g| g.file_size * g.files.len() as u64).sum();
    assert_eq!(candidate_total, 2037);
    assert_eq!(group_total, 1920);
    assert!(group_total <= candidate_total);
    for group in &groups {
        assert!(group.files.len() >= 2);
        for member in &group.files {
            let found = files.iter().find(|f| f.path.same_as(member)).unwrap();
            assert_eq!(found.size, group.file_size);
            assert!(found.size >= 10 && !found.is_symlink);
        }
    }
    assert_eq!(members(&groups[0]), vec!["d/c1", "d/c2"]);
    assert_eq!(members(&groups[1]), vec!["d/a1", "d/a2", "d/a3"]);
}
