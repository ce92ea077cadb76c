//! What is scanned, and how duplicates are found.

use macdedup::funnel::{all_same_inode, duplicate_groups, prefix_candidates, size_candidates};
use macdedup::hashing::{hash_prefix, ContentHasher, HashProgress, PREFIX_LEN};
use macdedup::path::FilePath;
use macdedup::scanner::{
    after_contents, after_prefixes, begin_scan, full_progress, is_excluded, is_excluded_name,
    is_excluded_root, is_library_dir, is_locked, is_package_dir, prefix_progress, EntryMeta, ScanWork, Walk,
    WalkEntry,
};
use macdedup::types::{FileGroup, FileInfo, ScanMessage, ScanPhase};

fn path(text: &str) -> FilePath {
    FilePath::new(text.as_bytes().to_vec())
}

fn file(text: &str, size: u64, inode: u64) -> FileInfo {
    FileInfo { path: path(text), size, inode, device: 1 }
}

fn entry(text: &str, size: u64, inode: u64) -> WalkEntry {
    WalkEntry {
        path: path(text),
        is_file: true,
        meta: Some(EntryMeta { size, inode, device: 1 }),
        flags: 0,
    }
}

fn shown(files: &[FileInfo]) -> Vec<String> {
    let mut paths: Vec<String> = files.iter().map(|f| f.path.display()).collect();
    paths.sort();
    paths
}

fn members(group: &FileGroup) -> Vec<String> {
    group.files.iter().map(|f| f.path.display()).collect()
}

fn full_digest(content: &[u8], step: usize) -> [u8; 32] {
    let mut hasher = ContentHasher::new();
    for chunk in content.chunks(step) {
        assert!(matches!(hasher.on_read(Some(chunk)), HashProgress::More));
    }
    match hasher.on_read(Some(&[])) {
        HashProgress::Finished(digest) => digest,
        other => panic!("{:?}", other),
    }
}

// Exclusion

#[test]
fn packages_are_told_by_their_endings() {
    for name in [
        "X.app",
        "X.bundle",
        "X.framework",
        "X.plugin",
        "X.kext",
        "X.photoslibrary",
        "X.imovielibrary",
        "X.aplibrary",
        "X.rtfd",
        "X.xcodeproj",
        "X.xcworkspace",
        "X.playground",
        "X.pages",
        "X.numbers",
        "X.key",
        "X.sparsebundle",
        ".app",
    ] {
        assert!(is_package_dir(name), "{}", name);
    }
    for name in ["app", "X.App", "X.app.old", "X.keys", ""] {
        assert!(!is_package_dir(name), "{}", name);
    }
}

#[test]
fn library_of_the_root_and_of_the_user() {
    let home = Some(path("/Users/me"));
    assert!(is_library_dir(&path("/Library"), &home));
    assert!(is_library_dir(&path("/Library"), &None));
    assert!(is_library_dir(&path("/Users/me/Library"), &home));
    assert!(is_library_dir(&path("/Users/me//Library"), &home));
    assert!(!is_library_dir(&path("/Users/me/Library"), &None));
    assert!(!is_library_dir(&path("/Users/you/Library"), &home));
    assert!(!is_library_dir(&path("/Users/me/Library/Caches"), &home));
    assert!(!is_library_dir(&path("Library"), &home));
}

#[test]
fn packages_are_excluded_as_directories_only() {
    assert!(is_excluded(&path("/x/Some.app"), true, false, &None));
    assert!(!is_excluded(&path("/x/Some.app"), false, false, &None));
}

#[test]
fn system_directories_are_excluded_at_the_top_only() {
    for name in ["System", "dev", "private", "cores", "proc"] {
        assert!(is_excluded(&path(&format!("/{}", name)), true, true, &None));
        assert!(!is_excluded(&path(&format!("/x/{}", name)), true, true, &None));
        assert!(!is_excluded(&path(name), true, true, &None));
    }
    assert!(!is_excluded(&path("/Users"), true, false, &None));
}

#[test]
fn libraries_are_excluded_unless_asked_for() {
    let home = Some(path("/Users/me"));
    assert!(is_excluded(&path("/Library"), true, false, &home));
    assert!(!is_excluded(&path("/Library"), true, true, &home));
    assert!(is_excluded(&path("/Users/me/Library"), true, false, &home));
    assert!(!is_excluded(&path("/Users/me/Library"), true, true, &home));
}

#[test]
fn roots_inside_excluded_directories_are_excluded() {
    let home = Some(path("/Users/me"));
    for text in [
        "/Library/Caches",
        "/Library//Caches/x/",
        "/Users/me/Library/Caches",
        "/System/Volumes",
        "/dev/fd",
        "/private/tmp",
        "/cores/a/b",
        "/Applications/X.app/Contents",
        "X.app/Contents",
        "./X.app/./Contents",
    ] {
        assert!(is_excluded_root(&path(text), false, &home), "{}", text);
    }
    for text in [
        "",
        "/",
        ".",
        "/Library",
        "/System",
        "/Applications/X.app",
        "/Users/me",
        "/Users/me/Library",
        "/Users/you/Library/Caches",
        "/x/System/y",
        "/proc",
        "/proc/1",
        "Library/Caches",
        "../x/y",
    ] {
        assert!(!is_excluded_root(&path(text), false, &home), "{}", text);
    }
}

#[test]
fn libraries_that_are_asked_for_exclude_no_root() {
    let home = Some(path("/Users/me"));
    assert!(!is_excluded_root(&path("/Library/Caches"), true, &home));
    assert!(!is_excluded_root(&path("/Users/me/Library/Caches"), true, &home));
    assert!(is_excluded_root(&path("/System/Volumes"), true, &home));
    assert!(!is_excluded_root(&path("/Users/me/Library/Caches"), false, &None));
    assert!(!is_library_dir(&path("/Users/me/Library/Caches"), &home));
}

#[test]
fn nothing_inside_the_library_is_reported() {
    let root = path("/Library/Caches");
    let entries = [entry("/Library/Caches/a", 2, 1), entry("/Library/Caches/b", 2, 2)];
    let mut walk = Walk::new(1);
    for found in entries {
        if !is_excluded_root(&root, false, &None) && !is_excluded(&found.path, false, false, &None)
        {
            walk.visit(found);
        }
    }
    let step = walk.finish();
    assert!(matches!(step.next, ScanWork::Finished));
    assert!(matches!(step.messages.last(), Some(ScanMessage::Done(groups)) if groups.is_empty()));
}

/// The files that a walk from a root finds in a tree, which lists directories before what they
/// hold.
fn walk_tree(root: &str, tree: &[(&str, bool)]) -> Vec<String> {
    let mut found: Vec<String> = vec![];
    let mut open: Vec<String> = vec![];
    if is_excluded_root(&path(root), false, &None) {
        return found;
    }
    for (place, is_dir) in tree {
        let inside = *place == root || open.iter().any(|dir| {
            place.strip_prefix(dir.as_str()).map_or(false, |rest| {
                rest.starts_with('/') && !rest[1..].contains('/')
            })
        });
        if inside && !is_excluded(&path(place), *is_dir, false, &None) {
            if *is_dir {
                open.push(place.to_string());
            } else {
                found.push(place.to_string());
            }
        }
    }
    found
}

#[test]
fn a_walk_finds_nothing_below_an_excluded_directory() {
    let tree = [
        ("/x", true),
        ("/x/a", false),
        ("/x/P.app", true),
        ("/x/P.app/in", true),
        ("/x/P.app/in/b", false),
        ("/x/sub", true),
        ("/x/sub/c.app", false),
        ("/Library", true),
        ("/Library/Caches", true),
        ("/Library/Caches/d", false),
    ];
    assert_eq!(walk_tree("/x", &tree), ["/x/a", "/x/sub/c.app"]);
    assert!(walk_tree("/x/P.app", &tree).is_empty());
    assert!(walk_tree("/x/P.app/in", &tree).is_empty());
    assert!(walk_tree("/Library", &tree).is_empty());
    assert!(walk_tree("/Library/Caches", &tree).is_empty());
}

#[test]
fn nothing_without_a_name_is_excluded() {
    for text in ["/", ".", "..", "a/.."] {
        assert!(!is_excluded(&path(text), true, false, &None), "{}", text);
    }
}

#[test]
fn names_that_are_not_text_are_looked_at_too() {
    let mut bytes = b"/x/".to_vec();
    bytes.push(255);
    bytes.extend_from_slice(b".app");
    assert!(is_excluded(&FilePath::new(bytes), true, false, &None));
}

#[test]
fn exclusion_by_name() {
    assert!(is_excluded_name("X.app", true, false, false, false));
    assert!(!is_excluded_name("X.app", false, false, false, false));
    assert!(is_excluded_name("dev", true, true, false, true));
    assert!(!is_excluded_name("dev", true, false, false, true));
    assert!(is_excluded_name("Library", true, false, true, false));
    assert!(!is_excluded_name("Library", true, false, true, true));
}

#[test]
fn immutable_files_are_locked() {
    assert!(is_locked(0x0002));
    assert!(is_locked(0x0002_0000));
    assert!(is_locked(0x0002_8002));
    assert!(!is_locked(0));
    assert!(!is_locked(0x8001));
}

// The walk

#[test]
fn a_walk_takes_plain_files_that_are_large_enough() {
    let mut walk = Walk::new(10);
    walk.visit(entry("/x/a", 10, 1));
    walk.visit(entry("/x/small", 9, 2));
    walk.visit(WalkEntry { is_file: false, ..entry("/x/dir", 10, 3) });
    walk.visit(WalkEntry { meta: None, ..entry("/x/gone", 10, 4) });
    walk.visit(WalkEntry { flags: 0x0002, ..entry("/x/locked", 10, 5) });
    walk.visit(WalkEntry { flags: 0x8000, ..entry("/x/hidden", 11, 6) });
    assert_eq!(shown(&walk.files), ["/x/a", "/x/hidden"]);
    assert_eq!(walk.files[1].size, 11);
    assert_eq!(walk.files[1].inode, 6);
    assert_eq!(walk.files[1].device, 1);
}

#[test]
fn a_walk_reports_every_two_hundredth_file() {
    let mut walk = Walk::new(0);
    for i in 1..=400u64 {
        let message = walk.visit(entry(&format!("/x/{}", i), i, i));
        match message {
            Some(ScanMessage::Progress { done, total }) => {
                assert_eq!((done, total), (i, 0));
                assert!(i == 200 || i == 400);
            }
            None => assert!(i % 200 != 0),
            other => panic!("{:?}", other),
        }
    }
}

#[test]
fn a_scan_begins_with_the_walk() {
    assert!(matches!(begin_scan(), ScanMessage::Phase(ScanPhase::Walking)));
}

#[test]
fn a_walk_without_equal_sizes_ends_the_scan() {
    let mut walk = Walk::new(1);
    walk.visit(entry("/x/a", 1, 1));
    walk.visit(entry("/x/b", 2, 2));
    let step = walk.finish();
    assert!(matches!(step.next, ScanWork::Finished));
    assert_eq!(step.messages.len(), 3);
    assert!(matches!(step.messages[0], ScanMessage::Progress { done: 2, total: 2 }));
    assert!(matches!(step.messages[1], ScanMessage::Phase(ScanPhase::Grouping)));
    assert!(matches!(&step.messages[2], ScanMessage::Done(groups) if groups.is_empty()));
}

#[test]
fn a_walk_with_equal_sizes_leads_to_quick_digests() {
    let mut walk = Walk::new(1);
    walk.visit(entry("/x/a", 5, 1));
    walk.visit(entry("/x/b", 2, 2));
    walk.visit(entry("/x/c", 5, 3));
    let step = walk.finish();
    assert_eq!(step.messages.len(), 3);
    assert!(matches!(step.messages[2], ScanMessage::Phase(ScanPhase::PrefixHashing)));
    match step.next {
        ScanWork::HashPrefixes(files) => assert_eq!(shown(&files), ["/x/a", "/x/c"]),
        other => panic!("{:?}", other),
    }
}

#[test]
fn different_quick_digests_end_the_scan() {
    let step = after_prefixes(
        vec![file("/a", 5, 1), file("/b", 5, 2), file("/c", 5, 3)],
        &vec![Some([1; 32]), Some([2; 32]), None],
    );
    assert!(matches!(step.next, ScanWork::Finished));
    assert_eq!(step.messages.len(), 1);
    assert!(matches!(&step.messages[0], ScanMessage::Done(groups) if groups.is_empty()));
}

#[test]
fn equal_quick_digests_lead_to_full_ones() {
    let step = after_prefixes(
        vec![file("/a", 5, 1), file("/b", 5, 2), file("/c", 5, 3)],
        &vec![Some([1; 32]), Some([2; 32]), Some([1; 32])],
    );
    assert_eq!(step.messages.len(), 1);
    assert!(matches!(step.messages[0], ScanMessage::Phase(ScanPhase::FullHashing)));
    match step.next {
        ScanWork::HashContents(files) => assert_eq!(shown(&files), ["/a", "/c"]),
        other => panic!("{:?}", other),
    }
}

#[test]
fn progress_of_quick_digests() {
    assert!(matches!(
        prefix_progress(100, 250),
        Some(ScanMessage::Progress { done: 100, total: 250 })
    ));
    assert!(prefix_progress(99, 250).is_none());
    assert!(prefix_progress(20, 250).is_none());
}

#[test]
fn progress_of_full_digests() {
    assert!(matches!(
        full_progress(20, 250),
        Some(ScanMessage::Progress { done: 20, total: 250 })
    ));
    assert!(full_progress(21, 250).is_none());
}

// The stages

#[test]
fn hard_links_to_one_file() {
    assert!(all_same_inode(&[file("/a", 1, 7), file("/b", 1, 7)]));
    assert!(!all_same_inode(&[file("/a", 1, 7), file("/b", 1, 8)]));
    let mut elsewhere = file("/b", 1, 7);
    elsewhere.device = 2;
    assert!(!all_same_inode(&[file("/a", 1, 7), elsewhere]));
}

#[test]
fn sizes_that_occur_once_are_dropped() {
    let kept = size_candidates(vec![file("/a", 1, 1), file("/b", 2, 2), file("/c", 1, 3)]);
    assert_eq!(shown(&kept), ["/a", "/c"]);
}

#[test]
fn links_to_one_file_are_dropped() {
    let kept = size_candidates(vec![file("/a", 1, 1), file("/b", 1, 1)]);
    assert!(kept.is_empty());
    let kept = size_candidates(vec![file("/a", 1, 1), file("/b", 1, 1), file("/c", 1, 2)]);
    assert_eq!(shown(&kept), ["/a", "/b", "/c"]);
}

#[test]
fn size_is_part_of_the_quick_comparison() {
    let kept = prefix_candidates(
        vec![file("/a", 1, 1), file("/b", 2, 2), file("/c", 2, 3)],
        &vec![Some([9; 32]), Some([9; 32]), Some([9; 32])],
    );
    assert_eq!(shown(&kept), ["/b", "/c"]);
}

#[test]
fn groups_are_ordered_by_savings_and_files_by_path() {
    let files = vec![
        file("/z", 5, 1),
        file("/m", 100, 2),
        file("/a/b", 5, 3),
        file("/a.txt", 5, 4),
        file("/k", 100, 5),
        file("/single", 100, 6),
        file("/unread", 5, 7),
    ];
    let digests = vec![
        Some([1; 32]),
        Some([2; 32]),
        Some([1; 32]),
        Some([1; 32]),
        Some([2; 32]),
        Some([3; 32]),
        None,
    ];
    let groups = duplicate_groups(files, &digests);
    assert_eq!(groups.len(), 2);
    assert_eq!(members(&groups[0]), ["/k", "/m"]);
    assert_eq!(members(&groups[1]), ["/a/b", "/a.txt", "/z"]);
    assert_eq!((groups[0].size, groups[1].size), (100, 5));
    assert_eq!((groups[0].savings(), groups[1].savings()), (100, 10));
    assert!(groups[0].selected && groups[1].selected);
}

#[test]
fn a_group_of_links_alone_is_no_group() {
    let groups = duplicate_groups(
        vec![file("/a", 5, 1), file("/b", 5, 1)],
        &vec![Some([1; 32]), Some([1; 32])],
    );
    assert!(groups.is_empty());
}

#[test]
fn savings_saturate() {
    let group = FileGroup {
        size: u64::MAX,
        files: vec![file("/a", u64::MAX, 1), file("/b", u64::MAX, 2), file("/c", u64::MAX, 3)],
        selected: true,
    };
    assert_eq!(group.savings(), u64::MAX);
    let empty = FileGroup { size: 7, files: vec![], selected: true };
    assert_eq!(empty.savings(), 0);
    let one = FileGroup { size: 7, files: vec![file("/a", 7, 1)], selected: true };
    assert_eq!(one.savings(), 0);
}

#[test]
fn clones_of_groups_are_equal() {
    let group = FileGroup { size: 5, files: vec![file("/a", 5, 1), file("/b", 5, 2)], selected: false };
    let copy = group.clone();
    assert_eq!(members(&copy), members(&group));
    assert_eq!((copy.size, copy.selected), (5, false));
    assert_eq!((copy.files[1].inode, copy.files[1].device), (2, 1));
}

#[test]
fn labels_of_the_phases() {
    assert_eq!(ScanPhase::Walking.label(), "Scanning files");
    assert_eq!(ScanPhase::Grouping.label(), "Grouping by size");
    assert_eq!(ScanPhase::PrefixHashing.label(), "Quick-hashing candidates");
    assert_eq!(ScanPhase::FullHashing.label(), "Computing full checksums");
}

// Digests

#[test]
fn the_digest_of_nothing() {
    let expected: [u8; 32] = [
        0xaf, 0x13, 0x49, 0xb9, 0xf5, 0xf9, 0xa1, 0xa6, 0xa0, 0x40, 0x4d, 0xea, 0x36, 0xdc, 0xc9,
        0x49, 0x9b, 0xcb, 0x25, 0xc9, 0xad, 0xc1, 0x12, 0xb7, 0xcc, 0x9a, 0x93, 0xca, 0xe4, 0x1f,
        0x32, 0x62,
    ];
    assert_eq!(hash_prefix(&[]), expected);
    assert_eq!(full_digest(&[], 1), expected);
}

#[test]
fn the_quick_digest_covers_the_first_bytes() {
    let content: Vec<u8> = (0..10_000u32).map(|i| (i % 251) as u8).collect();
    assert_eq!(hash_prefix(&content), *blake3::hash(&content[..PREFIX_LEN]).as_bytes());
    assert_eq!(hash_prefix(&content[..100]), *blake3::hash(&content[..100]).as_bytes());
    assert_eq!(hash_prefix(&content[..4096]), hash_prefix(&content[..4097]));
    assert_ne!(hash_prefix(&content[..4095]), hash_prefix(&content[..4096]));
}

#[test]
fn the_full_digest_covers_everything() {
    let content: Vec<u8> = (0..200_000u32).map(|i| (i % 253) as u8).collect();
    let expected = *blake3::hash(&content).as_bytes();
    assert_eq!(full_digest(&content, 65_536), expected);
    assert_eq!(full_digest(&content, 1_000), expected);
    assert_ne!(full_digest(&content[1..], 65_536), expected);
}

#[test]
fn a_read_that_fails_gives_no_digest() {
    let mut hasher = ContentHasher::new();
    assert!(matches!(hasher.on_read(Some(b"abc")), HashProgress::More));
    assert!(matches!(hasher.on_read(None), HashProgress::Failed));
}

// The whole scan, on contents in memory

fn scan(contents: &[(&str, u64, Vec<u8>)]) -> Vec<FileGroup> {
    let content_of = |file: &FileInfo| {
        let shown = file.path.display();
        contents.iter().find(|c| c.0 == shown).unwrap().2.clone()
    };
    let mut walk = Walk::new(1);
    for (name, inode, content) in contents {
        walk.visit(entry(name, content.len() as u64, *inode));
    }
    let files = match walk.finish().next {
        ScanWork::HashPrefixes(files) => files,
        _ => return vec![],
    };
    let digests = files.iter().map(|f| Some(hash_prefix(&content_of(f)))).collect();
    let files = match after_prefixes(files, &digests).next {
        ScanWork::HashContents(files) => files,
        _ => return vec![],
    };
    let digests = files.iter().map(|f| Some(full_digest(&content_of(f), 65_536))).collect();
    match after_contents(files, &digests) {
        ScanMessage::Done(groups) => groups,
        other => panic!("{:?}", other),
    }
}

#[test]
fn identical_files_are_found_and_others_are_not() {
    let mut long = vec![7u8; 5_000];
    let same = long.clone();
    long[4_999] = 8;
    let mut early = same.clone();
    early[0] = 9;
    let groups = scan(&[
        ("/d/one", 1, same.clone()),
        ("/d/two", 2, same.clone()),
        ("/d/late", 3, long),
        ("/d/early", 4, early),
        ("/d/short", 5, vec![7u8; 10]),
        ("/c/short", 6, vec![7u8; 10]),
        ("/d/link", 6, vec![7u8; 10]),
        ("/d/empty", 8, vec![]),
        ("/d/void", 9, vec![]),
    ]);
    assert_eq!(groups.len(), 2);
    assert_eq!(members(&groups[0]), ["/d/one", "/d/two"]);
    assert_eq!(members(&groups[1]), ["/c/short", "/d/link", "/d/short"]);
}

#[test]
fn stages_report_what_a_direct_comparison_reports() {
    let contents: Vec<(String, u64, Vec<u8>)> = (0..40u64)
        .map(|i| {
            let len: usize = 4_000 + (i as usize % 3) * 100;
            let mut content = vec![(i % 2) as u8; len];
            content[len - 1] = (i % 5) as u8;
            (format!("/f{:02}", i), i + 1, content)
        })
        .collect();
    let borrowed: Vec<(&str, u64, Vec<u8>)> =
        contents.iter().map(|c| (c.0.as_str(), c.1, c.2.clone())).collect();
    let staged = scan(&borrowed);
    let files: Vec<FileInfo> =
        contents.iter().map(|c| file(&c.0, c.2.len() as u64, c.1)).collect();
    let digests: Vec<Option<[u8; 32]>> =
        contents.iter().map(|c| Some(full_digest(&c.2, 512))).collect();
    let direct = duplicate_groups(files, &digests);
    let mut left: Vec<Vec<String>> = staged.iter().map(members).collect();
    let mut right: Vec<Vec<String>> = direct.iter().map(members).collect();
    left.sort();
    right.sort();
    assert!(!left.is_empty());
    assert_eq!(left, right);
}
