//! Paths as bytes.

use macdedup::path::{Component, FilePath};
use std::path::Path;

const PATHS: [&str; 26] = [
    "",
    "/",
    "//",
    ".",
    "..",
    "./",
    "/.",
    "/..",
    "a",
    "a/",
    "a/.",
    "a/./b",
    "./a",
    "/a",
    "/a/",
    "/a//b",
    "/a/b",
    "/a.txt",
    "/a/b/c.txt",
    "a/..",
    "../a",
    "/a/../b",
    "/Library",
    "/home/me/Library",
    "/ä/ö",
    "/a b/c",
];

fn path(text: &str) -> FilePath {
    FilePath::new(text.as_bytes().to_vec())
}

fn shown(component: &Component) -> String {
    match component {
        Component::RootDir => "/".to_string(),
        Component::CurDir => ".".to_string(),
        Component::ParentDir => "..".to_string(),
        Component::Normal(name) => String::from_utf8(name.clone()).unwrap(),
    }
}

#[test]
fn components_are_those_of_std() {
    for text in PATHS {
        let ours: Vec<String> = path(text).components().iter().map(shown).collect();
        let theirs: Vec<String> = Path::new(text)
            .components()
            .map(|c| c.as_os_str().to_str().unwrap().to_string())
            .collect();
        assert_eq!(ours, theirs, "{:?}", text);
    }
}

#[test]
fn file_names_are_those_of_std() {
    for text in PATHS {
        let ours = path(text).file_name();
        let theirs = Path::new(text).file_name().map(|n| n.to_str().unwrap().as_bytes().to_vec());
        assert_eq!(ours, theirs, "{:?}", text);
    }
}

#[test]
fn root_entries_are_those_of_std() {
    for text in PATHS {
        let theirs = Path::new(text).parent().map_or(false, |p| p == Path::new("/"));
        assert_eq!(path(text).in_root(), theirs, "{:?}", text);
    }
}

#[test]
fn order_is_that_of_std() {
    for a in PATHS {
        for b in PATHS {
            assert_eq!(
                path(a).path_at_most(&path(b)),
                Path::new(a) <= Path::new(b),
                "{:?} {:?}",
                a,
                b
            );
        }
    }
}

#[test]
fn order_is_by_component() {
    assert!(path("/a/b").path_at_most(&path("/a.txt")));
    assert!(!path("/a.txt").path_at_most(&path("/a/b")));
    assert!(path("/a//b").path_at_most(&path("/a/b")));
    assert!(path("/a/b").path_at_most(&path("/a//b")));
}

#[test]
fn new_names_are_those_of_std() {
    for text in PATHS {
        let ours = path(text).with_file_name(b"x.tmp");
        let theirs = Path::new(text).with_file_name("x.tmp");
        assert_eq!(ours.bytes, theirs.to_str().unwrap().as_bytes(), "{:?}", text);
    }
}

#[test]
fn a_new_name_stays_in_its_directory() {
    assert_eq!(path("/a/b.txt").with_file_name(b"c").bytes, b"/a/c");
    assert_eq!(path("/b.txt").with_file_name(b"c").bytes, b"/c");
    assert_eq!(path("b.txt").with_file_name(b"c").bytes, b"c");
}

#[test]
fn entries_of_a_directory() {
    assert!(path("/home/me/Library").is_entry_of(&path("/home/me"), b"Library"));
    assert!(path("/home//me/Library/").is_entry_of(&path("/home/me/"), b"Library"));
    assert!(!path("/home/me/library").is_entry_of(&path("/home/me"), b"Library"));
    assert!(!path("/home/me/x/Library").is_entry_of(&path("/home/me"), b"Library"));
    assert!(!path("/home/you/Library").is_entry_of(&path("/home/me"), b"Library"));
}

#[test]
fn display_replaces_what_is_not_text() {
    assert_eq!(path("/ä/b").display(), "/ä/b");
    assert_eq!(FilePath::new(vec![47, 97, 255, 98]).display(), "/a\u{fffd}b");
}

#[test]
fn names_hold_no_separator() {
    for text in PATHS {
        if let Some(name) = path(text).file_name() {
            assert!(!name.contains(&47));
        }
    }
}

#[test]
fn clones_are_equal() {
    assert_eq!(path("/a/b").clone().bytes, b"/a/b");
}
