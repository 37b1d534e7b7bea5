use std::collections::HashMap;
use std::path::Path;

use drawstack::entry::{DirEntry, EntryKind, PathInfo};
use drawstack::scan::{ListOutcome, ScanError, ScanStatus, Scanner};

/// The text forms of a path, as the platform's path rules derive them.
fn info(path: &str, root: &str) -> PathInfo {
    let p = Path::new(path);
    PathInfo {
        full: p.to_string_lossy().to_string(),
        file_name: p.file_name().and_then(|n| n.to_str()).map(|n| n.to_string()),
        extension: p.extension().and_then(|e| e.to_str()).map(|e| e.to_string()),
        parent: p.parent().map(|d| d.to_string_lossy().to_string()),
        parent_name: p
            .parent()
            .and_then(|d| d.file_name())
            .and_then(|n| n.to_str())
            .map(|n| n.to_string()),
        relative_parent: p
            .strip_prefix(root)
            .ok()
            .and_then(|r| r.parent())
            .and_then(|d| d.to_str())
            .map(|d| d.to_string()),
    }
}

enum Content {
    Listing(Vec<(&'static str, EntryKind)>),
    Unreadable(&'static str),
}

struct Tree {
    root: &'static str,
    directories: HashMap<String, Content>,
}

impl Tree {
    fn new(root: &'static str) -> Tree {
        Tree { root, directories: HashMap::new() }
    }

    fn directory(mut self, path: &str, entries: Vec<(&'static str, EntryKind)>) -> Tree {
        self.directories.insert(path.to_string(), Content::Listing(entries));
        self
    }

    fn unreadable(mut self, path: &str, reason: &'static str) -> Tree {
        self.directories.insert(path.to_string(), Content::Unreadable(reason));
        self
    }

    fn list(&self, directory: &str) -> ListOutcome {
        match self.directories.get(directory) {
            None => ListOutcome::Missing,
            Some(Content::Unreadable(reason)) => ListOutcome::Unreadable(reason.to_string()),
            Some(Content::Listing(entries)) => ListOutcome::Entries(
                entries
                    .iter()
                    .map(|(name, kind)| DirEntry {
                        path: info(&format!("{}/{}", directory, name), self.root),
                        kind: *kind,
                    })
                    .collect(),
            ),
        }
    }

    /// Drives a scanner over the tree; also says which directories were listed.
    fn scan(&self) -> (Result<Vec<PathInfo>, ScanError>, Vec<String>) {
        let mut scanner = Scanner::begin(self.root.to_string());
        let mut listed = Vec::new();
        loop {
            let directory = match scanner.pending() {
                Some(directory) => directory.clone(),
                None => break,
            };
            let outcome = self.list(&directory);
            listed.push(directory);
            scanner.accept(outcome);
        }
        match scanner.finish() {
            Ok(result) => (result, listed),
            Err(_) => panic!("the scan still waits for a listing"),
        }
    }
}

fn paths(found: &[PathInfo]) -> Vec<String> {
    found.iter().map(|p| p.full.clone()).collect()
}

const FILE: EntryKind = EntryKind::File;
const DIR: EntryKind = EntryKind::Directory;

#[test]
fn scan_finds_images_in_root_and_below() {
    let tree = Tree::new("/root")
        .directory("/root", vec![("a.png", FILE), ("b.txt", FILE), ("sub", DIR)])
        .directory("/root/sub", vec![("c.jpg", FILE)]);
    let (result, listed) = tree.scan();
    assert_eq!(paths(&result.unwrap()), vec!["/root/a.png", "/root/sub/c.jpg"]);
    assert_eq!(listed, vec!["/root", "/root/sub"]);
}

#[test]
fn scan_keeps_the_order_of_the_listing_and_walks_in_depth() {
    let tree = Tree::new("/r")
        .directory("/r", vec![("a.png", FILE), ("sub", DIR), ("z.png", FILE), ("other", DIR)])
        .directory("/r/sub", vec![("deep", DIR), ("c.jpg", FILE)])
        .directory("/r/sub/deep", vec![("d.GIF", FILE), ("notes.md", FILE)])
        .directory("/r/other", vec![("e.bmp", FILE)]);
    let (result, listed) = tree.scan();
    assert_eq!(
        paths(&result.unwrap()),
        vec!["/r/a.png", "/r/sub/deep/d.GIF", "/r/sub/c.jpg", "/r/z.png", "/r/other/e.bmp"]
    );
    assert_eq!(listed, vec!["/r", "/r/sub", "/r/sub/deep", "/r/other"]);
}

#[test]
fn scan_returns_exactly_the_image_files() {
    let tree = Tree::new("/r")
        .directory(
            "/r",
            vec![
                ("one.JPG", FILE),
                ("two.jpeg", FILE),
                ("three.Png", FILE),
                ("four.webp", FILE),
                ("five.gif", FILE),
                ("six.BMP", FILE),
                ("seven.tiff", FILE),
                ("eight", FILE),
                ("nine.png.txt", FILE),
                (".png", FILE),
                ("link.png", EntryKind::Other),
                ("folder.png", DIR),
            ],
        )
        .directory("/r/folder.png", vec![("inner.webp", FILE), ("inner.doc", FILE)]);
    let (result, _) = tree.scan();
    assert_eq!(
        paths(&result.unwrap()),
        vec![
            "/r/one.JPG",
            "/r/two.jpeg",
            "/r/three.Png",
            "/r/four.webp",
            "/r/five.gif",
            "/r/six.BMP",
            "/r/folder.png/inner.webp",
        ]
    );
}

#[test]
fn scan_of_an_empty_directory_finds_nothing() {
    let tree = Tree::new("/r").directory("/r", vec![]);
    let (result, listed) = tree.scan();
    assert_eq!(result.unwrap(), Vec::<PathInfo>::new());
    assert_eq!(listed, vec!["/r"]);
}

#[test]
fn scan_of_directories_without_images_finds_nothing() {
    let tree = Tree::new("/r")
        .directory("/r", vec![("a", DIR), ("b", DIR)])
        .directory("/r/a", vec![("c", DIR)])
        .directory("/r/a/c", vec![])
        .directory("/r/b", vec![("readme.txt", FILE)]);
    let (result, listed) = tree.scan();
    assert_eq!(result.unwrap(), Vec::<PathInfo>::new());
    assert_eq!(listed, vec!["/r", "/r/a", "/r/a/c", "/r/b"]);
}

#[test]
fn scan_fails_when_root_does_not_exist() {
    let tree = Tree::new("/nowhere");
    let (result, listed) = tree.scan();
    assert_eq!(result, Err(ScanError::PathNotFound { path: "/nowhere".to_string() }));
    assert_eq!(listed, vec!["/nowhere"]);
    assert_eq!(
        ScanError::PathNotFound { path: "/nowhere".to_string() }.message(),
        "Path does not exist: /nowhere"
    );
}

#[test]
fn scan_is_given_up_at_an_unreadable_directory() {
    let tree = Tree::new("/r")
        .directory("/r", vec![("a.png", FILE), ("locked", DIR), ("later", DIR)])
        .unreadable("/r/locked", "Permission denied (os error 13)")
        .directory("/r/later", vec![("b.png", FILE)]);
    let (result, listed) = tree.scan();
    let error = result.unwrap_err();
    assert_eq!(
        error,
        ScanError::DirectoryUnreadable {
            path: "/r/locked".to_string(),
            reason: "Permission denied (os error 13)".to_string(),
        }
    );
    assert_eq!(
        error.message(),
        "Failed to read directory /r/locked: Permission denied (os error 13)"
    );
    // The directories behind the unreadable one are not listed any more.
    assert_eq!(listed, vec!["/r", "/r/locked"]);
}

#[test]
fn scan_fails_when_a_directory_vanished() {
    let tree = Tree::new("/r").directory("/r", vec![("gone", DIR), ("a.png", FILE)]);
    let (result, _) = tree.scan();
    assert_eq!(result, Err(ScanError::PathNotFound { path: "/r/gone".to_string() }));
}

#[test]
fn scanning_twice_gives_the_same_paths() {
    let tree = Tree::new("/r")
        .directory("/r", vec![("b.png", FILE), ("x", DIR), ("a.png", FILE)])
        .directory("/r/x", vec![("c.gif", FILE), ("y", DIR)])
        .directory("/r/x/y", vec![("d.webp", FILE)]);
    let (first, _) = tree.scan();
    let (second, _) = tree.scan();
    assert_eq!(first, second);
    assert_eq!(paths(&first.unwrap()).len(), 4);
}

#[test]
fn a_new_scanner_waits_for_its_root() {
    let scanner = Scanner::begin("/r".to_string());
    assert_eq!(scanner.pending(), Some(&"/r".to_string()));
    assert_eq!(scanner.status(), &ScanStatus::Listing("/r".to_string()));
    assert!(scanner.finish().is_err());
}

#[test]
fn a_scanner_that_ended_takes_no_more_listings() {
    let mut scanner = Scanner::begin("/r".to_string());
    scanner.accept(ListOutcome::Entries(vec![DirEntry { path: info("/r/a.png", "/r"), kind: FILE }]));
    assert_eq!(scanner.status(), &ScanStatus::Done);
    assert_eq!(scanner.pending(), None);
    scanner.accept(ListOutcome::Entries(vec![DirEntry { path: info("/r/b.png", "/r"), kind: FILE }]));
    scanner.accept(ListOutcome::Missing);
    assert_eq!(scanner.status(), &ScanStatus::Done);
    let found = scanner.finish().ok().unwrap().unwrap();
    assert_eq!(paths(&found), vec!["/r/a.png"]);

    let mut failed = Scanner::begin("/r".to_string());
    failed.accept(ListOutcome::Missing);
    failed.accept(ListOutcome::Entries(vec![]));
    assert_eq!(
        failed.status(),
        &ScanStatus::Failed(ScanError::PathNotFound { path: "/r".to_string() })
    );
}

#[test]
fn found_images_carry_their_text_forms() {
    let tree = Tree::new("/root")
        .directory("/root", vec![("sub", DIR)])
        .directory("/root/sub", vec![("c.jpg", FILE)]);
    let (result, _) = tree.scan();
    let found = result.unwrap();
    assert_eq!(found.len(), 1);
    assert_eq!(found[0].full, "/root/sub/c.jpg");
    assert_eq!(found[0].file_name, Some("c.jpg".to_string()));
    assert_eq!(found[0].extension, Some("jpg".to_string()));
    assert_eq!(found[0].parent, Some("/root/sub".to_string()));
    assert_eq!(found[0].parent_name, Some("sub".to_string()));
    assert_eq!(found[0].relative_parent, Some("sub".to_string()));
}

#[test]
fn a_deep_chain_of_directories_is_walked_to_its_end() {
    let mut tree = Tree::new("/r");
    let mut path = "/r".to_string();
    for _ in 0..300 {
        tree = tree.directory(&path, vec![("d", DIR), ("p.png", FILE)]);
        path = format!("{}/d", path);
    }
    tree = tree.directory(&path, vec![("last.png", FILE)]);
    let (result, listed) = tree.scan();
    let found = result.unwrap();
    assert_eq!(found.len(), 301);
    assert_eq!(listed.len(), 301);
    assert_eq!(found[0].full, format!("{}/last.png", path));
    assert_eq!(found[300].full, "/r/p.png");
}
