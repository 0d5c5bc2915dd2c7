use replit_takeout::{DirEntry, EntryKind, WalkAction, Walker};

fn dir(name: &str) -> DirEntry {
    DirEntry { name: name.to_string(), kind: EntryKind::Directory }
}

fn file(name: &str) -> DirEntry {
    DirEntry { name: name.to_string(), kind: EntryKind::Regular }
}

fn expect_readdir(w: &mut Walker) -> String {
    match w.next_action() {
        WalkAction::Readdir(p) => p,
        other => panic!("expected a listing request, got {:?}", other),
    }
}

fn expect_stat(w: &mut Walker) -> String {
    match w.next_action() {
        WalkAction::Stat(p) => p,
        other => panic!("expected a size request, got {:?}", other),
    }
}

#[test]
fn ignored_directory_is_never_walked_or_emitted() {
    let mut w = Walker::new(50_000_000);
    assert_eq!(expect_readdir(&mut w), "");
    w.on_listing(&vec![dir("node_modules"), dir("src")]);
    // Only `src` was queued: the ignored directory is gone entirely.
    assert_eq!(expect_readdir(&mut w), "src");
    w.on_listing(&vec![file("main.py")]);
    assert_eq!(expect_stat(&mut w), "src/main.py");
    w.on_stat(120);
    assert!(matches!(w.next_action(), WalkAction::Done));
    assert_eq!(w.emitted(), &vec!["src/main.py".to_string()]);
}

#[test]
fn ignored_file_name_is_dropped() {
    let mut w = Walker::new(50_000_000);
    expect_readdir(&mut w);
    w.on_listing(&vec![file("package-lock.json"), file("app.js")]);
    assert_eq!(expect_stat(&mut w), "app.js");
    w.on_stat(5);
    assert!(matches!(w.next_action(), WalkAction::Done));
    assert_eq!(w.emitted(), &vec!["app.js".to_string()]);
}

#[test]
fn similar_name_is_not_a_substring_match() {
    let mut w = Walker::new(50_000_000);
    expect_readdir(&mut w);
    // Only exact segment matches are ignored.
    w.on_listing(&vec![file("node_modules_backup"), file("my_dist.txt")]);
    let mut emitted = Vec::new();
    loop {
        match w.next_action() {
            WalkAction::Stat(_) => {
                w.on_stat(1);
            },
            WalkAction::Done => break,
            other => panic!("unexpected action {:?}", other),
        }
        for p in w.emitted() {
            if !emitted.contains(p) {
                emitted.push(p.clone());
            }
        }
    }
    assert!(emitted.contains(&"node_modules_backup".to_string()));
    assert!(emitted.contains(&"my_dist.txt".to_string()));
}

#[test]
fn oversized_file_is_skipped() {
    let mut w = Walker::new(100);
    expect_readdir(&mut w);
    w.on_listing(&vec![file("big.bin"), file("small.txt")]);
    expect_stat(&mut w);
    w.on_stat(101);
    expect_stat(&mut w);
    w.on_stat(100);
    assert!(matches!(w.next_action(), WalkAction::Done));
    assert_eq!(w.emitted().len(), 1);
}

#[test]
fn conflicting_backup_directory_fails_the_walk() {
    let mut w = Walker::new(50_000_000);
    expect_readdir(&mut w);
    w.on_listing(&vec![dir(".replit-takeout-otbackup")]);
    assert!(matches!(w.next_action(), WalkAction::Fail));
}

#[test]
fn git_directory_sets_flag_and_is_still_walked() {
    let mut w = Walker::new(50_000_000);
    expect_readdir(&mut w);
    w.on_listing(&vec![dir(".git")]);
    assert!(w.found_git());
    assert_eq!(expect_readdir(&mut w), ".git");
    w.on_listing(&vec![file("config")]);
    assert_eq!(expect_stat(&mut w), ".git/config");
    w.on_stat(1);
    assert_eq!(w.emitted(), &vec![".git/config".to_string()]);
}

#[test]
fn emitted_paths_are_deduplicated() {
    let mut w = Walker::new(50_000_000);
    expect_readdir(&mut w);
    w.on_listing(&vec![file("a.txt"), file("a.txt")]);
    expect_stat(&mut w);
    w.on_stat(1);
    expect_stat(&mut w);
    w.on_stat(1);
    assert_eq!(w.emitted(), &vec!["a.txt".to_string()]);
}

#[test]
fn nested_ignored_segment_is_dropped() {
    let mut w = Walker::new(50_000_000);
    expect_readdir(&mut w);
    w.on_listing(&vec![dir("pkg")]);
    assert_eq!(expect_readdir(&mut w), "pkg");
    // An ignored directory below an accepted one is dropped there too.
    w.on_listing(&vec![dir("target"), file("lib.rs")]);
    assert_eq!(expect_stat(&mut w), "pkg/lib.rs");
    w.on_stat(1);
    assert!(matches!(w.next_action(), WalkAction::Done));
    assert_eq!(w.emitted(), &vec!["pkg/lib.rs".to_string()]);
}
