use std::path::PathBuf;

use editor_server::games::{scan_games, ScanEntry};
use editor_server::text::{name_before, text_eq};

fn entry(name: &str, is_dir: bool, has_scene: bool) -> ScanEntry {
    ScanEntry {
        name: name.to_string(),
        path: PathBuf::from(format!("assets/games/{name}")),
        is_dir,
        has_scene,
    }
}

fn names(entries: Vec<ScanEntry>) -> Vec<String> {
    scan_games(entries).into_iter().map(|slot| slot.name).collect()
}

#[test]
fn scan_keeps_directories_with_a_scene() {
    let found = vec![
        entry("game1", true, true),
        entry("notes.txt", false, false),
        entry("empty", true, false),
        entry("scene.ron", false, true),
        entry("game2", true, true),
    ];
    assert_eq!(names(found), vec!["game1", "game2"]);
}

#[test]
fn scan_sorts_by_name() {
    let found = vec![
        entry("teapot", true, true),
        entry("Zebra", true, true),
        entry("bunny", true, true),
        entry("bun", true, true),
        entry("\u{e9}clair", true, true),
        entry("", true, true),
    ];
    assert_eq!(names(found), vec!["", "Zebra", "bun", "bunny", "teapot", "\u{e9}clair"]);
}

#[test]
fn scan_carries_the_directory_along() {
    let slots = scan_games(vec![entry("b", true, true), entry("a", true, true)]);
    assert_eq!(slots[0].dir, PathBuf::from("assets/games/a"));
    assert_eq!(slots[1].dir, PathBuf::from("assets/games/b"));
}

#[test]
fn scan_keeps_the_found_order_of_equal_names() {
    let mut found = Vec::new();
    for i in 0..5 {
        found.push(ScanEntry {
            name: if i % 2 == 0 { "same".to_string() } else { "other".to_string() },
            path: PathBuf::from(format!("{i}")),
            is_dir: true,
            has_scene: true,
        });
    }
    let dirs: Vec<PathBuf> = scan_games(found).into_iter().map(|slot| slot.dir).collect();
    let expected: Vec<PathBuf> =
        ["1", "3", "0", "2", "4"].iter().map(|dir| PathBuf::from(dir)).collect();
    assert_eq!(dirs, expected);
}

#[test]
fn scan_does_not_depend_on_the_found_order() {
    let forward = vec![entry("a", true, true), entry("b", true, false), entry("c", true, true)];
    let backward = vec![entry("c", true, true), entry("b", true, false), entry("a", true, true)];
    assert_eq!(names(forward), names(backward));
}

#[test]
fn scan_of_nothing_is_empty() {
    assert!(scan_games(Vec::new()).is_empty());
}

#[test]
fn names_are_ordered_like_strings() {
    let samples = ["", "a", "ab", "b", "B", "\u{e9}", "\u{10000}", "\u{ffff}", "game10", "game2"];
    for a in samples {
        for b in samples {
            assert_eq!(name_before(a, b), a < b);
            assert_eq!(text_eq(a, b), a == b);
        }
    }
}
