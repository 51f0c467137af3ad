//! Scenarios for the pure scanning logic, on in-memory listings.

use sweeper::paths::replace_extension;
use sweeper::scan::{is_image_file, is_raw_file, odd_in_snapshot, pair_candidates};

fn s(x: &str) -> String {
    x.to_string()
}

#[test]
fn classification_is_exact_suffix_based() {
    assert!(is_image_file("x.jpg"));
    assert!(is_image_file("x.jpeg"));
    assert!(!is_image_file("x.JPG"));
    assert!(!is_image_file("xjpg"));
    assert!(is_raw_file("x.nef"));
    assert!(!is_raw_file("x.NEF"));
    assert!(!is_image_file("note.txt"));
    assert!(!is_raw_file("note.txt"));
}

#[test]
fn bare_nef_suffix_counts_as_raw() {
    // The raw check is a bare suffix match, not an extension match.
    assert!(is_raw_file("stonef"));
    let files = vec![s("d/stonef")];
    assert_eq!(odd_in_snapshot(&files, &files), vec![s("d/stonef")]);
    let paired = vec![s("d/stonef"), s("d/stonef.jpg"), s("d/stonef.nef")];
    assert_eq!(odd_in_snapshot(&paired, &paired), Vec::<String>::new());
}

#[test]
fn replace_extension_rewrites_the_final_suffix() {
    assert_eq!(replace_extension("dir/photo.jpg", "nef"), "dir/photo.nef");
    assert_eq!(replace_extension("a.b.jpeg", "nef"), "a.b.nef");
    assert_eq!(replace_extension("dir/stonef", "jpg"), "dir/stonef.jpg");
    assert_eq!(replace_extension(".hidden", "jpg"), ".hidden.jpg");
    assert_eq!(replace_extension("dir/..", "jpg"), "dir/..");
    assert_eq!(replace_extension("dir.x/name", "jpg"), "dir.x/name.jpg");
}

#[test]
fn candidates_follow_the_classification() {
    assert_eq!(pair_candidates("d/a.jpg"), vec![s("d/a.nef")]);
    assert_eq!(pair_candidates("d/a.jpeg"), vec![s("d/a.nef")]);
    assert_eq!(pair_candidates("d/a.nef"), vec![s("d/a.jpeg"), s("d/a.jpg")]);
    assert_eq!(pair_candidates("d/note.txt"), Vec::<String>::new());
}

#[test]
fn snapshot_scan_returns_exactly_the_unpaired() {
    // Two pairs, two unpaired target files, one ignored file.
    let files = vec![
        s("d/a.jpg"),
        s("d/a.nef"),
        s("d/b.jpg"),
        s("d/c.nef"),
        s("d/note.txt"),
    ];
    let r = odd_in_snapshot(&files, &files);
    assert_eq!(r, vec![s("d/b.jpg"), s("d/c.nef")]);
}

#[test]
fn snapshot_scan_of_all_paired_is_empty() {
    let files = vec![s("d/a.jpg"), s("d/a.nef"), s("d/b.jpeg"), s("d/b.nef")];
    assert_eq!(odd_in_snapshot(&files, &files), Vec::<String>::new());
}

#[test]
fn snapshot_scan_with_single_unpaired_image() {
    let files = vec![s("d/file_0.jpg"), s("d/file_0.nef"), s("d/file_1.jpg")];
    assert_eq!(odd_in_snapshot(&files, &files), vec![s("d/file_1.jpg")]);
}

#[test]
fn snapshot_scan_ignores_other_files() {
    let files = vec![s("d/note.txt")];
    assert_eq!(odd_in_snapshot(&files, &files), Vec::<String>::new());
}

#[test]
fn snapshot_scan_keeps_nested_entries_in_listing_order() {
    // A nested directory's listing, appended after the root's, is scanned
    // exactly as the root's.
    let root = vec![s("d/a.jpg"), s("d/b.jpg"), s("d/b.nef")];
    let nested = vec![s("d/n/c.nef"), s("d/n/e.jpg"), s("d/n/e.nef")];
    let mut all = root.clone();
    all.extend(nested.clone());
    let r = odd_in_snapshot(&all, &all);
    assert_eq!(r, vec![s("d/a.jpg"), s("d/n/c.nef")]);
}
