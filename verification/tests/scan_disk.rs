//! Scenarios for the full scan against a real directory tree.
//!
//! Files are created through `tempfile`, which also cleans them up; the
//! handles are kept alive until the assertions are done.

use std::path::Path;
use sweeper::scan::find_odd_files;

fn touch(dir: &Path, name: &str, ext: &str) -> (tempfile::NamedTempFile, String) {
    let f = tempfile::Builder::new()
        .prefix(name)
        .suffix(ext)
        .rand_bytes(0)
        .tempfile_in(dir)
        .unwrap();
    let path = f.path().to_str().unwrap().to_string();
    (f, path)
}

#[test]
fn scan_of_no_directories_returns_none() {
    assert_eq!(find_odd_files(&vec![]), None);
}

#[test]
fn find_odd_files_test() {
    let tmp_dir = tempfile::TempDir::new().unwrap();
    let dir_path = tmp_dir.path();
    let mut odd_files = vec![];
    let mut handles = vec![];

    // Generate files
    for i in 0..10 {
        let (f, jpg_path) = touch(dir_path, &format!("file_{i}"), ".jpg");
        handles.push(f);
        if i % 2 == 0 {
            let (f, _) = touch(dir_path, &format!("file_{i}"), ".nef");
            handles.push(f);
        } else {
            odd_files.push(jpg_path);
        }
    }

    let dirs = vec![dir_path.to_str().unwrap().to_string()];
    let mut res = find_odd_files(&dirs).unwrap();

    assert_eq!(res.len(), odd_files.len());

    res.sort();
    odd_files.sort();
    assert_eq!(res, odd_files);
}

#[test]
fn find_odd_files_in_nested_directories_test() {
    let mut odd_files = vec![];
    let mut handles = vec![];

    // Generate root files
    let root_dir = tempfile::TempDir::new().unwrap();
    let root_dir_path = root_dir.path();
    for i in 0..10 {
        let (f, jpg_path) = touch(root_dir_path, &format!("file_{i}"), ".jpg");
        handles.push(f);
        if i % 2 == 0 {
            let (f, _) = touch(root_dir_path, &format!("file_{i}"), ".nef");
            handles.push(f);
        } else {
            odd_files.push(jpg_path);
        }
    }

    // Generate nested files
    let nested_dir = tempfile::TempDir::new_in(root_dir_path).unwrap();
    let nested_dir_path = nested_dir.path();
    for i in 0..10 {
        let (f, jpg_path) = touch(nested_dir_path, &format!("file_{i}"), ".jpg");
        handles.push(f);
        if i % 2 == 0 {
            odd_files.push(jpg_path);
        } else {
            let (f, _) = touch(nested_dir_path, &format!("file_{i}"), ".nef");
            handles.push(f);
        }
    }

    let dirs = vec![root_dir_path.to_str().unwrap().to_string()];
    let mut res = find_odd_files(&dirs).unwrap();

    assert_eq!(res.len(), odd_files.len());

    res.sort();
    odd_files.sort();
    assert_eq!(res, odd_files);
}

#[test]
fn scan_of_all_paired_directory_returns_none() {
    let tmp_dir = tempfile::TempDir::new().unwrap();
    let (_a, _) = touch(tmp_dir.path(), "file_0", ".jpg");
    let (_b, _) = touch(tmp_dir.path(), "file_0", ".nef");
    let dirs = vec![tmp_dir.path().to_str().unwrap().to_string()];
    assert_eq!(find_odd_files(&dirs), None);
}

#[test]
fn scan_reports_single_unpaired_image() {
    let tmp_dir = tempfile::TempDir::new().unwrap();
    let (_a, _) = touch(tmp_dir.path(), "file_0", ".jpg");
    let (_b, _) = touch(tmp_dir.path(), "file_0", ".nef");
    let (_c, odd) = touch(tmp_dir.path(), "file_1", ".jpg");
    let dirs = vec![tmp_dir.path().to_str().unwrap().to_string()];
    assert_eq!(find_odd_files(&dirs), Some(vec![odd]));
}

#[test]
fn scan_includes_raw_file_without_image() {
    let tmp_dir = tempfile::TempDir::new().unwrap();
    let (_a, nef_path) = touch(tmp_dir.path(), "a", ".nef");
    let dirs = vec![tmp_dir.path().to_str().unwrap().to_string()];
    let res = find_odd_files(&dirs).unwrap();
    assert!(res.contains(&nef_path));
    assert_eq!(res.len(), 1);
}

#[test]
fn scan_of_unrecognized_files_returns_none() {
    let tmp_dir = tempfile::TempDir::new().unwrap();
    let (_a, _) = touch(tmp_dir.path(), "note", ".txt");
    let dirs = vec![tmp_dir.path().to_str().unwrap().to_string()];
    assert_eq!(find_odd_files(&dirs), None);
}
