//! Relative paths.

use saw_spec_gen::path_utils::{pathdiff, pathdiff_or_absolute};
use std::path::{Path, PathBuf};

fn components(p: &Path) -> Vec<String> {
    p.components()
        .map(|c| c.as_os_str().to_string_lossy().into_owned())
        .collect()
}

fn difference(p: &Path, b: &Path) -> Option<PathBuf> {
    pathdiff(&components(p), &components(b)).map(|v| v.iter().collect())
}

#[test]
fn pathdiff_skips_common_prefix() {
    let p = Path::new("/a/b/c/file.txt");
    let b = Path::new("/a/b/d");
    let rel = difference(p, b).unwrap();
    assert_eq!(rel, PathBuf::from("../c/file.txt"));
}

#[test]
fn pathdiff_handles_identical_paths() {
    let p = Path::new("/a/b");
    let rel = difference(p, p).unwrap();
    assert_eq!(rel, PathBuf::new());
}

#[test]
fn pathdiff_target_under_base() {
    let p = Path::new("/a/b/c/d");
    let b = Path::new("/a/b");
    let rel = difference(p, b).unwrap();
    assert_eq!(rel, PathBuf::from("c/d"));
}

#[test]
fn pathdiff_or_absolute_returns_forward_slashes() {
    let p = Path::new(r"a\b\c.txt");
    let out = pathdiff_or_absolute(&p.to_string_lossy(), None);
    assert!(!out.contains('\\'), "got {out}");
}

#[test]
fn pathdiff_disjoint_paths_walk_back() {
    let p = Path::new("/a/b/c");
    let b = Path::new("/x/y/z");
    let rel = difference(p, b).unwrap();
    assert_eq!(rel, PathBuf::from("../../../a/b/c"));
}
