//! Byte-capped eviction.

use ollm::evict::{cache_mb, is_blob, order_blobs, CacheFile, Sweep};

const MIB: u64 = 1024 * 1024;
const SECOND: i128 = 1_000_000_000;
const NOW: i128 = 1_000_000 * SECOND;

fn file(name: &str, age_secs: i128, mib: u64) -> CacheFile {
    CacheFile { name: name.to_string(), modified: NOW - age_secs * SECOND, size: mib * MIB }
}

fn run(files: Vec<CacheFile>, limit_mb: u64, fails: &[&str]) -> Vec<String> {
    let mut s = Sweep::begin(files, limit_mb, NOW);
    let mut asked = Vec::new();
    while let Some(i) = s.next_victim() {
        let name = s.files[i].name.clone();
        let removed = !fails.contains(&name.as_str());
        asked.push(name);
        s.resume(removed);
    }
    asked
}

#[test]
fn only_blobs_count() {
    assert!(is_blob("a.bin"));
    assert!(is_blob("a__0123.bin"));
    assert!(is_blob("..bin"));
    assert!(!is_blob(".bin"));
    assert!(!is_blob("a.bin.save"));
    assert!(!is_blob("a.BIN"));
    assert!(!is_blob("abin"));
    assert!(!is_blob(""));
}

#[test]
fn least_recently_used_goes_first() {
    let files = vec![file("new.bin", 100, 10), file("old.bin", 300, 10), file("mid.bin", 200, 10)];
    assert_eq!(run(files, 15, &[]), vec!["old.bin", "mid.bin"]);
}

#[test]
fn nothing_goes_under_the_cap() {
    let files = vec![file("a.bin", 100, 10), file("b.bin", 300, 10), file("c.save", 900, 500)];
    assert_eq!(run(files, 20, &[]), Vec::<String>::new());
    assert_eq!(run(vec![], 0, &[]), Vec::<String>::new());
}

#[test]
fn equally_old_blobs_go_in_listing_order() {
    let files = vec![file("b.bin", 100, 1), file("a.bin", 100, 1), file("c.bin", 200, 1), file("d.bin", 100, 1)];
    assert_eq!(order_blobs(&files), vec![2, 0, 1, 3]);
}

#[test]
fn grace_protects_what_was_just_used() {
    let files = vec![file("a.bin", 59, 10), file("b.bin", 60, 10), file("c.bin", 0, 10)];
    assert_eq!(run(files, 0, &[]), vec!["b.bin"]);
    let ahead = vec![file("future.bin", -5, 10), file("a.bin", 59, 10)];
    assert_eq!(run(ahead, 0, &[]), vec!["future.bin"]);
    let extreme = vec![CacheFile { name: "x.bin".to_string(), modified: i128::MIN, size: MIB }];
    assert_eq!(run(extreme, 0, &[]), vec!["x.bin"]);
}

#[test]
fn a_blob_that_cannot_be_removed_frees_nothing() {
    let files = vec![file("a.bin", 300, 10), file("b.bin", 200, 10), file("c.bin", 100, 10)];
    assert_eq!(run(files, 20, &["a.bin"]), vec!["a.bin", "b.bin"]);
}

#[test]
fn huge_sizes_do_not_overflow() {
    let files = vec![
        CacheFile { name: "a.bin".to_string(), modified: 0, size: u64::MAX },
        CacheFile { name: "b.bin".to_string(), modified: 1, size: u64::MAX },
    ];
    assert_eq!(run(files, u64::MAX, &[]), Vec::<String>::new());
}

#[test]
fn cache_size_in_mebibytes() {
    assert_eq!(cache_mb(&vec![]), 0);
    assert_eq!(cache_mb(&vec![MIB, MIB - 1, 2]), 2);
    assert_eq!(cache_mb(&vec![u64::MAX, 1]), 0);
    assert_eq!(cache_mb(&vec![u64::MAX]), u64::MAX / MIB);
}
