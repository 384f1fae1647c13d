use subsonic_vault::hasher::hash_bytes;
use subsonic_vault::merge_scan;
use subsonic_vault::pending_files;
use subsonic_vault::plan_scan;
use subsonic_vault::split_partitions;
use subsonic_vault::walker::DirEntryInfo;
use subsonic_vault::walker::EntryKind;
use subsonic_vault::Cache;
use subsonic_vault::FileEntry;
use subsonic_vault::ScanOutcome;
use subsonic_vault::Walker;

fn s(x: &str) -> String {
    x.to_string()
}

fn file(path: &str, mod_date: u64) -> FileEntry {
    FileEntry { path: s(path), mod_date }
}

/// The digest a file's simulated content has: derived from path and a
/// version stamp, so tests can "change" content deterministically.
fn content_digest(path: &str, version: u64) -> String {
    let bytes = format!("{path}#{version}").into_bytes();
    hash_bytes(&bytes)
}

/// One whole scan over an in-memory file set: plan against the cache, hash
/// the pending files with `workers` partitions, merge.
fn run_scan(files: &Vec<FileEntry>, cache: Cache, versions: &[u64], workers: usize) -> ScanOutcome {
    let plan = plan_scan(files, &cache);
    let pending = pending_files(&plan);
    let parts = split_partitions(&pending, workers);
    let mut fresh: Vec<Option<String>> = Vec::new();
    for part in &parts {
        for f in part {
            let pos = files.iter().position(|g| g.path == f.path).unwrap();
            fresh.push(Some(content_digest(&f.path, versions[pos])));
        }
    }
    merge_scan(&plan, &fresh, cache)
}

#[test]
fn traversal_completeness_over_nested_tree() {
    // root/x/y.mp3 and root/z.wav are both found, whatever the nesting.
    let mut w = Walker::new(s("root"));
    assert!(!w.done());
    assert_eq!(w.take_next_dir(), Some(s("root")));
    w.record_entries(&vec![
        DirEntryInfo { path: s("root/x"), kind: EntryKind::Directory, mod_date: 0 },
        DirEntryInfo { path: s("root/z.wav"), kind: EntryKind::File, mod_date: 7 },
    ]);
    assert_eq!(w.take_next_dir(), Some(s("root/x")));
    w.record_entries(&vec![
        DirEntryInfo { path: s("root/x/y.mp3"), kind: EntryKind::File, mod_date: 9 },
    ]);
    assert!(w.done());
    assert_eq!(w.take_next_dir(), None);
    let files = w.into_files();
    let paths: Vec<String> = files.iter().map(|f| f.path.clone()).collect();
    assert_eq!(paths, vec![s("root/z.wav"), s("root/x/y.mp3")]);
}

#[test]
fn walker_skips_non_audio_and_special_entries() {
    let mut w = Walker::new(s("root"));
    w.take_next_dir();
    w.record_entries(&vec![
        DirEntryInfo { path: s("root/a.mp3"), kind: EntryKind::File, mod_date: 1 },
        DirEntryInfo { path: s("root/c.txt"), kind: EntryKind::File, mod_date: 2 },
        DirEntryInfo { path: s("root/link"), kind: EntryKind::Other, mod_date: 3 },
    ]);
    assert!(w.done());
    let files = w.into_files();
    assert_eq!(files.len(), 1);
    assert_eq!(files[0].path, s("root/a.mp3"));
    assert_eq!(files[0].mod_date, 1);
}

#[test]
fn extension_filtering_in_scanned_index() {
    // a.mp3, b.m4a, c.txt, d.flac: exactly the audio files appear, with
    // their MIME types; c.txt never does.
    let mut w = Walker::new(s("root"));
    w.take_next_dir();
    w.record_entries(&vec![
        DirEntryInfo { path: s("root/a.mp3"), kind: EntryKind::File, mod_date: 1 },
        DirEntryInfo { path: s("root/b.m4a"), kind: EntryKind::File, mod_date: 2 },
        DirEntryInfo { path: s("root/c.txt"), kind: EntryKind::File, mod_date: 3 },
        DirEntryInfo { path: s("root/d.flac"), kind: EntryKind::File, mod_date: 4 },
    ]);
    let files = w.into_files();
    let out = run_scan(&files, Cache::new(), &[1, 1, 1], 2);
    let listed = out.index.list();
    assert_eq!(listed.len(), 3);
    let find = |p: &str| listed.iter().find(|f| f.path == s(p));
    assert_eq!(find("root/a.mp3").unwrap().mime, s("audio/mp3"));
    assert_eq!(find("root/b.m4a").unwrap().mime, s("audio/mp4"));
    assert_eq!(find("root/d.flac").unwrap().mime, s("audio/flac"));
    assert!(find("root/c.txt").is_none());
}

#[test]
fn second_scan_of_unchanged_files_hashes_nothing_and_keeps_the_index() {
    let files = vec![file("root/a.mp3", 10), file("root/b.wav", 20)];
    let out1 = run_scan(&files, Cache::new(), &[1, 1], 2);

    // Second scan: same files, same modification times.
    let plan2 = plan_scan(&files, &out1.cache);
    let pending2 = pending_files(&plan2);
    assert_eq!(pending2.len(), 0, "a cache hit must not be rehashed");
    let out2 = merge_scan(&plan2, &Vec::new(), out1.cache);

    let mut listed1: Vec<(String, String)> =
        out1.index.list().iter().map(|f| (f.id.clone(), f.path.clone())).collect();
    let mut listed2: Vec<(String, String)> =
        out2.index.list().iter().map(|f| (f.id.clone(), f.path.clone())).collect();
    listed1.sort();
    listed2.sort();
    assert_eq!(listed1, listed2);
}

#[test]
fn changed_content_with_changed_mtime_gets_a_new_digest() {
    let files1 = vec![file("root/a.mp3", 10)];
    let out1 = run_scan(&files1, Cache::new(), &[1], 1);
    let d_old = out1.index.list()[0].id.clone();

    // The file's content and modification time both change.
    let files2 = vec![file("root/a.mp3", 11)];
    let plan2 = plan_scan(&files2, &out1.cache);
    assert_eq!(pending_files(&plan2).len(), 1, "a stale record must be rehashed");
    let out2 = run_scan(&files2, out1.cache, &[2], 1);
    let d_new = out2.index.list()[0].id.clone();
    assert_ne!(d_new, d_old);
    assert_eq!(out2.index.lookup_by_digest(&d_new), Some(s("root/a.mp3")));
    assert_eq!(out2.index.lookup_by_digest(&d_old), None);
}

#[test]
fn changed_content_with_preserved_mtime_serves_the_stale_digest() {
    // Documented limitation: timestamp-based staleness detection cannot see
    // a write that leaves the modification time unchanged.
    let files = vec![file("root/a.mp3", 10)];
    let out1 = run_scan(&files, Cache::new(), &[1], 1);
    let d_old = out1.index.list()[0].id.clone();

    // Content now at version 2, but the modification time still reads 10.
    let plan2 = plan_scan(&files, &out1.cache);
    assert_eq!(pending_files(&plan2).len(), 0, "the stale record is served, not rehashed");
    let out2 = merge_scan(&plan2, &Vec::new(), out1.cache);
    assert_eq!(out2.index.lookup_by_digest(&d_old), Some(s("root/a.mp3")));
    let d_real = content_digest("root/a.mp3", 2);
    assert_eq!(out2.index.lookup_by_digest(&d_real), None, "the new digest is not seen");
}

#[test]
fn partition_count_does_not_change_the_result() {
    let files: Vec<FileEntry> =
        (0..9).map(|i| file(&format!("root/t{i}.mp3"), 100 + i as u64)).collect();
    let versions = [1u64; 9];
    let mut results: Vec<Vec<(String, String)>> = Vec::new();
    for workers in [1usize, 2, 3, 8, 16] {
        let out = run_scan(&files, Cache::new(), &versions, workers);
        let mut pairs: Vec<(String, String)> =
            out.index.list().iter().map(|f| (f.id.clone(), f.path.clone())).collect();
        pairs.sort();
        results.push(pairs);
    }
    for r in &results[1..] {
        assert_eq!(r, &results[0]);
    }
}

#[test]
fn split_partitions_covers_every_file_exactly_once() {
    for n in [0usize, 1, 2, 5, 9, 16] {
        let items: Vec<FileEntry> =
            (0..n).map(|i| file(&format!("root/f{i}.mp3"), i as u64)).collect();
        for workers in [1usize, 2, 3, 7, 20] {
            let parts = split_partitions(&items, workers);
            assert_eq!(parts.len(), workers);
            let flat: Vec<String> =
                parts.iter().flatten().map(|f| f.path.clone()).collect();
            let expect: Vec<String> = items.iter().map(|f| f.path.clone()).collect();
            assert_eq!(flat, expect);
        }
    }
}

#[test]
fn duplicate_content_keeps_the_first_path_and_reports_the_drop() {
    let files = vec![file("root/a.mp3", 1), file("root/copy.mp3", 2)];
    let plan = plan_scan(&files, &Cache::new());
    let same = content_digest("shared", 1);
    let fresh = vec![Some(same.clone()), Some(same.clone())];
    let out = merge_scan(&plan, &fresh, Cache::new());
    assert_eq!(out.index.len(), 1);
    assert_eq!(out.index.lookup_by_digest(&same), Some(s("root/a.mp3")));
    assert_eq!(out.duplicates, vec![s("root/copy.mp3")]);
    // The cache still records both paths.
    assert_eq!(out.cache.lookup(&s("root/copy.mp3"), 2), Some(same));
}

#[test]
fn failed_hash_is_skipped_and_reported() {
    let files = vec![file("root/a.mp3", 1), file("root/broken.mp3", 2)];
    let plan = plan_scan(&files, &Cache::new());
    let fresh = vec![Some(s("d1")), None];
    let out = merge_scan(&plan, &fresh, Cache::new());
    assert_eq!(out.index.len(), 1);
    assert_eq!(out.failed, vec![s("root/broken.mp3")]);
    assert_eq!(out.cache.lookup(&s("root/broken.mp3"), 2), None);
}
