use subsonic_vault::Cache;
use subsonic_vault::Index;

fn s(x: &str) -> String {
    x.to_string()
}

#[test]
fn empty_cache_misses() {
    let c = Cache::new();
    assert_eq!(c.lookup(&s("/m/a.mp3"), 10), None);
}

#[test]
fn cache_serves_digest_only_on_equal_mtime() {
    let mut c = Cache::new();
    c.update(s("/m/a.mp3"), s("aaaa"), 10);
    assert_eq!(c.lookup(&s("/m/a.mp3"), 10), Some(s("aaaa")));
    assert_eq!(c.lookup(&s("/m/a.mp3"), 11), None);
    assert_eq!(c.lookup(&s("/m/b.mp3"), 10), None);
}

#[test]
fn cache_update_replaces_the_record() {
    let mut c = Cache::new();
    c.update(s("/m/a.mp3"), s("aaaa"), 10);
    c.update(s("/m/a.mp3"), s("bbbb"), 20);
    assert_eq!(c.lookup(&s("/m/a.mp3"), 10), None);
    assert_eq!(c.lookup(&s("/m/a.mp3"), 20), Some(s("bbbb")));
}

#[test]
fn index_first_writer_wins() {
    let mut ix = Index::new();
    assert!(ix.insert_first_wins(s("d1"), s("/m/a.mp3")));
    assert!(!ix.insert_first_wins(s("d1"), s("/m/copy.mp3")));
    assert!(ix.insert_first_wins(s("d2"), s("/m/b.mp3")));
    assert_eq!(ix.len(), 2);
    assert_eq!(ix.lookup_by_digest(&s("d1")), Some(s("/m/a.mp3")));
    assert_eq!(ix.lookup_by_digest(&s("d2")), Some(s("/m/b.mp3")));
    assert_eq!(ix.lookup_by_digest(&s("d3")), None);
}

#[test]
fn list_carries_ids_paths_and_mimes() {
    let mut ix = Index::new();
    ix.insert_first_wins(s("d1"), s("root/a.mp3"));
    ix.insert_first_wins(s("d2"), s("root/b.m4a"));
    ix.insert_first_wins(s("d3"), s("root/d.flac"));
    let files = ix.list();
    assert_eq!(files.len(), 3);
    assert_eq!(files[0].id, s("d1"));
    assert_eq!(files[0].path, s("root/a.mp3"));
    assert_eq!(files[0].mime, s("audio/mp3"));
    assert_eq!(files[1].mime, s("audio/mp4"));
    assert_eq!(files[2].mime, s("audio/flac"));
}

#[test]
fn random_entry_none_only_when_empty() {
    let ix = Index::new();
    assert!(ix.random_entry().is_none());
    let mut ix2 = Index::new();
    ix2.insert_first_wins(s("d1"), s("root/a.mp3"));
    let f = ix2.random_entry().unwrap();
    assert_eq!(f.id, s("d1"));
    assert_eq!(f.path, s("root/a.mp3"));
    assert_eq!(f.mime, s("audio/mp3"));
}

#[test]
fn random_entry_picks_an_existing_entry() {
    let mut ix = Index::new();
    ix.insert_first_wins(s("d1"), s("root/a.mp3"));
    ix.insert_first_wins(s("d2"), s("root/b.wav"));
    ix.insert_first_wins(s("d3"), s("root/c.opus"));
    for _ in 0..32 {
        let f = ix.random_entry().unwrap();
        assert!(ix.lookup_by_digest(&f.id) == Some(f.path.clone()));
    }
}
