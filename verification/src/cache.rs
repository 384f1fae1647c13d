//! The hashing cache: one record per path, holding the digest last computed
//! for that path and the modification timestamp observed at that moment.
//!
//! A lookup serves a digest only while the file's current modification
//! timestamp still equals the recorded one; any other state means the file
//! must be rehashed. Staleness detection rests on timestamp equality alone:
//! a write that leaves the timestamp unchanged goes undetected by design.

use vstd::prelude::*;

use crate::kvmap::kv_find;
use crate::kvmap::kv_keys_distinct;
use crate::kvmap::kv_map;
use crate::kvmap::lemma_kv_distinct_push;
use crate::kvmap::lemma_kv_distinct_update;
use crate::kvmap::lemma_kv_map_contains;
use crate::kvmap::lemma_kv_map_push;
use crate::kvmap::lemma_kv_map_update;

verus! {

/// A cache record: the digest of a file's content, as a lowercase hex
/// string, and the modification timestamp in effect when it was computed.
pub struct CachedFileHash {
    pub hash: String,
    pub mod_date: u64,
}

impl Clone for CachedFileHash {
    fn clone(&self) -> (r: CachedFileHash)
        ensures
            r@ == self@,
    {
        CachedFileHash { hash: self.hash.clone(), mod_date: self.mod_date }
    }
}

/// The mathematical value of a cache record.
pub ghost struct CacheRecordView {
    pub hash: Seq<char>,
    pub mod_date: u64,
}

impl View for CachedFileHash {
    type V = CacheRecordView;

    open spec fn view(&self) -> CacheRecordView {
        CacheRecordView { hash: self.hash@, mod_date: self.mod_date }
    }
}

/// Memoizes (digest, modification time) pairs per file path across scans.
pub struct Cache {
    entries: Vec<(String, CachedFileHash)>,
}

impl View for Cache {
    type V = Map<Seq<char>, CacheRecordView>;

    closed spec fn view(&self) -> Map<Seq<char>, CacheRecordView> {
        kv_map(self.entries@)
    }
}

impl Cache {
    /// The cache never holds two records for one path.
    pub closed spec fn wf(&self) -> bool {
        kv_keys_distinct(self.entries@)
    }

    /// An empty cache: every path must be hashed.
    pub fn new() -> (c: Cache)
        ensures
            c.wf(),
            c@ == Map::<Seq<char>, CacheRecordView>::empty(),
    {
        Cache { entries: Vec::new() }
    }

    /// Serves the recorded digest for a path exactly when a record exists
    /// and its stored modification timestamp equals the current one;
    /// anything else signals "must rehash".
    pub fn lookup(&self, path: &String, current_mtime: u64) -> (r: Option<String>)
        requires
            self.wf(),
        ensures
            match r {
                Some(d) => self@.contains_key(path@) && self@[path@].mod_date == current_mtime
                    && d@ == self@[path@].hash,
                None => !self@.contains_key(path@) || self@[path@].mod_date != current_mtime,
            },
    {
        match kv_find(&self.entries, path) {
            Some(i) => {
                let rec = &self.entries[i].1;
                if rec.mod_date == current_mtime {
                    Some(rec.hash.clone())
                } else {
                    None
                }
            },
            None => None,
        }
    }

    /// Replaces any existing record for the path by (digest, mtime).
    pub fn update(&mut self, path: String, digest: String, mtime: u64)
        requires
            old(self).wf(),
        ensures
            final(self).wf(),
            final(self)@ == old(self)@.insert(
                path@,
                CacheRecordView { hash: digest@, mod_date: mtime },
            ),
    {
        let rec = CachedFileHash { hash: digest, mod_date: mtime };
        match kv_find(&self.entries, &path) {
            Some(i) => {
                proof {
                    lemma_kv_map_update(self.entries@, i as int, path, rec);
                    lemma_kv_distinct_update(self.entries@, i as int, path, rec);
                }
                self.entries[i] = (path, rec);
            },
            None => {
                proof {
                    lemma_kv_map_contains(self.entries@, path@);
                    lemma_kv_map_push(self.entries@, path, rec);
                    lemma_kv_distinct_push(self.entries@, path, rec);
                }
                self.entries.push((path, rec));
            },
        }
    }

}

} // verus!
