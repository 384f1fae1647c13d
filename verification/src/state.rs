//! The serving state: the base directory, the published index, and the
//! hashing cache carried from scan to scan. A server wraps this state in its
//! own guard so that readers see either the previous complete index or the
//! next one, never a partial merge.

use vstd::prelude::*;

use crate::cache::Cache;
use crate::index::Index;

verus! {

/// The state one serving process holds.
pub struct AppState {
    pub base_dir: String,
    pub audiofiles: Index,
    pub hashing_cache: Cache,
}

impl AppState {
    /// Both containers keep their invariants.
    pub open spec fn wf(&self) -> bool {
        self.audiofiles.wf() && self.hashing_cache.wf()
    }

    /// The state after a scan of a fresh process: its first index and cache.
    pub fn new(base_dir: String, audiofiles: Index, hashing_cache: Cache) -> (s: AppState)
        requires
            audiofiles.wf(),
            hashing_cache.wf(),
        ensures
            s.wf(),
            s.base_dir@ == base_dir@,
            s.audiofiles == audiofiles,
            s.hashing_cache == hashing_cache,
    {
        AppState { base_dir, audiofiles, hashing_cache }
    }
}

/// The liveness answer a server gives.
pub struct PingResponse {
    pub status: String,
    pub version: String,
}

} // verus!
