//! Content-addressed indexing of an audio-file tree.
//!
//! A scan walks a directory tree, classifies entries by extension, hashes the
//! content of each audio file in bounded chunks, and builds an index from
//! content digest to path. A per-path cache of (digest, modification time)
//! pairs lets later scans skip files whose modification time is unchanged.

pub mod cache;
pub mod classifier;
pub mod hasher;
pub mod index;
pub mod kvmap;
pub mod laws;
pub mod options;
pub mod scan;
pub mod state;
pub mod walker;

pub use cache::Cache;
pub use cache::CachedFileHash;
pub use classifier::extension_to_mime;
pub use classifier::is_audiofile;
pub use hasher::hex_encode;
pub use hasher::HashError;
pub use hasher::StreamingHasher;
pub use index::AudioFile;
pub use index::Index;
pub use options::process_args;
pub use options::Error;
pub use options::ProgramOption;
pub use scan::merge_scan;
pub use scan::pending_files;
pub use scan::plan_scan;
pub use scan::split_partitions;
pub use scan::PlannedEntry;
pub use scan::ScanOutcome;
pub use state::AppState;
pub use state::PingResponse;
pub use walker::FileEntry;
pub use walker::Walker;
