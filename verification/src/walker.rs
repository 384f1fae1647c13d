//! The walker: enumerates all audio files under a root directory.
//!
//! Traversal is iterative over an explicit work stack of directories, so
//! deep trees cannot exhaust the call stack. The walker holds the traversal
//! state and its decisions; the caller lists each directory it hands out and
//! feeds the entries back. An entry that is neither a readable file nor a
//! directory is skipped silently, so one unreadable entry never aborts the
//! whole traversal.

use vstd::prelude::*;

use crate::classifier::is_audiofile;
use crate::classifier::spec_is_audiofile;

verus! {

/// What a directory entry turned out to be.
#[derive(Clone, Copy)]
pub enum EntryKind {
    /// A regular file.
    File,
    /// A directory, to be expanded later.
    Directory,
    /// Anything else: symlinks, special files, unreadable entries.
    Other,
}

/// One directory entry as the filesystem reports it: its path, what kind of
/// entry it is, and its modification timestamp.
pub struct DirEntryInfo {
    pub path: String,
    pub kind: EntryKind,
    pub mod_date: u64,
}

/// An audio file found by the walker: its path and the modification
/// timestamp observed during traversal.
pub struct FileEntry {
    pub path: String,
    pub mod_date: u64,
}

/// The mathematical value of a found file.
pub ghost struct FileEntryView {
    pub path: Seq<char>,
    pub mod_date: u64,
}

impl View for FileEntry {
    type V = FileEntryView;

    open spec fn view(&self) -> FileEntryView {
        FileEntryView { path: self.path@, mod_date: self.mod_date }
    }
}

impl Clone for FileEntry {
    fn clone(&self) -> (r: FileEntry)
        ensures
            r@ == self@,
    {
        FileEntry { path: self.path.clone(), mod_date: self.mod_date }
    }
}

/// The audio files among a batch of directory entries, in order.
pub open spec fn spec_accepted(s: Seq<DirEntryInfo>) -> Seq<FileEntryView>
    decreases s.len(),
{
    if s.len() == 0 {
        Seq::empty()
    } else {
        spec_accepted(s.drop_last()) + (if s.last().kind is File && spec_is_audiofile(
            s.last().path@,
        ) {
            seq![FileEntryView { path: s.last().path@, mod_date: s.last().mod_date }]
        } else {
            Seq::empty()
        })
    }
}

/// The subdirectories among a batch of directory entries, in order.
pub open spec fn spec_subdirs(s: Seq<DirEntryInfo>) -> Seq<Seq<char>>
    decreases s.len(),
{
    if s.len() == 0 {
        Seq::empty()
    } else {
        spec_subdirs(s.drop_last()) + (if s.last().kind is Directory {
            seq![s.last().path@]
        } else {
            Seq::empty()
        })
    }
}

/// Traversal state: a stack of directories still to list, and the audio
/// files found so far.
pub struct Walker {
    pending_dirs: Vec<String>,
    files: Vec<FileEntry>,
}

impl Walker {
    /// The directories still to be listed, bottom of the stack first.
    pub closed spec fn pending(&self) -> Seq<Seq<char>> {
        self.pending_dirs@.map_values(|s: String| s@)
    }

    /// The audio files recorded so far, in discovery order.
    pub closed spec fn found(&self) -> Seq<FileEntryView> {
        self.files@.map_values(|f: FileEntry| f@)
    }

    /// A walker poised to list the root directory.
    pub fn new(root: String) -> (w: Walker)
        ensures
            w.pending() == seq![root@],
            w.found() == Seq::<FileEntryView>::empty(),
    {
        let mut pending_dirs: Vec<String> = Vec::new();
        pending_dirs.push(root);
        let w = Walker { pending_dirs, files: Vec::new() };
        proof {
            assert(w.pending() =~= seq![root@]);
            assert(w.found() =~= Seq::<FileEntryView>::empty());
        }
        w
    }

    /// Whether every directory has been listed.
    pub fn done(&self) -> (r: bool)
        ensures
            r == (self.pending().len() == 0),
    {
        self.pending_dirs.len() == 0
    }

    /// Hands out the next directory to list, top of the stack first.
    pub fn take_next_dir(&mut self) -> (r: Option<String>)
        ensures
            match r {
                Some(d) => old(self).pending().len() > 0 && d@ == old(self).pending().last()
                    && final(self).pending() == old(self).pending().drop_last()
                    && final(self).found() == old(self).found(),
                None => old(self).pending().len() == 0
                    && final(self).pending() == old(self).pending()
                    && final(self).found() == old(self).found(),
            },
    {
        let r = self.pending_dirs.pop();
        proof {
            if old(self).pending_dirs@.len() > 0 {
                assert(self.pending() =~= old(self).pending().drop_last());
            } else {
                assert(self.pending() =~= old(self).pending());
            }
        }
        r
    }

    /// Files the entries of one listed directory: a whitelisted regular file
    /// is recorded, a directory is pushed for later expansion, anything else
    /// is skipped.
    pub fn record_entries(&mut self, entries: &Vec<DirEntryInfo>)
        ensures
            final(self).found() == old(self).found() + spec_accepted(entries@),
            final(self).pending() == old(self).pending() + spec_subdirs(entries@),
    {
        proof {
            assert(entries@.take(0) =~= Seq::<DirEntryInfo>::empty());
            assert(self.found() =~= self.found() + spec_accepted(entries@.take(0)));
            assert(self.pending() =~= self.pending() + spec_subdirs(entries@.take(0)));
        }
        let mut i: usize = 0;
        while i < entries.len()
            invariant
                i <= entries@.len(),
                self.found() == old(self).found() + spec_accepted(entries@.take(i as int)),
                self.pending() == old(self).pending() + spec_subdirs(entries@.take(i as int)),
            decreases entries@.len() - i,
        {
            let e = &entries[i];
            match e.kind {
                EntryKind::File => {
                    if is_audiofile(&e.path) {
                        let ghost pre = self.files@;
                        self.files.push(
                            FileEntry { path: e.path.clone(), mod_date: e.mod_date },
                        );
                        proof {
                            assert(self.files@.map_values(|f: FileEntry| f@) =~= pre.map_values(
                                |f: FileEntry| f@,
                            ).push(
                                FileEntryView { path: e.path@, mod_date: e.mod_date },
                            ));
                        }
                    }
                },
                EntryKind::Directory => {
                    let ghost pre = self.pending_dirs@;
                    self.pending_dirs.push(e.path.clone());
                    proof {
                        assert(self.pending_dirs@.map_values(|s: String| s@) =~= pre.map_values(
                            |s: String| s@,
                        ).push(e.path@));
                    }
                },
                EntryKind::Other => {},
            }
            proof {
                assert(entries@.take(i + 1).drop_last() =~= entries@.take(i as int));
                assert(entries@.take(i + 1).last() == entries@[i as int]);
                assert(self.found() =~= old(self).found() + spec_accepted(
                    entries@.take(i + 1),
                ));
                assert(self.pending() =~= old(self).pending() + spec_subdirs(
                    entries@.take(i + 1),
                ));
            }
            i = i + 1;
        }
        proof {
            assert(entries@.take(entries@.len() as int) =~= entries@);
        }
    }

    /// The complete list of audio files, once traversal is done.
    pub fn into_files(self) -> (r: Vec<FileEntry>)
        ensures
            r@.map_values(|f: FileEntry| f@) == self.found(),
    {
        self.files
    }
}

} // verus!
