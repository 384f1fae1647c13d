//! The index built by a scan: a mapping from content digest to path, with
//! one path per digest. A digest already present keeps its first path
//! (first-wins collision policy); callers observe the refusal and may log
//! the dropped duplicate.

use vstd::prelude::*;
use vstd::pervasive::unreached;

use crate::classifier::extension_of;
use crate::classifier::extension_to_mime;
use crate::classifier::spec_is_audiofile;
use crate::classifier::spec_mime_of_path;
use crate::kvmap::kv_find;
use crate::kvmap::kv_keys_distinct;
use crate::kvmap::kv_map;
use crate::kvmap::lemma_kv_distinct_push;
use crate::kvmap::lemma_kv_map_contains;
use crate::kvmap::lemma_kv_map_push;

verus! {

/// One listed file: its content digest, path, and MIME type.
pub struct AudioFile {
    pub id: String,
    pub path: String,
    pub mime: String,
}

/// The mathematical value of a listed file.
pub ghost struct AudioFileView {
    pub id: Seq<char>,
    pub path: Seq<char>,
    pub mime: Seq<char>,
}

impl View for AudioFile {
    type V = AudioFileView;

    open spec fn view(&self) -> AudioFileView {
        AudioFileView { id: self.id@, path: self.path@, mime: self.mime@ }
    }
}

/// Maps each content digest to the path it was first computed for, within
/// one scan.
pub struct Index {
    entries: Vec<(String, String)>,
}

impl View for Index {
    type V = Map<Seq<char>, Seq<char>>;

    closed spec fn view(&self) -> Map<Seq<char>, Seq<char>> {
        kv_map(self.entries@)
    }
}

impl Index {
    /// The index never maps one digest to two paths.
    pub closed spec fn wf(&self) -> bool {
        kv_keys_distinct(self.entries@)
    }

    /// The (digest, path) pairs in insertion order.
    pub closed spec fn pairs(&self) -> Seq<(Seq<char>, Seq<char>)> {
        self.entries@.map_values(|p: (String, String)| (p.0@, p.1@))
    }

    /// An empty index.
    pub fn new() -> (ix: Index)
        ensures
            ix.wf(),
            ix@ == Map::<Seq<char>, Seq<char>>::empty(),
            ix.pairs() == Seq::<(Seq<char>, Seq<char>)>::empty(),
    {
        let ix = Index { entries: Vec::new() };
        proof {
            assert(ix.pairs() =~= Seq::<(Seq<char>, Seq<char>)>::empty());
        }
        ix
    }

    /// The number of entries.
    pub fn len(&self) -> (n: usize)
        ensures
            n == self.pairs().len(),
    {
        self.entries.len()
    }

    /// Adds (digest, path) unless the digest is already mapped; the first
    /// writer wins and a refused duplicate is reported to the caller.
    pub fn insert_first_wins(&mut self, digest: String, path: String) -> (inserted: bool)
        requires
            old(self).wf(),
        ensures
            final(self).wf(),
            inserted == !old(self)@.contains_key(digest@),
            inserted ==> final(self)@ == old(self)@.insert(digest@, path@) && final(self).pairs()
                == old(self).pairs().push((digest@, path@)),
            !inserted ==> final(self)@ == old(self)@ && final(self).pairs() == old(self).pairs(),
    {
        match kv_find(&self.entries, &digest) {
            Some(_) => false,
            None => {
                proof {
                    lemma_kv_map_contains(self.entries@, digest@);
                    lemma_kv_map_push(self.entries@, digest, path);
                    lemma_kv_distinct_push(self.entries@, digest, path);
                    assert(self.entries@.push((digest, path)).map_values(
                        |p: (String, String)| (p.0@, p.1@),
                    ) =~= self.pairs().push((digest@, path@)));
                }
                self.entries.push((digest, path));
                true
            },
        }
    }

    /// The path a digest is mapped to, if any.
    pub fn lookup_by_digest(&self, digest: &String) -> (r: Option<String>)
        requires
            self.wf(),
        ensures
            match r {
                Some(p) => self@.contains_key(digest@) && p@ == self@[digest@],
                None => !self@.contains_key(digest@),
            },
    {
        match kv_find(&self.entries, digest) {
            Some(i) => Some(self.entries[i].1.clone()),
            None => None,
        }
    }

    /// Every path in the index names an audio file.
    pub open spec fn all_audiofiles(&self) -> bool {
        forall|i: int| 0 <= i < self.pairs().len() ==> spec_is_audiofile(#[trigger] self.pairs()[i].1)
    }

    /// Lists every entry with its MIME type, in index order.
    pub fn list(&self) -> (r: Vec<AudioFile>)
        requires
            self.all_audiofiles(),
        ensures
            r@.len() == self.pairs().len(),
            forall|i: int| 0 <= i < r@.len() ==> #[trigger] r@[i]@ == (AudioFileView {
                id: self.pairs()[i].0,
                path: self.pairs()[i].1,
                mime: spec_mime_of_path(self.pairs()[i].1),
            }),
    {
        let mut r: Vec<AudioFile> = Vec::new();
        let mut i: usize = 0;
        while i < self.entries.len()
            invariant
                i <= self.entries@.len(),
                self.all_audiofiles(),
                self.pairs().len() == self.entries@.len(),
                r@.len() == i,
                forall|j: int| 0 <= j < i ==> #[trigger] r@[j]@ == (AudioFileView {
                    id: self.pairs()[j].0,
                    path: self.pairs()[j].1,
                    mime: spec_mime_of_path(self.pairs()[j].1),
                }),
            decreases self.entries@.len() - i,
        {
            r.push(self.entry_as_audiofile(i));
            i = i + 1;
        }
        r
    }

    /// Picks one entry uniformly at random, when the index is not empty.
    pub fn random_entry(&self) -> (r: Option<AudioFile>)
        requires
            self.all_audiofiles(),
        ensures
            r is None <==> self.pairs().len() == 0,
            match r {
                Some(f) => exists|i: int|
                    0 <= i < self.pairs().len() && f@ == (AudioFileView {
                        id: self.pairs()[i].0,
                        path: self.pairs()[i].1,
                        mime: spec_mime_of_path(self.pairs()[i].1),
                    }),
                None => true,
            },
    {
        if self.entries.len() == 0 {
            None
        } else {
            let i = random_below(self.entries.len());
            Some(self.entry_as_audiofile(i))
        }
    }

    /// Builds the listing entry for one index position.
    fn entry_as_audiofile(&self, i: usize) -> (f: AudioFile)
        requires
            self.all_audiofiles(),
            i < self.pairs().len(),
        ensures
            f@ == (AudioFileView {
                id: self.pairs()[i as int].0,
                path: self.pairs()[i as int].1,
                mime: spec_mime_of_path(self.pairs()[i as int].1),
            }),
    {
        let digest = self.entries[i].0.clone();
        let path = self.entries[i].1.clone();
        proof {
            assert(spec_is_audiofile(self.pairs()[i as int].1));
        }
        let mime = match extension_of(&path) {
            Some(ext) => extension_to_mime(&ext),
            None => unreached(),
        };
        AudioFile { id: digest, path, mime }
    }
}

/// Relies on rand::random_range over `0..n`: the sample lies in the range,
/// and the call panics only on an empty range.
#[verifier::external_body]
fn random_below(n: usize) -> (r: usize)
    requires
        n > 0,
    ensures
        r < n,
{
    rand::random_range(0..n)
}

} // verus!
