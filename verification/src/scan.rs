//! One scan: partition the walked file list against the cache, split the
//! files that must be hashed into contiguous per-worker partitions, and merge
//! cached and freshly computed digests into a new index while refreshing the
//! cache.
//!
//! The phases are pure functions over plain values; the caller performs the
//! surrounding I/O (listing directories, reading file bytes) and hands the
//! results back. A per-file hashing failure is reported and the file is
//! omitted from the index; it never aborts the scan.

use vstd::prelude::*;

use crate::cache::Cache;
use crate::cache::CacheRecordView;
use crate::index::Index;
use crate::walker::FileEntry;
use crate::walker::FileEntryView;

verus! {

/// One file of the scan plan: the file, and the digest served by the cache
/// when the file's modification timestamp is unchanged. A file without a
/// served digest must be rehashed.
pub struct PlannedEntry {
    pub file: FileEntry,
    pub cached_digest: Option<String>,
}

/// The mathematical value of a planned entry.
pub ghost struct PlannedEntryView {
    pub file: FileEntryView,
    pub cached_digest: Option<Seq<char>>,
}

impl View for PlannedEntry {
    type V = PlannedEntryView;

    open spec fn view(&self) -> PlannedEntryView {
        PlannedEntryView {
            file: self.file@,
            cached_digest: match self.cached_digest {
                Some(d) => Some(d@),
                None => None,
            },
        }
    }
}

/// The values of a vector of files.
pub open spec fn file_views(s: Seq<FileEntry>) -> Seq<FileEntryView> {
    s.map_values(|f: FileEntry| f@)
}

/// The values of a vector of planned entries.
pub open spec fn plan_views(s: Seq<PlannedEntry>) -> Seq<PlannedEntryView> {
    s.map_values(|p: PlannedEntry| p@)
}

/// The values of a vector of strings.
pub open spec fn string_views(s: Seq<String>) -> Seq<Seq<char>> {
    s.map_values(|x: String| x@)
}

/// The values of a vector of optional digests.
pub open spec fn opt_digest_views(s: Seq<Option<String>>) -> Seq<Option<Seq<char>>> {
    s.map_values(
        |o: Option<String>|
            match o {
                Some(d) => Some(d@),
                None => None,
            },
    )
}

/// The values of a vector of per-worker partitions.
pub open spec fn parts_views(s: Seq<Vec<FileEntry>>) -> Seq<Seq<FileEntryView>> {
    s.map_values(|v: Vec<FileEntry>| file_views(v@))
}

/// The digest the cache serves for a file: present exactly when the cache
/// holds the file's path with an equal modification timestamp.
pub open spec fn spec_cache_hit(m: Map<Seq<char>, CacheRecordView>, f: FileEntryView) -> Option<
    Seq<char>,
> {
    if m.contains_key(f.path) && m[f.path].mod_date == f.mod_date {
        Some(m[f.path].hash)
    } else {
        None
    }
}

/// The plan for a file list against a cache, in file order.
pub open spec fn spec_plan(files: Seq<FileEntryView>, m: Map<Seq<char>, CacheRecordView>) -> Seq<
    PlannedEntryView,
> {
    files.map_values(|f: FileEntryView| PlannedEntryView { file: f, cached_digest: spec_cache_hit(m, f) })
}

/// The files of a plan that must be rehashed, in plan order.
pub open spec fn spec_pending(plan: Seq<PlannedEntryView>) -> Seq<FileEntryView>
    decreases plan.len(),
{
    if plan.len() == 0 {
        Seq::empty()
    } else {
        (if plan.first().cached_digest is None {
            seq![plan.first().file]
        } else {
            Seq::empty()
        }) + spec_pending(plan.drop_first())
    }
}

/// The state a merge builds: the emerging index, the refreshed cache, the
/// paths whose hashing failed, and the paths dropped because their digest
/// was already mapped (first-wins collision policy).
#[verifier::ext_equal]
pub ghost struct ScanStateView {
    pub index: Map<Seq<char>, Seq<char>>,
    pub cache: Map<Seq<char>, CacheRecordView>,
    pub failed: Seq<Seq<char>>,
    pub duplicates: Seq<Seq<char>>,
}

/// The state at the start of a merge: an empty index over the given cache.
pub open spec fn spec_scan_init(cache: Map<Seq<char>, CacheRecordView>) -> ScanStateView {
    ScanStateView {
        index: Map::empty(),
        cache,
        failed: Seq::empty(),
        duplicates: Seq::empty(),
    }
}

/// One merge step. A missing outcome records a hashing failure. A digest
/// goes into the index unless already mapped, in which case the path is
/// recorded as a dropped duplicate; a freshly computed digest also refreshes
/// the cache record of its path.
pub open spec fn spec_scan_step(
    st: ScanStateView,
    file: FileEntryView,
    outcome: Option<Seq<char>>,
    is_fresh: bool,
) -> ScanStateView {
    match outcome {
        None => ScanStateView { failed: st.failed.push(file.path), ..st },
        Some(d) => {
            let cache = if is_fresh {
                st.cache.insert(file.path, CacheRecordView { hash: d, mod_date: file.mod_date })
            } else {
                st.cache
            };
            if st.index.contains_key(d) {
                ScanStateView { cache, duplicates: st.duplicates.push(file.path), ..st }
            } else {
                ScanStateView { index: st.index.insert(d, file.path), cache, ..st }
            }
        },
    }
}

/// The merge of a plan with the fresh digests computed for its pending
/// files, in plan order; the pending files consume the fresh outcomes in
/// order. A pending file beyond the outcomes counts as failed.
pub open spec fn spec_merge(
    plan: Seq<PlannedEntryView>,
    fresh: Seq<Option<Seq<char>>>,
    st: ScanStateView,
) -> ScanStateView
    decreases plan.len(),
{
    if plan.len() == 0 {
        st
    } else {
        let e = plan.first();
        match e.cached_digest {
            Some(d) => spec_merge(plan.drop_first(), fresh, spec_scan_step(st, e.file, Some(d), false)),
            None => if fresh.len() == 0 {
                spec_merge(plan.drop_first(), fresh, spec_scan_step(st, e.file, None, true))
            } else {
                spec_merge(
                    plan.drop_first(),
                    fresh.drop_first(),
                    spec_scan_step(st, e.file, fresh.first(), true),
                )
            },
        }
    }
}

/// What a scan hands back: the new index, the refreshed cache, the paths
/// whose hashing failed (skipped, not fatal), and the paths dropped as
/// duplicate content.
pub struct ScanOutcome {
    pub index: Index,
    pub cache: Cache,
    pub failed: Vec<String>,
    pub duplicates: Vec<String>,
}

/// Queries the cache for every walked file, in file order.
pub fn plan_scan(files: &Vec<FileEntry>, cache: &Cache) -> (plan: Vec<PlannedEntry>)
    requires
        cache.wf(),
    ensures
        plan_views(plan@) == spec_plan(file_views(files@), cache@),
{
    let mut plan: Vec<PlannedEntry> = Vec::new();
    let mut i: usize = 0;
    while i < files.len()
        invariant
            i <= files@.len(),
            cache.wf(),
            plan_views(plan@) =~= spec_plan(file_views(files@), cache@).take(i as int),
        decreases files@.len() - i,
    {
        let f = &files[i];
        let cached_digest = cache.lookup(&f.path, f.mod_date);
        let entry = PlannedEntry { file: f.clone(), cached_digest };
        proof {
            assert(entry@.cached_digest == spec_cache_hit(cache@, f@));
        }
        let ghost pre = plan@;
        plan.push(entry);
        proof {
            let sp = spec_plan(file_views(files@), cache@);
            assert(file_views(files@)[i as int] == files@[i as int]@);
            assert(sp[i as int] == (PlannedEntryView {
                file: files@[i as int]@,
                cached_digest: spec_cache_hit(cache@, files@[i as int]@),
            }));
            assert(plan_views(plan@) =~= plan_views(pre).push(sp[i as int]));
            assert(plan_views(plan@) =~= sp.take(i + 1));
        }
        i = i + 1;
    }
    proof {
        assert(spec_plan(file_views(files@), cache@).take(files@.len() as int) =~= spec_plan(
            file_views(files@),
            cache@,
        ));
    }
    plan
}

/// Collects the files of a plan that must be rehashed, in plan order.
pub fn pending_files(plan: &Vec<PlannedEntry>) -> (r: Vec<FileEntry>)
    ensures
        file_views(r@) == spec_pending(plan_views(plan@)),
{
    let mut r: Vec<FileEntry> = Vec::new();
    proof {
        assert(file_views(r@) + spec_pending(plan_views(plan@)) =~= spec_pending(
            plan_views(plan@),
        ));
        assert(plan_views(plan@).skip(0) =~= plan_views(plan@));
    }
    let mut i: usize = 0;
    while i < plan.len()
        invariant
            i <= plan@.len(),
            spec_pending(plan_views(plan@)) == file_views(r@) + spec_pending(
                plan_views(plan@).skip(i as int),
            ),
        decreases plan@.len() - i,
    {
        let ghost pv = plan_views(plan@);
        proof {
            assert(pv.skip(i as int).first() == pv[i as int]);
            assert(pv.skip(i as int).drop_first() =~= pv.skip(i + 1));
        }
        let e = &plan[i];
        if e.cached_digest.is_none() {
            let ghost pre = r@;
            r.push(e.file.clone());
            proof {
                assert(file_views(r@) =~= file_views(pre).push(pv[i as int].file));
                assert(file_views(pre) + (seq![pv[i as int].file] + spec_pending(
                    pv.skip(i + 1),
                )) =~= file_views(r@) + spec_pending(pv.skip(i + 1)));
            }
        } else {
            proof {
                assert(file_views(r@) + (Seq::<FileEntryView>::empty() + spec_pending(
                    pv.skip(i + 1),
                )) =~= file_views(r@) + spec_pending(pv.skip(i + 1)));
            }
        }
        i = i + 1;
    }
    proof {
        assert(plan_views(plan@).skip(plan@.len() as int) =~= Seq::<PlannedEntryView>::empty());
        assert(file_views(r@) + spec_pending(Seq::<PlannedEntryView>::empty()) =~= file_views(r@));
    }
    r
}

/// Splits the files to hash into `workers` contiguous partitions that cover
/// every file exactly once; sizes need not be perfectly even.
pub fn split_partitions(items: &Vec<FileEntry>, workers: usize) -> (parts: Vec<Vec<FileEntry>>)
    requires
        workers >= 1,
    ensures
        parts@.len() == workers,
        parts_views(parts@).flatten() == file_views(items@),
{
    let n = items.len();
    let floor = n / workers;
    let base = if floor == 0 {
        1usize
    } else {
        floor
    };
    let mut parts: Vec<Vec<FileEntry>> = Vec::new();
    let mut pos: usize = 0;
    let mut w: usize = 0;
    proof {
        assert(parts_views(parts@) =~= Seq::<Seq<FileEntryView>>::empty());
        assert(parts_views(parts@).flatten() =~= file_views(items@).take(0));
    }
    while w < workers
        invariant
            w <= workers,
            pos <= n,
            n == items@.len(),
            workers >= 1,
            parts@.len() == w,
            parts_views(parts@).flatten() == file_views(items@).take(pos as int),
            w == workers ==> pos == n,
        decreases workers - w,
    {
        let take_n = if w == workers - 1 {
            n - pos
        } else if base < n - pos {
            base
        } else {
            n - pos
        };
        let mut part: Vec<FileEntry> = Vec::new();
        let mut k: usize = 0;
        proof {
            assert(file_views(part@) =~= file_views(items@).subrange(pos as int, pos as int));
        }
        while k < take_n
            invariant
                k <= take_n,
                pos + take_n <= n,
                n == items@.len(),
                file_views(part@) == file_views(items@).subrange(pos as int, pos + k),
            decreases take_n - k,
        {
            let ghost pre = part@;
            part.push(items[pos + k].clone());
            proof {
                assert(file_views(part@) =~= file_views(pre).push(items@[pos + k]@));
                assert(file_views(items@).subrange(pos as int, pos + k + 1) =~= file_views(
                    items@,
                ).subrange(pos as int, pos + k).push(file_views(items@)[pos + k]));
            }
            k = k + 1;
        }
        let ghost pre_parts = parts@;
        parts.push(part);
        proof {
            assert(parts_views(parts@) =~= parts_views(pre_parts).push(
                parts_views(parts@).last(),
            ));
            parts_views(pre_parts).lemma_flatten_push(parts_views(parts@).last());
            assert(file_views(items@).take(pos as int) + file_views(items@).subrange(
                pos as int,
                pos + take_n,
            ) =~= file_views(items@).take(pos + take_n));
        }
        pos = pos + take_n;
        w = w + 1;
    }
    proof {
        assert(file_views(items@).take(n as int) =~= file_views(items@));
    }
    parts
}

/// Merges the plan with the fresh digests of its pending files: the index is
/// built in plan order with the first writer winning each digest, the cache
/// is refreshed for every freshly hashed file, and failures and dropped
/// duplicates are reported.
pub fn merge_scan(plan: &Vec<PlannedEntry>, fresh: &Vec<Option<String>>, cache: Cache) -> (out:
    ScanOutcome)
    requires
        cache.wf(),
    ensures
        out.index.wf(),
        out.cache.wf(),
        (ScanStateView {
            index: out.index@,
            cache: out.cache@,
            failed: string_views(out.failed@),
            duplicates: string_views(out.duplicates@),
        }) == spec_merge(plan_views(plan@), opt_digest_views(fresh@), spec_scan_init(cache@)),
{
    let ghost init_st = spec_scan_init(cache@);
    let mut index = Index::new();
    let mut cache = cache;
    let mut failed: Vec<String> = Vec::new();
    let mut duplicates: Vec<String> = Vec::new();
    let mut i: usize = 0;
    let mut j: usize = 0;
    proof {
        assert(plan_views(plan@).skip(0) =~= plan_views(plan@));
        assert(opt_digest_views(fresh@).skip(0) =~= opt_digest_views(fresh@));
        assert((ScanStateView {
            index: index@,
            cache: cache@,
            failed: string_views(failed@),
            duplicates: string_views(duplicates@),
        }) =~= init_st);
    }
    while i < plan.len()
        invariant
            i <= plan@.len(),
            j <= fresh@.len(),
            index.wf(),
            cache.wf(),
            spec_merge(plan_views(plan@), opt_digest_views(fresh@), init_st) == spec_merge(
                plan_views(plan@).skip(i as int),
                opt_digest_views(fresh@).skip(j as int),
                ScanStateView {
                    index: index@,
                    cache: cache@,
                    failed: string_views(failed@),
                    duplicates: string_views(duplicates@),
                },
            ),
        decreases plan@.len() - i,
    {
        let ghost pv = plan_views(plan@);
        let ghost fv = opt_digest_views(fresh@);
        let ghost jold = j as int;
        let ghost cur = ScanStateView {
            index: index@,
            cache: cache@,
            failed: string_views(failed@),
            duplicates: string_views(duplicates@),
        };
        proof {
            assert(pv.skip(i as int).first() == pv[i as int]);
            assert(pv.skip(i as int).drop_first() =~= pv.skip(i + 1));
        }
        let e = &plan[i];
        match &e.cached_digest {
            Some(d) => {
                proof {
                    assert(pv[i as int].cached_digest == Some(d@));
                }
                let inserted = index.insert_first_wins(d.clone(), e.file.path.clone());
                if !inserted {
                    let ghost pre = duplicates@;
                    duplicates.push(e.file.path.clone());
                    proof {
                        assert(string_views(duplicates@) =~= string_views(pre).push(e.file.path@));
                    }
                }
                proof {
                    assert((ScanStateView {
                        index: index@,
                        cache: cache@,
                        failed: string_views(failed@),
                        duplicates: string_views(duplicates@),
                    }) =~= spec_scan_step(cur, pv[i as int].file, Some(d@), false));
                    assert(spec_merge(pv.skip(i as int), fv.skip(jold), cur) == spec_merge(
                        pv.skip(i + 1),
                        fv.skip(jold),
                        spec_scan_step(cur, pv[i as int].file, Some(d@), false),
                    ));
                }
            },
            None => {
                proof {
                    assert(pv[i as int].cached_digest is None);
                }
                let outcome: Option<String> = if j < fresh.len() {
                    let o = match &fresh[j] {
                        Some(d) => Some(d.clone()),
                        None => None,
                    };
                    j = j + 1;
                    o
                } else {
                    None
                };
                let ghost out_view = match &outcome {
                    Some(d) => Some(d@),
                    None => None,
                };
                proof {
                    if jold < fv.len() {
                        assert(fv.skip(jold).first() == fv[jold]);
                        assert(fv.skip(jold).drop_first() =~= fv.skip(jold + 1));
                        assert(out_view == fv[jold]);
                        assert(j == jold + 1);
                    } else {
                        assert(fv.skip(jold) =~= Seq::<Option<Seq<char>>>::empty());
                        assert(out_view is None);
                        assert(j == jold);
                    }
                }
                match outcome {
                    Some(d) => {
                        cache.update(e.file.path.clone(), d.clone(), e.file.mod_date);
                        let inserted = index.insert_first_wins(d, e.file.path.clone());
                        if !inserted {
                            let ghost pre = duplicates@;
                            duplicates.push(e.file.path.clone());
                            proof {
                                assert(string_views(duplicates@) =~= string_views(pre).push(
                                    e.file.path@,
                                ));
                            }
                        }
                    },
                    None => {
                        let ghost pre = failed@;
                        failed.push(e.file.path.clone());
                        proof {
                            assert(string_views(failed@) =~= string_views(pre).push(e.file.path@));
                        }
                    },
                }
                proof {
                    assert((ScanStateView {
                        index: index@,
                        cache: cache@,
                        failed: string_views(failed@),
                        duplicates: string_views(duplicates@),
                    }) =~= spec_scan_step(cur, pv[i as int].file, out_view, true));
                    assert(spec_merge(pv.skip(i as int), fv.skip(jold), cur) == spec_merge(
                        pv.skip(i + 1),
                        fv.skip(j as int),
                        spec_scan_step(cur, pv[i as int].file, out_view, true),
                    ));
                }
            },
        }
        i = i + 1;
    }
    proof {
        assert(plan_views(plan@).skip(plan@.len() as int) =~= Seq::<PlannedEntryView>::empty());
    }
    ScanOutcome { index, cache, failed, duplicates }
}

} // verus!
