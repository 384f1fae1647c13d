//! Laws of the scan pipeline, stated over the spec model of `scan` and
//! proved once and for all: what the cache serves on a second scan, what a
//! changed or preserved modification timestamp does to the next index, and
//! that the partition count never changes the scan's outcome.

use vstd::prelude::*;

use crate::cache::CacheRecordView;
use crate::scan::spec_merge;
use crate::scan::spec_pending;
use crate::scan::spec_plan;
use crate::scan::spec_scan_init;
use crate::scan::spec_scan_step;
use crate::scan::spec_cache_hit;
use crate::scan::PlannedEntryView;
use crate::scan::ScanStateView;
use crate::walker::FileEntryView;

verus! {

/// No two files share a path.
pub open spec fn distinct_paths(files: Seq<FileEntryView>) -> bool {
    forall|i: int, j: int| 0 <= i < j < files.len() ==> files[i].path != files[j].path
}

/// No two plan entries share a path.
pub open spec fn plan_distinct_paths(plan: Seq<PlannedEntryView>) -> bool {
    forall|i: int, j: int| 0 <= i < j < plan.len() ==> plan[i].file.path != plan[j].file.path
}

/// A plan entry's outcome: a cached entry serves its cached digest, a
/// pending entry got some digest.
pub open spec fn outcome_matches(e: PlannedEntryView, o: Option<Seq<char>>) -> bool {
    match e.cached_digest {
        Some(d) => o == Some(d),
        None => o is Some,
    }
}

/// Every hashing outcome succeeded.
pub open spec fn all_hashed(fresh: Seq<Option<Seq<char>>>) -> bool {
    forall|i: int| 0 <= i < fresh.len() ==> fresh[i] is Some
}

/// The digest each plan entry contributes to the merge, in plan order: a
/// cached entry serves its cached digest, a pending entry consumes the next
/// fresh outcome.
pub open spec fn spec_outcomes(
    plan: Seq<PlannedEntryView>,
    fresh: Seq<Option<Seq<char>>>,
) -> Seq<Option<Seq<char>>>
    decreases plan.len(),
{
    if plan.len() == 0 {
        Seq::empty()
    } else {
        match plan.first().cached_digest {
            Some(d) => seq![Some(d)] + spec_outcomes(plan.drop_first(), fresh),
            None => if fresh.len() == 0 {
                seq![None::<Seq<char>>] + spec_outcomes(plan.drop_first(), fresh)
            } else {
                seq![fresh.first()] + spec_outcomes(plan.drop_first(), fresh.drop_first())
            },
        }
    }
}

/// The merge, driven by one outcome per plan entry.
pub open spec fn spec_fold(
    plan: Seq<PlannedEntryView>,
    outs: Seq<Option<Seq<char>>>,
    st: ScanStateView,
) -> ScanStateView
    decreases plan.len(),
{
    if plan.len() == 0 || outs.len() == 0 {
        st
    } else {
        spec_fold(
            plan.drop_first(),
            outs.drop_first(),
            spec_scan_step(st, plan.first().file, outs.first(), plan.first().cached_digest is None),
        )
    }
}

/// The merge equals the fold over the per-entry outcomes.
pub proof fn lemma_merge_as_fold(
    plan: Seq<PlannedEntryView>,
    fresh: Seq<Option<Seq<char>>>,
    st: ScanStateView,
)
    ensures
        spec_merge(plan, fresh, st) == spec_fold(plan, spec_outcomes(plan, fresh), st),
    decreases plan.len(),
{
    if plan.len() > 0 {
        let e = plan.first();
        let outs = spec_outcomes(plan, fresh);
        match e.cached_digest {
            Some(d) => {
                let rest = spec_outcomes(plan.drop_first(), fresh);
                assert(outs.first() == Some(d));
                assert(outs.drop_first() =~= rest);
                lemma_merge_as_fold(
                    plan.drop_first(),
                    fresh,
                    spec_scan_step(st, e.file, Some(d), false),
                );
            },
            None => {
                if fresh.len() == 0 {
                    let rest = spec_outcomes(plan.drop_first(), fresh);
                    assert(outs.first() == None::<Seq<char>>);
                    assert(outs.drop_first() =~= rest);
                    lemma_merge_as_fold(
                        plan.drop_first(),
                        fresh,
                        spec_scan_step(st, e.file, None, true),
                    );
                } else {
                    let rest = spec_outcomes(plan.drop_first(), fresh.drop_first());
                    assert(outs.first() == fresh.first());
                    assert(outs.drop_first() =~= rest);
                    lemma_merge_as_fold(
                        plan.drop_first(),
                        fresh.drop_first(),
                        spec_scan_step(st, e.file, fresh.first(), true),
                    );
                }
            },
        }
    }
}

/// With enough successful fresh outcomes, every entry's outcome is a digest,
/// and a cached entry's outcome is its cached digest.
pub proof fn lemma_outcomes_props(plan: Seq<PlannedEntryView>, fresh: Seq<Option<Seq<char>>>)
    requires
        all_hashed(fresh),
        fresh.len() >= spec_pending(plan).len(),
    ensures
        spec_outcomes(plan, fresh).len() == plan.len(),
        forall|i: int|
            0 <= i < plan.len() ==> outcome_matches(plan[i], #[trigger] spec_outcomes(plan, fresh)[i]),
    decreases plan.len(),
{
    if plan.len() > 0 {
        let e = plan.first();
        let outs = spec_outcomes(plan, fresh);
        match e.cached_digest {
            Some(d) => {
                assert(spec_pending(plan) =~= spec_pending(plan.drop_first()));
                lemma_outcomes_props(plan.drop_first(), fresh);
                let rest = spec_outcomes(plan.drop_first(), fresh);
                assert(forall|i: int|
                    1 <= i < plan.len() ==> outs[i] == rest[i - 1] && plan[i] == plan.drop_first()[i
                        - 1]);
            },
            None => {
                assert(spec_pending(plan).len() == 1 + spec_pending(plan.drop_first()).len());
                assert(fresh.len() >= 1);
                assert(all_hashed(fresh.drop_first())) by {
                    assert(forall|i: int|
                        0 <= i < fresh.drop_first().len() ==> fresh.drop_first()[i] == fresh[i
                            + 1]);
                }
                lemma_outcomes_props(plan.drop_first(), fresh.drop_first());
                let rest = spec_outcomes(plan.drop_first(), fresh.drop_first());
                assert(forall|i: int|
                    1 <= i < plan.len() ==> outs[i] == rest[i - 1] && plan[i] == plan.drop_first()[i
                        - 1]);
                assert(outs[0] == fresh.first());
                assert(fresh.first() is Some);
            },
        }
    }
}

/// A plan whose entries are all served from the cache has nothing to hash.
pub proof fn lemma_pending_empty(plan: Seq<PlannedEntryView>)
    requires
        forall|i: int| 0 <= i < plan.len() ==> plan[i].cached_digest is Some,
    ensures
        spec_pending(plan).len() == 0,
    decreases plan.len(),
{
    if plan.len() > 0 {
        assert(forall|i: int|
            0 <= i < plan.drop_first().len() ==> plan.drop_first()[i] == plan[i + 1]);
        lemma_pending_empty(plan.drop_first());
        assert(spec_pending(plan) =~= spec_pending(plan.drop_first()));
    }
}

/// Two caches agree at a path: the path is in both or neither, with equal
/// records.
pub open spec fn cache_same_at(
    a: Map<Seq<char>, CacheRecordView>,
    b: Map<Seq<char>, CacheRecordView>,
    p: Seq<char>,
) -> bool {
    (a.contains_key(p) <==> b.contains_key(p)) && (a.contains_key(p) ==> a[p] == b[p])
}

/// Some plan entry carries this path.
pub open spec fn path_in_plan(plan: Seq<PlannedEntryView>, p: Seq<char>) -> bool {
    exists|i: int| 0 <= i < plan.len() && plan[i].file.path == p
}

/// What the merge does to the cache at one entry's path: a cached entry
/// leaves its record alone; a rehashed entry's record now carries the fresh
/// digest and the file's observed modification timestamp.
pub open spec fn cache_entry_effect(
    plan: Seq<PlannedEntryView>,
    outs: Seq<Option<Seq<char>>>,
    st: ScanStateView,
    i: int,
) -> bool {
    let r = spec_fold(plan, outs, st);
    if plan[i].cached_digest is Some {
        cache_same_at(r.cache, st.cache, plan[i].file.path)
    } else {
        r.cache.contains_key(plan[i].file.path) && r.cache[plan[i].file.path] == (CacheRecordView {
            hash: outs[i]->0,
            mod_date: plan[i].file.mod_date,
        })
    }
}

/// After a merge with distinct paths and successful outcomes, the cache
/// holds the fresh record for every rehashed file, the unchanged record for
/// every cached file, and is untouched elsewhere.
pub proof fn lemma_fold_cache(
    plan: Seq<PlannedEntryView>,
    outs: Seq<Option<Seq<char>>>,
    st: ScanStateView,
)
    requires
        outs.len() == plan.len(),
        plan_distinct_paths(plan),
        all_hashed(outs),
    ensures
        forall|p: Seq<char>| #![trigger path_in_plan(plan, p)]
            !path_in_plan(plan, p) ==> cache_same_at(spec_fold(plan, outs, st).cache, st.cache, p),
        forall|i: int| 0 <= i < plan.len() ==> #[trigger] cache_entry_effect(plan, outs, st, i),
    decreases plan.len(),
{
    if plan.len() > 0 {
        let e = plan.first();
        let st1 = spec_scan_step(st, e.file, outs.first(), e.cached_digest is None);
        let r = spec_fold(plan, outs, st);
        assert(r == spec_fold(plan.drop_first(), outs.drop_first(), st1));
        assert(forall|i: int|
            0 <= i < plan.drop_first().len() ==> plan.drop_first()[i] == plan[i + 1]
                && outs.drop_first()[i] == outs[i + 1]);
        assert(plan_distinct_paths(plan.drop_first()));
        assert(all_hashed(outs.drop_first()));
        lemma_fold_cache(plan.drop_first(), outs.drop_first(), st1);
        assert(!path_in_plan(plan.drop_first(), e.file.path)) by {
            if path_in_plan(plan.drop_first(), e.file.path) {
                let k = choose|k: int|
                    0 <= k < plan.drop_first().len() && plan.drop_first()[k].file.path
                        == e.file.path;
                assert(plan[0].file.path != plan[k + 1].file.path);
            }
        }
        // the first step touches the cache at the first path only
        assert forall|p: Seq<char>| p != e.file.path implies cache_same_at(
            st1.cache,
            st.cache,
            p,
        ) by {}
        if e.cached_digest is Some {
            assert(st1.cache == st.cache);
        } else {
            assert(outs.first() is Some);
            assert(st1.cache == st.cache.insert(
                e.file.path,
                CacheRecordView { hash: outs.first()->0, mod_date: e.file.mod_date },
            ));
        }
        assert forall|p: Seq<char>| !path_in_plan(plan, p) implies cache_same_at(
            r.cache,
            st.cache,
            p,
        ) by {
            assert(!path_in_plan(plan.drop_first(), p)) by {
                if path_in_plan(plan.drop_first(), p) {
                    let k = choose|k: int|
                        0 <= k < plan.drop_first().len() && plan.drop_first()[k].file.path == p;
                    assert(0 <= k + 1 < plan.len() && plan[k + 1].file.path == p);
                }
            }
            assert(0 <= 0 < plan.len() && plan[0].file.path == e.file.path);
            assert(path_in_plan(plan, e.file.path));
            assert(p != e.file.path);
            assert(cache_same_at(r.cache, st1.cache, p));
        }
        assert forall|i: int| 0 <= i < plan.len() implies #[trigger] cache_entry_effect(
            plan,
            outs,
            st,
            i,
        ) by {
            if i == 0 {
                assert(path_in_plan(plan, e.file.path)) by {
                    assert(0 <= 0 < plan.len() && plan[0].file.path == e.file.path);
                }
                assert(cache_same_at(r.cache, st1.cache, e.file.path));
            } else {
                assert(cache_entry_effect(plan.drop_first(), outs.drop_first(), st1, i - 1));
                assert(plan.drop_first()[i - 1] == plan[i]);
                assert(outs.drop_first()[i - 1] == outs[i]);
                assert(plan[i].file.path != e.file.path);
                assert(cache_same_at(st1.cache, st.cache, plan[i].file.path));
            }
        }
    }
}

/// The digest events of a merge: each entry's path with its outcome.
pub open spec fn zip_digests(
    plan: Seq<PlannedEntryView>,
    outs: Seq<Option<Seq<char>>>,
) -> Seq<(Seq<char>, Option<Seq<char>>)> {
    Seq::new(plan.len(), |i: int| (plan[i].file.path, outs[i]))
}

/// The index that a sequence of digest events builds over an initial index:
/// each digest maps to the first path that produced it.
pub open spec fn index_fold(
    ds: Seq<(Seq<char>, Option<Seq<char>>)>,
    ix: Map<Seq<char>, Seq<char>>,
) -> Map<Seq<char>, Seq<char>>
    decreases ds.len(),
{
    if ds.len() == 0 {
        ix
    } else {
        let next = match ds.first().1 {
            Some(d) => if ix.contains_key(d) {
                ix
            } else {
                ix.insert(d, ds.first().0)
            },
            None => ix,
        };
        index_fold(ds.drop_first(), next)
    }
}

/// The index a merge builds depends on the digest events alone.
pub proof fn lemma_fold_index(
    plan: Seq<PlannedEntryView>,
    outs: Seq<Option<Seq<char>>>,
    st: ScanStateView,
)
    requires
        outs.len() == plan.len(),
    ensures
        spec_fold(plan, outs, st).index == index_fold(zip_digests(plan, outs), st.index),
    decreases plan.len(),
{
    if plan.len() > 0 {
        let e = plan.first();
        let st1 = spec_scan_step(st, e.file, outs.first(), e.cached_digest is None);
        let ds = zip_digests(plan, outs);
        assert(ds.first() == (e.file.path, outs.first()));
        assert(ds.drop_first() =~= zip_digests(plan.drop_first(), outs.drop_first()));
        lemma_fold_index(plan.drop_first(), outs.drop_first(), st1);
    }
}

/// A digest already mapped keeps its path through any further events.
pub proof fn lemma_index_fold_monotone(
    ds: Seq<(Seq<char>, Option<Seq<char>>)>,
    ix: Map<Seq<char>, Seq<char>>,
    d: Seq<char>,
)
    requires
        ix.contains_key(d),
    ensures
        index_fold(ds, ix).contains_key(d),
        index_fold(ds, ix)[d] == ix[d],
    decreases ds.len(),
{
    if ds.len() > 0 {
        let next = match ds.first().1 {
            Some(d0) => if ix.contains_key(d0) {
                ix
            } else {
                ix.insert(d0, ds.first().0)
            },
            None => ix,
        };
        lemma_index_fold_monotone(ds.drop_first(), next, d);
    }
}

/// A digest produced by exactly one event, and absent from the initial
/// index, maps to that event's path.
pub proof fn lemma_index_fold_unique(
    ds: Seq<(Seq<char>, Option<Seq<char>>)>,
    ix: Map<Seq<char>, Seq<char>>,
    k: int,
)
    requires
        0 <= k < ds.len(),
        ds[k].1 is Some,
        forall|j: int| 0 <= j < ds.len() && j != k ==> ds[j].1 != ds[k].1,
        !ix.contains_key(ds[k].1->0),
    ensures
        index_fold(ds, ix).contains_key(ds[k].1->0),
        index_fold(ds, ix)[ds[k].1->0] == ds[k].0,
    decreases ds.len(),
{
    let d = ds[k].1->0;
    if k == 0 {
        let next = ix.insert(d, ds[0].0);
        lemma_index_fold_monotone(ds.drop_first(), next, d);
    } else {
        let next = match ds.first().1 {
            Some(d0) => if ix.contains_key(d0) {
                ix
            } else {
                ix.insert(d0, ds.first().0)
            },
            None => ix,
        };
        assert(ds[0].1 != ds[k].1);
        assert(!next.contains_key(d));
        assert(forall|j: int|
            0 <= j < ds.drop_first().len() ==> ds.drop_first()[j] == ds[j + 1]);
        lemma_index_fold_unique(ds.drop_first(), next, k - 1);
    }
}

/// A plan pairs each file, in order, with what the cache serves for it.
pub proof fn lemma_plan_pointwise(files: Seq<FileEntryView>, m: Map<Seq<char>, CacheRecordView>)
    ensures
        spec_plan(files, m).len() == files.len(),
        forall|i: int|
            0 <= i < files.len() ==> #[trigger] spec_plan(files, m)[i] == (PlannedEntryView {
                file: files[i],
                cached_digest: spec_cache_hit(m, files[i]),
            }),
{
}

/// The i-th pending file comes from some plan entry the cache did not serve.
pub open spec fn pending_from_entry(plan: Seq<PlannedEntryView>, i: int) -> bool {
    exists|j: int|
        0 <= j < plan.len() && plan[j].cached_digest is None && spec_pending(plan)[i]
            == plan[j].file
}

/// Every pending file is the file of some plan entry the cache did not serve.
pub proof fn lemma_pending_paths(plan: Seq<PlannedEntryView>)
    ensures
        forall|i: int| 0 <= i < spec_pending(plan).len() ==> #[trigger] pending_from_entry(plan, i),
    decreases plan.len(),
{
    if plan.len() > 0 {
        let e = plan.first();
        lemma_pending_paths(plan.drop_first());
        assert(forall|j: int|
            0 <= j < plan.drop_first().len() ==> plan.drop_first()[j] == plan[j + 1]);
        if e.cached_digest is None {
            assert(spec_pending(plan) =~= seq![e.file] + spec_pending(plan.drop_first()));
            assert forall|i: int| 0 <= i < spec_pending(plan).len() implies #[trigger] pending_from_entry(
                plan,
                i,
            ) by {
                if i == 0 {
                    assert(spec_pending(plan)[0] == e.file);
                    assert(0 <= 0 < plan.len() && plan[0].cached_digest is None && spec_pending(
                        plan,
                    )[0] == plan[0].file);
                } else {
                    assert(spec_pending(plan)[i] == spec_pending(plan.drop_first())[i - 1]);
                    assert(pending_from_entry(plan.drop_first(), i - 1));
                    let j = choose|j: int|
                        0 <= j < plan.drop_first().len() && plan.drop_first()[j].cached_digest
                            is None && spec_pending(plan.drop_first())[i - 1]
                            == plan.drop_first()[j].file;
                    assert(0 <= j + 1 < plan.len() && plan[j + 1].cached_digest is None
                        && spec_pending(plan)[i] == plan[j + 1].file);
                }
            }
        } else {
            assert(spec_pending(plan) =~= spec_pending(plan.drop_first()));
            assert forall|i: int| 0 <= i < spec_pending(plan).len() implies #[trigger] pending_from_entry(
                plan,
                i,
            ) by {
                assert(spec_pending(plan)[i] == spec_pending(plan.drop_first())[i]);
                assert(pending_from_entry(plan.drop_first(), i));
                let j = choose|j: int|
                    0 <= j < plan.drop_first().len() && plan.drop_first()[j].cached_digest is None
                        && spec_pending(plan.drop_first())[i] == plan.drop_first()[j].file;
                assert(0 <= j + 1 < plan.len() && plan[j + 1].cached_digest is None
                    && spec_pending(plan)[i] == plan[j + 1].file);
            }
        }
    }
}

/// Every per-entry outcome of a fully successful scan is a digest.
pub proof fn lemma_outcomes_all_hashed(plan: Seq<PlannedEntryView>, fresh: Seq<Option<Seq<char>>>)
    requires
        all_hashed(fresh),
        fresh.len() >= spec_pending(plan).len(),
    ensures
        spec_outcomes(plan, fresh).len() == plan.len(),
        all_hashed(spec_outcomes(plan, fresh)),
{
    lemma_outcomes_props(plan, fresh);
    assert forall|i: int| 0 <= i < spec_outcomes(plan, fresh).len() implies spec_outcomes(
        plan,
        fresh,
    )[i] is Some by {
        assert(outcome_matches(plan[i], spec_outcomes(plan, fresh)[i]));
    }
}

/// Idempotence of cache hits: after one fully successful scan, a second
/// scan of the same unmodified files has nothing to hash — every file is
/// served from the refreshed cache — and builds an index equal to the
/// first scan's.
pub proof fn lemma_cache_hit_idempotence(
    files: Seq<FileEntryView>,
    cache0: Map<Seq<char>, CacheRecordView>,
    fresh: Seq<Option<Seq<char>>>,
)
    requires
        distinct_paths(files),
        all_hashed(fresh),
        fresh.len() == spec_pending(spec_plan(files, cache0)).len(),
    ensures
        ({
            let st1 = spec_merge(spec_plan(files, cache0), fresh, spec_scan_init(cache0));
            let plan2 = spec_plan(files, st1.cache);
            spec_pending(plan2).len() == 0 && spec_merge(
                plan2,
                Seq::<Option<Seq<char>>>::empty(),
                spec_scan_init(st1.cache),
            ).index == st1.index
        }),
{
    let plan1 = spec_plan(files, cache0);
    let init1 = spec_scan_init(cache0);
    lemma_plan_pointwise(files, cache0);
    assert(plan_distinct_paths(plan1));
    let outs1 = spec_outcomes(plan1, fresh);
    lemma_outcomes_props(plan1, fresh);
    lemma_outcomes_all_hashed(plan1, fresh);
    lemma_merge_as_fold(plan1, fresh, init1);
    let st1 = spec_fold(plan1, outs1, init1);
    lemma_fold_cache(plan1, outs1, init1);
    let plan2 = spec_plan(files, st1.cache);
    lemma_plan_pointwise(files, st1.cache);
    assert forall|i: int| 0 <= i < files.len() implies #[trigger] plan2[i].cached_digest == outs1[i]
        && plan2[i].cached_digest is Some by {
        assert(cache_entry_effect(plan1, outs1, init1, i));
        assert(outcome_matches(plan1[i], outs1[i]));
        let f = files[i];
        if plan1[i].cached_digest is Some {
            assert(spec_cache_hit(cache0, f) == plan1[i].cached_digest);
            assert(cache0.contains_key(f.path) && cache0[f.path].mod_date == f.mod_date);
            assert(cache_same_at(st1.cache, cache0, f.path));
            assert(spec_cache_hit(st1.cache, f) == Some(cache0[f.path].hash));
        } else {
            assert(st1.cache.contains_key(f.path));
            assert(st1.cache[f.path] == (CacheRecordView {
                hash: outs1[i]->0,
                mod_date: f.mod_date,
            }));
            assert(spec_cache_hit(st1.cache, f) == Some(outs1[i]->0));
            assert(outs1[i] is Some);
        }
    }
    lemma_pending_empty(plan2);
    let init2 = spec_scan_init(st1.cache);
    lemma_merge_as_fold(plan2, Seq::<Option<Seq<char>>>::empty(), init2);
    let outs2 = spec_outcomes(plan2, Seq::<Option<Seq<char>>>::empty());
    lemma_outcomes_props(plan2, Seq::<Option<Seq<char>>>::empty());
    let st2 = spec_fold(plan2, outs2, init2);
    lemma_fold_index(plan1, outs1, init1);
    lemma_fold_index(plan2, outs2, init2);
    assert(zip_digests(plan1, outs1) =~= zip_digests(plan2, outs2)) by {
        assert forall|i: int| 0 <= i < files.len() implies zip_digests(plan1, outs1)[i]
            == zip_digests(plan2, outs2)[i] by {
            assert(outcome_matches(plan2[i], outs2[i]));
            assert(plan2[i].cached_digest == outs1[i] && plan2[i].cached_digest is Some);
        }
    }
}

/// Change detection: a file whose modification timestamp no longer matches
/// its cache record is rehashed; the refreshed cache record and the new
/// index entry for its path carry the freshly computed digest. (Whether
/// that digest differs from the old one is the hash function's business:
/// distinct contents may collide.)
pub proof fn lemma_change_detection(
    files: Seq<FileEntryView>,
    cache0: Map<Seq<char>, CacheRecordView>,
    fresh: Seq<Option<Seq<char>>>,
    k: int,
)
    requires
        distinct_paths(files),
        all_hashed(fresh),
        fresh.len() == spec_pending(spec_plan(files, cache0)).len(),
        0 <= k < files.len(),
        cache0.contains_key(files[k].path),
        cache0[files[k].path].mod_date != files[k].mod_date,
        forall|j: int|
            0 <= j < files.len() && j != k ==> #[trigger] spec_outcomes(
                spec_plan(files, cache0),
                fresh,
            )[j] != spec_outcomes(spec_plan(files, cache0), fresh)[k],
    ensures
        ({
            let plan1 = spec_plan(files, cache0);
            let st1 = spec_merge(plan1, fresh, spec_scan_init(cache0));
            let d = spec_outcomes(plan1, fresh)[k];
            plan1[k].cached_digest is None && d is Some && st1.cache.contains_key(files[k].path)
                && st1.cache[files[k].path] == (CacheRecordView {
                hash: d->0,
                mod_date: files[k].mod_date,
            }) && st1.index.contains_key(d->0) && st1.index[d->0] == files[k].path
        }),
{
    let plan1 = spec_plan(files, cache0);
    let init1 = spec_scan_init(cache0);
    lemma_plan_pointwise(files, cache0);
    assert(plan_distinct_paths(plan1));
    assert(plan1[k].cached_digest is None);
    let outs1 = spec_outcomes(plan1, fresh);
    lemma_outcomes_props(plan1, fresh);
    lemma_outcomes_all_hashed(plan1, fresh);
    lemma_merge_as_fold(plan1, fresh, init1);
    let st1 = spec_fold(plan1, outs1, init1);
    lemma_fold_cache(plan1, outs1, init1);
    assert(cache_entry_effect(plan1, outs1, init1, k));
    lemma_fold_index(plan1, outs1, init1);
    let ds = zip_digests(plan1, outs1);
    assert(ds[k] == (files[k].path, outs1[k]));
    assert(forall|j: int| 0 <= j < ds.len() && j != k ==> ds[j].1 != ds[k].1);
    lemma_index_fold_unique(ds, Map::<Seq<char>, Seq<char>>::empty(), k);
}

/// Staleness blind spot: a file changed in content but not in modification
/// timestamp is served its old digest from the cache — it is not rehashed,
/// its cache record is untouched, and the index publishes the old,
/// now-incorrect digest. This is the documented cost of timestamp-based
/// staleness detection, not a defect of the merge.
pub proof fn lemma_staleness_blind_spot(
    files: Seq<FileEntryView>,
    cache0: Map<Seq<char>, CacheRecordView>,
    fresh: Seq<Option<Seq<char>>>,
    k: int,
)
    requires
        distinct_paths(files),
        all_hashed(fresh),
        fresh.len() == spec_pending(spec_plan(files, cache0)).len(),
        0 <= k < files.len(),
        cache0.contains_key(files[k].path),
        cache0[files[k].path].mod_date == files[k].mod_date,
        forall|j: int|
            0 <= j < files.len() && j != k ==> #[trigger] spec_outcomes(
                spec_plan(files, cache0),
                fresh,
            )[j] != spec_outcomes(spec_plan(files, cache0), fresh)[k],
    ensures
        ({
            let plan1 = spec_plan(files, cache0);
            let st1 = spec_merge(plan1, fresh, spec_scan_init(cache0));
            let d_old = cache0[files[k].path].hash;
            plan1[k].cached_digest == Some(d_old) && (forall|i: int|
                0 <= i < spec_pending(plan1).len() ==> #[trigger] spec_pending(plan1)[i].path
                    != files[k].path) && st1.cache.contains_key(files[k].path)
                && st1.cache[files[k].path] == cache0[files[k].path] && st1.index.contains_key(
                d_old,
            ) && st1.index[d_old] == files[k].path
        }),
{
    let plan1 = spec_plan(files, cache0);
    let init1 = spec_scan_init(cache0);
    lemma_plan_pointwise(files, cache0);
    assert(plan_distinct_paths(plan1));
    assert(plan1[k].cached_digest == Some(cache0[files[k].path].hash));
    lemma_pending_paths(plan1);
    assert forall|i: int| 0 <= i < spec_pending(plan1).len() implies #[trigger] spec_pending(
        plan1,
    )[i].path != files[k].path by {
        assert(pending_from_entry(plan1, i));
        let j = choose|j: int|
            0 <= j < plan1.len() && plan1[j].cached_digest is None && spec_pending(plan1)[i]
                == plan1[j].file;
        assert(j != k);
        if j < k {
            assert(plan1[j].file.path != plan1[k].file.path);
        } else {
            assert(plan1[k].file.path != plan1[j].file.path);
        }
    }
    let outs1 = spec_outcomes(plan1, fresh);
    lemma_outcomes_props(plan1, fresh);
    lemma_outcomes_all_hashed(plan1, fresh);
    lemma_merge_as_fold(plan1, fresh, init1);
    let st1 = spec_fold(plan1, outs1, init1);
    lemma_fold_cache(plan1, outs1, init1);
    assert(cache_entry_effect(plan1, outs1, init1, k));
    assert(outcome_matches(plan1[k], outs1[k]));
    lemma_fold_index(plan1, outs1, init1);
    let ds = zip_digests(plan1, outs1);
    assert(ds[k] == (files[k].path, outs1[k]));
    assert(forall|j: int| 0 <= j < ds.len() && j != k ==> ds[j].1 != ds[k].1);
    lemma_index_fold_unique(ds, Map::<Seq<char>, Seq<char>>::empty(), k);
}

/// Mapping each partition and concatenating equals mapping the
/// concatenation: hashing per worker loses nothing and reorders nothing.
pub proof fn lemma_map_distributes_flatten<A, B>(parts: Seq<Seq<A>>, f: spec_fn(A) -> B)
    ensures
        parts.map_values(|p: Seq<A>| p.map_values(f)).flatten() == parts.flatten().map_values(f),
    decreases parts.len(),
{
    let g = |p: Seq<A>| p.map_values(f);
    if parts.len() == 0 {
        assert(parts.map_values(g).flatten() =~= parts.flatten().map_values(f));
    } else {
        lemma_map_distributes_flatten(parts.drop_first(), f);
        assert(parts.map_values(g).drop_first() =~= parts.drop_first().map_values(g));
        assert(parts.map_values(g).first() == g(parts.first()));
        assert((parts.first() + parts.drop_first().flatten()).map_values(f) =~= parts.first(
        ).map_values(f) + parts.drop_first().flatten().map_values(f));
        assert(parts.map_values(g).flatten() == parts.map_values(g).first() + parts.map_values(
            g,
        ).drop_first().flatten());
    }
}

/// Partition-count independence: however the pending files are split into
/// contiguous partitions, hashing each partition and concatenating the
/// results gives the same fresh sequence, so the merge — a function of the
/// plan, the fresh sequence, and the prior cache — gives the same index,
/// cache, and reports.
pub proof fn lemma_partition_count_independence(
    plan: Seq<PlannedEntryView>,
    st: ScanStateView,
    parts1: Seq<Seq<FileEntryView>>,
    parts2: Seq<Seq<FileEntryView>>,
    h: spec_fn(FileEntryView) -> Option<Seq<char>>,
)
    requires
        parts1.flatten() == parts2.flatten(),
    ensures
        parts1.map_values(|p: Seq<FileEntryView>| p.map_values(h)).flatten() == parts2.map_values(
            |p: Seq<FileEntryView>| p.map_values(h),
        ).flatten(),
        spec_merge(
            plan,
            parts1.map_values(|p: Seq<FileEntryView>| p.map_values(h)).flatten(),
            st,
        ) == spec_merge(
            plan,
            parts2.map_values(|p: Seq<FileEntryView>| p.map_values(h)).flatten(),
            st,
        ),
{
    lemma_map_distributes_flatten(parts1, h);
    lemma_map_distributes_flatten(parts2, h);
}

} // verus!
