//! Association lists keyed by path or digest strings, with their `Map` view.
//!
//! Both the cache and the index store their entries as a vector of
//! `(String, value)` pairs whose keys are pairwise distinct; contracts speak
//! of the `Map` from key view to value view that such a list denotes.

use vstd::prelude::*;

verus! {

/// The map an association list denotes; later entries override earlier ones.
pub open spec fn kv_map<V: View>(s: Seq<(String, V)>) -> Map<Seq<char>, V::V>
    decreases s.len(),
{
    if s.len() == 0 {
        Map::empty()
    } else {
        kv_map(s.drop_last()).insert(s.last().0@, s.last().1@)
    }
}

/// No two entries share a key.
pub open spec fn kv_keys_distinct<V>(s: Seq<(String, V)>) -> bool {
    forall|i: int, j: int| 0 <= i < j < s.len() ==> s[i].0@ != s[j].0@
}

/// A key is in the map exactly when some entry carries it.
pub proof fn lemma_kv_map_contains<V: View>(s: Seq<(String, V)>, k: Seq<char>)
    ensures
        kv_map(s).contains_key(k) <==> exists|i: int| 0 <= i < s.len() && s[i].0@ == k,
    decreases s.len(),
{
    if s.len() > 0 {
        lemma_kv_map_contains(s.drop_last(), k);
        if s.last().0@ == k {
            assert(s[s.len() - 1].0@ == k);
        } else if kv_map(s).contains_key(k) {
            let i = choose|i: int| 0 <= i < s.drop_last().len() && s.drop_last()[i].0@ == k;
            assert(s[i].0@ == k);
        } else if exists|i: int| 0 <= i < s.len() && s[i].0@ == k {
            let i = choose|i: int| 0 <= i < s.len() && s[i].0@ == k;
            assert(s.drop_last()[i].0@ == k);
        }
    }
}

/// With distinct keys, the map sends each entry's key to its value.
pub proof fn lemma_kv_map_index<V: View>(s: Seq<(String, V)>, i: int)
    requires
        kv_keys_distinct(s),
        0 <= i < s.len(),
    ensures
        kv_map(s).contains_key(s[i].0@),
        kv_map(s)[s[i].0@] == s[i].1@,
    decreases s.len(),
{
    if i < s.len() - 1 {
        assert(kv_keys_distinct(s.drop_last())) by {
            assert(forall|m: int, n: int|
                0 <= m < n < s.drop_last().len() ==> s.drop_last()[m].0@ != s.drop_last()[n].0@);
        }
        lemma_kv_map_index(s.drop_last(), i);
        assert(s.drop_last()[i] == s[i]);
        assert(s.last().0@ != s[i].0@);
    }
}

/// Appending a fresh pair inserts it into the map.
pub proof fn lemma_kv_map_push<V: View>(s: Seq<(String, V)>, k: String, v: V)
    ensures
        kv_map(s.push((k, v))) == kv_map(s).insert(k@, v@),
{
    assert(s.push((k, v)).drop_last() =~= s);
    assert(s.push((k, v)).last() == (k, v));
}

/// Replacing one entry by a pair with the same key view updates the map
/// at that key.
pub proof fn lemma_kv_map_update<V: View>(s: Seq<(String, V)>, i: int, k: String, v: V)
    requires
        kv_keys_distinct(s),
        0 <= i < s.len(),
        k@ == s[i].0@,
    ensures
        kv_map(s.update(i, (k, v))) =~= kv_map(s).insert(k@, v@),
    decreases s.len(),
{
    let t = s.update(i, (k, v));
    if i == s.len() - 1 {
        assert(t.drop_last() =~= s.drop_last());
        assert(t.last() == (k, v));
    } else {
        assert(kv_keys_distinct(s.drop_last())) by {
            assert(forall|m: int, n: int|
                0 <= m < n < s.drop_last().len() ==> s.drop_last()[m].0@ != s.drop_last()[n].0@);
        }
        assert(s.drop_last()[i] == s[i]);
        lemma_kv_map_update(s.drop_last(), i, k, v);
        assert(t.drop_last() =~= s.drop_last().update(i, (k, v)));
        assert(t.last() == s.last());
        assert(s.last().0@ != s[i].0@);
    }
}

/// Keys stay distinct when a pair with an unused key is appended.
pub proof fn lemma_kv_distinct_push<V>(s: Seq<(String, V)>, k: String, v: V)
    requires
        kv_keys_distinct(s),
        forall|i: int| 0 <= i < s.len() ==> s[i].0@ != k@,
    ensures
        kv_keys_distinct(s.push((k, v))),
{
}

/// Keys stay distinct when one entry is replaced by a pair with the same
/// key view.
pub proof fn lemma_kv_distinct_update<V>(s: Seq<(String, V)>, i: int, k: String, v: V)
    requires
        kv_keys_distinct(s),
        0 <= i < s.len(),
        k@ == s[i].0@,
    ensures
        kv_keys_distinct(s.update(i, (k, v))),
{
}

/// Finds the entry carrying a key, if any.
pub fn kv_find<V: View>(entries: &Vec<(String, V)>, key: &String) -> (r: Option<usize>)
    requires
        kv_keys_distinct(entries@),
    ensures
        match r {
            Some(i) => i < entries@.len() && entries@[i as int].0@ == key@ && kv_map(
                entries@,
            ).contains_key(key@) && kv_map(entries@)[key@] == entries@[i as int].1@,
            None => !kv_map(entries@).contains_key(key@),
        },
{
    let mut i: usize = 0;
    while i < entries.len()
        invariant
            i <= entries@.len(),
            kv_keys_distinct(entries@),
            forall|j: int| 0 <= j < i ==> entries@[j].0@ != key@,
        decreases entries@.len() - i,
    {
        if entries[i].0 == *key {
            proof {
                lemma_kv_map_index(entries@, i as int);
            }
            return Some(i);
        }
        i = i + 1;
    }
    proof {
        lemma_kv_map_contains(entries@, key@);
    }
    None
}

} // verus!
