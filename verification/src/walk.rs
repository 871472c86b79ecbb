//! Walking a hash map: every entry comes once, in no particular order.

use vstd::prelude::*;

verus! {

/// Whether `walk` holds every entry of `map` once.
pub open spec fn covers<K, V>(walk: Seq<(&K, &V)>, map: Map<K, V>) -> bool {
    &&& walk.no_duplicates()
    &&& forall|i: int|
        0 <= i < walk.len() ==> map.contains_key(*(#[trigger] walk[i]).0) && map[*walk[i].0]
            == *walk[i].1
    &&& forall|k: K| #[trigger] map.contains_key(k) ==> walk.contains((&k, &map[k]))
}

/// Whether `done` holds the keys of the first `count` entries, and no others.
pub open spec fn is_done<K, V>(walk: Seq<(&K, &V)>, count: int, done: Set<K>) -> bool {
    &&& done.finite()
    &&& 0 <= count <= walk.len()
    &&& done.len() == count
    &&& forall|i: int|
        0 <= i < walk.len() ==> (done.contains(*(#[trigger] walk[i]).0) <==> i < count)
    &&& forall|k: K| #[trigger] done.contains(k) ==> exists|i: int|
        0 <= i < count && *(#[trigger] walk[i]).0 == k
}

/// One more entry of a walk is done.
pub proof fn lemma_next<K, V>(walk: Seq<(&K, &V)>, map: Map<K, V>, count: int, done: Set<K>)
    requires
        covers(walk, map),
        is_done(walk, count, done),
        count < walk.len(),
    ensures
        !done.contains(*walk[count].0),
        map.contains_key(*walk[count].0),
        map[*walk[count].0] == *walk[count].1,
        is_done(walk, count + 1, done.insert(*walk[count].0)),
{
    let key = *walk[count].0;
    assert forall|i: int| 0 <= i < walk.len() implies (done.insert(key).contains(
        *(#[trigger] walk[i]).0,
    ) <==> i < count + 1) by {
        if *walk[i].0 == key {
            assert(walk[i] == walk[count]);
        }
    }
    assert forall|k: K| #[trigger] done.insert(key).contains(k) implies exists|i: int|
        0 <= i < count + 1 && *(#[trigger] walk[i]).0 == k by {
        if k == key {
            assert(*walk[count].0 == k);
        } else {
            let i = choose|i: int| 0 <= i < count && *(#[trigger] walk[i]).0 == k;
            assert(*walk[i].0 == k);
        }
    }
}

/// Putting in an id that is not there yet adds it, wherever it is put.
pub proof fn lemma_insert<K>(ids: Seq<K>, place: int, id: K)
    requires
        0 <= place <= ids.len(),
    ensures
        forall|x: K| #[trigger]
            ids.insert(place, id).contains(x) <==> ids.contains(x) || x == id,
        ids.no_duplicates() && !ids.contains(id) ==> ids.insert(place, id).no_duplicates(),
{
    let more = ids.insert(place, id);
    assert forall|x: K| #[trigger] more.contains(x) <==> ids.contains(x) || x == id by {
        if ids.contains(x) {
            let i = choose|i: int| 0 <= i < ids.len() && ids[i] == x;
            if i < place {
                assert(more[i] == x);
            } else {
                assert(more[i + 1] == x);
            }
        }
        if x == id {
            assert(more[place] == x);
        }
        if more.contains(x) {
            let i = choose|i: int| 0 <= i < more.len() && more[i] == x;
            if i < place {
                assert(ids[i] == x);
            } else if i > place {
                assert(ids[i - 1] == x);
            }
        }
    }
}

} // verus!
