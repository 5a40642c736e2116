//! Association lists keyed by text: the first entry with a key is the one that counts.
use vstd::prelude::*;

verus! {

/// The value of the first entry with key `k`.
pub open spec fn kv_get<V>(e: Seq<(Seq<char>, V)>, k: Seq<char>) -> Option<V>
    decreases e.len(),
{
    if e.len() == 0 {
        None
    } else if e[0].0 == k {
        Some(e[0].1)
    } else {
        kv_get(e.drop_first(), k)
    }
}

/// The map an association list stands for.
pub open spec fn kv_map<V>(e: Seq<(Seq<char>, V)>) -> Map<Seq<char>, V> {
    Map::new(|k: Seq<char>| kv_get(e, k) is Some, |k: Seq<char>| kv_get(e, k)->0)
}

/// `i` is the index of the first entry with key `k`.
pub open spec fn first_index<V>(e: Seq<(Seq<char>, V)>, k: Seq<char>, i: int) -> bool {
    &&& 0 <= i < e.len()
    &&& e[i].0 == k
    &&& forall|j: int| 0 <= j < i ==> e[j].0 != k
}

pub open spec fn no_key<V>(e: Seq<(Seq<char>, V)>, k: Seq<char>) -> bool {
    forall|j: int| 0 <= j < e.len() ==> e[j].0 != k
}

pub proof fn lemma_kv_get_first<V>(e: Seq<(Seq<char>, V)>, k: Seq<char>, i: int)
    requires
        first_index(e, k, i),
    ensures
        kv_get(e, k) == Some(e[i].1),
    decreases i,
{
    if i > 0 {
        lemma_kv_get_first(e.drop_first(), k, i - 1);
    }
}

pub proof fn lemma_kv_get_none<V>(e: Seq<(Seq<char>, V)>, k: Seq<char>)
    requires
        no_key(e, k),
    ensures
        kv_get(e, k) is None,
    decreases e.len(),
{
    if e.len() > 0 {
        lemma_kv_get_none(e.drop_first(), k);
    }
}

pub proof fn lemma_kv_get_some<V>(e: Seq<(Seq<char>, V)>, k: Seq<char>)
    requires
        kv_get(e, k) is Some,
    ensures
        exists|i: int| first_index(e, k, i),
    decreases e.len(),
{
    if e[0].0 != k {
        lemma_kv_get_some(e.drop_first(), k);
        let i = choose|i: int| first_index(e.drop_first(), k, i);
        assert forall|j: int| 0 <= j < i + 1 implies e[j].0 != k by {
            if j > 0 {
                assert(e[j] == e.drop_first()[j - 1]);
            }
        }
        assert(first_index(e, k, i + 1));
    } else {
        assert(first_index(e, k, 0));
    }
}

/// Either a first index exists or no entry has the key.
pub proof fn lemma_kv_cases<V>(e: Seq<(Seq<char>, V)>, k: Seq<char>)
    ensures
        no_key(e, k) || exists|i: int| first_index(e, k, i),
{
    if !no_key(e, k) {
        let j = choose|j: int| 0 <= j < e.len() && e[j].0 == k;
        lemma_least_index(e, k, j);
    }
}

proof fn lemma_least_index<V>(e: Seq<(Seq<char>, V)>, k: Seq<char>, j: int)
    requires
        0 <= j < e.len(),
        e[j].0 == k,
    ensures
        exists|i: int| first_index(e, k, i),
    decreases j,
{
    if forall|m: int| 0 <= m < j ==> e[m].0 != k {
        assert(first_index(e, k, j));
    } else {
        let m = choose|m: int| 0 <= m < j && e[m].0 == k;
        lemma_least_index(e, k, m);
    }
}

/// Looking a key up where the entries at and after `i` hold it or not, and those before
/// do not.
pub proof fn lemma_kv_get_other_update<V>(e: Seq<(Seq<char>, V)>, i: int, v: V, k2: Seq<char>)
    requires
        0 <= i < e.len(),
        k2 != e[i].0,
    ensures
        kv_get(e.update(i, (e[i].0, v)), k2) == kv_get(e, k2),
    decreases i,
{
    let e2 = e.update(i, (e[i].0, v));
    if i > 0 {
        assert(e2.drop_first() =~= e.drop_first().update(i - 1, (e[i].0, v)));
        assert(e.drop_first()[i - 1] == e[i]);
        lemma_kv_get_other_update(e.drop_first(), i - 1, v, k2);
        assert(e2[0] == e[0]);
    } else {
        assert(e2.drop_first() =~= e.drop_first());
    }
}

/// Replacing the value of the first entry with key `k` is inserting into the map.
pub proof fn lemma_kv_update_first<V>(e: Seq<(Seq<char>, V)>, k: Seq<char>, i: int, v: V)
    requires
        first_index(e, k, i),
    ensures
        kv_map(e.update(i, (k, v))) == kv_map(e).insert(k, v),
{
    let e2 = e.update(i, (k, v));
    assert(first_index(e2, k, i));
    lemma_kv_get_first(e2, k, i);
    assert forall|k2: Seq<char>| k2 != k implies kv_get(e2, k2) == kv_get(e, k2) by {
        assert(e[i].0 == k);
        lemma_kv_get_other_update(e, i, v, k2);
    }
    assert(kv_map(e2) =~= kv_map(e).insert(k, v));
}

pub proof fn lemma_kv_get_push<V>(e: Seq<(Seq<char>, V)>, p: (Seq<char>, V), k2: Seq<char>)
    ensures
        kv_get(e.push(p), k2) == (if kv_get(e, k2) is Some {
            kv_get(e, k2)
        } else if p.0 == k2 {
            Some(p.1)
        } else {
            None
        }),
    decreases e.len(),
{
    if e.len() > 0 {
        assert(e.push(p).drop_first() =~= e.drop_first().push(p));
        assert(e.push(p)[0] == e[0]);
        lemma_kv_get_push(e.drop_first(), p, k2);
    } else {
        assert(e.push(p).drop_first() =~= Seq::<(Seq<char>, V)>::empty());
        assert(e.push(p)[0] == p);
        assert(kv_get(e.push(p).drop_first(), k2) is None);
    }
}

/// Appending an entry with a key that no entry has is inserting into the map.
pub proof fn lemma_kv_push_new<V>(e: Seq<(Seq<char>, V)>, k: Seq<char>, v: V)
    requires
        no_key(e, k),
    ensures
        kv_map(e.push((k, v))) == kv_map(e).insert(k, v),
{
    lemma_kv_get_none(e, k);
    assert forall|k2: Seq<char>| true implies kv_get(e.push((k, v)), k2) == (if k2 == k {
        Some(v)
    } else {
        kv_get(e, k2)
    }) by {
        lemma_kv_get_push(e, (k, v), k2);
    }
    assert(kv_map(e.push((k, v))) =~= kv_map(e).insert(k, v));
}

pub proof fn lemma_kv_get_remove<V>(e: Seq<(Seq<char>, V)>, i: int, k2: Seq<char>)
    requires
        0 <= i < e.len(),
        e[i].0 != k2,
    ensures
        kv_get(e.remove(i), k2) == kv_get(e, k2),
    decreases i,
{
    if i > 0 {
        assert(e.remove(i).drop_first() =~= e.drop_first().remove(i - 1));
        lemma_kv_get_remove(e.drop_first(), i - 1, k2);
    } else {
        assert(e.remove(0) =~= e.drop_first());
    }
}

/// Dropping an entry leaves the lookups of the other keys as they were.
pub proof fn lemma_kv_remove_entry<V>(e: Seq<(Seq<char>, V)>, i: int)
    requires
        0 <= i < e.len(),
    ensures
        kv_map(e.remove(i)).remove(e[i].0) == kv_map(e).remove(e[i].0),
{
    assert forall|k2: Seq<char>| k2 != e[i].0 implies kv_get(e.remove(i), k2) == kv_get(e, k2) by {
        lemma_kv_get_remove(e, i, k2);
    }
    assert(kv_map(e.remove(i)).remove(e[i].0) =~= kv_map(e).remove(e[i].0));
}

/// The entries after setting `k` to `v`: the first entry with key `k` gets the new value in
/// place, otherwise the entry goes to the end.
pub open spec fn kv_insert<V>(e: Seq<(Seq<char>, V)>, k: Seq<char>, v: V) -> Seq<(Seq<char>, V)>
    decreases e.len(),
{
    if e.len() == 0 {
        seq![(k, v)]
    } else if e[0].0 == k {
        e.update(0, (k, v))
    } else {
        seq![e[0]] + kv_insert(e.drop_first(), k, v)
    }
}

pub proof fn lemma_kv_insert_at<V>(e: Seq<(Seq<char>, V)>, k: Seq<char>, v: V, i: int)
    requires
        0 <= i <= e.len(),
        forall|j: int| 0 <= j < i ==> e[j].0 != k,
        i < e.len() ==> e[i].0 == k,
    ensures
        kv_insert(e, k, v) == (if i < e.len() {
            e.update(i, (k, v))
        } else {
            e.push((k, v))
        }),
    decreases i,
{
    if i > 0 {
        lemma_kv_insert_at(e.drop_first(), k, v, i - 1);
        if i < e.len() {
            assert(seq![e[0]] + e.drop_first().update(i - 1, (k, v)) =~= e.update(i, (k, v)));
        } else {
            assert(seq![e[0]] + e.drop_first().push((k, v)) =~= e.push((k, v)));
        }
    } else if e.len() == 0 {
        assert(seq![(k, v)] =~= e.push((k, v)));
    }
}

pub proof fn lemma_kv_map_no_key<V>(e: Seq<(Seq<char>, V)>, k: Seq<char>)
    requires
        no_key(e, k),
    ensures
        kv_map(e) == kv_map(e).remove(k),
{
    lemma_kv_get_none(e, k);
    assert(kv_map(e) =~= kv_map(e).remove(k));
}

} // verus!
