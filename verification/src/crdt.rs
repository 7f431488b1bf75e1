//! The merge model shared by the metadata tables.
//!
//! Each table row carries a set of keyed entries (an object's versions, a
//! version's blocks); an insert is a merge, never an overwrite. The model of
//! such a row is a `Map` from key to value, and a merge is the union of two
//! maps with a join applied where both sides hold the key. The laws proved
//! here — commutativity, associativity, idempotence of the union, given the
//! same of the join — are what make replicas converge regardless of the
//! order in which gossip delivers inserts.

use vstd::prelude::*;

verus! {

/// The map denoted by a sequence of key-value entries (later entries win,
/// though under `distinct_keys` the order is irrelevant).
pub open spec fn assoc_map<K, V>(s: Seq<(K, V)>) -> Map<K, V>
    decreases s.len(),
{
    if s.len() == 0 {
        Map::empty()
    } else {
        assoc_map(s.drop_last()).insert(s.last().0, s.last().1)
    }
}

/// No two entries share a key.
pub open spec fn distinct_keys<K, V>(s: Seq<(K, V)>) -> bool {
    forall|i: int, j: int| 0 <= i < j < s.len() ==> s[i].0 != s[j].0
}

/// Whether some entry of `s` carries key `k`.
pub open spec fn has_key<K, V>(s: Seq<(K, V)>, k: K) -> bool {
    exists|i: int| 0 <= i < s.len() && s[i].0 == k
}

/// Union of two maps, joining the values where both sides hold the key.
pub open spec fn map_join<K, V>(m1: Map<K, V>, m2: Map<K, V>, j: spec_fn(V, V) -> V) -> Map<
    K,
    V,
> {
    Map::new(
        |k: K| m1.dom().contains(k) || m2.dom().contains(k),
        |k: K|
            if m1.dom().contains(k) && m2.dom().contains(k) {
                j(m1[k], m2[k])
            } else if m1.dom().contains(k) {
                m1[k]
            } else {
                m2[k]
            },
    )
}

/// The keys of `assoc_map(s)` are exactly the keys of the entries of `s`.
pub proof fn lemma_assoc_map_dom<K, V>(s: Seq<(K, V)>)
    ensures
        forall|k: K| #[trigger] assoc_map(s).dom().contains(k) <==> has_key(s, k),
    decreases s.len(),
{
    if s.len() > 0 {
        lemma_assoc_map_dom(s.drop_last());
        assert forall|k: K| #[trigger] assoc_map(s).dom().contains(k) implies has_key(s, k) by {
            if k == s.last().0 {
                assert(s[s.len() - 1].0 == k);
            } else {
                assert(assoc_map(s.drop_last()).dom().contains(k));
                assert(has_key(s.drop_last(), k));
                let i = choose|i: int| 0 <= i < s.drop_last().len() && s.drop_last()[i].0 == k;
                assert(s.drop_last()[i] == s[i]);
                assert(s[i].0 == k);
            }
        }
        assert forall|k: K| has_key(s, k) implies #[trigger] assoc_map(s).dom().contains(k) by {
            let i = choose|i: int| 0 <= i < s.len() && s[i].0 == k;
            if i < s.len() - 1 {
                assert(s.drop_last()[i] == s[i]);
                assert(has_key(s.drop_last(), k));
                assert(assoc_map(s.drop_last()).dom().contains(k));
            } else {
                assert(k == s.last().0);
            }
        }
    }
}

/// Under distinct keys, the map sends each entry's key to its value.
pub proof fn lemma_assoc_map_index<K, V>(s: Seq<(K, V)>, i: int)
    requires
        distinct_keys(s),
        0 <= i < s.len(),
    ensures
        assoc_map(s).dom().contains(s[i].0),
        assoc_map(s)[s[i].0] == s[i].1,
    decreases s.len(),
{
    if i < s.len() - 1 {
        assert(s.drop_last()[i] == s[i]);
        lemma_assoc_map_index(s.drop_last(), i);
        assert(s[i].0 != s.last().0);
    }
}

/// Replacing the value of one entry replaces it in the map.
pub proof fn lemma_assoc_map_update<K, V>(s: Seq<(K, V)>, i: int, p: (K, V))
    requires
        distinct_keys(s),
        0 <= i < s.len(),
        p.0 == s[i].0,
    ensures
        assoc_map(s.update(i, p)) =~= assoc_map(s).insert(p.0, p.1),
    decreases s.len(),
{
    let t = s.update(i, p);
    if i == s.len() - 1 {
        assert(t.drop_last() =~= s.drop_last());
    } else {
        assert(t.drop_last() =~= s.drop_last().update(i, p));
        assert(t.last() == s.last());
        lemma_assoc_map_update(s.drop_last(), i, p);
    }
}

/// Appending an entry inserts it in the map.
pub proof fn lemma_assoc_map_push<K, V>(s: Seq<(K, V)>, p: (K, V))
    ensures
        assoc_map(s.push(p)) =~= assoc_map(s).insert(p.0, p.1),
{
    assert(s.push(p).drop_last() =~= s);
}

/// Folding one more entry of the right-hand side into a running join.
pub proof fn lemma_map_join_insert<K, V>(m1: Map<K, V>, m2: Map<K, V>, j: spec_fn(V, V) -> V, k: K, v: V)
    requires
        !m2.dom().contains(k),
    ensures
        map_join(m1, m2.insert(k, v), j) =~= map_join(m1, m2, j).insert(
            k,
            if m1.dom().contains(k) {
                j(m1[k], v)
            } else {
                v
            },
        ),
{
}

/// The union of joins is commutative wherever the join is.
pub proof fn lemma_map_join_commutes<K, V>(m1: Map<K, V>, m2: Map<K, V>, j: spec_fn(V, V) -> V)
    requires
        forall|k: K|
            m1.dom().contains(k) && m2.dom().contains(k) ==> j(m1[k], m2[k]) == j(m2[k], m1[k]),
    ensures
        map_join(m1, m2, j) =~= map_join(m2, m1, j),
{
}

/// The union of joins is associative wherever the join is.
pub proof fn lemma_map_join_assoc<K, V>(m1: Map<K, V>, m2: Map<K, V>, m3: Map<K, V>, j: spec_fn(V, V) -> V)
    requires
        forall|k: K|
            m1.dom().contains(k) && m2.dom().contains(k) && m3.dom().contains(k) ==> j(
                j(m1[k], m2[k]),
                m3[k],
            ) == j(m1[k], j(m2[k], m3[k])),
    ensures
        map_join(map_join(m1, m2, j), m3, j) =~= map_join(m1, map_join(m2, m3, j), j),
{
}

/// Merging a map into itself changes nothing wherever the join is
/// idempotent.
pub proof fn lemma_map_join_idempotent<K, V>(m: Map<K, V>, j: spec_fn(V, V) -> V)
    requires
        forall|k: K| m.dom().contains(k) ==> j(m[k], m[k]) == m[k],
    ensures
        map_join(m, m, j) =~= m,
{
}

} // verus!
