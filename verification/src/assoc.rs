//! Association sequences as maps. Both the tag table of a standard and the
//! user cache hold their entries in a vector of pairs; contracts speak of the
//! `Map` such a sequence denotes.

use vstd::prelude::*;

verus! {

/// The map an association sequence denotes; a later pair for the same key
/// overwrites an earlier one.
pub open spec fn assoc_map<K, V>(ps: Seq<(K, V)>) -> Map<K, V>
    decreases ps.len(),
{
    if ps.len() == 0 {
        Map::empty()
    } else {
        assoc_map(ps.drop_last()).insert(ps.last().0, ps.last().1)
    }
}

pub open spec fn keys_unique<K, V>(ps: Seq<(K, V)>) -> bool {
    forall|i: int, j: int| 0 <= i < j < ps.len() ==> (#[trigger] ps[i]).0 != (#[trigger] ps[j]).0
}

pub proof fn lemma_keys_unique_drop_last<K, V>(ps: Seq<(K, V)>)
    requires
        keys_unique(ps),
        ps.len() > 0,
    ensures
        keys_unique(ps.drop_last()),
{
    assert forall|i: int, j: int|
        0 <= i < j < ps.drop_last().len() implies (#[trigger] ps.drop_last()[i]).0 != (
    #[trigger] ps.drop_last()[j]).0 by {
        assert(ps.drop_last()[i] == ps[i]);
        assert(ps.drop_last()[j] == ps[j]);
    }
}

/// With unique keys the map holds exactly the pairs of the sequence.
pub proof fn lemma_assoc_map_index<K, V>(ps: Seq<(K, V)>, k: K)
    requires
        keys_unique(ps),
    ensures
        assoc_map(ps).contains_key(k) <==> exists|i: int| 0 <= i < ps.len() && (#[trigger] ps[i]).0
            == k,
        forall|i: int| 0 <= i < ps.len() && (#[trigger] ps[i]).0 == k ==> assoc_map(ps)[k] == ps[i].1,
    decreases ps.len(),
{
    if ps.len() > 0 {
        lemma_keys_unique_drop_last(ps);
        lemma_assoc_map_index(ps.drop_last(), k);
        let dl = ps.drop_last();
        let last = ps.last();
        if last.0 == k {
            assert(ps[ps.len() - 1].0 == k);
        } else {
            assert(assoc_map(ps).contains_key(k) <==> assoc_map(dl).contains_key(k));
            assert forall|i: int| 0 <= i < dl.len() && (#[trigger] dl[i]).0 == k implies 0 <= i
                < ps.len() && ps[i].0 == k by {}
            assert forall|i: int| 0 <= i < ps.len() && (#[trigger] ps[i]).0 == k implies 0 <= i
                < dl.len() && dl[i].0 == k by {
                assert(i != ps.len() - 1);
            }
        }
    }
}

/// Removing the pair at one index is the map's `remove` of that pair's key.
pub proof fn lemma_assoc_map_remove<K, V>(ps: Seq<(K, V)>, i: int)
    requires
        keys_unique(ps),
        0 <= i < ps.len(),
    ensures
        keys_unique(ps.remove(i)),
        assoc_map(ps.remove(i)) == assoc_map(ps).remove(ps[i].0),
    decreases ps.len(),
{
    let q = ps.remove(i);
    assert forall|a: int, b: int| 0 <= a < b < q.len() implies (#[trigger] q[a]).0 != (
    #[trigger] q[b]).0 by {
        let a0 = if a < i {
            a
        } else {
            a + 1
        };
        let b0 = if b < i {
            b
        } else {
            b + 1
        };
        assert(q[a] == ps[a0] && q[b] == ps[b0]);
        assert(ps[a0].0 != ps[b0].0);
    }
    lemma_keys_unique_drop_last(ps);
    if i == ps.len() - 1 {
        assert(q =~= ps.drop_last());
        lemma_assoc_map_index(ps.drop_last(), ps[i].0);
        assert(!assoc_map(ps.drop_last()).contains_key(ps[i].0)) by {
            if exists|j: int|
                0 <= j < ps.drop_last().len() && (#[trigger] ps.drop_last()[j]).0 == ps[i].0 {
                let j = choose|j: int|
                    0 <= j < ps.drop_last().len() && (#[trigger] ps.drop_last()[j]).0 == ps[i].0;
                assert(ps[j].0 == ps[ps.len() - 1].0);
                assert(false);
            }
        }
        assert(assoc_map(q) =~= assoc_map(ps).remove(ps[i].0));
    } else {
        lemma_assoc_map_remove(ps.drop_last(), i);
        assert(q.drop_last() =~= ps.drop_last().remove(i));
        assert(q.last() == ps.last());
        assert(ps.drop_last()[i] == ps[i]);
        assert(ps[i].0 != ps.last().0) by {
            assert(ps[ps.len() - 1] == ps.last());
        }
        assert(assoc_map(q) == assoc_map(ps.drop_last()).remove(ps[i].0).insert(
            ps.last().0,
            ps.last().1,
        ));
        assert(assoc_map(ps.drop_last()).remove(ps[i].0).insert(ps.last().0, ps.last().1)
            =~= assoc_map(ps).remove(ps[i].0));
    }
}

} // verus!
