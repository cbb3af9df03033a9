//! Association lists of 256-bit key/value pairs, viewed as finite maps.
//!
//! Both the state tree's leaf list and a run result's read/write footprints
//! are held as vectors of pairs with pairwise-distinct keys; `map_of` is the
//! map such a vector denotes, later entries winning.

use vstd::prelude::*;

use crate::h256::H256;

verus! {

/// The finite map denoted by a sequence of key/value pairs.
pub open spec fn map_of(s: Seq<(H256, H256)>) -> Map<H256, H256>
    decreases s.len(),
{
    if s.len() == 0 {
        Map::empty()
    } else {
        map_of(s.drop_last()).insert(s.last().0, s.last().1)
    }
}

/// All keys of the list are pairwise distinct.
pub open spec fn unique_keys(s: Seq<(H256, H256)>) -> bool {
    forall|i: int, j: int| 0 <= i < j < s.len() ==> s[i].0 != s[j].0
}

/// The value a state map gives a key: the stored value, or zero when the key
/// is absent.
pub open spec fn state_value(m: Map<H256, H256>, k: H256) -> H256 {
    if m.dom().contains(k) {
        m[k]
    } else {
        H256::spec_zero()
    }
}

/// A key is in the denoted map exactly when some entry holds it.
pub proof fn lemma_map_of_contains(s: Seq<(H256, H256)>, k: H256)
    ensures
        map_of(s).dom().contains(k) <==> (exists|i: int| 0 <= i < s.len() && s[i].0 == k),
    decreases s.len(),
{
    if s.len() == 0 {
    } else {
        lemma_map_of_contains(s.drop_last(), k);
        if s.last().0 == k {
            assert(s[s.len() - 1].0 == k);
        } else {
            if exists|i: int| 0 <= i < s.len() && s[i].0 == k {
                let i = choose|i: int| 0 <= i < s.len() && s[i].0 == k;
                assert(s.drop_last()[i].0 == k);
            }
        }
    }
}

/// With distinct keys, each entry is what the denoted map stores for its key.
pub proof fn lemma_map_of_index(s: Seq<(H256, H256)>, i: int)
    requires
        unique_keys(s),
        0 <= i < s.len(),
    ensures
        map_of(s).dom().contains(s[i].0),
        map_of(s)[s[i].0] == s[i].1,
    decreases s.len(),
{
    if i == s.len() - 1 {
    } else {
        assert(unique_keys(s.drop_last())) by {
            assert(forall|a: int, b: int|
                0 <= a < b < s.drop_last().len() ==> s.drop_last()[a].0 != s.drop_last()[b].0);
        }
        lemma_map_of_index(s.drop_last(), i);
        assert(s.last().0 != s[i].0);
    }
}

/// Inserting a fresh key anywhere in the list inserts it into the map.
pub proof fn lemma_map_of_insert_at(s: Seq<(H256, H256)>, p: int, k: H256, v: H256)
    requires
        0 <= p <= s.len(),
        forall|i: int| 0 <= i < s.len() ==> s[i].0 != k,
    ensures
        map_of(s.insert(p, (k, v))) == map_of(s).insert(k, v),
    decreases s.len(),
{
    let t = s.insert(p, (k, v));
    if p == s.len() {
        assert(t.drop_last() =~= s);
        assert(t.last() == (k, v));
    } else {
        assert(t.last() == s.last());
        assert(t.drop_last() =~= s.drop_last().insert(p, (k, v)));
        lemma_map_of_insert_at(s.drop_last(), p, k, v);
        assert(s.last().0 != k);
        assert(map_of(s.drop_last()).insert(k, v).insert(s.last().0, s.last().1)
            =~= map_of(s.drop_last()).insert(s.last().0, s.last().1).insert(k, v));
    }
}

/// Overwriting the entry of a key updates the map at that key.
pub proof fn lemma_map_of_update_at(s: Seq<(H256, H256)>, i: int, v: H256)
    requires
        unique_keys(s),
        0 <= i < s.len(),
    ensures
        map_of(s.update(i, (s[i].0, v))) == map_of(s).insert(s[i].0, v),
    decreases s.len(),
{
    let k = s[i].0;
    let t = s.update(i, (k, v));
    if i == s.len() - 1 {
        assert(t.drop_last() =~= s.drop_last());
        assert(t.last() == (k, v));
        assert(map_of(s.drop_last()).insert(k, v)
            =~= map_of(s.drop_last()).insert(k, s[i].1).insert(k, v));
    } else {
        assert(t.last() == s.last());
        assert(t.drop_last() =~= s.drop_last().update(i, (k, v)));
        assert(unique_keys(s.drop_last())) by {
            assert(forall|a: int, b: int|
                0 <= a < b < s.drop_last().len() ==> s.drop_last()[a].0 != s.drop_last()[b].0);
        }
        assert(s.drop_last()[i].0 == k);
        lemma_map_of_update_at(s.drop_last(), i, v);
        assert(s.last().0 != k);
        assert(map_of(s.drop_last()).insert(k, v).insert(s.last().0, s.last().1)
            =~= map_of(s.drop_last()).insert(s.last().0, s.last().1).insert(k, v));
    }
}

/// Removing the entry of a key removes the key from the map.
pub proof fn lemma_map_of_remove_at(s: Seq<(H256, H256)>, i: int)
    requires
        unique_keys(s),
        0 <= i < s.len(),
    ensures
        map_of(s.remove(i)) == map_of(s).remove(s[i].0),
    decreases s.len(),
{
    let k = s[i].0;
    let t = s.remove(i);
    if i == s.len() - 1 {
        assert(t =~= s.drop_last());
        lemma_map_of_contains(s.drop_last(), k);
        assert(forall|a: int| 0 <= a < s.drop_last().len() ==> s.drop_last()[a].0 != k);
        assert(map_of(s.drop_last()) =~= map_of(s.drop_last()).insert(k, s[i].1).remove(k));
    } else {
        assert(t.last() == s.last());
        assert(t.drop_last() =~= s.drop_last().remove(i));
        assert(unique_keys(s.drop_last())) by {
            assert(forall|a: int, b: int|
                0 <= a < b < s.drop_last().len() ==> s.drop_last()[a].0 != s.drop_last()[b].0);
        }
        assert(s.drop_last()[i].0 == k);
        lemma_map_of_remove_at(s.drop_last(), i);
        assert(s.last().0 != k);
        assert(map_of(s.drop_last()).remove(k).insert(s.last().0, s.last().1)
            =~= map_of(s.drop_last()).insert(s.last().0, s.last().1).remove(k));
    }
}

/// Looks a key up in an association list.
pub fn kv_get(s: &Vec<(H256, H256)>, k: &H256) -> (r: Option<H256>)
    requires
        unique_keys(s@),
    ensures
        match r {
            Option::Some(v) => map_of(s@).dom().contains(*k) && map_of(s@)[*k] == v,
            Option::None => !map_of(s@).dom().contains(*k),
        },
{
    proof {
        lemma_map_of_contains(s@, *k);
    }
    let n: usize = s.len();
    let mut i: usize = 0;
    while i < n
        invariant
            n == s@.len(),
            unique_keys(s@),
            forall|j: int| 0 <= j < i ==> s@[j].0 != *k,
        decreases n - i,
    {
        if s[i].0 == *k {
            proof {
                lemma_map_of_index(s@, i as int);
            }
            return Option::Some(s[i].1);
        }
        i = i + 1;
    }
    Option::None
}

/// Binds a key to a value, overwriting an existing entry for the same key.
pub fn kv_upsert(s: &mut Vec<(H256, H256)>, k: H256, v: H256)
    requires
        unique_keys(old(s)@),
    ensures
        unique_keys(final(s)@),
        map_of(final(s)@) == map_of(old(s)@).insert(k, v),
        final(s)@.len() <= old(s)@.len() + 1,
{
    let n: usize = s.len();
    let mut i: usize = 0;
    while i < n
        invariant
            n == s@.len(),
            unique_keys(s@),
            s@ == old(s)@,
            forall|j: int| 0 <= j < i ==> s@[j].0 != k,
        decreases n - i,
    {
        if s[i].0 == k {
            proof {
                lemma_map_of_update_at(s@, i as int, v);
            }
            s.set(i, (k, v));
            return ;
        }
        i = i + 1;
    }
    proof {
        lemma_map_of_insert_at(s@, s@.len() as int, k, v);
        assert(s@.insert(s@.len() as int, (k, v)) =~= s@.push((k, v)));
    }
    let ghost pre = s@;
    s.push((k, v));
    proof {
        assert forall|a: int, b: int| 0 <= a < b < s@.len() implies s@[a].0 != s@[b].0 by {
            if b == s@.len() - 1 {
                assert(s@[a] == pre[a]);
                assert(pre[a].0 != k);
            } else {
                assert(s@[a] == pre[a] && s@[b] == pre[b]);
            }
        }
    }
}

} // verus!
