//! Association lists keyed by strings: a `Vec` of `(String, V)` pairs in
//! which no key occurs twice, viewed as a map from key to value.

use vstd::prelude::*;

verus! {

/// No key occurs twice.
pub open spec fn keys_distinct<V>(s: Seq<(String, V)>) -> bool {
    forall|i: int, j: int| 0 <= i < j < s.len() ==> (#[trigger] s[i]).0@ != (#[trigger] s[j]).0@
}

/// The map from key to value; a later pair wins over an earlier one.
pub open spec fn assoc_view<V>(s: Seq<(String, V)>) -> Map<Seq<char>, V>
    decreases s.len(),
{
    if s.len() == 0 {
        Map::empty()
    } else {
        assoc_view(s.drop_last()).insert(s.last().0@, s.last().1)
    }
}

/// A key that no pair has is not in the map.
pub proof fn lemma_assoc_absent<V>(s: Seq<(String, V)>, k: Seq<char>)
    requires
        forall|j: int| 0 <= j < s.len() ==> (#[trigger] s[j]).0@ != k,
    ensures
        !assoc_view(s).dom().contains(k),
    decreases s.len(),
{
    if s.len() > 0 {
        lemma_assoc_absent(s.drop_last(), k);
        assert(s[s.len() - 1].0@ != k);
    }
}

/// With distinct keys, every pair is in the map.
pub proof fn lemma_assoc_at<V>(s: Seq<(String, V)>, i: int)
    requires
        keys_distinct(s),
        0 <= i < s.len(),
    ensures
        assoc_view(s).dom().contains(s[i].0@),
        assoc_view(s)[s[i].0@] == s[i].1,
    decreases s.len(),
{
    if i < s.len() - 1 {
        lemma_assoc_at(s.drop_last(), i);
        assert(s[i].0@ != s[s.len() - 1].0@);
    }
}

/// Every key of the map comes from some pair.
pub proof fn lemma_assoc_key<V>(s: Seq<(String, V)>, k: Seq<char>)
    requires
        assoc_view(s).dom().contains(k),
    ensures
        exists|j: int| 0 <= j < s.len() && (#[trigger] s[j]).0@ == k && assoc_view(s)[k] == s[j].1,
    decreases s.len(),
{
    if s.last().0@ != k {
        lemma_assoc_key(s.drop_last(), k);
        let j = choose|j: int|
            0 <= j < s.drop_last().len() && (#[trigger] s.drop_last()[j]).0@ == k && assoc_view(s.drop_last())[k]
                == s.drop_last()[j].1;
        assert(s[j] == s.drop_last()[j]);
    } else {
        assert(s[s.len() - 1].0@ == k);
    }
}

/// With distinct keys the map has as many keys as there are pairs.
pub proof fn lemma_assoc_len<V>(s: Seq<(String, V)>)
    requires
        keys_distinct(s),
    ensures
        assoc_view(s).dom().finite(),
        assoc_view(s).dom().len() == s.len(),
    decreases s.len(),
{
    if s.len() > 0 {
        lemma_assoc_len(s.drop_last());
        assert forall|j: int| 0 <= j < s.drop_last().len() implies (#[trigger] s.drop_last()[j]).0@ != s.last().0@ by {
            assert(s.drop_last()[j] == s[j]);
        }
        lemma_assoc_absent(s.drop_last(), s.last().0@);
    }
}

/// Replacing a pair's value updates its key.
pub proof fn lemma_assoc_update<V>(s: Seq<(String, V)>, i: int, x: (String, V))
    requires
        keys_distinct(s),
        0 <= i < s.len(),
        x.0@ == s[i].0@,
    ensures
        assoc_view(s.update(i, x)) == assoc_view(s).insert(x.0@, x.1),
        keys_distinct(s.update(i, x)),
    decreases s.len(),
{
    let t = s.update(i, x);
    assert forall|a: int, b: int| 0 <= a < b < t.len() implies (#[trigger] t[a]).0@ != (#[trigger] t[b]).0@ by {
        assert(t[a].0@ == s[a].0@ && t[b].0@ == s[b].0@);
    }
    if i == s.len() - 1 {
        assert(t.drop_last() =~= s.drop_last());
        assert(assoc_view(t) =~= assoc_view(s).insert(x.0@, x.1));
    } else {
        lemma_assoc_update(s.drop_last(), i, x);
        assert(t.drop_last() =~= s.drop_last().update(i, x));
        assert(s[i].0@ != s[s.len() - 1].0@);
        assert(assoc_view(t) =~= assoc_view(s).insert(x.0@, x.1));
    }
}

/// Removing a pair removes its key.
pub proof fn lemma_assoc_remove<V>(s: Seq<(String, V)>, i: int)
    requires
        keys_distinct(s),
        0 <= i < s.len(),
    ensures
        assoc_view(s.remove(i)) == assoc_view(s).remove(s[i].0@),
        keys_distinct(s.remove(i)),
    decreases s.len(),
{
    let t = s.remove(i);
    assert forall|a: int, b: int| 0 <= a < b < t.len() implies (#[trigger] t[a]).0@ != (#[trigger] t[b]).0@ by {
        let a2 = if a < i { a } else { a + 1 };
        let b2 = if b < i { b } else { b + 1 };
        assert(t[a] == s[a2] && t[b] == s[b2]);
    }
    if i == s.len() - 1 {
        assert(t =~= s.drop_last());
        assert forall|j: int| 0 <= j < t.len() implies (#[trigger] t[j]).0@ != s[i].0@ by {
            assert(t[j] == s[j]);
        }
        lemma_assoc_absent(t, s[i].0@);
        assert(assoc_view(t) =~= assoc_view(s).remove(s[i].0@));
    } else {
        lemma_assoc_remove(s.drop_last(), i);
        assert(t.drop_last() =~= s.drop_last().remove(i));
        assert(t.last() == s.last());
        assert(s[i].0@ != s[s.len() - 1].0@);
        assert(assoc_view(t) =~= assoc_view(s).remove(s[i].0@));
    }
}

/// Position of the pair with key `k`, if any.
pub fn assoc_find<V>(s: &Vec<(String, V)>, k: &String) -> (r: Option<usize>)
    requires
        keys_distinct(s@),
    ensures
        r matches Some(p) ==> p < s@.len() && s@[p as int].0@ == k@,
        r is Some <==> assoc_view(s@).dom().contains(k@),
        r matches Some(p) ==> assoc_view(s@)[k@] == s@[p as int].1,
{
    let mut i: usize = 0;
    while i < s.len()
        invariant
            keys_distinct(s@),
            0 <= i <= s@.len(),
            forall|j: int| 0 <= j < i ==> (#[trigger] s@[j]).0@ != k@,
        decreases s@.len() - i,
    {
        if s[i].0 == *k {
            proof {
                lemma_assoc_at(s@, i as int);
            }
            return Some(i);
        }
        i = i + 1;
    }
    proof {
        lemma_assoc_absent(s@, k@);
    }
    None
}

/// Stores `v` under `k`, replacing an earlier value.
pub fn assoc_insert<V>(s: &mut Vec<(String, V)>, k: String, v: V)
    requires
        keys_distinct(old(s)@),
    ensures
        keys_distinct(final(s)@),
        assoc_view(final(s)@) == assoc_view(old(s)@).insert(k@, v),
{
    match assoc_find(s, &k) {
        Some(p) => {
            let ghost s0 = s@;
            let ghost x = (k, v);
            proof {
                lemma_assoc_update(s0, p as int, x);
            }
            s.set(p, (k, v));
            proof {
                assert(s@ == s0.update(p as int, x));
            }
        },
        None => {
            let ghost s0 = s@;
            proof {
                assert forall|j: int| 0 <= j < s0.len() implies (#[trigger] s0[j]).0@ != k@ by {
                    lemma_assoc_at(s0, j);
                }
            }
            s.push((k, v));
            proof {
                assert(s@.drop_last() =~= s0);
            }
        },
    }
}

/// Removes the pair with key `k`, returning its value.
pub fn assoc_remove<V>(s: &mut Vec<(String, V)>, k: &String) -> (r: Option<V>)
    requires
        keys_distinct(old(s)@),
    ensures
        keys_distinct(final(s)@),
        assoc_view(final(s)@) == assoc_view(old(s)@).remove(k@),
        r is Some <==> assoc_view(old(s)@).dom().contains(k@),
        r matches Some(v) ==> v == assoc_view(old(s)@)[k@],
{
    match assoc_find(s, k) {
        Some(p) => {
            let ghost s0 = s@;
            proof {
                lemma_assoc_remove(s0, p as int);
            }
            let (_, v) = s.remove(p);
            Some(v)
        },
        None => {
            proof {
                assert(assoc_view(s@).remove(k@) =~= assoc_view(s@));
            }
            None
        },
    }
}

} // verus!
