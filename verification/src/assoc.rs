//! Association lists keyed by strings: the map a list stands for, where the
//! first entry of a key is the one that counts.

use vstd::prelude::*;

use crate::key_order::{chars_lt, str_lt};

verus! {

/// The map an association list stands for: each key maps to the value of its
/// first entry.
pub open spec fn assoc<V>(s: Seq<(Seq<char>, V)>) -> Map<Seq<char>, V>
    decreases s.len(),
{
    if s.len() == 0 {
        Map::empty()
    } else {
        let m = assoc(s.drop_last());
        if m.contains_key(s.last().0) {
            m
        } else {
            m.insert(s.last().0, s.last().1)
        }
    }
}

/// `i` is the first index holding key `k`.
pub open spec fn first_index<V>(s: Seq<(Seq<char>, V)>, k: Seq<char>, i: int) -> bool {
    &&& 0 <= i < s.len()
    &&& s[i].0 == k
    &&& forall|j: int| 0 <= j < i ==> s[j].0 != k
}

pub proof fn lemma_assoc_absent<V>(s: Seq<(Seq<char>, V)>, k: Seq<char>)
    requires
        forall|j: int| 0 <= j < s.len() ==> s[j].0 != k,
    ensures
        !assoc(s).contains_key(k),
    decreases s.len(),
{
    if s.len() > 0 {
        lemma_assoc_absent(s.drop_last(), k);
    }
}

pub proof fn lemma_assoc_first<V>(s: Seq<(Seq<char>, V)>, k: Seq<char>, i: int)
    requires
        first_index(s, k, i),
    ensures
        assoc(s).contains_key(k),
        assoc(s)[k] == s[i].1,
    decreases s.len(),
{
    if i < s.len() - 1 {
        lemma_assoc_first(s.drop_last(), k, i);
    } else {
        lemma_assoc_absent(s.drop_last(), k);
    }
}

/// Keys present in the map are exactly the keys of the list.
pub proof fn lemma_assoc_contains<V>(s: Seq<(Seq<char>, V)>, k: Seq<char>)
    ensures
        assoc(s).contains_key(k) <==> exists|j: int| 0 <= j < s.len() && s[j].0 == k,
    decreases s.len(),
{
    if s.len() > 0 {
        lemma_assoc_contains(s.drop_last(), k);
        if assoc(s).contains_key(k) && s.last().0 == k {
            assert(s[s.len() - 1].0 == k);
        }
        if exists|j: int| 0 <= j < s.len() && s[j].0 == k {
            let j = choose|j: int| 0 <= j < s.len() && s[j].0 == k;
            if j < s.len() - 1 {
                assert(s.drop_last()[j].0 == k);
            }
        }
    }
}

/// Replacing the value at the first index of a key updates that key only.
pub proof fn lemma_assoc_update<V>(s: Seq<(Seq<char>, V)>, k: Seq<char>, i: int, v: V)
    requires
        first_index(s, k, i),
    ensures
        assoc(s.update(i, (k, v))) == assoc(s).insert(k, v),
    decreases s.len(),
{
    let t = s.update(i, (k, v));
    if i < s.len() - 1 {
        assert(t.drop_last() =~= s.drop_last().update(i, (k, v)));
        lemma_assoc_update(s.drop_last(), k, i, v);
        lemma_assoc_first(s.drop_last(), k, i);
        assert(t.last() == s.last());
        assert(assoc(t) =~= assoc(s).insert(k, v));
    } else {
        assert(t.drop_last() =~= s.drop_last());
        lemma_assoc_absent(s.drop_last(), k);
        assert(assoc(t) =~= assoc(s).insert(k, v));
    }
}

/// A key present in the map has a first index, whose value is the key's.
pub proof fn lemma_assoc_value<V>(s: Seq<(Seq<char>, V)>, k: Seq<char>)
    requires
        assoc(s).contains_key(k),
    ensures
        exists|i: int| first_index(s, k, i) && assoc(s)[k] == s[i].1,
    decreases s.len(),
{
    let d = s.drop_last();
    if assoc(d).contains_key(k) {
        lemma_assoc_value(d, k);
        let i = choose|i: int| first_index(d, k, i) && assoc(d)[k] == d[i].1;
        assert forall|j: int| 0 <= j < i implies s[j].0 != k by {
            assert(s[j] == d[j]);
        }
        assert(s[i] == d[i]);
        assert(first_index(s, k, i));
    } else {
        lemma_assoc_contains(d, k);
        let i = s.len() - 1;
        assert forall|j: int| 0 <= j < i implies s[j].0 != k by {
            assert(s[j] == d[j]);
        }
        assert(s[i] == s.last());
        assert(first_index(s, k, i));
    }
}

/// A sequence without repeats whose items all occur in `u` is no longer than `u`.
pub proof fn lemma_distinct_len_bound<A>(s: Seq<A>, u: Seq<A>)
    requires
        s.no_duplicates(),
        forall|i: int| 0 <= i < s.len() ==> u.contains(#[trigger] s[i]),
    ensures
        s.len() <= u.len(),
{
    s.unique_seq_to_set();
    vstd::seq_lib::seq_to_set_is_finite(u);
    assert forall|x: A| s.to_set().contains(x) implies u.to_set().contains(x) by {
        let i = choose|i: int| 0 <= i < s.len() && s[i] == x;
        assert(u.contains(s[i]));
    }
    vstd::set_lib::lemma_len_subset(s.to_set(), u.to_set());
    u.lemma_cardinality_of_set();
}

/// Appending an absent key adds it.
pub proof fn lemma_assoc_push<V>(s: Seq<(Seq<char>, V)>, k: Seq<char>, v: V)
    requires
        forall|j: int| 0 <= j < s.len() ==> s[j].0 != k,
    ensures
        assoc(s.push((k, v))) == assoc(s).insert(k, v),
{
    lemma_assoc_absent(s, k);
    assert(s.push((k, v)).drop_last() =~= s);
}

/// Inserting an absent key anywhere adds it.
pub proof fn lemma_assoc_insert<V>(s: Seq<(Seq<char>, V)>, i: int, k: Seq<char>, v: V)
    requires
        0 <= i <= s.len(),
        forall|j: int| 0 <= j < s.len() ==> s[j].0 != k,
    ensures
        assoc(s.insert(i, (k, v))) == assoc(s).insert(k, v),
    decreases s.len(),
{
    let t = s.insert(i, (k, v));
    if i == s.len() {
        assert(t =~= s.push((k, v)));
        lemma_assoc_push(s, k, v);
    } else {
        let d = s.drop_last();
        assert(t.drop_last() =~= d.insert(i, (k, v)));
        assert(t.last() == s.last());
        lemma_assoc_insert(d, i, k, v);
        assert(assoc(t) =~= assoc(s).insert(k, v));
    }
}

/// The keys of the list strictly ascend (so each occurs once).
pub open spec fn sorted_keys<V>(s: Seq<(Seq<char>, V)>) -> bool {
    forall|i: int, j: int| 0 <= i < j < s.len() ==> chars_lt(s[i].0, s[j].0)
}

/// Inserting `k` where every key before is below it and every key after is
/// above it keeps the keys ascending.
pub proof fn lemma_sorted_insert<V>(s: Seq<(Seq<char>, V)>, p: int, k: Seq<char>, v: V)
    requires
        sorted_keys(s),
        0 <= p <= s.len(),
        forall|j: int| 0 <= j < p ==> chars_lt(#[trigger] s[j].0, k),
        forall|j: int| p <= j < s.len() ==> chars_lt(k, #[trigger] s[j].0),
    ensures
        sorted_keys(s.insert(p, (k, v))),
{
    let t = s.insert(p, (k, v));
    assert forall|i: int, j: int| 0 <= i < j < t.len() implies chars_lt(t[i].0, t[j].0) by {
        if j < p {
            assert(t[i] == s[i] && t[j] == s[j]);
        } else if j == p {
            assert(t[i] == s[i]);
        } else if i < p {
            assert(t[i] == s[i] && t[j] == s[j - 1]);
            crate::key_order::lemma_chars_lt_transitive(s[i].0, k, s[j - 1].0);
        } else if i == p {
            assert(t[j] == s[j - 1]);
        } else {
            assert(t[i] == s[i - 1] && t[j] == s[j - 1]);
        }
    }
}

/// Where `k` goes among the ascending keys of `v`: every key before the
/// position is below `k`, none from it on is.
pub fn insert_position<V>(v: &Vec<(String, V)>, k: &str) -> (r: usize)
    requires
        forall|i: int, j: int| 0 <= i < j < v@.len() ==> chars_lt(v@[i].0@, v@[j].0@),
    ensures
        r <= v@.len(),
        forall|j: int| 0 <= j < r ==> chars_lt(#[trigger] v@[j].0@, k@),
        forall|j: int| r <= j < v@.len() ==> !chars_lt(#[trigger] v@[j].0@, k@),
{
    let mut i: usize = 0;
    while i < v.len()
        invariant
            i <= v@.len(),
            forall|a: int, b: int| 0 <= a < b < v@.len() ==> chars_lt(v@[a].0@, v@[b].0@),
            forall|j: int| 0 <= j < i ==> chars_lt(#[trigger] v@[j].0@, k@),
        decreases v@.len() - i,
    {
        if !str_lt(v[i].0.as_str(), k) {
            proof {
                assert forall|j: int| i <= j < v@.len() implies !chars_lt(#[trigger] v@[j].0@, k@) by {
                    if j > i && chars_lt(v@[j].0@, k@) {
                        assert(chars_lt(v@[i as int].0@, v@[j].0@));
                        crate::key_order::lemma_chars_lt_transitive(v@[i as int].0@, v@[j].0@, k@);
                    }
                }
            }
            return i;
        }
        i = i + 1;
    }
    i
}

} // verus!
