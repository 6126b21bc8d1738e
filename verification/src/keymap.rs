//! A finite map modelled by an association sequence: key/value pairs whose
//! keys are pairwise distinct. The coordinator stores its two maps as such
//! sequences and states every contract over the [`map_of`] abstraction.

use vstd::prelude::*;

verus! {

/// No two entries carry the same key.
pub open spec fn keys_distinct<W>(s: Seq<(Seq<char>, W)>) -> bool {
    forall|i: int, j: int|
        #![trigger s[i], s[j]]
        0 <= i < s.len() && 0 <= j < s.len() && i != j ==> s[i].0 != s[j].0
}

/// Some entry carries key `k`.
pub open spec fn has_key<W>(s: Seq<(Seq<char>, W)>, k: Seq<char>) -> bool {
    exists|i: int| #![trigger s[i]] 0 <= i < s.len() && s[i].0 == k
}

/// The index of an entry carrying key `k`, when one exists.
pub open spec fn key_index<W>(s: Seq<(Seq<char>, W)>, k: Seq<char>) -> int {
    choose|i: int| #![trigger s[i]] 0 <= i < s.len() && s[i].0 == k
}

/// The finite map an association sequence stands for.
pub open spec fn map_of<W>(s: Seq<(Seq<char>, W)>) -> Map<Seq<char>, W> {
    Map::new(|k: Seq<char>| has_key(s, k), |k: Seq<char>| s[key_index(s, k)].1)
}

/// The empty sequence stands for the empty map.
pub proof fn lemma_map_of_empty<W>()
    ensures
        map_of(Seq::<(Seq<char>, W)>::empty()) =~= Map::<Seq<char>, W>::empty(),
{
}

/// Under distinct keys, the entry at index `i` is exactly what the map
/// holds at its key.
pub proof fn lemma_map_of_entry<W>(s: Seq<(Seq<char>, W)>, i: int)
    requires
        keys_distinct(s),
        0 <= i < s.len(),
    ensures
        has_key(s, s[i].0),
        map_of(s).dom().contains(s[i].0),
        map_of(s)[s[i].0] == s[i].1,
        key_index(s, s[i].0) == i,
{
    let k = s[i].0;
    assert(has_key(s, k));
    let j = key_index(s, k);
    assert(0 <= j < s.len() && s[j].0 == k);
    if i != j {
        assert(s[i].0 != s[j].0);
        assert(false);
    }
}

/// Appending an entry under a fresh key inserts it into the map.
pub proof fn lemma_map_of_push<W>(s: Seq<(Seq<char>, W)>, k: Seq<char>, v: W)
    requires
        keys_distinct(s),
        !has_key(s, k),
    ensures
        keys_distinct(s.push((k, v))),
        map_of(s.push((k, v))) =~= map_of(s).insert(k, v),
{
    let t = s.push((k, v));
    assert forall|i: int, j: int|
        0 <= i < t.len() && 0 <= j < t.len() && i != j implies (#[trigger] t[i]).0
        != (#[trigger] t[j]).0 by {
        if i < s.len() && j < s.len() {
            assert(t[i] == s[i]);
            assert(t[j] == s[j]);
        } else if i == s.len() {
            assert(t[j] == s[j]);
            assert(s[j].0 != k);
        } else {
            assert(t[i] == s[i]);
            assert(s[i].0 != k);
        }
    }
    assert forall|k2: Seq<char>| #![auto] has_key(t, k2) implies has_key(s, k2) || k2 == k by {
        let i = key_index(t, k2);
        assert(0 <= i < t.len() && t[i].0 == k2);
        if i < s.len() {
            assert(s[i] == t[i]);
            assert(has_key(s, k2));
        }
    }
    assert forall|k2: Seq<char>| #![auto] has_key(s, k2) implies has_key(t, k2) by {
        let i = key_index(s, k2);
        assert(0 <= i < s.len() && s[i].0 == k2);
        assert(t[i] == s[i]);
        assert(has_key(t, k2));
    }
    assert(t[s.len() as int].0 == k);
    assert(has_key(t, k));
    assert forall|k2: Seq<char>| #![auto] has_key(t, k2) implies map_of(t)[k2] == map_of(
        s,
    ).insert(k, v)[k2] by {
        let j = key_index(t, k2);
        assert(0 <= j < t.len() && t[j].0 == k2);
        if k2 == k {
            if j < s.len() {
                assert(s[j] == t[j]);
                assert(has_key(s, k));
                assert(false);
            }
            assert(map_of(t)[k2] == v);
        } else {
            assert(j < s.len());
            assert(s[j] == t[j]);
            lemma_map_of_entry(s, j);
            lemma_map_of_entry(t, j);
        }
    }
    assert(map_of(t) =~= map_of(s).insert(k, v));
}

/// Replacing the value at index `i`, keeping its key, updates the map at
/// that key.
pub proof fn lemma_map_of_update<W>(s: Seq<(Seq<char>, W)>, i: int, v: W)
    requires
        keys_distinct(s),
        0 <= i < s.len(),
    ensures
        keys_distinct(s.update(i, (s[i].0, v))),
        map_of(s.update(i, (s[i].0, v))) =~= map_of(s).insert(s[i].0, v),
{
    let k = s[i].0;
    let t = s.update(i, (k, v));
    assert(t.len() == s.len());
    assert forall|i2: int, j2: int|
        0 <= i2 < t.len() && 0 <= j2 < t.len() && i2 != j2 implies (#[trigger] t[i2]).0
        != (#[trigger] t[j2]).0 by {
        assert(t[i2].0 == s[i2].0);
        assert(t[j2].0 == s[j2].0);
    }
    assert forall|k2: Seq<char>| #![auto] has_key(t, k2) <==> has_key(s, k2) by {
        if has_key(t, k2) {
            let j = key_index(t, k2);
            assert(0 <= j < t.len() && t[j].0 == k2);
            assert(s[j].0 == k2);
            assert(has_key(s, k2));
        }
        if has_key(s, k2) {
            let j = key_index(s, k2);
            assert(0 <= j < s.len() && s[j].0 == k2);
            assert(t[j].0 == k2);
            assert(has_key(t, k2));
        }
    }
    assert(has_key(s, k)) by { lemma_map_of_entry(s, i) }
    assert forall|k2: Seq<char>| #![auto] has_key(t, k2) implies map_of(t)[k2] == map_of(
        s,
    ).insert(k, v)[k2] by {
        let j = key_index(t, k2);
        assert(0 <= j < t.len() && t[j].0 == k2);
        lemma_map_of_entry(t, j);
        if k2 == k {
            if j != i {
                assert(s[j].0 == k2);
                lemma_map_of_entry(s, j);
                assert(key_index(s, k) == j);
                lemma_map_of_entry(s, i);
                assert(false);
            }
            assert(map_of(t)[k2] == t[i].1);
        } else {
            assert(j != i);
            assert(t[j] == s[j]);
            lemma_map_of_entry(s, j);
        }
    }
    assert(map_of(t) =~= map_of(s).insert(k, v));
}

/// Deleting the entry at index `i` removes its key from the map.
pub proof fn lemma_map_of_remove<W>(s: Seq<(Seq<char>, W)>, i: int)
    requires
        keys_distinct(s),
        0 <= i < s.len(),
    ensures
        keys_distinct(s.remove(i)),
        map_of(s.remove(i)) =~= map_of(s).remove(s[i].0),
{
    let k = s[i].0;
    let t = s.remove(i);
    s.remove_ensures(i);
    assert(t.len() == s.len() - 1);
    // each index of t maps back to an index of s with the same entry
    assert forall|j: int| 0 <= j < t.len() implies #[trigger] t[j] == s[shifted(i, j)] && 0
        <= shifted(i, j) < s.len() && shifted(i, j) != i by {
        if j < i {
            assert(t[j] == s[j]);
        } else {
            assert(t[j] == s[j + 1]);
        }
    }
    assert forall|i2: int, j2: int|
        0 <= i2 < t.len() && 0 <= j2 < t.len() && i2 != j2 implies (#[trigger] t[i2]).0
        != (#[trigger] t[j2]).0 by {
        assert(t[i2] == s[shifted(i, i2)]);
        assert(t[j2] == s[shifted(i, j2)]);
    }
    assert forall|k2: Seq<char>| #![auto] has_key(t, k2) implies has_key(s, k2) && k2 != k by {
        let j = key_index(t, k2);
        assert(0 <= j < t.len() && t[j].0 == k2);
        let j2 = shifted(i, j);
        assert(t[j] == s[j2]);
        assert(has_key(s, k2));
        assert(s[j2].0 != s[i].0);
    }
    assert forall|k2: Seq<char>| has_key(s, k2) && k2 != k implies #[trigger] has_key(t, k2) by {
        let j = key_index(s, k2);
        assert(0 <= j < s.len() && s[j].0 == k2);
        assert(j != i);
        if j < i {
            assert(t[j] == s[j]);
        } else {
            assert(t[j - 1] == s[j]);
        }
        assert(has_key(t, k2));
    }
    assert forall|k2: Seq<char>| #![auto] has_key(t, k2) implies map_of(t)[k2] == map_of(s).remove(
        k,
    )[k2] by {
        let j = key_index(t, k2);
        assert(0 <= j < t.len() && t[j].0 == k2);
        lemma_map_of_entry(t, j);
        let j2 = shifted(i, j);
        assert(t[j] == s[j2]);
        lemma_map_of_entry(s, j2);
        assert(k2 != k);
    }
    assert(map_of(t) =~= map_of(s).remove(k));
}

/// Distinct keys make the map's domain exactly as large as the sequence.
pub proof fn lemma_map_of_dom_len<W>(s: Seq<(Seq<char>, W)>)
    requires
        keys_distinct(s),
    ensures
        map_of(s).dom().finite(),
        map_of(s).dom().len() == s.len(),
    decreases s.len(),
{
    if s.len() == 0 {
        assert(s =~= Seq::<(Seq<char>, W)>::empty());
        lemma_map_of_empty::<W>();
        assert(map_of(s).dom() =~= Set::<Seq<char>>::empty());
    } else {
        let s0 = s.drop_last();
        let last = s.last();
        assert forall|i: int, j: int|
            0 <= i < s0.len() && 0 <= j < s0.len() && i != j implies (#[trigger] s0[i]).0
            != (#[trigger] s0[j]).0 by {
            assert(s0[i] == s[i]);
            assert(s0[j] == s[j]);
        }
        assert(!has_key(s0, last.0)) by {
            if has_key(s0, last.0) {
                let i = key_index(s0, last.0);
                assert(0 <= i < s0.len() && s0[i].0 == last.0);
                assert(s0[i] == s[i]);
                assert(s[i].0 == s[s.len() - 1].0);
            }
        }
        lemma_map_of_dom_len(s0);
        lemma_map_of_push(s0, last.0, last.1);
        assert(s0.push(last) =~= s);
        assert(map_of(s).dom() =~= map_of(s0).dom().insert(last.0));
        assert(!map_of(s0).dom().contains(last.0));
    }
}

/// Where an index of `s.remove(i)` came from in `s`.
pub open spec fn shifted(i: int, j: int) -> int {
    if j < i {
        j
    } else {
        j + 1
    }
}

/// The association sequence a vector of named values stands for: each
/// entry's key and value replaced by their views.
pub open spec fn pairs_view<V: View>(s: Seq<(String, V)>) -> Seq<(Seq<char>, V::V)> {
    s.map_values(|p: (String, V)| (p.0@, p.1@))
}

/// Appending a pair appends its view.
pub proof fn lemma_pairs_view_push<V: View>(s: Seq<(String, V)>, p: (String, V))
    ensures
        pairs_view(s.push(p)) =~= pairs_view(s).push((p.0@, p.1@)),
{
}

/// Replacing a pair replaces its view.
pub proof fn lemma_pairs_view_update<V: View>(s: Seq<(String, V)>, i: int, q: (String, V))
    requires
        0 <= i < s.len(),
    ensures
        pairs_view(s.update(i, q)) =~= pairs_view(s).update(i, ((q.0@, q.1@))),
{
    assert forall|j: int| 0 <= j < s.len() implies #[trigger] pairs_view(s.update(i, q))[j]
        == pairs_view(s).update(i, ((q.0@, q.1@)))[j] by {
        if j == i {
            assert(s.update(i, q)[j] == q);
        } else {
            assert(s.update(i, q)[j] == s[j]);
        }
    }
}

/// Deleting a pair deletes its view.
pub proof fn lemma_pairs_view_remove<V: View>(s: Seq<(String, V)>, i: int)
    requires
        0 <= i < s.len(),
    ensures
        pairs_view(s.remove(i)) =~= pairs_view(s).remove(i),
{
    s.remove_ensures(i);
    pairs_view(s).remove_ensures(i);
    assert forall|j: int| 0 <= j < s.len() - 1 implies #[trigger] pairs_view(s.remove(i))[j]
        == pairs_view(s).remove(i)[j] by {
        if j < i {
            assert(s.remove(i)[j] == s[j]);
        } else {
            assert(s.remove(i)[j] == s[j + 1]);
        }
    }
}

/// Look `name` up in a vector of named values; the result is its index, or
/// nothing when no entry carries that name.
pub fn find_key<V: View>(v: &Vec<(String, V)>, name: &String) -> (r: Option<usize>)
    ensures
        match r {
            Some(i) => i < v@.len() && pairs_view(v@)[i as int].0 == name@,
            None => !has_key(pairs_view(v@), name@),
        },
{
    let mut i: usize = 0;
    while i < v.len()
        invariant
            i <= v@.len(),
            forall|j: int| 0 <= j < i ==> (#[trigger] pairs_view(v@)[j]).0 != name@,
        decreases v@.len() - i,
    {
        if v[i].0 == *name {
            assert(pairs_view(v@)[i as int].0 == name@);
            return Some(i);
        }
        assert(pairs_view(v@)[i as int].0 != name@);
        i += 1;
    }
    assert(!has_key(pairs_view(v@), name@));
    None
}

} // verus!
