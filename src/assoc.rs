//! Sequences of key-value pairs read as maps.
use vstd::prelude::*;

verus! {

/// The map that a sequence of pairs spells out; a later pair overrides an
/// earlier one with the same key.
pub open spec fn pairs_map<K, V>(s: Seq<(K, V)>) -> Map<K, V>
    decreases s.len(),
{
    if s.len() == 0 {
        Map::empty()
    } else {
        pairs_map(s.drop_last()).insert(s.last().0, s.last().1)
    }
}

/// No two pairs of `s` share a key.
pub open spec fn keys_distinct<K, V>(s: Seq<(K, V)>) -> bool {
    forall|i: int, j: int| #![trigger s[i], s[j]] 0 <= i < j < s.len() ==> s[i].0 != s[j].0
}

/// The keys of `pairs_map(s)` are the keys of the pairs of `s`.
pub proof fn lemma_pairs_map_dom<K, V>(s: Seq<(K, V)>)
    ensures
        forall|k: K| #[trigger]
            pairs_map(s).contains_key(k) <==> exists|i: int| 0 <= i < s.len() && s[i].0 == k,
    decreases s.len(),
{
    if s.len() > 0 {
        lemma_pairs_map_dom(s.drop_last());
        assert forall|k: K| #[trigger] pairs_map(s).contains_key(k) implies exists|i: int|
            0 <= i < s.len() && s[i].0 == k by {
            if k != s.last().0 {
                assert(pairs_map(s.drop_last()).contains_key(k));
                let i = choose|i: int| 0 <= i < s.drop_last().len() && s.drop_last()[i].0 == k;
                assert(s[i].0 == k);
            } else {
                assert(s[s.len() - 1].0 == k);
            }
        }
        assert forall|k: K| (exists|i: int| 0 <= i < s.len() && s[i].0 == k) implies #[trigger] pairs_map(
            s,
        ).contains_key(k) by {
            let i = choose|i: int| 0 <= i < s.len() && s[i].0 == k;
            if i < s.len() - 1 {
                assert(s.drop_last()[i].0 == k);
                assert(pairs_map(s.drop_last()).contains_key(k));
            }
        }
    }
}

/// With distinct keys, `pairs_map(s)` has one entry per pair.
pub proof fn lemma_pairs_map_len<K, V>(s: Seq<(K, V)>)
    requires
        keys_distinct(s),
    ensures
        pairs_map(s).dom().finite(),
        pairs_map(s).len() == s.len(),
    decreases s.len(),
{
    if s.len() > 0 {
        let t = s.drop_last();
        assert(keys_distinct(t)) by {
            assert forall|a: int, b: int| #![trigger t[a], t[b]] 0 <= a < b < t.len() implies t[a].0
                != t[b].0 by {
                assert(s[a] == t[a] && s[b] == t[b]);
            }
        }
        lemma_pairs_map_len(t);
        lemma_pairs_map_dom(t);
        assert(!pairs_map(t).contains_key(s.last().0)) by {
            if pairs_map(t).contains_key(s.last().0) {
                let i = choose|i: int| 0 <= i < t.len() && t[i].0 == s.last().0;
                assert(s[i].0 != s[s.len() - 1].0);
            }
        }
    }
}

/// With distinct keys, each pair of `s` is an entry of `pairs_map(s)`.
pub proof fn lemma_pairs_map_value<K, V>(s: Seq<(K, V)>, i: int)
    requires
        keys_distinct(s),
        0 <= i < s.len(),
    ensures
        pairs_map(s).contains_key(s[i].0),
        pairs_map(s)[s[i].0] == s[i].1,
    decreases s.len(),
{
    if i < s.len() - 1 {
        let t = s.drop_last();
        assert(keys_distinct(t)) by {
            assert forall|a: int, b: int| #![trigger t[a], t[b]] 0 <= a < b < t.len() implies t[a].0
                != t[b].0 by {
                assert(s[a] == t[a] && s[b] == t[b]);
            }
        }
        assert(s[i] == t[i]);
        lemma_pairs_map_value(t, i);
        assert(s[i].0 != s[s.len() - 1].0);
    }
}

/// Replacing the value of one pair updates the map at that pair's key.
pub proof fn lemma_pairs_map_update<K, V>(s: Seq<(K, V)>, i: int, v: V)
    requires
        keys_distinct(s),
        0 <= i < s.len(),
    ensures
        keys_distinct(s.update(i, (s[i].0, v))),
        pairs_map(s.update(i, (s[i].0, v))) == pairs_map(s).insert(s[i].0, v),
{
    let t = s.update(i, (s[i].0, v));
    assert(keys_distinct(t)) by {
        assert forall|a: int, b: int| #![trigger t[a], t[b]] 0 <= a < b < t.len() implies t[a].0
            != t[b].0 by {
            assert(t[a].0 == s[a].0 && t[b].0 == s[b].0);
        }
    }
    lemma_pairs_map_dom(s);
    lemma_pairs_map_dom(t);
    assert forall|k: K| #[trigger] pairs_map(t).contains_key(k) <==> pairs_map(s).insert(
        s[i].0,
        v,
    ).contains_key(k) by {
        if pairs_map(s).contains_key(k) {
            let j = choose|j: int| 0 <= j < s.len() && s[j].0 == k;
            assert(t[j].0 == k);
        }
        if pairs_map(t).contains_key(k) {
            let j = choose|j: int| 0 <= j < t.len() && t[j].0 == k;
            assert(s[j].0 == k);
        }
    }
    assert forall|k: K| #[trigger] pairs_map(t).contains_key(k) implies pairs_map(t)[k]
        == pairs_map(s).insert(s[i].0, v)[k] by {
        let j = choose|j: int| 0 <= j < t.len() && t[j].0 == k;
        lemma_pairs_map_value(t, j);
        if j != i {
            lemma_pairs_map_value(s, j);
        }
    }
    assert(pairs_map(t) =~= pairs_map(s).insert(s[i].0, v));
}

/// Inserting a pair with a new key anywhere adds that key to the map.
pub proof fn lemma_pairs_map_insert<K, V>(s: Seq<(K, V)>, i: int, x: (K, V))
    requires
        keys_distinct(s),
        0 <= i <= s.len(),
        forall|j: int| 0 <= j < s.len() ==> (#[trigger] s[j]).0 != x.0,
    ensures
        keys_distinct(s.insert(i, x)),
        pairs_map(s.insert(i, x)) == pairs_map(s).insert(x.0, x.1),
{
    let t = s.insert(i, x);
    assert(keys_distinct(t)) by {
        assert forall|a: int, b: int| #![trigger t[a], t[b]] 0 <= a < b < t.len() implies t[a].0
            != t[b].0 by {
            if a < i {
                assert(t[a] == s[a]);
            } else if a > i {
                assert(t[a] == s[a - 1]);
            }
            if b < i {
                assert(t[b] == s[b]);
            } else if b > i {
                assert(t[b] == s[b - 1]);
            }
        }
    }
    lemma_pairs_map_dom(s);
    lemma_pairs_map_dom(t);
    assert forall|k: K| #[trigger] pairs_map(t).contains_key(k) <==> pairs_map(s).insert(
        x.0,
        x.1,
    ).contains_key(k) by {
        if pairs_map(s).contains_key(k) {
            let j = choose|j: int| 0 <= j < s.len() && s[j].0 == k;
            if j < i {
                assert(t[j].0 == k);
            } else {
                assert(t[j + 1].0 == k);
            }
        }
        if k == x.0 {
            assert(t[i].0 == k);
        }
        if pairs_map(t).contains_key(k) && k != x.0 {
            let j = choose|j: int| 0 <= j < t.len() && t[j].0 == k;
            if j < i {
                assert(s[j].0 == k);
            } else {
                assert(s[j - 1].0 == k);
            }
        }
    }
    assert forall|k: K| #[trigger] pairs_map(t).contains_key(k) implies pairs_map(t)[k]
        == pairs_map(s).insert(x.0, x.1)[k] by {
        let j = choose|j: int| 0 <= j < t.len() && t[j].0 == k;
        lemma_pairs_map_value(t, j);
        if j < i {
            lemma_pairs_map_value(s, j);
        } else if j > i {
            lemma_pairs_map_value(s, j - 1);
        }
    }
    assert(pairs_map(t) =~= pairs_map(s).insert(x.0, x.1));
}

} // verus!
