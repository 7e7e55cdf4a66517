//! Total orders on names, and facts about sequences sorted by them.
use vstd::prelude::*;

verus! {

/// Lexicographic order on character sequences, comparing code points; a
/// proper prefix comes first. This is the order of `str`'s `Ord`.
pub open spec fn chars_less(a: Seq<char>, b: Seq<char>) -> bool
    decreases a.len(),
{
    if a.len() == 0 {
        b.len() > 0
    } else if b.len() == 0 {
        false
    } else if a[0] != b[0] {
        (a[0] as int) < (b[0] as int)
    } else {
        chars_less(a.drop_first(), b.drop_first())
    }
}

/// `less` is irreflexive and transitive.
pub open spec fn is_strict_order<T>(less: spec_fn(T, T) -> bool) -> bool {
    &&& forall|a: T| !#[trigger] less(a, a)
    &&& forall|a: T, b: T, c: T| #[trigger] less(a, b) && #[trigger] less(b, c) ==> less(a, c)
}

/// Any two distinct values are related by `less` one way or the other.
pub open spec fn is_total<T>(less: spec_fn(T, T) -> bool) -> bool {
    forall|a: T, b: T| a != b ==> #[trigger] less(a, b) || #[trigger] less(b, a)
}

/// Every element of `s` comes before each later one.
pub open spec fn sorted_by<T>(s: Seq<T>, less: spec_fn(T, T) -> bool) -> bool {
    forall|i: int, j: int| #![trigger s[i], s[j]] 0 <= i < j < s.len() ==> less(s[i], s[j])
}

pub open spec fn name_order() -> spec_fn(Seq<char>, Seq<char>) -> bool {
    |a: Seq<char>, b: Seq<char>| chars_less(a, b)
}

proof fn lemma_chars_less_irreflexive(a: Seq<char>)
    ensures
        !chars_less(a, a),
    decreases a.len(),
{
    if a.len() > 0 {
        lemma_chars_less_irreflexive(a.drop_first());
    }
}

proof fn lemma_chars_less_transitive(a: Seq<char>, b: Seq<char>, c: Seq<char>)
    requires
        chars_less(a, b),
        chars_less(b, c),
    ensures
        chars_less(a, c),
    decreases a.len(),
{
    if a.len() > 0 && b.len() > 0 && c.len() > 0 && a[0] == b[0] && b[0] == c[0] {
        lemma_chars_less_transitive(a.drop_first(), b.drop_first(), c.drop_first());
    }
}

proof fn lemma_chars_less_total(a: Seq<char>, b: Seq<char>)
    requires
        a != b,
    ensures
        chars_less(a, b) || chars_less(b, a),
    decreases a.len(),
{
    if a.len() == 0 || b.len() == 0 {
        if a.len() == 0 && b.len() == 0 {
            assert(a =~= b);
        }
    } else if a[0] == b[0] {
        if a.drop_first() == b.drop_first() {
            assert(a =~= seq![a[0]] + a.drop_first());
            assert(b =~= seq![b[0]] + b.drop_first());
        }
        lemma_chars_less_total(a.drop_first(), b.drop_first());
    } else {
        assert((a[0] as int) != (b[0] as int));
    }
}

/// The order on names is a strict total order.
pub proof fn lemma_name_order()
    ensures
        is_strict_order(name_order()),
        is_total(name_order()),
{
    assert forall|a: Seq<char>| !#[trigger] name_order()(a, a) by {
        lemma_chars_less_irreflexive(a);
    }
    assert forall|a: Seq<char>, b: Seq<char>, c: Seq<char>|
        #[trigger] name_order()(a, b) && #[trigger] name_order()(b, c) implies name_order()(
        a,
        c,
    ) by {
        lemma_chars_less_transitive(a, b, c);
    }
    assert forall|a: Seq<char>, b: Seq<char>| a != b implies #[trigger] name_order()(a, b)
        || #[trigger] name_order()(b, a) by {
        lemma_chars_less_total(a, b);
    }
}

/// Two sequences sorted by the same strict order, holding the same elements,
/// are equal.
pub proof fn lemma_sorted_unique<T>(s1: Seq<T>, s2: Seq<T>, less: spec_fn(T, T) -> bool)
    requires
        is_strict_order(less),
        sorted_by(s1, less),
        sorted_by(s2, less),
        s1.to_set() == s2.to_set(),
    ensures
        s1 == s2,
    decreases s1.len(),
{
    if s1.len() == 0 || s2.len() == 0 {
        if s1.len() > 0 {
            assert(s1.to_set().contains(s1[0]));
        }
        if s2.len() > 0 {
            assert(s2.to_set().contains(s2[0]));
        }
        assert(s1 =~= s2);
    } else {
        let x = s1.last();
        let y = s2.last();
        assert(s1.to_set().contains(x));
        assert(s2.to_set().contains(y));
        if x != y {
            let j = choose|j: int| 0 <= j < s2.len() && s2[j] == x;
            let i = choose|i: int| 0 <= i < s1.len() && s1[i] == y;
            assert(less(s2[j], s2[s2.len() - 1]));
            assert(less(s1[i], s1[s1.len() - 1]));
            assert(less(x, x));
        }
        let t1 = s1.drop_last();
        let t2 = s2.drop_last();
        assert forall|e: T| #[trigger] t1.contains(e) implies t2.contains(e) by {
            let k = choose|k: int| 0 <= k < t1.len() && t1[k] == e;
            assert(less(s1[k], s1[s1.len() - 1]));
            assert(s1.to_set().contains(e));
            let m = choose|m: int| 0 <= m < s2.len() && s2[m] == e;
            if m == s2.len() - 1 {
                assert(less(e, e));
            }
            assert(t2[m] == e);
        }
        assert forall|e: T| #[trigger] t2.contains(e) implies t1.contains(e) by {
            let k = choose|k: int| 0 <= k < t2.len() && t2[k] == e;
            assert(less(s2[k], s2[s2.len() - 1]));
            assert(s2.to_set().contains(e));
            let m = choose|m: int| 0 <= m < s1.len() && s1[m] == e;
            if m == s1.len() - 1 {
                assert(less(e, e));
            }
            assert(t1[m] == e);
        }
        assert(t1.to_set() =~= t2.to_set());
        lemma_sorted_unique(t1, t2, less);
        assert(s1 =~= t1.push(x));
        assert(s2 =~= t2.push(y));
    }
}

/// Inserting `x` at `i` keeps a sequence sorted when everything before `i`
/// comes before `x` and `x` comes before everything from `i` on.
pub proof fn lemma_insert_sorted<T>(s: Seq<T>, i: int, x: T, less: spec_fn(T, T) -> bool)
    requires
        is_strict_order(less),
        sorted_by(s, less),
        0 <= i <= s.len(),
        forall|k: int| 0 <= k < i ==> less(#[trigger] s[k], x),
        i < s.len() ==> less(x, s[i]),
    ensures
        sorted_by(s.insert(i, x), less),
{
    let t = s.insert(i, x);
    assert forall|a: int, b: int| 0 <= a < b < t.len() implies less(#[trigger] t[a], #[trigger] t[b]) by {
        if b < i {
            assert(t[a] == s[a] && t[b] == s[b]);
        } else if b == i {
            assert(t[a] == s[a]);
        } else if a == i {
            if b - 1 > i {
                assert(less(s[i], s[b - 1]));
            }
        } else if a < i {
            assert(less(s[a], x));
            if b - 1 > i {
                assert(less(s[i], s[b - 1]));
            }
            assert(less(x, s[b - 1]));
        } else {
            assert(t[a] == s[a - 1] && t[b] == s[b - 1]);
        }
    }
}

/// Compares two strings in the order of `chars_less`.
pub fn str_less(a: &str, b: &str) -> (r: bool)
    ensures
        r == chars_less(a@, b@),
{
    let n = a.unicode_len();
    let m = b.unicode_len();
    let mut i: usize = 0;
    assert(a@.skip(0) =~= a@);
    assert(b@.skip(0) =~= b@);
    while i < n && i < m
        invariant
            n == a@.len(),
            m == b@.len(),
            i <= n,
            i <= m,
            chars_less(a@, b@) == chars_less(a@.skip(i as int), b@.skip(i as int)),
        decreases n - i,
    {
        let ca = a.get_char(i);
        let cb = b.get_char(i);
        if ca != cb {
            return (ca as u32) < (cb as u32);
        }
        assert(a@.skip(i as int).drop_first() =~= a@.skip(i + 1));
        assert(b@.skip(i as int).drop_first() =~= b@.skip(i + 1));
        i = i + 1;
    }
    i == n && i < m
}

} // verus!
