use vstd::prelude::*;

verus! {

/// The map that a list of `(key, value)` pairs stands for; a later pair
/// for a key replaces an earlier one.
pub open spec fn assoc_map<V: View>(s: Seq<(String, V)>) -> Map<Seq<char>, V::V>
    decreases s.len(),
{
    if s.len() == 0 {
        Map::empty()
    } else {
        assoc_map(s.drop_last()).insert(s.last().0@, s.last().1@)
    }
}

/// No key occurs twice in the list.
pub open spec fn unique_keys<V>(s: Seq<(String, V)>) -> bool {
    forall|i: int, j: int| 0 <= i < j < s.len() ==> s[i].0@ != s[j].0@
}

/// A key is in the map exactly where some pair holds it.
pub proof fn lemma_assoc_contains<V: View>(s: Seq<(String, V)>, k: Seq<char>)
    ensures
        assoc_map(s).contains_key(k) <==> exists|i: int| 0 <= i < s.len() && s[i].0@ == k,
    decreases s.len(),
{
    if s.len() > 0 {
        let s1 = s.drop_last();
        lemma_assoc_contains(s1, k);
        if assoc_map(s).contains_key(k) && s.last().0@ != k {
            let i = choose|i: int| 0 <= i < s1.len() && s1[i].0@ == k;
            assert(s[i].0@ == k);
        }
        if exists|i: int| 0 <= i < s.len() && s[i].0@ == k {
            let i = choose|i: int| 0 <= i < s.len() && s[i].0@ == k;
            if i < s.len() - 1 {
                assert(s1[i].0@ == k);
            }
        }
    }
}

/// With unique keys, the map gives each pair's value for its key.
pub proof fn lemma_assoc_index<V: View>(s: Seq<(String, V)>, i: int)
    requires
        unique_keys(s),
        0 <= i < s.len(),
    ensures
        assoc_map(s).contains_key(s[i].0@),
        assoc_map(s)[s[i].0@] == s[i].1@,
    decreases s.len(),
{
    if i < s.len() - 1 {
        let s1 = s.drop_last();
        assert(s1[i] == s[i]);
        lemma_assoc_index(s1, i);
        assert(s.last().0@ != s[i].0@);
    }
}

/// Replacing the value of the pair at `i` replaces the key's value in the map.
pub proof fn lemma_assoc_update<V: View>(s: Seq<(String, V)>, i: int, v: V)
    requires
        unique_keys(s),
        0 <= i < s.len(),
    ensures
        unique_keys(s.update(i, (s[i].0, v))),
        assoc_map(s.update(i, (s[i].0, v))) == assoc_map(s).insert(s[i].0@, v@),
    decreases s.len(),
{
    let t = s.update(i, (s[i].0, v));
    if i == s.len() - 1 {
        assert(t.drop_last() =~= s.drop_last());
        assert(assoc_map(t) =~= assoc_map(s).insert(s[i].0@, v@));
    } else {
        let s1 = s.drop_last();
        lemma_assoc_update(s1, i, v);
        assert(t.drop_last() =~= s1.update(i, (s1[i].0, v)));
        assert(s.last().0@ != s[i].0@);
        assert(assoc_map(t) =~= assoc_map(s).insert(s[i].0@, v@));
    }
}

/// Adding a pair for a new key adds it to the map and keeps keys unique.
pub proof fn lemma_assoc_push<V: View>(s: Seq<(String, V)>, p: (String, V))
    requires
        unique_keys(s),
        !assoc_map(s).contains_key(p.0@),
    ensures
        unique_keys(s.push(p)),
        assoc_map(s.push(p)) == assoc_map(s).insert(p.0@, p.1@),
{
    lemma_assoc_contains(s, p.0@);
    assert(s.push(p).drop_last() =~= s);
    assert forall|i: int, j: int| 0 <= i < j < s.push(p).len() implies s.push(p)[i].0@ != s.push(p)[j].0@ by {
        if j == s.len() {
            assert(s[i].0@ != p.0@);
        }
    }
}

/// Lists whose pairs have the same keys and the same value views stand for
/// the same map, and have unique keys alike.
pub proof fn lemma_assoc_same_views<V: View>(s1: Seq<(String, V)>, s2: Seq<(String, V)>)
    requires
        s1.len() == s2.len(),
        forall|i: int| 0 <= i < s1.len() ==> (#[trigger] s1[i]).0@ == s2[i].0@ && s1[i].1@ == s2[i].1@,
    ensures
        assoc_map(s1) == assoc_map(s2),
        unique_keys(s1) == unique_keys(s2),
    decreases s1.len(),
{
    if s1.len() > 0 {
        let a = s1.drop_last();
        let b = s2.drop_last();
        assert forall|i: int| 0 <= i < a.len() implies (#[trigger] a[i]).0@ == b[i].0@ && a[i].1@ == b[i].1@ by {
            assert(a[i] == s1[i] && b[i] == s2[i]);
        }
        lemma_assoc_same_views(a, b);
    }
    if unique_keys(s1) != unique_keys(s2) {
        if unique_keys(s1) {
            let (i, j) = choose|i: int, j: int| 0 <= i < j < s2.len() && s2[i].0@ == s2[j].0@;
            assert(s1[i].0@ == s1[j].0@);
        } else {
            let (i, j) = choose|i: int, j: int| 0 <= i < j < s1.len() && s1[i].0@ == s1[j].0@;
            assert(s2[i].0@ == s2[j].0@);
        }
    }
}

/// The index of the pair holding `key`, if any.
pub fn find_key<V>(s: &Vec<(String, V)>, key: &String) -> (r: Option<usize>)
    ensures
        match r {
            Some(i) => i < s.len() && s@[i as int].0@ == key@,
            None => forall|i: int| 0 <= i < s.len() ==> s@[i].0@ != key@,
        },
{
    let mut i: usize = 0;
    while i < s.len()
        invariant
            i <= s.len(),
            forall|j: int| 0 <= j < i ==> s@[j].0@ != key@,
        decreases s.len() - i,
    {
        if s[i].0 == *key {
            return Some(i);
        }
        i = i + 1;
    }
    None
}

} // verus!
