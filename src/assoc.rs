//! Association lists keyed by strings, viewed as maps.

use vstd::prelude::*;

verus! {

/// No two entries of `s` carry the same key.
pub open spec fn keys_unique<V>(s: Seq<(String, V)>) -> bool {
    forall|i: int, j: int|
        0 <= i < s.len() && 0 <= j < s.len() && (#[trigger] s[i]).0@ == (#[trigger] s[j]).0@
            ==> i == j
}

/// Some entry of `s` carries key `k`.
pub open spec fn has_key<V>(s: Seq<(String, V)>, k: Seq<char>) -> bool {
    exists|i: int| 0 <= i < s.len() && (#[trigger] s[i]).0@ == k
}

/// The map from each key of `s` to `f` of its value.
pub open spec fn map_of_with<V, W>(s: Seq<(String, V)>, f: spec_fn(V) -> W) -> Map<Seq<char>, W> {
    Map::new(
        |k: Seq<char>| has_key(s, k),
        |k: Seq<char>| f(s[choose|i: int| 0 <= i < s.len() && (#[trigger] s[i]).0@ == k].1),
    )
}

/// The map from each key of `s` to the view of its value.
pub open spec fn map_of<V: View>(s: Seq<(String, V)>) -> Map<Seq<char>, V::V> {
    map_of_with(s, |v: V| v@)
}

/// With unique keys, the entry at `i` is what the map holds for its key.
pub proof fn lemma_map_of_index<V, W>(s: Seq<(String, V)>, f: spec_fn(V) -> W, i: int)
    requires
        keys_unique(s),
        0 <= i < s.len(),
    ensures
        map_of_with(s, f).contains_key(s[i].0@),
        map_of_with(s, f)[s[i].0@] == f(s[i].1),
{
    let k = s[i].0@;
    assert(has_key(s, k));
    let j = choose|j: int| 0 <= j < s.len() && (#[trigger] s[j]).0@ == k;
    assert(s[j].0@ == s[i].0@);
}

/// Appending an entry with a fresh key inserts it into the map.
pub proof fn lemma_map_of_push<V, W>(s: Seq<(String, V)>, f: spec_fn(V) -> W, e: (String, V))
    requires
        keys_unique(s),
        !has_key(s, e.0@),
    ensures
        keys_unique(s.push(e)),
        map_of_with(s.push(e), f) == map_of_with(s, f).insert(e.0@, f(e.1)),
{
    let t = s.push(e);
    assert forall|i: int, j: int|
        0 <= i < t.len() && 0 <= j < t.len() && (#[trigger] t[i]).0@ == (#[trigger] t[j]).0@
        implies i == j by {
        if i < s.len() && j == s.len() {
            assert(s[i] == t[i]);
        } else if j < s.len() && i == s.len() {
            assert(s[j] == t[j]);
        } else if i < s.len() && j < s.len() {
            assert(s[i] == t[i] && s[j] == t[j]);
        }
    }
    assert forall|k: Seq<char>| #[trigger] has_key(t, k) == (has_key(s, k) || k == e.0@) by {
        if has_key(s, k) {
            let i = choose|i: int| 0 <= i < s.len() && (#[trigger] s[i]).0@ == k;
            assert(t[i] == s[i]);
        }
        if k == e.0@ {
            assert(t[s.len() as int] == e);
        }
        if has_key(t, k) && k != e.0@ {
            let i = choose|i: int| 0 <= i < t.len() && (#[trigger] t[i]).0@ == k;
            assert(i < s.len());
            assert(t[i] == s[i]);
        }
    }
    assert forall|k: Seq<char>| #[trigger] map_of_with(t, f).contains_key(k)
        implies map_of_with(t, f)[k] == map_of_with(s, f).insert(e.0@, f(e.1))[k] by {
        let i = choose|i: int| 0 <= i < t.len() && (#[trigger] t[i]).0@ == k;
        lemma_map_of_index(t, f, i);
        if i < s.len() {
            assert(t[i] == s[i]);
            lemma_map_of_index(s, f, i);
        }
    }
    assert(map_of_with(t, f) =~= map_of_with(s, f).insert(e.0@, f(e.1)));
}

/// Replacing the value at `i`, under the same key, updates the map there.
pub proof fn lemma_map_of_update<V, W>(s: Seq<(String, V)>, f: spec_fn(V) -> W, i: int, e: (String, V))
    requires
        keys_unique(s),
        0 <= i < s.len(),
        e.0@ == s[i].0@,
    ensures
        keys_unique(s.update(i, e)),
        map_of_with(s.update(i, e), f) == map_of_with(s, f).insert(e.0@, f(e.1)),
{
    let t = s.update(i, e);
    assert forall|a: int, b: int|
        0 <= a < t.len() && 0 <= b < t.len() && (#[trigger] t[a]).0@ == (#[trigger] t[b]).0@
        implies a == b by {
        assert(t[a].0@ == s[a].0@ && t[b].0@ == s[b].0@);
        assert(s[a].0@ == s[b].0@);
    }
    assert forall|k: Seq<char>| #[trigger] has_key(t, k) == has_key(s, k) by {
        if has_key(s, k) {
            let j = choose|j: int| 0 <= j < s.len() && (#[trigger] s[j]).0@ == k;
            assert(t[j].0@ == s[j].0@);
        }
        if has_key(t, k) {
            let j = choose|j: int| 0 <= j < t.len() && (#[trigger] t[j]).0@ == k;
            assert(t[j].0@ == s[j].0@);
        }
    }
    assert forall|k: Seq<char>| #[trigger] map_of_with(t, f).contains_key(k)
        implies map_of_with(t, f)[k] == map_of_with(s, f).insert(e.0@, f(e.1))[k] by {
        let j = choose|j: int| 0 <= j < t.len() && (#[trigger] t[j]).0@ == k;
        lemma_map_of_index(t, f, j);
        if j != i {
            assert(t[j] == s[j]);
            lemma_map_of_index(s, f, j);
        }
    }
    assert(map_of_with(t, f) =~= map_of_with(s, f).insert(e.0@, f(e.1)));
}

/// The empty list is the empty map.
pub proof fn lemma_map_of_empty<V, W>(s: Seq<(String, V)>, f: spec_fn(V) -> W)
    requires
        s.len() == 0,
    ensures
        keys_unique(s),
        map_of_with(s, f) == Map::<Seq<char>, W>::empty(),
{
    assert(map_of_with(s, f) =~= Map::<Seq<char>, W>::empty());
}

/// With unique keys, the map has one key per entry.
pub proof fn lemma_map_of_len<V, W>(s: Seq<(String, V)>, f: spec_fn(V) -> W)
    requires
        keys_unique(s),
    ensures
        map_of_with(s, f).dom().finite(),
        map_of_with(s, f).dom().len() == s.len(),
    decreases s.len(),
{
    if s.len() == 0 {
        lemma_map_of_empty(s, f);
    } else {
        let p = s.drop_last();
        let e = s.last();
        assert(p.push(e) =~= s);
        assert forall|i: int, j: int|
            0 <= i < p.len() && 0 <= j < p.len() && (#[trigger] p[i]).0@ == (#[trigger] p[j]).0@
            implies i == j by {
            assert(p[i] == s[i] && p[j] == s[j]);
        }
        lemma_map_of_len(p, f);
        if has_key(p, e.0@) {
            let i = choose|i: int| 0 <= i < p.len() && (#[trigger] p[i]).0@ == e.0@;
            assert(s[i] == p[i]);
            assert(s[s.len() - 1] == e);
        }
        lemma_map_of_push(p, f, e);
    }
}

/// Two lists with the same keys in the same places, whose values agree under
/// `f` and `g`, give the same map.
pub proof fn lemma_map_of_same<V, W, U>(
    s: Seq<(String, V)>,
    f: spec_fn(V) -> W,
    t: Seq<(String, U)>,
    g: spec_fn(U) -> W,
)
    requires
        keys_unique(s),
        s.len() == t.len(),
        forall|i: int| 0 <= i < s.len() ==> (#[trigger] s[i]).0@ == t[i].0@ && f(s[i].1) == g(t[i].1),
    ensures
        keys_unique(t),
        map_of_with(s, f) == map_of_with(t, g),
{
    assert forall|a: int, b: int|
        0 <= a < t.len() && 0 <= b < t.len() && (#[trigger] t[a]).0@ == (#[trigger] t[b]).0@
        implies a == b by {
        assert(s[a].0@ == t[a].0@ && s[b].0@ == t[b].0@);
    }
    assert forall|k: Seq<char>| #[trigger] has_key(t, k) == has_key(s, k) by {
        if has_key(s, k) {
            let j = choose|j: int| 0 <= j < s.len() && (#[trigger] s[j]).0@ == k;
            assert(s[j].0@ == t[j].0@);
        }
        if has_key(t, k) {
            let j = choose|j: int| 0 <= j < t.len() && (#[trigger] t[j]).0@ == k;
            assert(s[j].0@ == t[j].0@);
        }
    }
    assert forall|k: Seq<char>| #[trigger] map_of_with(s, f).contains_key(k)
        implies map_of_with(s, f)[k] == map_of_with(t, g)[k] by {
        let j = choose|j: int| 0 <= j < s.len() && (#[trigger] s[j]).0@ == k;
        lemma_map_of_index(s, f, j);
        lemma_map_of_index(t, g, j);
        assert(s[j].0@ == t[j].0@);
    }
    assert(map_of_with(s, f) =~= map_of_with(t, g));
}

/// Mapping `h` over the values of the map is mapping it over the list.
pub proof fn lemma_map_of_compose<V, W, U>(s: Seq<(String, V)>, f: spec_fn(V) -> W, h: spec_fn(W) -> U)
    ensures
        map_of_with(s, f).map_values(h) == map_of_with(s, |v: V| h(f(v))),
{
    assert(map_of_with(s, f).map_values(h) =~= map_of_with(s, |v: V| h(f(v))));
}

/// The position of the entry with key `k`, if there is one.
pub fn find<V>(s: &Vec<(String, V)>, k: &String) -> (r: Option<usize>)
    ensures
        match r {
            Some(i) => i < s@.len() && s@[i as int].0@ == k@,
            None => !has_key(s@, k@),
        },
{
    let mut i: usize = 0;
    while i < s.len()
        invariant
            i <= s@.len(),
            forall|j: int| 0 <= j < i ==> (#[trigger] s@[j]).0@ != k@,
        decreases s@.len() - i,
    {
        if s[i].0 == *k {
            return Some(i);
        }
        i = i + 1;
    }
    None
}

/// Puts `v` in place of the value at `i`, keeping its key; hands back the old value.
pub fn replace_at<V>(s: &mut Vec<(String, V)>, i: usize, v: V) -> (r: V)
    requires
        i < old(s)@.len(),
    ensures
        final(s)@.len() == old(s)@.len(),
        final(s)@[i as int].0 == old(s)@[i as int].0,
        final(s)@ == old(s)@.update(i as int, (old(s)@[i as int].0, v)),
        r == old(s)@[i as int].1,
{
    let (k, old_v) = s.remove(i);
    s.insert(i, (k, v));
    assert(s@ =~= old(s)@.update(i as int, (old(s)@[i as int].0, v)));
    old_v
}

/// Sets the value under key `k` to `v`, adding the key if it is new.
pub fn insert_entry<V: View>(s: &mut Vec<(String, V)>, k: String, v: V)
    requires
        keys_unique(old(s)@),
    ensures
        keys_unique(final(s)@),
        map_of(final(s)@) == map_of(old(s)@).insert(k@, v@),
        final(s)@.len() == if has_key(old(s)@, k@) { old(s)@.len() } else { old(s)@.len() + 1 },
{
    match find(s, &k) {
        Some(i) => {
            let ghost before = s@;
            replace_at(s, i, v);
            proof {
                lemma_map_of_update(before, |x: V| x@, i as int, (before[i as int].0, v));
                assert(has_key(before, k@)) by {
                    assert(before[i as int].0@ == k@);
                }
            }
        },
        None => {
            let ghost before = s@;
            s.push((k, v));
            proof {
                lemma_map_of_push(before, |x: V| x@, (k, v));
            }
        },
    }
}

/// Whether no two entries of `s` carry the same key.
pub fn all_keys_unique<V>(s: &Vec<(String, V)>) -> (r: bool)
    ensures
        r == keys_unique(s@),
{
    let mut i: usize = 0;
    while i < s.len()
        invariant
            i <= s@.len(),
            forall|a: int, b: int|
                0 <= a < i && 0 <= b < s@.len() && a != b ==> (#[trigger] s@[a]).0@
                    != (#[trigger] s@[b]).0@,
        decreases s@.len() - i,
    {
        let mut j: usize = 0;
        while j < s.len()
            invariant
                i < s@.len(),
                j <= s@.len(),
                forall|a: int, b: int|
                    0 <= a < i && 0 <= b < s@.len() && a != b ==> (#[trigger] s@[a]).0@
                        != (#[trigger] s@[b]).0@,
                forall|b: int| 0 <= b < j && b != i ==> s@[i as int].0@ != (#[trigger] s@[b]).0@,
            decreases s@.len() - j,
        {
            if j != i && s[i].0 == s[j].0 {
                return false;
            }
            j = j + 1;
        }
        i = i + 1;
    }
    true
}

} // verus!
