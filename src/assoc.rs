//! Association lists: vectors of `(key, value)` pairs with string keys, each
//! key at most once, seen as maps.

use vstd::prelude::*;

verus! {

/// No key occurs twice.
pub open spec fn keys_unique<V>(s: Seq<(String, V)>) -> bool {
    forall|i: int, j: int|
        0 <= i < s.len() && 0 <= j < s.len() && (#[trigger] s[i]).0@ == (#[trigger] s[j]).0@
            ==> i == j
}

/// Some pair has key `k`.
pub open spec fn has_key<V>(s: Seq<(String, V)>, k: Seq<char>) -> bool {
    exists|i: int| 0 <= i < s.len() && (#[trigger] s[i]).0@ == k
}

/// The value paired with `k`, if any.
pub open spec fn lookup<V>(s: Seq<(String, V)>, k: Seq<char>) -> Option<V> {
    if has_key(s, k) {
        Some(s[choose|i: int| 0 <= i < s.len() && (#[trigger] s[i]).0@ == k].1)
    } else {
        None
    }
}

/// A list of string pairs as the map from key to value that it stands for.
pub open spec fn as_map(s: Seq<(String, String)>) -> Map<Seq<char>, Seq<char>> {
    Map::new(|k: Seq<char>| lookup(s, k) is Some, |k: Seq<char>| lookup(s, k)->0@)
}

/// With unique keys, looking up the key at a position gives the value there.
pub proof fn lemma_lookup_index<V>(s: Seq<(String, V)>, i: int)
    requires
        keys_unique(s),
        0 <= i < s.len(),
    ensures
        lookup(s, s[i].0@) == Some(s[i].1),
{
    let k = s[i].0@;
    assert(has_key(s, k));
    let j = choose|j: int| 0 <= j < s.len() && (#[trigger] s[j]).0@ == k;
    assert(s[j].0@ == s[i].0@);
}

/// Replacing the pair at a position by one with the same key.
pub proof fn lemma_lookup_update<V>(s: Seq<(String, V)>, i: int, x: (String, V), k: Seq<char>)
    requires
        keys_unique(s),
        0 <= i < s.len(),
        x.0@ == s[i].0@,
    ensures
        keys_unique(s.update(i, x)),
        lookup(s.update(i, x), k) == (if k == x.0@ {
            Some(x.1)
        } else {
            lookup(s, k)
        }),
{
    let t = s.update(i, x);
    assert forall|a: int, b: int|
        0 <= a < t.len() && 0 <= b < t.len() && (#[trigger] t[a]).0@ == (#[trigger] t[b]).0@
        implies a == b by {
        assert(s[a].0@ == t[a].0@ && s[b].0@ == t[b].0@);
    }
    if k == x.0@ {
        lemma_lookup_index(t, i);
    } else if has_key(s, k) {
        let j = choose|j: int| 0 <= j < s.len() && (#[trigger] s[j]).0@ == k;
        lemma_lookup_index(s, j);
        assert(t[j] == s[j]);
        lemma_lookup_index(t, j);
    } else {
        assert forall|j: int| 0 <= j < t.len() implies (#[trigger] t[j]).0@ != k by {
            assert(s[j].0@ == t[j].0@);
        }
    }
}

/// Appending a pair whose key is new.
pub proof fn lemma_lookup_push<V>(s: Seq<(String, V)>, x: (String, V), k: Seq<char>)
    requires
        keys_unique(s),
        !has_key(s, x.0@),
    ensures
        keys_unique(s.push(x)),
        lookup(s.push(x), k) == (if k == x.0@ {
            Some(x.1)
        } else {
            lookup(s, k)
        }),
{
    let t = s.push(x);
    assert forall|a: int, b: int|
        0 <= a < t.len() && 0 <= b < t.len() && (#[trigger] t[a]).0@ == (#[trigger] t[b]).0@
        implies a == b by {
        if a < s.len() {
            assert(t[a] == s[a]);
        }
        if b < s.len() {
            assert(t[b] == s[b]);
        }
    }
    if k == x.0@ {
        lemma_lookup_index(t, s.len() as int);
    } else if has_key(s, k) {
        let j = choose|j: int| 0 <= j < s.len() && (#[trigger] s[j]).0@ == k;
        lemma_lookup_index(s, j);
        assert(t[j] == s[j]);
        lemma_lookup_index(t, j);
    } else {
        assert forall|j: int| 0 <= j < t.len() implies (#[trigger] t[j]).0@ != k by {
            if j < s.len() {
                assert(t[j] == s[j]);
            }
        }
    }
}

/// Taking out the pair at a position.
pub proof fn lemma_lookup_remove<V>(s: Seq<(String, V)>, i: int, k: Seq<char>)
    requires
        keys_unique(s),
        0 <= i < s.len(),
    ensures
        keys_unique(s.remove(i)),
        lookup(s.remove(i), k) == (if k == s[i].0@ {
            None
        } else {
            lookup(s, k)
        }),
{
    let t = s.remove(i);
    assert forall|a: int, b: int|
        0 <= a < t.len() && 0 <= b < t.len() && (#[trigger] t[a]).0@ == (#[trigger] t[b]).0@
        implies a == b by {
        let a2 = if a < i { a } else { a + 1 };
        let b2 = if b < i { b } else { b + 1 };
        assert(t[a] == s[a2] && t[b] == s[b2]);
    }
    if k == s[i].0@ {
        assert forall|j: int| 0 <= j < t.len() implies (#[trigger] t[j]).0@ != k by {
            let j2 = if j < i { j } else { j + 1 };
            assert(t[j] == s[j2]);
        }
    } else if has_key(s, k) {
        let j = choose|j: int| 0 <= j < s.len() && (#[trigger] s[j]).0@ == k;
        lemma_lookup_index(s, j);
        let j1 = if j < i { j } else { j - 1 };
        assert(t[j1] == s[j]);
        lemma_lookup_index(t, j1);
    } else {
        assert forall|j: int| 0 <= j < t.len() implies (#[trigger] t[j]).0@ != k by {
            let j2 = if j < i { j } else { j + 1 };
            assert(t[j] == s[j2]);
        }
    }
}

/// The position of the pair with key `k`, if there is one.
pub fn find<V>(s: &Vec<(String, V)>, k: &String) -> (r: Option<usize>)
    ensures
        match r {
            Some(i) => i < s@.len() && s@[i as int].0@ == k@,
            None => !has_key(s@, k@),
        },
{
    let mut i: usize = 0;
    while i < s.len()
        invariant
            i <= s@.len(),
            forall|j: int| 0 <= j < i ==> (#[trigger] s@[j]).0@ != k@,
        decreases s@.len() - i,
    {
        if s[i].0 == *k {
            return Some(i);
        }
        i = i + 1;
    }
    None
}

/// Binds `k` to `v`, replacing an earlier value of `k`.
pub fn upsert(s: &mut Vec<(String, String)>, k: String, v: String)
    requires
        keys_unique(old(s)@),
    ensures
        keys_unique(final(s)@),
        as_map(final(s)@) == as_map(old(s)@).insert(k@, v@),
{
    let ghost s0 = s@;
    let ghost kv = k@;
    let ghost vv = v@;
    match find(s, &k) {
        Some(i) => {
            let x = (k, v);
            let ghost xg = x;
            s.set(i, x);
            assert(s@ == s0.update(i as int, xg));
            assert forall|q: Seq<char>| true implies lookup(s@, q) == (if q == kv {
                Some(xg.1)
            } else {
                lookup(s0, q)
            }) by {
                lemma_lookup_update(s0, i as int, xg, q);
            }
            proof {
                lemma_lookup_update(s0, i as int, xg, kv);
            }
        },
        None => {
            let x = (k, v);
            let ghost xg = x;
            s.push(x);
            assert forall|q: Seq<char>| true implies lookup(s@, q) == (if q == kv {
                Some(xg.1)
            } else {
                lookup(s0, q)
            }) by {
                lemma_lookup_push(s0, xg, q);
            }
            proof {
                lemma_lookup_push(s0, xg, kv);
            }
        },
    }
    assert(as_map(s@) =~= as_map(s0).insert(kv, vv));
}

/// Unbinds `k`; nothing changes where `k` has no value.
pub fn remove_key(s: &mut Vec<(String, String)>, k: &String)
    requires
        keys_unique(old(s)@),
    ensures
        keys_unique(final(s)@),
        as_map(final(s)@) == as_map(old(s)@).remove(k@),
{
    let ghost s0 = s@;
    match find(s, k) {
        Some(i) => {
            s.remove(i);
            assert forall|q: Seq<char>| true implies lookup(s@, q) == (if q == k@ {
                None
            } else {
                lookup(s0, q)
            }) by {
                lemma_lookup_remove(s0, i as int, q);
            }
            proof {
                lemma_lookup_remove(s0, i as int, k@);
            }
        },
        None => {
            assert forall|q: Seq<char>| q == k@ implies lookup(s0, q) is None by {}
        },
    }
    assert(as_map(s@) =~= as_map(s0).remove(k@));
}

} // verus!
