//! Association vectors keyed by id strings.
//!
//! The registries and caches in this crate key small collections by asset or
//! material ids. They store the entries as `Vec<(String, V)>` with unique
//! keys; these helpers give lookup its specification.

use vstd::prelude::*;

verus! {

/// First index in `s` whose key views to `k`, or `s.len()` if none.
pub open spec fn key_idx<V>(s: Seq<(String, V)>, k: Seq<char>) -> int
    decreases s.len(),
{
    if s.len() == 0 {
        0
    } else if s[0].0@ == k {
        0
    } else {
        1 + key_idx(s.drop_first(), k)
    }
}

/// Some entry of `s` has key `k`.
pub open spec fn key_has<V>(s: Seq<(String, V)>, k: Seq<char>) -> bool {
    key_idx(s, k) < s.len()
}

/// The first value stored under `k`, if any.
pub open spec fn key_lookup<V>(s: Seq<(String, V)>, k: Seq<char>) -> Option<V> {
    if key_has(s, k) {
        Some(s[key_idx(s, k)].1)
    } else {
        None
    }
}

/// Keys are unique.
pub open spec fn keys_unique<V>(s: Seq<(String, V)>) -> bool {
    forall|i: int, j: int| 0 <= i < j < s.len() ==> (#[trigger] s[i]).0@ != (#[trigger] s[j]).0@
}

/// `key_idx` is the least matching index (or the length when there is none).
pub proof fn lemma_key_idx<V>(s: Seq<(String, V)>, k: Seq<char>)
    ensures
        0 <= key_idx(s, k) <= s.len(),
        key_has(s, k) ==> s[key_idx(s, k)].0@ == k,
        forall|j: int| 0 <= j < key_idx(s, k) ==> (#[trigger] s[j]).0@ != k,
        (exists|j: int| 0 <= j < s.len() && (#[trigger] s[j]).0@ == k) ==> key_has(s, k),
    decreases s.len(),
{
    if s.len() > 0 && s[0].0@ != k {
        let rest = s.drop_first();
        lemma_key_idx(rest, k);
        assert forall|j: int| 0 <= j < key_idx(s, k) implies (#[trigger] s[j]).0@ != k by {
            if j > 0 {
                assert(rest[j - 1] == s[j]);
            }
        }
        if exists|j: int| 0 <= j < s.len() && (#[trigger] s[j]).0@ == k {
            let j = choose|j: int| 0 <= j < s.len() && (#[trigger] s[j]).0@ == k;
            assert(rest[j - 1] == s[j]);
        }
    }
}

/// `key_idx` depends only on the keys, not on the stored values.
pub proof fn lemma_key_idx_same_keys<V>(s1: Seq<(String, V)>, s2: Seq<(String, V)>, k: Seq<char>)
    requires
        s1.len() == s2.len(),
        forall|i: int| 0 <= i < s1.len() ==> (#[trigger] s1[i]).0@ == (#[trigger] s2[i]).0@,
    ensures
        key_idx(s1, k) == key_idx(s2, k),
    decreases s1.len(),
{
    if s1.len() > 0 && s1[0].0@ != k {
        let r1 = s1.drop_first();
        let r2 = s2.drop_first();
        assert forall|i: int| 0 <= i < r1.len() implies (#[trigger] r1[i]).0@ == (
        #[trigger] r2[i]).0@ by {
            assert(r1[i] == s1[i + 1]);
            assert(r2[i] == s2[i + 1]);
        }
        lemma_key_idx_same_keys(r1, r2, k);
    }
}

/// First index in `entries` whose key equals `key`, or `entries.len()`.
pub fn find_key<V>(entries: &Vec<(String, V)>, key: &String) -> (r: usize)
    ensures
        r == key_idx(entries@, key@),
{
    let mut i: usize = 0;
    while i < entries.len() && entries[i].0 != *key
        invariant
            i <= entries@.len(),
            forall|j: int| 0 <= j < i ==> (#[trigger] entries@[j]).0@ != key@,
        decreases entries@.len() - i,
    {
        i = i + 1;
    }
    proof {
        lemma_key_idx(entries@, key@);
        if i < entries@.len() {
            assert(key_has(entries@, key@));
        }
    }
    i
}

} // verus!
