//! Association lists with distinct `i32` keys, used as small maps.
//!
//! The registry keeps its maps as vectors of key/value pairs with pairwise
//! distinct keys.  The spec functions here give such a vector a map reading:
//! `has_key`, `index_of_key` and `value_of`.

use vstd::prelude::*;

verus! {

/// No element of `s` occurs twice.
pub open spec fn distinct_seq<T>(s: Seq<T>) -> bool {
    forall|i: int, j: int| 0 <= i < j < s.len() ==> s[i] != s[j]
}

/// The keys of the pairs in `s` are pairwise distinct.
pub open spec fn keys_distinct<T>(s: Seq<(i32, T)>) -> bool {
    forall|i: int, j: int| 0 <= i < j < s.len() ==> (#[trigger] s[i]).0 != (#[trigger] s[j]).0
}

/// Some pair in `s` has key `k`.
pub open spec fn has_key<T>(s: Seq<(i32, T)>, k: i32) -> bool {
    exists|i: int| 0 <= i < s.len() && (#[trigger] s[i]).0 == k
}

/// The index of the pair with key `k` (meaningful when `has_key(s, k)`).
pub open spec fn index_of_key<T>(s: Seq<(i32, T)>, k: i32) -> int {
    choose|i: int| 0 <= i < s.len() && (#[trigger] s[i]).0 == k
}

/// The value bound to key `k` (meaningful when `has_key(s, k)`).
pub open spec fn value_of<T>(s: Seq<(i32, T)>, k: i32) -> T {
    s[index_of_key(s, k)].1
}

/// With distinct keys, an index holding key `k` is the index of `k`.
pub proof fn lemma_index_of_key<T>(s: Seq<(i32, T)>, k: i32, i: int)
    requires
        keys_distinct(s),
        0 <= i < s.len(),
        s[i].0 == k,
    ensures
        has_key(s, k),
        index_of_key(s, k) == i,
        value_of(s, k) == s[i].1,
{
    assert(0 <= i < s.len() && s[i].0 == k);
    let j = index_of_key(s, k);
    if i != j {
        assert(s[i].0 == s[j].0);
    }
}

/// Appending a pair with a fresh key binds that key and no other.
pub proof fn lemma_push_pair<T>(s: Seq<(i32, T)>, k: i32, v: T)
    requires
        keys_distinct(s),
        !has_key(s, k),
    ensures
        keys_distinct(s.push((k, v))),
        has_key(s.push((k, v)), k),
        value_of(s.push((k, v)), k) == v,
        forall|k2: i32| k2 != k ==> has_key(s.push((k, v)), k2) == has_key(s, k2),
        forall|k2: i32|
            k2 != k && has_key(s, k2) ==> value_of(s.push((k, v)), k2) == value_of(s, k2),
{
    let s2 = s.push((k, v));
    let n = s.len() as int;
    assert(keys_distinct(s2)) by {
        assert forall|a: int, b: int| 0 <= a < b < s2.len() implies (#[trigger] s2[a]).0 != (
        #[trigger] s2[b]).0 by {
            if b == n {
                if s2[a].0 == k {
                    assert(s[a].0 == k);
                }
            } else {
                assert(s2[a].0 == s[a].0);
                assert(s2[b].0 == s[b].0);
            }
        }
    }
    lemma_index_of_key(s2, k, n);
    assert forall|k2: i32| k2 != k implies has_key(s2, k2) == has_key(s, k2) by {
        if has_key(s, k2) {
            let j = index_of_key(s, k2);
            assert(s2[j].0 == k2);
        }
        if has_key(s2, k2) {
            let j = index_of_key(s2, k2);
            assert(j != n);
            assert(s[j].0 == k2);
        }
    }
    assert forall|k2: i32|
        k2 != k && has_key(s, k2) implies value_of(s2, k2) == value_of(s, k2) by {
        let j = index_of_key(s, k2);
        lemma_index_of_key(s, k2, j);
        lemma_index_of_key(s2, k2, j);
    }
}

/// Updating the value at index `i` rebinds that key and no other.
pub proof fn lemma_update_pair<T>(s: Seq<(i32, T)>, i: int, v: T)
    requires
        keys_distinct(s),
        0 <= i < s.len(),
    ensures
        keys_distinct(s.update(i, (s[i].0, v))),
        has_key(s.update(i, (s[i].0, v)), s[i].0),
        value_of(s.update(i, (s[i].0, v)), s[i].0) == v,
        forall|k2: i32|
            k2 != s[i].0 ==> has_key(s.update(i, (s[i].0, v)), k2) == has_key(s, k2),
        forall|k2: i32|
            k2 != s[i].0 && has_key(s, k2) ==> value_of(s.update(i, (s[i].0, v)), k2) == value_of(
                s,
                k2,
            ),
{
    let s2 = s.update(i, (s[i].0, v));
    assert(keys_distinct(s2)) by {
        assert forall|a: int, b: int| 0 <= a < b < s2.len() implies (#[trigger] s2[a]).0 != (
        #[trigger] s2[b]).0 by {
            assert(s2[a].0 == s[a].0);
            assert(s2[b].0 == s[b].0);
        }
    }
    lemma_index_of_key(s2, s[i].0, i);
    assert forall|k2: i32| k2 != s[i].0 implies has_key(s2, k2) == has_key(s, k2) by {
        if has_key(s, k2) {
            let j = index_of_key(s, k2);
            assert(s2[j].0 == k2);
        }
        if has_key(s2, k2) {
            let j = index_of_key(s2, k2);
            assert(s[j].0 == k2);
        }
    }
    assert forall|k2: i32|
        k2 != s[i].0 && has_key(s, k2) implies value_of(s2, k2) == value_of(s, k2) by {
        let j = index_of_key(s, k2);
        lemma_index_of_key(s, k2, j);
        lemma_index_of_key(s2, k2, j);
    }
}

/// Removing the pair at index `i` unbinds that key and no other.
pub proof fn lemma_remove_pair<T>(s: Seq<(i32, T)>, i: int)
    requires
        keys_distinct(s),
        0 <= i < s.len(),
    ensures
        keys_distinct(s.remove(i)),
        !has_key(s.remove(i), s[i].0),
        forall|k2: i32| k2 != s[i].0 ==> has_key(s.remove(i), k2) == has_key(s, k2),
        forall|k2: i32|
            k2 != s[i].0 && has_key(s, k2) ==> value_of(s.remove(i), k2) == value_of(s, k2),
{
    let s2 = s.remove(i);
    assert(keys_distinct(s2)) by {
        assert forall|a: int, b: int| 0 <= a < b < s2.len() implies (#[trigger] s2[a]).0 != (
        #[trigger] s2[b]).0 by {
            let a2 = if a < i { a } else { a + 1 };
            let b2 = if b < i { b } else { b + 1 };
            assert(s2[a].0 == s[a2].0);
            assert(s2[b].0 == s[b2].0);
        }
    }
    if has_key(s2, s[i].0) {
        let j = index_of_key(s2, s[i].0);
        let j2 = if j < i { j } else { j + 1 };
        assert(s[j2].0 == s[i].0);
    }
    assert forall|k2: i32| k2 != s[i].0 implies has_key(s2, k2) == has_key(s, k2) by {
        if has_key(s, k2) {
            let j = index_of_key(s, k2);
            assert(s[j].0 == k2);
            assert(j != i);
            if j < i {
                assert(s2[j].0 == k2);
            } else {
                assert(s2[j - 1].0 == k2);
            }
        }
        if has_key(s2, k2) {
            let j = index_of_key(s2, k2);
            let j2 = if j < i { j } else { j + 1 };
            assert(s[j2].0 == k2);
        }
    }
    assert forall|k2: i32|
        k2 != s[i].0 && has_key(s, k2) implies value_of(s2, k2) == value_of(s, k2) by {
        let j = index_of_key(s, k2);
        lemma_index_of_key(s, k2, j);
        assert(j != i);
        if j < i {
            lemma_index_of_key(s2, k2, j);
        } else {
            assert(s2[j - 1] == s[j]);
            lemma_index_of_key(s2, k2, j - 1);
        }
    }
}

/// Find the index of the pair with key `k`, if any.
pub fn assoc_find<T>(v: &Vec<(i32, T)>, k: i32) -> (r: Option<usize>)
    ensures
        match r {
            Some(i) => i < v@.len() && v@[i as int].0 == k && has_key(v@, k),
            None => !has_key(v@, k),
        },
{
    let mut i: usize = 0;
    while i < v.len()
        invariant
            i <= v@.len(),
            forall|j: int| 0 <= j < i ==> (#[trigger] v@[j]).0 != k,
        decreases v@.len() - i,
    {
        if v[i].0 == k {
            return Some(i);
        }
        i += 1;
    }
    None
}

/// A mutable reference to the element of `v` at index `i`.
pub fn vec_index_mut<T>(v: &mut Vec<T>, i: usize) -> (element: &mut T)
    requires
        i < old(v)@.len(),
    ensures
        *element == old(v)@[i as int],
        final(v)@ == old(v)@.update(i as int, *final(element)),
{
    &mut v[i]
}

/// Whether `v` contains `x`, for vectors of connection ids.
pub fn contains_usize(v: &Vec<usize>, x: usize) -> (r: bool)
    ensures
        r == v@.contains(x),
{
    let mut i: usize = 0;
    while i < v.len()
        invariant
            i <= v@.len(),
            forall|j: int| 0 <= j < i ==> v@[j] != x,
        decreases v@.len() - i,
    {
        if v[i] == x {
            return true;
        }
        i += 1;
    }
    false
}

/// The position of `x` in `v`, if present.
pub fn position_usize(v: &Vec<usize>, x: usize) -> (r: Option<usize>)
    ensures
        match r {
            Some(i) => i < v@.len() && v@[i as int] == x,
            None => !v@.contains(x),
        },
{
    let mut i: usize = 0;
    while i < v.len()
        invariant
            i <= v@.len(),
            forall|j: int| 0 <= j < i ==> v@[j] != x,
        decreases v@.len() - i,
    {
        if v[i] == x {
            return Some(i);
        }
        i += 1;
    }
    None
}

/// The position of `x` in `v`, for vectors of group ids.
pub fn position_i32(v: &Vec<i32>, x: i32) -> (r: Option<usize>)
    ensures
        match r {
            Some(i) => i < v@.len() && v@[i as int] == x,
            None => !v@.contains(x),
        },
{
    let mut i: usize = 0;
    while i < v.len()
        invariant
            i <= v@.len(),
            forall|j: int| 0 <= j < i ==> v@[j] != x,
        decreases v@.len() - i,
    {
        if v[i] == x {
            return Some(i);
        }
        i += 1;
    }
    None
}

} // verus!
