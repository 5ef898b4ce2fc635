//! The first position of a key in a sequence of keys: how the kernel finds a row by its key.

use vstd::prelude::*;

verus! {

/// The first position of `key` among the first `n` keys.
pub open spec fn index_in<K>(keys: Seq<K>, key: K, n: nat) -> Option<int>
    decreases n,
{
    if n == 0 || n > keys.len() {
        None
    } else {
        match index_in(keys, key, (n - 1) as nat) {
            Some(i) => Some(i),
            None => if keys[n - 1] == key {
                Some(n - 1)
            } else {
                None
            },
        }
    }
}

/// The first position of `key` in `keys`.
pub open spec fn index_of<K>(keys: Seq<K>, key: K) -> Option<int> {
    index_in(keys, key, keys.len())
}

/// What the search among the first `n` keys finds: the first match, or that there is none.
pub proof fn lemma_index_in<K>(keys: Seq<K>, key: K, n: nat)
    requires
        n <= keys.len(),
    ensures
        match index_in(keys, key, n) {
            Some(i) => 0 <= i < n && keys[i] == key && forall|j: int| 0 <= j < i ==> keys[j] != key,
            None => forall|j: int| 0 <= j < n ==> keys[j] != key,
        },
    decreases n,
{
    if n > 0 {
        lemma_index_in(keys, key, (n - 1) as nat);
    }
}

/// What the search finds: the first match, or that there is none.
pub proof fn lemma_index_of<K>(keys: Seq<K>, key: K)
    ensures
        match index_of(keys, key) {
            Some(i) => 0 <= i < keys.len() && keys[i] == key && forall|j: int|
                0 <= j < i ==> keys[j] != key,
            None => forall|j: int| 0 <= j < keys.len() ==> keys[j] != key,
        },
{
    lemma_index_in(keys, key, keys.len());
}

/// The first match is what the search finds.
pub proof fn lemma_index_of_found<K>(keys: Seq<K>, key: K, i: int)
    requires
        0 <= i < keys.len(),
        keys[i] == key,
        forall|j: int| 0 <= j < i ==> keys[j] != key,
    ensures
        index_of(keys, key) == Some(i),
{
    lemma_index_of(keys, key);
    match index_of(keys, key) {
        Some(m) => {
            if m < i {
                assert(keys[m] != key);
            }
            if i < m {
                assert(keys[i] != key);
            }
        },
        None => {
            assert(keys[i] != key);
        },
    }
}

/// Where nothing matches, the search finds nothing.
pub proof fn lemma_index_of_absent<K>(keys: Seq<K>, key: K)
    requires
        forall|j: int| 0 <= j < keys.len() ==> keys[j] != key,
    ensures
        index_of(keys, key) is None,
{
    lemma_index_of(keys, key);
}

/// A key that first occurs in the element added last is found there.
pub proof fn lemma_index_of_push<K>(keys: Seq<K>, key: K, x: K)
    requires
        index_of(keys, key) is None,
        x == key,
    ensures
        index_of(keys.push(x), key) == Some(keys.len() as int),
{
    lemma_index_of(keys, key);
    let next = keys.push(x);
    assert forall|j: int| 0 <= j < keys.len() implies next[j] != key by {
        assert(next[j] == keys[j]);
    }
    lemma_index_of_found(next, key, keys.len() as int);
}

} // verus!
