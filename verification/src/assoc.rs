//! A mathematical model of keyed storage: association sequences of
//! key–value pairs with unique keys, looked up by first match.
//!
//! Every storage map of the ledger is carried as a `Vec` of entries and
//! specified against these functions.

use vstd::prelude::*;

verus! {

/// Position of the first entry of `s` whose key is `k`, or `-1` if no entry
/// has that key.
pub open spec fn kv_index<K, V>(s: Seq<(K, V)>, k: K) -> int
    decreases s.len(),
{
    if s.len() == 0 {
        -1
    } else if s[0].0 == k {
        0
    } else {
        let r = kv_index(s.drop_first(), k);
        if r < 0 {
            -1
        } else {
            r + 1
        }
    }
}

/// Whether `s` holds an entry keyed by `k`.
pub open spec fn kv_contains<K, V>(s: Seq<(K, V)>, k: K) -> bool {
    kv_index(s, k) >= 0
}

/// The value stored under `k`, if any.
pub open spec fn kv_find<K, V>(s: Seq<(K, V)>, k: K) -> Option<V> {
    if kv_contains(s, k) {
        Some(s[kv_index(s, k)].1)
    } else {
        None
    }
}

/// Whether the keys of `s` are pairwise distinct.
pub open spec fn kv_unique<K, V>(s: Seq<(K, V)>) -> bool {
    forall|i: int, j: int|
        0 <= i < j < s.len() ==> s[i].0 != s[j].0
}

/// `s` with `e` appended to the sequence stored under `k`: the entry is
/// extended in place when the key is present, and a fresh one-element entry
/// is added at the end otherwise.
pub open spec fn kv_append<K, E>(s: Seq<(K, Seq<E>)>, k: K, e: E) -> Seq<(K, Seq<E>)> {
    let i = kv_index(s, k);
    if i >= 0 {
        s.update(i, (k, s[i].1.push(e)))
    } else {
        s.push((k, seq![e]))
    }
}

/// What `kv_index` returns: a position in bounds bearing the key, before
/// which no entry bears it; or `-1`, and then no entry bears it.
pub proof fn lemma_kv_index<K, V>(s: Seq<(K, V)>, k: K)
    ensures
        kv_index(s, k) >= 0 ==> {
            &&& kv_index(s, k) < s.len()
            &&& s[kv_index(s, k)].0 == k
            &&& forall|j: int| 0 <= j < kv_index(s, k) ==> s[j].0 != k
        },
        kv_index(s, k) < 0 ==> forall|j: int| 0 <= j < s.len() ==> s[j].0 != k,
    decreases s.len(),
{
    if s.len() > 0 && s[0].0 != k {
        lemma_kv_index(s.drop_first(), k);
        assert forall|j: int| 0 <= j < s.len() implies s.drop_first()[j - 1] == s[j] || j == 0 by {}
    }
}

/// A position that bears the key and is preceded by no position that does is
/// exactly `kv_index`.
pub proof fn lemma_kv_index_at<K, V>(s: Seq<(K, V)>, k: K, i: int)
    requires
        0 <= i < s.len(),
        s[i].0 == k,
        forall|j: int| 0 <= j < i ==> s[j].0 != k,
    ensures
        kv_index(s, k) == i,
    decreases s.len(),
{
    if i > 0 {
        lemma_kv_index_at(s.drop_first(), k, i - 1);
    }
}

/// Appending an entry with a fresh key leaves every other lookup unchanged
/// and makes the new key found at the end.
pub proof fn lemma_kv_index_push<K, V>(s: Seq<(K, V)>, k: K, e: (K, V))
    ensures
        e.0 == k ==> kv_index(s.push(e), k) == if kv_index(s, k) >= 0 {
            kv_index(s, k)
        } else {
            s.len() as int
        },
        e.0 != k ==> kv_index(s.push(e), k) == kv_index(s, k),
    decreases s.len(),
{
    lemma_kv_index(s, k);
    assert forall|j: int| 0 <= j < s.len() implies s.push(e)[j] == s[j] by {}
    if kv_index(s, k) >= 0 {
        lemma_kv_index_at(s.push(e), k, kv_index(s, k));
    } else if e.0 == k {
        lemma_kv_index_at(s.push(e), k, s.len() as int);
    } else {
        lemma_kv_index(s.push(e), k);
        let n = kv_index(s.push(e), k);
        if n >= 0 {
            assert(s.push(e)[n].0 == k);
            assert(n == s.len() || s[n].0 == k);
            assert(false);
        }
    }
}

/// Replacing the entry at a position with one bearing the same key moves no
/// lookup: the index of every key is unchanged.
pub proof fn lemma_kv_index_update<K, V>(s: Seq<(K, V)>, k: K, i: int, e: (K, V))
    requires
        0 <= i < s.len(),
        s[i].0 == e.0,
    ensures
        kv_index(s.update(i, e), k) == kv_index(s, k),
    decreases s.len(),
{
    lemma_kv_index(s, k);
    lemma_kv_index(s.update(i, e), k);
    let n = kv_index(s, k);
    if n >= 0 {
        lemma_kv_index_at(s.update(i, e), k, n);
    }
}

/// `s` with the value under `k` set to `v`: the entry is replaced in place
/// when the key is present, and a fresh one is added at the end otherwise.
pub open spec fn kv_set<K, V>(s: Seq<(K, V)>, k: K, v: V) -> Seq<(K, V)> {
    let i = kv_index(s, k);
    if i >= 0 {
        s.update(i, (k, v))
    } else {
        s.push((k, v))
    }
}

/// `s` without the entry keyed by `k`; `s` itself when the key is absent.
pub open spec fn kv_remove<K, V>(s: Seq<(K, V)>, k: K) -> Seq<(K, V)> {
    let i = kv_index(s, k);
    if i >= 0 {
        s.remove(i)
    } else {
        s
    }
}

/// Appending an entry with a fresh key keeps the keys distinct.
pub proof fn lemma_kv_unique_push<K, V>(s: Seq<(K, V)>, e: (K, V))
    requires
        kv_unique(s),
        kv_index(s, e.0) < 0,
    ensures
        kv_unique(s.push(e)),
{
    lemma_kv_index(s, e.0);
    assert forall|i: int, j: int|
        0 <= i < j < s.push(e).len() implies s.push(e)[i].0 != s.push(e)[j].0 by {
        if j == s.len() {
            assert(s[i].0 != e.0);
        } else {
            assert(s[i].0 != s[j].0);
        }
    }
}

/// `kv_append` keeps the keys distinct.
pub proof fn lemma_kv_append_unique<K, E>(s: Seq<(K, Seq<E>)>, k: K, e: E)
    requires
        kv_unique(s),
    ensures
        kv_unique(kv_append(s, k, e)),
{
    let i = kv_index(s, k);
    lemma_kv_index(s, k);
    if i >= 0 {
        let s2 = s.update(i, (k, s[i].1.push(e)));
        assert forall|a: int, b: int| 0 <= a < b < s2.len() implies s2[a].0 != s2[b].0 by {
            assert(s2[a].0 == s[a].0 && s2[b].0 == s[b].0);
        }
    } else {
        lemma_kv_unique_push(s, (k, seq![e]));
    }
}

/// `kv_set` keeps the keys distinct.
pub proof fn lemma_kv_set_unique<K, V>(s: Seq<(K, V)>, k: K, v: V)
    requires
        kv_unique(s),
    ensures
        kv_unique(kv_set(s, k, v)),
{
    let i = kv_index(s, k);
    lemma_kv_index(s, k);
    if i >= 0 {
        let s2 = s.update(i, (k, v));
        assert forall|a: int, b: int| 0 <= a < b < s2.len() implies s2[a].0 != s2[b].0 by {
            assert(s2[a].0 == s[a].0 && s2[b].0 == s[b].0);
        }
    } else {
        lemma_kv_unique_push(s, (k, v));
    }
}

/// `kv_remove` keeps the keys distinct.
pub proof fn lemma_kv_remove_unique<K, V>(s: Seq<(K, V)>, k: K)
    requires
        kv_unique(s),
    ensures
        kv_unique(kv_remove(s, k)),
{
    let i = kv_index(s, k);
    lemma_kv_index(s, k);
    if i >= 0 {
        let s2 = s.remove(i);
        s.remove_ensures(i);
        assert forall|a: int, b: int| 0 <= a < b < s2.len() implies s2[a].0 != s2[b].0 by {
            let a0: int = if a < i {
                a
            } else {
                a + 1
            };
            let b0: int = if b < i {
                b
            } else {
                b + 1
            };
            assert(s2[a] == s[a0]);
            assert(s2[b] == s[b0]);
        }
    }
}

/// The byte strings of `s`, as mathematical sequences.
pub open spec fn bytes_view(s: Seq<Vec<u8>>) -> Seq<Seq<u8>> {
    s.map_values(|x: Vec<u8>| x@)
}

/// Whether two byte strings hold the same bytes.
pub fn bytes_eq(a: &Vec<u8>, b: &Vec<u8>) -> (r: bool)
    ensures
        r == (a@ == b@),
{
    if a.len() != b.len() {
        return false;
    }
    let mut i: usize = 0;
    while i < a.len()
        invariant
            i <= a.len(),
            a.len() == b.len(),
            forall|j: int| 0 <= j < i ==> a@[j] == b@[j],
        decreases a.len() - i,
    {
        if a[i] != b[i] {
            return false;
        }
        i += 1;
    }
    proof {
        assert(a@ =~= b@);
    }
    true
}

/// A fresh byte string holding the same bytes as `v`.
pub fn clone_bytes(v: &Vec<u8>) -> (r: Vec<u8>)
    ensures
        r@ == v@,
{
    let mut r: Vec<u8> = Vec::new();
    let mut i: usize = 0;
    while i < v.len()
        invariant
            i <= v.len(),
            r@ =~= v@.subrange(0, i as int),
        decreases v.len() - i,
    {
        r.push(v[i]);
        i += 1;
    }
    proof {
        assert(r@ =~= v@);
    }
    r
}

/// A fresh list of byte strings holding the same strings as `v`.
pub fn clone_byte_list(v: &Vec<Vec<u8>>) -> (r: Vec<Vec<u8>>)
    ensures
        bytes_view(r@) == bytes_view(v@),
{
    let mut r: Vec<Vec<u8>> = Vec::new();
    let mut i: usize = 0;
    while i < v.len()
        invariant
            i <= v.len(),
            r@.len() == i,
            forall|j: int| 0 <= j < i ==> (#[trigger] r@[j])@ == v@[j]@,
        decreases v.len() - i,
    {
        r.push(clone_bytes(&v[i]));
        i += 1;
    }
    proof {
        assert(bytes_view(r@) =~= bytes_view(v@));
    }
    r
}

/// A fresh list holding the same indices as `v`.
pub fn clone_indices(v: &Vec<u64>) -> (r: Vec<u64>)
    ensures
        r@ == v@,
{
    let mut r: Vec<u64> = Vec::new();
    let mut i: usize = 0;
    while i < v.len()
        invariant
            i <= v.len(),
            r@ =~= v@.subrange(0, i as int),
        decreases v.len() - i,
    {
        r.push(v[i]);
        i += 1;
    }
    proof {
        assert(r@ =~= v@);
    }
    r
}

} // verus!
