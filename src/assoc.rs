//! Association lists: ordered maps with "put" semantics (an existing key
//! keeps its position and takes the new value; a new key goes to the end).
use vstd::prelude::*;

verus! {

/// Index of the first entry whose key is `k`, or -1 when there is none.
pub open spec fn key_pos<K, V>(m: Seq<(K, V)>, k: K) -> int
    decreases m.len(),
{
    if m.len() == 0 {
        -1
    } else {
        let p = key_pos(m.subrange(0, m.len() - 1), k);
        if p >= 0 {
            p
        } else if m[m.len() - 1].0 == k {
            m.len() - 1
        } else {
            -1
        }
    }
}

/// The list after storing `v` under `k`.
pub open spec fn put<K, V>(m: Seq<(K, V)>, k: K, v: V) -> Seq<(K, V)> {
    let p = key_pos(m, k);
    if p < 0 {
        m.push((k, v))
    } else {
        m.update(p, (k, v))
    }
}

/// No key occurs twice.
pub open spec fn keys_unique<K, V>(m: Seq<(K, V)>) -> bool {
    forall|i: int, j: int| 0 <= i < j < m.len() ==> m[i].0 != m[j].0
}

pub proof fn lemma_key_pos<K, V>(m: Seq<(K, V)>, k: K)
    ensures
        -1 <= key_pos(m, k) < m.len(),
        key_pos(m, k) == -1 <==> (forall|i: int| 0 <= i < m.len() ==> m[i].0 != k),
        key_pos(m, k) >= 0 ==> m[key_pos(m, k)].0 == k,
        forall|i: int| 0 <= i < key_pos(m, k) ==> m[i].0 != k,
    decreases m.len(),
{
    if m.len() > 0 {
        let pre = m.subrange(0, m.len() - 1);
        lemma_key_pos(pre, k);
        assert forall|i: int| 0 <= i < pre.len() implies pre[i] == m[i] by {}
    }
}

/// The first entry with key `k` sits at `i`.
pub proof fn lemma_key_pos_first<K, V>(m: Seq<(K, V)>, k: K, i: int)
    requires
        0 <= i < m.len(),
        m[i].0 == k,
        forall|j: int| 0 <= j < i ==> m[j].0 != k,
    ensures
        key_pos(m, k) == i,
{
    lemma_key_pos(m, k);
}

/// Storing a key that is not there yet appends it.
pub proof fn lemma_put_fresh<K, V>(m: Seq<(K, V)>, k: K, v: V)
    requires
        forall|i: int| 0 <= i < m.len() ==> m[i].0 != k,
    ensures
        put(m, k, v) == m.push((k, v)),
{
    lemma_key_pos(m, k);
}

} // verus!
