//! Sums over finite maps.
use vstd::prelude::*;

verus! {

/// The sum of the values of a finite map.
pub open spec fn sum_values<K>(m: Map<K, int>) -> int
    decreases m.dom().len(),
{
    if m.dom().finite() && m.dom().len() > 0 {
        let k = m.dom().choose();
        m[k] + sum_values(m.remove(k))
    } else {
        0
    }
}

/// Any one key can be taken out of the sum first.
pub proof fn lemma_sum_remove<K>(m: Map<K, int>, k: K)
    requires
        m.dom().finite(),
        m.contains_key(k),
    ensures
        sum_values(m) == m[k] + sum_values(m.remove(k)),
    decreases m.dom().len(),
{
    let c = m.dom().choose();
    if c != k {
        lemma_sum_remove(m.remove(c), k);
        lemma_sum_remove(m.remove(k), c);
        assert(m.remove(c).remove(k) =~= m.remove(k).remove(c));
    }
}

/// Binding a key adds its new value to the sum and takes away the value that
/// it had.
pub proof fn lemma_sum_insert<K>(m: Map<K, int>, k: K, v: int)
    requires
        m.dom().finite(),
    ensures
        sum_values(m.insert(k, v)) == sum_values(m) + v - (if m.contains_key(k) {
            m[k]
        } else {
            0
        }),
{
    let with = m.insert(k, v);
    lemma_sum_remove(with, k);
    assert(with.remove(k) =~= m.remove(k));
    if m.contains_key(k) {
        lemma_sum_remove(m, k);
    } else {
        assert(m.remove(k) =~= m);
    }
}

/// Where no value is negative, the sum is at least each value.
pub proof fn lemma_sum_at_least<K>(m: Map<K, int>, k: K)
    requires
        m.dom().finite(),
        m.contains_key(k),
        forall|x: K| m.contains_key(x) ==> m[x] >= 0,
    ensures
        sum_values(m) >= m[k],
{
    lemma_sum_remove(m, k);
    lemma_sum_non_negative(m.remove(k));
}

/// Where no value is negative, the sum is not negative.
pub proof fn lemma_sum_non_negative<K>(m: Map<K, int>)
    requires
        m.dom().finite(),
        forall|x: K| m.contains_key(x) ==> m[x] >= 0,
    ensures
        sum_values(m) >= 0,
    decreases m.dom().len(),
{
    if m.dom().len() > 0 {
        let c = m.dom().choose();
        lemma_sum_non_negative(m.remove(c));
    }
}

} // verus!
