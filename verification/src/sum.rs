//! The sum of the amounts that a finite map holds.

use vstd::prelude::*;

verus! {

/// The sum of all amounts in a map with finitely many keys; 0 for any other
/// map.
pub open spec fn total<K>(amounts: Map<K, u64>) -> nat
    decreases amounts.dom().len(),
{
    if amounts.dom().finite() && amounts.dom().len() > 0 {
        let k = amounts.dom().choose();
        amounts[k] as nat + total(amounts.remove(k))
    } else {
        0
    }
}

/// The sum can be taken by setting any one key aside first.
pub proof fn lemma_total_remove<K>(amounts: Map<K, u64>, key: K)
    requires
        amounts.dom().finite(),
        amounts.contains_key(key),
    ensures
        total(amounts) == amounts[key] + total(amounts.remove(key)),
    decreases amounts.dom().len(),
{
    let k = amounts.dom().choose();
    if k != key {
        lemma_total_remove(amounts.remove(k), key);
        lemma_total_remove(amounts.remove(key), k);
        assert(amounts.remove(k).remove(key) =~= amounts.remove(key).remove(k));
    }
}

/// Entering an amount for a key changes the sum by the difference between
/// the new amount and the one that the key had.
pub proof fn lemma_total_insert<K>(amounts: Map<K, u64>, key: K, amount: u64)
    requires
        amounts.dom().finite(),
    ensures
        total(amounts.insert(key, amount)) + (if amounts.contains_key(key) {
            amounts[key] as nat
        } else {
            0
        }) == total(amounts) + amount,
{
    let entered = amounts.insert(key, amount);
    lemma_total_remove(entered, key);
    assert(entered.remove(key) =~= amounts.remove(key));
    if amounts.contains_key(key) {
        lemma_total_remove(amounts, key);
    } else {
        assert(amounts.remove(key) =~= amounts);
    }
}

/// No single amount exceeds the sum.
pub proof fn lemma_total_bounds_each<K>(amounts: Map<K, u64>, key: K)
    requires
        amounts.dom().finite(),
        amounts.contains_key(key),
    ensures
        amounts[key] <= total(amounts),
{
    lemma_total_remove(amounts, key);
}

} // verus!
