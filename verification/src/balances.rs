//! The sum of a finite balance map, and how it moves when one entry changes.

use vstd::prelude::*;

verus! {

/// The sum of all values of a finite map. One key is taken out at a time; the
/// lemmas below show that the result does not depend on which.
pub open spec fn sum_of_balances<K>(balances: Map<K, nat>) -> nat
    decreases balances.dom().len(),
    when balances.dom().finite()
{
    if balances.dom().len() == 0 {
        0
    } else {
        let k = balances.dom().choose();
        balances[k] + sum_of_balances(balances.remove(k))
    }
}

/// Any key of the map can be split off from the sum.
pub proof fn lemma_sum_split<K>(balances: Map<K, nat>, key: K)
    requires
        balances.dom().finite(),
        balances.dom().contains(key),
    ensures
        sum_of_balances(balances) == balances[key] + sum_of_balances(balances.remove(key)),
    decreases balances.dom().len(),
{
    let chosen = balances.dom().choose();
    if chosen != key {
        lemma_sum_split(balances.remove(chosen), key);
        lemma_sum_split(balances.remove(key), chosen);
        assert(balances.remove(chosen).remove(key) =~= balances.remove(key).remove(chosen));
    }
}

/// Writing `value` under `key` replaces that key's share of the sum.
pub proof fn lemma_sum_insert<K>(balances: Map<K, nat>, key: K, value: nat)
    requires
        balances.dom().finite(),
    ensures
        sum_of_balances(balances.insert(key, value)) == sum_of_balances(balances.remove(key))
            + value,
{
    lemma_sum_split(balances.insert(key, value), key);
    assert(balances.insert(key, value).remove(key) =~= balances.remove(key));
}

/// Removing a key that is not there changes nothing.
pub proof fn lemma_remove_absent<K>(balances: Map<K, nat>, key: K)
    requires
        !balances.dom().contains(key),
    ensures
        balances.remove(key) == balances,
{
    assert(balances.remove(key) =~= balances);
}

/// No single balance exceeds the sum of all of them.
pub proof fn lemma_balance_within_sum<K>(balances: Map<K, nat>, key: K)
    requires
        balances.dom().finite(),
        balances.dom().contains(key),
    ensures
        balances[key] <= sum_of_balances(balances),
{
    lemma_sum_split(balances, key);
}

/// Two distinct balances together do not exceed the sum of all of them.
pub proof fn lemma_two_balances_within_sum<K>(balances: Map<K, nat>, first: K, second: K)
    requires
        balances.dom().finite(),
        balances.dom().contains(first),
        balances.dom().contains(second),
        first != second,
    ensures
        balances[first] + balances[second] <= sum_of_balances(balances),
{
    lemma_sum_split(balances, first);
    lemma_sum_split(balances.remove(first), second);
}

} // verus!
