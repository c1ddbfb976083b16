//! Sums of the values that a map holds at a finite set of keys.

use vstd::prelude::*;
use vstd::set::fold::{is_fun_commutative, lemma_fold_empty, lemma_fold_insert};
use vstd::set_lib::lemma_len_subset;

verus! {

/// The step of the sum: the running total plus the value at one more key.
pub open spec fn add_value<K>(values: Map<K, nat>) -> spec_fn(nat, K) -> nat {
    |acc: nat, k: K| acc + values[k]
}

/// The sum of the values of `values` at the keys in `keys`.
pub open spec fn sum_over<K>(values: Map<K, nat>, keys: Set<K>) -> nat {
    keys.fold(0nat, add_value(values))
}

/// The order in which values are added does not matter.
pub proof fn lemma_add_value_commutative<K>(values: Map<K, nat>)
    ensures
        is_fun_commutative(add_value(values)),
{
    let f = add_value(values);
    assert forall|a1: K, a2: K, b: nat| #[trigger] f(f(b, a2), a1) == f(f(b, a1), a2) by {}
}

/// The sum over no keys is zero.
pub proof fn lemma_sum_empty<K>(values: Map<K, nat>)
    ensures
        sum_over(values, Set::<K>::empty()) == 0,
{
    lemma_fold_empty(0nat, add_value(values));
}

/// The sum splits into the value at one of the keys and the sum over the
/// others.
pub proof fn lemma_sum_remove<K>(values: Map<K, nat>, keys: Set<K>, k: K)
    requires
        keys.finite(),
        keys.contains(k),
    ensures
        sum_over(values, keys) == sum_over(values, keys.remove(k)) + values[k],
{
    lemma_add_value_commutative(values);
    lemma_fold_insert(keys.remove(k), 0nat, add_value(values), k);
    assert(keys.remove(k).insert(k) =~= keys);
}

/// Maps that agree on the keys have the same sum over them.
pub proof fn lemma_sum_agree<K>(v1: Map<K, nat>, v2: Map<K, nat>, keys: Set<K>)
    requires
        keys.finite(),
        forall|k: K| keys.contains(k) ==> v1[k] == v2[k],
    ensures
        sum_over(v1, keys) == sum_over(v2, keys),
    decreases keys.len(),
{
    if keys.is_empty() {
        assert(keys =~= Set::<K>::empty());
        lemma_sum_empty(v1);
        lemma_sum_empty(v2);
    } else {
        let k = keys.choose();
        lemma_sum_remove(v1, keys, k);
        lemma_sum_remove(v2, keys, k);
        lemma_sum_agree(v1, v2, keys.remove(k));
    }
}

/// Keys at which the value is zero add nothing to the sum.
pub proof fn lemma_sum_ignores_zeros<K>(values: Map<K, nat>, keys: Set<K>, part: Set<K>)
    requires
        keys.finite(),
        part.subset_of(keys),
        forall|k: K| keys.contains(k) && !part.contains(k) ==> values[k] == 0,
    ensures
        part.finite(),
        sum_over(values, part) == sum_over(values, keys),
    decreases keys.len(),
{
    lemma_len_subset(part, keys);
    if keys.is_empty() {
        assert(keys =~= Set::<K>::empty());
        assert(part =~= Set::<K>::empty());
    } else {
        let k = keys.choose();
        lemma_sum_remove(values, keys, k);
        if part.contains(k) {
            lemma_sum_remove(values, part, k);
            lemma_sum_ignores_zeros(values, keys.remove(k), part.remove(k));
        } else {
            lemma_sum_ignores_zeros(values, keys.remove(k), part);
        }
    }
}

/// No value at one of the keys exceeds the sum.
pub proof fn lemma_sum_bounds_one<K>(values: Map<K, nat>, keys: Set<K>, k: K)
    requires
        keys.finite(),
        keys.contains(k),
    ensures
        values[k] <= sum_over(values, keys),
{
    lemma_sum_remove(values, keys, k);
}

/// No two values at different keys together exceed the sum.
pub proof fn lemma_sum_bounds_two<K>(values: Map<K, nat>, keys: Set<K>, k1: K, k2: K)
    requires
        keys.finite(),
        keys.contains(k1),
        keys.contains(k2),
        k1 != k2,
    ensures
        values[k1] + values[k2] <= sum_over(values, keys),
{
    lemma_sum_remove(values, keys, k1);
    lemma_sum_remove(values, keys.remove(k1), k2);
}

} // verus!
