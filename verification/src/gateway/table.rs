//! Tables by text key, as `dashmap::DashMap` holds them.

use vstd::prelude::*;

verus! {

/// `dashmap::DashMap`, a hash map with interior locking.
#[verifier::external_type_specification]
#[verifier::external_body]
#[verifier::reject_recursive_types(K)]
#[verifier::reject_recursive_types(V)]
#[verifier::reject_recursive_types(S)]
pub struct ExDashMap<K, V, S>(dashmap::DashMap<K, V, S>);

/// `pairs` holds every key of `m` with its value, each once.
pub open spec fn lists<V>(pairs: Seq<(Seq<char>, V)>, m: Map<Seq<char>, V>) -> bool {
    &&& forall|i: int|
        0 <= i < pairs.len() ==> m.contains_key((#[trigger] pairs[i]).0) && m[pairs[i].0]
            == pairs[i].1
    &&& forall|k: Seq<char>| #[trigger]
        m.contains_key(k) ==> exists|i: int| 0 <= i < pairs.len() && (#[trigger] pairs[i]).0 == k
    &&& forall|i: int, j: int|
        0 <= i < j < pairs.len() ==> (#[trigger] pairs[i]).0 != (#[trigger] pairs[j]).0
}

// --------------------------------------------------------------------- laws

/// A list of a table's pairs leaves no key out, adds none, and has each with its value and once.
pub proof fn law_lists<V>(pairs: Seq<(Seq<char>, V)>, m: Map<Seq<char>, V>, k: Seq<char>) -> (i:
    int)
    requires
        lists(pairs, m),
    ensures
        m.contains_key(k) <==> 0 <= i < pairs.len() && pairs[i] == (k, m[k]),
        forall|j: int| 0 <= j < pairs.len() && (#[trigger] pairs[j]).0 == k ==> j == i,
{
    if m.contains_key(k) {
        let i = choose|i: int| 0 <= i < pairs.len() && (#[trigger] pairs[i]).0 == k;
        assert(pairs[i] == (k, m[k]));
        i
    } else {
        assert forall|j: int| 0 <= j < pairs.len() && (#[trigger] pairs[j]).0 == k implies j
            == -1 by {
            assert(m.contains_key(pairs[j].0));
        }
        -1
    }
}

} // verus!
