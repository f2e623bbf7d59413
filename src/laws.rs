use crate::{BwTree, KeyType};
use vstd::prelude::*;

verus! {

/// The bindings after inserting each pair of `ops`, in order, into `m`.
pub open spec fn insert_all<K, V>(m: Map<K, V>, ops: Seq<(K, V)>) -> Map<K, V>
    decreases ops.len(),
{
    if ops.len() == 0 {
        m
    } else {
        insert_all(m, ops.drop_last()).insert(ops.last().0, ops.last().1)
    }
}

/// No two pairs of `ops` share a key.
pub open spec fn distinct_keys<K, V>(ops: Seq<(K, V)>) -> bool {
    forall|i: int, j: int| 0 <= i < j < ops.len() ==> ops[i].0 != ops[j].0
}

/// Whether some pair of `ops` has key `k`.
pub open spec fn has_key<K, V>(ops: Seq<(K, V)>, k: K) -> bool {
    exists|i: int| 0 <= i < ops.len() && ops[i].0 == k
}

/// Inserting keys not among `ops` leaves the bindings of `ops` untouched:
/// each key of a sequence of distinct keys ends bound to its own value.
pub proof fn lemma_insert_all_binds<K, V>(m: Map<K, V>, ops: Seq<(K, V)>)
    requires
        distinct_keys(ops),
    ensures
        forall|i: int|
            0 <= i < ops.len() ==> insert_all(m, ops).contains_key(#[trigger] ops[i].0)
                && insert_all(m, ops)[ops[i].0] == ops[i].1,
    decreases ops.len(),
{
    if ops.len() > 0 {
        let init = ops.drop_last();
        assert(distinct_keys(init));
        lemma_insert_all_binds(m, init);
        assert(insert_all(m, ops) == insert_all(m, init).insert(ops.last().0, ops.last().1));
        assert forall|i: int| 0 <= i < ops.len() implies insert_all(m, ops).contains_key(
            #[trigger] ops[i].0,
        ) && insert_all(m, ops)[ops[i].0] == ops[i].1 by {
            if i < init.len() {
                assert(init[i] == ops[i]);
                assert(ops[i].0 != ops[ops.len() - 1].0);
            }
        }
    }
}

/// Round trip: after inserting pairs with distinct keys into any tree, a
/// lookup of each inserted key yields the value inserted with it.
pub proof fn lemma_round_trip<K: KeyType, V>(t: BwTree<K, V>, ops: Seq<(K, V)>)
    requires
        distinct_keys(ops),
    ensures
        forall|i: int|
            0 <= i < ops.len() ==> insert_all(t@, ops).contains_key(#[trigger] ops[i].0)
                && insert_all(t@, ops)[ops[i].0] == ops[i].1,
{
    lemma_insert_all_binds(t@, ops);
}

/// Overwrite precedence: inserting `v2` for `k` after `v1` was inserted for
/// `k`, whatever was inserted in between, leaves `k` bound to `v2`.
pub proof fn lemma_overwrite_precedence<K: KeyType, V>(
    t: BwTree<K, V>,
    k: K,
    v1: V,
    between: Seq<(K, V)>,
    v2: V,
)
    ensures
        insert_all(t@.insert(k, v1), between).insert(k, v2).contains_key(k),
        insert_all(t@.insert(k, v1), between).insert(k, v2)[k] == v2,
{
}

/// Non-interference: inserting `k1` changes neither whether `k2` is bound
/// nor what it is bound to, for any other key `k2`.
pub proof fn lemma_non_interference<K: KeyType, V>(t: BwTree<K, V>, k1: K, v1: V, k2: K)
    requires
        k1 != k2,
    ensures
        t@.insert(k1, v1).contains_key(k2) == t@.contains_key(k2),
        t@.contains_key(k2) ==> t@.insert(k1, v1)[k2] == t@[k2],
{
}

/// Absence: starting from the empty bindings of a new tree, a key that no
/// insert mentioned stays unbound.
pub proof fn lemma_absence<K, V>(ops: Seq<(K, V)>, k: K)
    requires
        !has_key(ops, k),
    ensures
        !insert_all(Map::<K, V>::empty(), ops).contains_key(k),
    decreases ops.len(),
{
    if ops.len() > 0 {
        let init = ops.drop_last();
        assert(!has_key(init, k)) by {
            if has_key(init, k) {
                let i = choose|i: int| 0 <= i < init.len() && init[i].0 == k;
                assert(ops[i] == init[i]);
            }
        }
        lemma_absence(init, k);
        assert(ops[ops.len() - 1].0 != k);
    }
}

} // verus!
