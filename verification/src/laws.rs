//! The container laws, proved once over the shared entry-sequence model.
//!
//! Both layouts promise, through the same transformer functions of
//! [`crate::model`], exactly how every call changes the entry sequence.
//! The lemmas here state what follows for any caller of either layout.
//!
//! Two hypotheses recur.  `k.eq_spec(&k)` says the key equals itself —
//! `PartialEq` does not promise that (a floating-point NaN is the standard
//! counterexample), and a key that does not equal itself genuinely cannot
//! be found again after insertion.
//! `obeys_eq_spec_properties::<K>()` says `==` on `K` is symmetric and
//! transitive, which the `PartialEq` contract does demand of a lawful
//! implementation.

use vstd::laws_eq::obeys_eq_spec_properties;
use vstd::prelude::*;
use vstd::seq_lib::group_to_multiset_ensures;
use vstd::std_specs::cmp::PartialEqSpec;

use crate::model::{
    find_key, keys_of, lemma_find_key_at, lemma_find_key_characterization, lemma_find_key_none,
    mask_entries, spec_get, spec_insert, spec_remove, spec_swap_remove, unique_keys,
};
use crate::multivec::NoHashMapMultiVec;
use crate::vectuple::NoHashMapVecTuple;

verus! {

/// Uniqueness: inserting never creates a second entry with an equal key, so
/// any sequence of `insert` calls starting from an empty container keeps at
/// most one entry per key.
pub proof fn lemma_insert_preserves_uniqueness<K: PartialEq, V>(s: Seq<(K, V)>, k: K, v: V)
    requires
        unique_keys(keys_of(s)),
    ensures
        unique_keys(keys_of(spec_insert(s, k, v))),
{
    lemma_find_key_characterization(keys_of(s), k);
    match find_key(keys_of(s), k) {
        None => {
            assert(keys_of(spec_insert(s, k, v)) =~= keys_of(s).push(k));
        }
        Some(i) => {
            assert(keys_of(spec_insert(s, k, v)) =~= keys_of(s));
        }
    }
}

/// Insert/get round-trip: after `insert(k, v)`, `get(k)` yields `v` — for
/// any key that equals itself.
pub proof fn lemma_insert_get_round_trip<K: PartialEq, V>(s: Seq<(K, V)>, k: K, v: V)
    requires
        k.eq_spec(&k),
    ensures
        spec_get(spec_insert(s, k, v), k) == Some(v),
{
    lemma_find_key_characterization(keys_of(s), k);
    let t = spec_insert(s, k, v);
    match find_key(keys_of(s), k) {
        None => {
            assert(keys_of(t) =~= keys_of(s).push(k));
            lemma_find_key_at(keys_of(t), k, s.len() as int);
        }
        Some(i) => {
            assert(keys_of(t) =~= keys_of(s));
            assert(t[i].1 == v);
        }
    }
}

/// Update semantics: inserting `k` twice overwrites — the second value is
/// what `get(k)` yields, and the second call does not change the length.
pub proof fn lemma_insert_update<K: PartialEq, V>(s: Seq<(K, V)>, k: K, v1: V, v2: V)
    requires
        k.eq_spec(&k),
    ensures
        spec_get(spec_insert(spec_insert(s, k, v1), k, v2), k) == Some(v2),
        spec_insert(spec_insert(s, k, v1), k, v2).len() == spec_insert(s, k, v1).len(),
{
    let s1 = spec_insert(s, k, v1);
    lemma_insert_get_round_trip(s, k, v1);
    lemma_insert_get_round_trip(s1, k, v2);
    assert(find_key(keys_of(s1), k) is Some);
    lemma_find_key_characterization(keys_of(s1), k);
    let i = find_key(keys_of(s1), k).unwrap();
    assert(spec_insert(s1, k, v2) == s1.update(i, (s1[i].0, v2)));
}

/// Remove correctness: removing a present key deletes exactly its entry —
/// the length drops by one, the key can no longer be found, and the
/// remaining entries keep their relative order.
pub proof fn lemma_remove_correct<K: PartialEq, V>(s: Seq<(K, V)>, k: K)
    requires
        unique_keys(keys_of(s)),
        obeys_eq_spec_properties::<K>(),
        find_key(keys_of(s), k) is Some,
    ensures
        spec_remove(s, k) == s.remove(find_key(keys_of(s), k).unwrap()),
        spec_remove(s, k).len() == s.len() - 1,
        spec_get(spec_remove(s, k), k) is None,
{
    reveal(vstd::laws_eq::obeys_eq_spec_properties);
    let i = find_key(keys_of(s), k).unwrap();
    lemma_find_key_characterization(keys_of(s), k);
    let t = spec_remove(s, k);
    assert(keys_of(t) =~= keys_of(s).remove(i));
    assert forall|j: int| 0 <= j < keys_of(t).len() implies !(#[trigger] keys_of(t)[j].eq_spec(
        &k,
    )) by {
        let j0 = if j < i {
            j
        } else {
            j + 1
        };
        assert(keys_of(t)[j] == keys_of(s)[j0]);
        if j0 > i && keys_of(s)[j0].eq_spec(&k) {
            // Two distinct entries would both equal `k`, so by symmetry and
            // transitivity they would equal each other, breaking uniqueness.
            assert(k.eq_spec(&keys_of(s)[j0]));
            assert(keys_of(s)[i].eq_spec(&keys_of(s)[j0]));
            assert(false);
        }
    }
    lemma_find_key_none(keys_of(t), k);
}

/// Swap-remove correctness: removing a present key this way deletes exactly
/// its entry — the length drops by one, the key can no longer be found, and
/// the resulting entries are the old ones minus the removed entry, as a
/// multiset (the order is not preserved).
pub proof fn lemma_swap_remove_correct<K: PartialEq, V>(s: Seq<(K, V)>, k: K)
    requires
        unique_keys(keys_of(s)),
        obeys_eq_spec_properties::<K>(),
        find_key(keys_of(s), k) is Some,
    ensures
        spec_swap_remove(s, k).len() == s.len() - 1,
        spec_get(spec_swap_remove(s, k), k) is None,
        spec_swap_remove(s, k).to_multiset() == s.to_multiset().remove(
            s[find_key(keys_of(s), k).unwrap()],
        ),
{
    broadcast use group_to_multiset_ensures;

    reveal(vstd::laws_eq::obeys_eq_spec_properties);
    let i = find_key(keys_of(s), k).unwrap();
    lemma_find_key_characterization(keys_of(s), k);
    let n = s.len() as int;
    let t = spec_swap_remove(s, k);
    assert(keys_of(t) =~= keys_of(s).update(i, keys_of(s).last()).drop_last());
    assert forall|j: int| 0 <= j < keys_of(t).len() implies !(#[trigger] keys_of(t)[j].eq_spec(
        &k,
    )) by {
        let j0 = if j == i {
            n - 1
        } else {
            j
        };
        assert(keys_of(t)[j] == keys_of(s)[j0]);
        if j0 > i && keys_of(s)[j0].eq_spec(&k) {
            // As in `lemma_remove_correct`: a second match would break
            // uniqueness through symmetry and transitivity.
            assert(k.eq_spec(&keys_of(s)[j0]));
            assert(keys_of(s)[i].eq_spec(&keys_of(s)[j0]));
            assert(false);
        }
    }
    lemma_find_key_none(keys_of(t), k);
    if i == n - 1 {
        assert(t =~= s.remove(i));
        assert(s.remove(i).to_multiset() == s.to_multiset().remove(s[i]));
    } else {
        let u = s.update(i, s.last());
        assert(t =~= u.remove(n - 1));
        assert(u.remove(n - 1).to_multiset() == u.to_multiset().remove(u[n - 1]));
        assert(u[n - 1] == s[n - 1]);
        assert(u =~= s.remove(i).insert(i, s.last()));
        assert(s.remove(i).insert(i, s.last()).to_multiset() == s.remove(i).to_multiset().insert(
            s.last(),
        ));
        assert(s.remove(i).to_multiset() == s.to_multiset().remove(s[i]));
        assert(s.to_multiset().remove(s[i]).insert(s.last()).remove(s[n - 1]) =~= s.to_multiset()
            .remove(s[i]));
    }
}

/// One edit applied to an entry sequence, as the containers describe their
/// edits: a `Retain` carries the mask of per-entry verdicts its predicate
/// produced.
pub enum MapOp<K, V> {
    Insert(K, V),
    Remove(K),
    SwapRemove(K),
    Retain(Seq<bool>),
}

/// How one edit transforms the entries — the very transformer that the
/// corresponding method of either layout promises in its `ensures`.
pub open spec fn apply_op<K: PartialEq, V>(s: Seq<(K, V)>, op: MapOp<K, V>) -> Seq<(K, V)> {
    match op {
        MapOp::Insert(k, v) => spec_insert(s, k, v),
        MapOp::Remove(k) => spec_remove(s, k),
        MapOp::SwapRemove(k) => spec_swap_remove(s, k),
        MapOp::Retain(keep) => mask_entries(s, keep),
    }
}

/// A whole history of edits, applied in order.
pub open spec fn apply_ops<K: PartialEq, V>(s: Seq<(K, V)>, ops: Seq<MapOp<K, V>>) -> Seq<(K, V)>
    decreases ops.len(),
{
    if ops.len() == 0 {
        s
    } else {
        apply_ops(apply_op(s, ops[0]), ops.drop_first())
    }
}

/// Layout equivalence: each method of both layouts promises its effect as
/// `apply_op` of the same edit, so a structure-of-arrays container and an
/// array-of-structures container that hold equal entry sequences and take
/// the same edits end with equal entry sequences — and so with equal entry
/// multisets.  (The two empty containers start equal, so this covers any
/// identical history from scratch.)
pub proof fn lemma_layout_equivalence<K: PartialEq, V>(
    mv: NoHashMapMultiVec<K, V>,
    vt: NoHashMapVecTuple<K, V>,
    ops: Seq<MapOp<K, V>>,
)
    requires
        mv@ == vt@,
    ensures
        apply_ops(mv@, ops) == apply_ops(vt@, ops),
        apply_ops(mv@, ops).to_multiset() == apply_ops(vt@, ops).to_multiset(),
{
}

} // verus!
