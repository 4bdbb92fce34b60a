//! The entry-sequence model shared by both container layouts.
//!
//! A container is modelled as a `Seq<(K, V)>` of entries in storage order.
//! Key comparison in the model is `eq_spec`, the specification of the key
//! type's `PartialEq` implementation: the executable scans compare with `==`,
//! and when `K::obeys_eq_spec()` holds, `==` agrees with `eq_spec`.
//!
//! Every mutating operation of both layouts is described by one of the
//! transformer functions below (`spec_insert`, `spec_remove`,
//! `spec_swap_remove`, `mask_entries`), so the two layouts provably evolve
//! their entry sequences in exactly the same way.

use vstd::prelude::*;
use vstd::std_specs::cmp::PartialEqSpec;

verus! {

/// The keys of an entry sequence, in storage order.
pub open spec fn keys_of<K, V>(s: Seq<(K, V)>) -> Seq<K> {
    s.map_values(|e: (K, V)| e.0)
}

/// The values of an entry sequence, in storage order.
pub open spec fn vals_of<K, V>(s: Seq<(K, V)>) -> Seq<V> {
    s.map_values(|e: (K, V)| e.1)
}

/// The index of the first key of `keys` that equals `k`, if any.
///
/// "Equals" is `eq_spec`, oriented as the scans call it: the stored key on
/// the left, the probe on the right.
pub open spec fn find_key<K: PartialEq>(keys: Seq<K>, k: K) -> Option<int>
    decreases keys.len(),
{
    if keys.len() == 0 {
        None
    } else if keys[0].eq_spec(&k) {
        Some(0int)
    } else {
        match find_key(keys.drop_first(), k) {
            None => None,
            Some(i) => Some(i + 1),
        }
    }
}

/// No two entries of `keys` carry equal keys.
///
/// Oriented like the scans: the earlier key stands on the left.
pub open spec fn unique_keys<K: PartialEq>(keys: Seq<K>) -> bool {
    forall|i: int, j: int|
        0 <= i < j < keys.len() ==> !(#[trigger] keys[i].eq_spec(#[trigger] &keys[j]))
}

/// What `insert(k, v)` does to the entries: overwrite the value of the first
/// entry whose key equals `k`, keeping that entry's key and position, or
/// append a new entry at the end.
pub open spec fn spec_insert<K: PartialEq, V>(s: Seq<(K, V)>, k: K, v: V) -> Seq<(K, V)> {
    match find_key(keys_of(s), k) {
        None => s.push((k, v)),
        Some(i) => s.update(i, (s[i].0, v)),
    }
}

/// What `remove(k)` does to the entries: delete the first entry whose key
/// equals `k`, shifting the later entries left.
pub open spec fn spec_remove<K: PartialEq, V>(s: Seq<(K, V)>, k: K) -> Seq<(K, V)> {
    match find_key(keys_of(s), k) {
        None => s,
        Some(i) => s.remove(i),
    }
}

/// What `swap_remove(k)` does to the entries: move the last entry into the
/// slot of the first entry whose key equals `k`, then drop the last slot.
pub open spec fn spec_swap_remove<K: PartialEq, V>(s: Seq<(K, V)>, k: K) -> Seq<(K, V)> {
    match find_key(keys_of(s), k) {
        None => s,
        Some(i) => s.update(i, s.last()).drop_last(),
    }
}

/// What `get(k)` yields: the value of the first entry whose key equals `k`.
pub open spec fn spec_get<K: PartialEq, V>(s: Seq<(K, V)>, k: K) -> Option<V> {
    match find_key(keys_of(s), k) {
        None => None,
        Some(i) => Some(s[i].1),
    }
}

/// The entries selected by a boolean mask, in order: entry `i` stays exactly
/// when `keep[i]` is true.  This is what `retain` does, with `keep[i]` the
/// verdict of the caller's predicate on entry `i`.
pub open spec fn mask_entries<K, V>(s: Seq<(K, V)>, keep: Seq<bool>) -> Seq<(K, V)>
    recommends
        s.len() == keep.len(),
    decreases s.len(),
{
    if s.len() == 0 || keep.len() == 0 {
        Seq::empty()
    } else if keep.last() {
        mask_entries(s.drop_last(), keep.drop_last()).push(s.last())
    } else {
        mask_entries(s.drop_last(), keep.drop_last())
    }
}

/// The entry sequence assembled from a key sequence and a value sequence,
/// index by index.
pub open spec fn pair_up<K, V>(keys: Seq<K>, vals: Seq<V>) -> Seq<(K, V)> {
    Seq::new(keys.len(), |i: int| (keys[i], vals[i]))
}

/// Masking keeps at most as many entries, keeps only entries of `s`, and
/// keeps pairwise-distinct keys pairwise distinct.
pub proof fn lemma_mask_entries_props<K: PartialEq, V>(s: Seq<(K, V)>, keep: Seq<bool>)
    requires
        s.len() == keep.len(),
    ensures
        mask_entries(s, keep).len() <= s.len(),
        forall|i: int|
            0 <= i < mask_entries(s, keep).len() ==> s.contains(
                #[trigger] mask_entries(s, keep)[i],
            ),
        unique_keys(keys_of(s)) ==> unique_keys(keys_of(mask_entries(s, keep))),
    decreases s.len(),
{
    let m = mask_entries(s, keep);
    if s.len() == 0 || keep.len() == 0 {
    } else {
        let s1 = s.drop_last();
        let k1 = keep.drop_last();
        lemma_mask_entries_props(s1, k1);
        let m1 = mask_entries(s1, k1);
        assert forall|i: int| 0 <= i < m.len() implies s.contains(#[trigger] m[i]) by {
            if i < m1.len() {
                assert(s1.contains(m1[i]));
                let j = choose|j: int| 0 <= j < s1.len() && s1[j] == m1[i];
                assert(s[j] == m[i]);
            } else {
                assert(s[s.len() - 1] == m[i]);
            }
        }
        if unique_keys(keys_of(s)) {
            assert forall|a: int, b: int| 0 <= a < b < m.len() implies !(
            #[trigger] keys_of(m)[a].eq_spec(#[trigger] &keys_of(m)[b])) by {
                assert(keys_of(m)[a] == m[a].0);
                assert(keys_of(m)[b] == m[b].0);
                if b < m1.len() {
                    assert(m[a] == m1[a] && m[b] == m1[b]);
                    assert(unique_keys(keys_of(s1))) by {
                        assert forall|x: int, y: int| 0 <= x < y < keys_of(s1).len() implies !(
                        #[trigger] keys_of(s1)[x].eq_spec(#[trigger] &keys_of(s1)[y])) by {
                            assert(keys_of(s1)[x] == s1[x].0 && s1[x] == s[x]);
                            assert(keys_of(s1)[y] == s1[y].0 && s1[y] == s[y]);
                            assert(!keys_of(s)[x].eq_spec(&keys_of(s)[y]));
                            assert(keys_of(s)[x] == s[x].0 && keys_of(s)[y] == s[y].0);
                        }
                    }
                    assert(!keys_of(m1)[a].eq_spec(&keys_of(m1)[b]));
                    assert(keys_of(m1)[a] == m1[a].0 && keys_of(m1)[b] == m1[b].0);
                } else {
                    // `b` names the appended last entry of `s`; `a` names an
                    // entry that already stood in the shorter prefix, so its
                    // key differs from the last key.
                    assert(keep.last() && m[b] == s[s.len() - 1]);
                    assert(s1.contains(m1[a]));
                    let j = choose|j: int| 0 <= j < s1.len() && s1[j] == m1[a];
                    assert(m[a] == s[j]);
                    assert(!keys_of(s)[j].eq_spec(&keys_of(s)[s.len() - 1]));
                    assert(keys_of(s)[j] == s[j].0);
                    assert(keys_of(s)[s.len() - 1] == s[s.len() - 1].0);
                }
            }
        }
    }
}

/// One rendered entry of the mapping literal: the key's text, `: `, the
/// value's text.
pub open spec fn entry_text(k: Seq<char>, v: Seq<char>) -> Seq<char> {
    k + seq![':', ' '] + v
}

/// Rendered entries joined with `, `.
pub open spec fn joined(parts: Seq<Seq<char>>) -> Seq<char>
    decreases parts.len(),
{
    if parts.len() == 0 {
        Seq::empty()
    } else if parts.len() == 1 {
        parts[0]
    } else {
        joined(parts.drop_last()) + seq![',', ' '] + parts.last()
    }
}

/// The mapping literal `{k1: v1, k2: v2, ...}` assembled from one rendered
/// text per key and per value, in order.  The texts themselves come from
/// `Debug` and stay unspecified; this function pins everything else.
pub open spec fn mapping_literal(kts: Seq<Seq<char>>, vts: Seq<Seq<char>>) -> Seq<char>
    recommends
        kts.len() == vts.len(),
{
    seq!['{'] + joined(Seq::new(kts.len(), |i: int| entry_text(kts[i], vts[i]))) + seq!['}']
}

/// `find_key` finds the first match: a `Some(i)` points at a matching key
/// with no match before it, and a `None` means no key matches at all.
pub proof fn lemma_find_key_characterization<K: PartialEq>(keys: Seq<K>, k: K)
    ensures
        match find_key(keys, k) {
            None => forall|i: int| 0 <= i < keys.len() ==> !(#[trigger] keys[i].eq_spec(&k)),
            Some(i) => {
                &&& 0 <= i < keys.len()
                &&& keys[i].eq_spec(&k)
                &&& forall|j: int| 0 <= j < i ==> !(#[trigger] keys[j].eq_spec(&k))
            },
        },
    decreases keys.len(),
{
    if keys.len() > 0 && !keys[0].eq_spec(&k) {
        let rest = keys.drop_first();
        lemma_find_key_characterization(rest, k);
        match find_key(rest, k) {
            None => {
                assert forall|i: int| 0 <= i < keys.len() implies !(#[trigger] keys[i].eq_spec(
                    &k,
                )) by {
                    if i > 0 {
                        assert(keys[i] == rest[i - 1]);
                    }
                }
            }
            Some(i) => {
                assert(keys[i + 1] == rest[i]);
                assert forall|j: int| 0 <= j < i + 1 implies !(#[trigger] keys[j].eq_spec(
                    &k,
                )) by {
                    if j > 0 {
                        assert(keys[j] == rest[j - 1]);
                    }
                }
            }
        }
    }
}

/// The converse: a position that matches, with no match before it, is what
/// `find_key` returns.
pub proof fn lemma_find_key_at<K: PartialEq>(keys: Seq<K>, k: K, i: int)
    requires
        0 <= i < keys.len(),
        keys[i].eq_spec(&k),
        forall|j: int| 0 <= j < i ==> !(#[trigger] keys[j].eq_spec(&k)),
    ensures
        find_key(keys, k) == Some(i),
    decreases keys.len(),
{
    if i > 0 {
        lemma_find_key_at(keys.drop_first(), k, i - 1);
    }
}

/// Removing an entry keeps the remaining keys pairwise distinct.
pub proof fn lemma_unique_keys_remove<K: PartialEq>(keys: Seq<K>, i: int)
    requires
        unique_keys(keys),
        0 <= i < keys.len(),
    ensures
        unique_keys(keys.remove(i)),
{
    let t = keys.remove(i);
    assert forall|a: int, b: int| 0 <= a < b < t.len() implies !(#[trigger] t[a].eq_spec(
        #[trigger] &t[b],
    )) by {
        let a0 = if a < i { a } else { a + 1 };
        let b0 = if b < i { b } else { b + 1 };
        assert(t[a] == keys[a0]);
        assert(t[b] == keys[b0]);
    }
}

/// Filling a vacated slot with the last key and dropping the last slot
/// keeps the keys pairwise distinct.  Because the move changes the order of
/// the two keys involved, this needs `eq_spec` to be symmetric — which a
/// lawful `PartialEq` is.
pub proof fn lemma_unique_keys_swap_remove<K: PartialEq>(keys: Seq<K>, i: int)
    requires
        unique_keys(keys),
        0 <= i < keys.len(),
        forall|x: K, y: K| #[trigger] x.eq_spec(&y) <==> y.eq_spec(&x),
    ensures
        unique_keys(keys.update(i, keys.last()).drop_last()),
{
    let t = keys.update(i, keys.last()).drop_last();
    let n = keys.len() as int;
    assert forall|a: int, b: int| 0 <= a < b < t.len() implies !(#[trigger] t[a].eq_spec(
        #[trigger] &t[b],
    )) by {
        let a0 = if a == i { n - 1 } else { a };
        let b0 = if b == i { n - 1 } else { b };
        assert(t[a] == keys[a0]);
        assert(t[b] == keys[b0]);
        if a0 < b0 {
            assert(!keys[a0].eq_spec(&keys[b0]));
        } else {
            assert(!keys[b0].eq_spec(&keys[a0]));
        }
    }
}

/// Overwriting an entry's value in place, keeping its key, keeps the keys
/// pairwise distinct.  Stated as a broadcast lemma so that it applies
/// wherever such an update appears — in particular across an exclusive
/// borrow of one entry's value, where no proof block can stand.
pub broadcast proof fn lemma_unique_keys_update_value<K: PartialEq, V>(
    s: Seq<(K, V)>,
    i: int,
    e: (K, V),
)
    requires
        0 <= i < s.len(),
        e.0 == s[i].0,
    ensures
        unique_keys(keys_of(s)) ==> unique_keys(keys_of(#[trigger] s.update(i, e))),
{
    if unique_keys(keys_of(s)) {
        assert(keys_of(s.update(i, e)) =~= keys_of(s));
    }
}

/// The converse for a miss: if no key matches, `find_key` returns `None`.
pub proof fn lemma_find_key_none<K: PartialEq>(keys: Seq<K>, k: K)
    requires
        forall|j: int| 0 <= j < keys.len() ==> !(#[trigger] keys[j].eq_spec(&k)),
    ensures
        find_key(keys, k) is None,
    decreases keys.len(),
{
    if keys.len() > 0 {
        lemma_find_key_none(keys.drop_first(), k);
    }
}

} // verus!
