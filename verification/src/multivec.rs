//! The structure-of-arrays layout: keys and values in two index-aligned
//! vectors.

use vstd::prelude::*;
use vstd::std_specs::cmp::PartialEqSpec;
use vstd::string::StringExecFns;

use crate::model::{
    entry_text, find_key, joined, keys_of, lemma_find_key_at, lemma_find_key_characterization,
    lemma_find_key_none, lemma_mask_entries_props, lemma_unique_keys_remove,
    lemma_unique_keys_swap_remove, mapping_literal, mask_entries, pair_up, spec_get, spec_insert,
    spec_remove, spec_swap_remove, unique_keys, vals_of,
};
use crate::vecext::{debug_of, vec_capacity, vec_shrink_to, vec_shrink_to_fit};
use std::collections::TryReserveError;

verus! {

/// A map over equality-only keys, stored as two index-aligned vectors: one
/// of keys, one of values.
///
/// Entry `i` is the pair of `vec_k[i]` and `vec_v[i]`.  The view is the
/// entry sequence in storage order; [`NoHashMapMultiVec::wf`] states the
/// layout invariant.
#[derive(Clone, Debug)]
pub struct NoHashMapMultiVec<K, V> {
    vec_k: Vec<K>,
    vec_v: Vec<V>,
}

impl<K, V> View for NoHashMapMultiVec<K, V> {
    type V = Seq<(K, V)>;

    closed spec fn view(&self) -> Seq<(K, V)> {
        Seq::new(self.vec_k@.len(), |i: int| (self.vec_k@[i], self.vec_v@[i]))
    }
}

impl<K, V> NoHashMapMultiVec<K, V> {
    /// The two vectors hold one entry each per index.
    pub closed spec fn aligned(&self) -> bool {
        self.vec_k@.len() == self.vec_v@.len()
    }
}

impl<K: PartialEq, V> NoHashMapMultiVec<K, V> {
    /// The layout invariant: the vectors are index-aligned, and — whenever
    /// `==` on `K` is a lawful equality (its specification is pinned down,
    /// symmetric and transitive) — no two entries carry equal keys.
    pub open spec fn wf(&self) -> bool {
        &&& self.aligned()
        &&& vstd::laws_eq::obeys_eq::<K>() ==> unique_keys(keys_of(self@))
    }

    /// Returns an empty container.
    pub fn new() -> (r: Self)
        ensures
            r@ == Seq::<(K, V)>::empty(),
            r.wf(),
    {
        let r = NoHashMapMultiVec { vec_k: Vec::new(), vec_v: Vec::new() };
        proof {
            assert(r@ =~= Seq::<(K, V)>::empty());
        }
        r
    }

    /// Returns an empty container whose two vectors are each pre-allocated
    /// for at least `capacity` entries.
    pub fn with_capacity(capacity: usize) -> (r: Self)
        ensures
            r@ == Seq::<(K, V)>::empty(),
            r.wf(),
    {
        let r = NoHashMapMultiVec {
            vec_k: Vec::with_capacity(capacity),
            vec_v: Vec::with_capacity(capacity),
        };
        proof {
            assert(r@ =~= Seq::<(K, V)>::empty());
        }
        r
    }

    /// The number of entries.
    pub fn len(&self) -> (r: usize)
        ensures
            r == self@.len(),
    {
        self.vec_k.len()
    }

    /// Whether the container holds no entry.
    pub fn is_empty(&self) -> (r: bool)
        ensures
            r == (self@.len() == 0),
    {
        self.vec_k.is_empty()
    }

    /// The key vector itself: the keys in storage order, borrowed without
    /// any per-entry work — the point of this layout.
    pub fn keys(&self) -> (r: &Vec<K>)
        requires
            self.wf(),
        ensures
            r@ == keys_of(self@),
    {
        proof {
            assert(self.vec_k@ =~= keys_of(self@));
        }
        &self.vec_k
    }

    /// The value vector itself: the values in storage order, borrowed
    /// without any per-entry work.
    pub fn values(&self) -> (r: &Vec<V>)
        requires
            self.wf(),
        ensures
            r@ == vals_of(self@),
    {
        proof {
            assert(self.vec_v@ =~= vals_of(self@));
        }
        &self.vec_v
    }

    /// An exclusive borrow of the key vector, for mutating keys in place.
    ///
    /// The entries afterwards pair the borrower's final keys with the
    /// unchanged values.  The container is well-formed again provided the
    /// borrower hands back as many keys as it took, still pairwise
    /// distinct.  An unverified caller that pushes to or pops from the
    /// returned vector desynchronizes the two vectors' lengths and must
    /// not use the container further.
    pub fn keys_mut(&mut self) -> (r: &mut Vec<K>)
        requires
            old(self).wf(),
        ensures
            r@ == keys_of(old(self)@),
            final(r)@.len() == old(self)@.len() ==> final(self)@ =~= pair_up(
                final(r)@,
                vals_of(old(self)@),
            ),
            final(r)@.len() == old(self)@.len() && (vstd::laws_eq::obeys_eq::<K>()
                ==> unique_keys(final(r)@)) ==> final(self).wf(),
    {
        proof {
            assert(self.vec_k@ =~= keys_of(self@));
        }
        &mut self.vec_k
    }

    /// An exclusive borrow of the value vector, for mutating values in
    /// place.
    ///
    /// The entries afterwards pair the unchanged keys with the borrower's
    /// final values.  The container is well-formed again provided the
    /// borrower hands back as many values as it took.  An unverified
    /// caller that pushes to or pops from the returned vector
    /// desynchronizes the two vectors' lengths and must not use the
    /// container further.
    pub fn values_mut(&mut self) -> (r: &mut Vec<V>)
        requires
            old(self).wf(),
    ensures
            r@ == vals_of(old(self)@),
            final(r)@.len() == old(self)@.len() ==> final(self)@ =~= pair_up(
                keys_of(old(self)@),
                final(r)@,
            ),
            final(r)@.len() == old(self)@.len() ==> final(self).wf(),
    {
        proof {
            assert(self.vec_v@ =~= vals_of(self@));
        }
        &mut self.vec_v
    }

    /// Consumes the container and returns the key vector.
    pub fn into_keys(self) -> (r: Vec<K>)
        requires
            self.wf(),
        ensures
            r@ == keys_of(self@),
    {
        proof {
            assert(self.vec_k@ =~= keys_of(self@));
        }
        self.vec_k
    }

    /// Consumes the container and returns the value vector.
    pub fn into_values(self) -> (r: Vec<V>)
        requires
            self.wf(),
        ensures
            r@ == vals_of(self@),
    {
        proof {
            assert(self.vec_v@ =~= vals_of(self@));
        }
        self.vec_v
    }

    /// Exclusive borrows of both vectors at once, for mutating keys and
    /// values in place.
    ///
    /// The entries afterwards pair the borrower's final keys with its final
    /// values.  The container is well-formed again provided the borrower
    /// hands back as many keys and values as it took, the keys still
    /// pairwise distinct.  An unverified caller that leaves the two
    /// vectors with different lengths must not use the container further.
    pub fn iter_mut(&mut self) -> ((ks, vs): (&mut Vec<K>, &mut Vec<V>))
        requires
            old(self).wf(),
        ensures
            ks@ == keys_of(old(self)@),
            vs@ == vals_of(old(self)@),
            final(ks)@.len() == old(self)@.len() && final(vs)@.len() == old(self)@.len()
                ==> final(self)@ =~= pair_up(final(ks)@, final(vs)@),
            final(ks)@.len() == old(self)@.len() && final(vs)@.len() == old(self)@.len() && (
            vstd::laws_eq::obeys_eq::<K>() ==> unique_keys(final(ks)@)) ==> final(self).wf(),
    {
        proof {
            assert(self.vec_k@ =~= keys_of(self@));
            assert(self.vec_v@ =~= vals_of(self@));
        }
        (&mut self.vec_k, &mut self.vec_v)
    }

    /// Borrows of the entries in storage order, pairing each key with its
    /// value.
    pub fn iter(&self) -> (r: Vec<(&K, &V)>)
        requires
            self.wf(),
        ensures
            r@.len() == self@.len(),
            forall|i: int| 0 <= i < r@.len() ==> (*#[trigger] r@[i].0, *r@[i].1) == self@[i],
    {
        let mut r: Vec<(&K, &V)> = Vec::new();
        let n = self.vec_k.len();
        let mut i: usize = 0;
        while i < n
            invariant
                self.wf(),
                i <= n,
                n == self@.len(),
                r@.len() == i,
                forall|j: int| 0 <= j < i ==> (*#[trigger] r@[j].0, *r@[j].1) == self@[j],
            decreases n - i,
        {
            r.push((&self.vec_k[i], &self.vec_v[i]));
            i += 1;
        }
        r
    }

    /// A lower bound on how many entries the container can hold without
    /// reallocating either vector: the smaller of the two capacities.
    pub fn capacity(&self) -> (r: usize)
        requires
            self.wf(),
        ensures
            r >= self@.len(),
    {
        let ck = vec_capacity(&self.vec_k);
        let cv = vec_capacity(&self.vec_v);
        if ck < cv {
            ck
        } else {
            cv
        }
    }

    /// Grows both vectors so that `additional` more entries fit without
    /// reallocating.  The entries do not change.
    pub fn reserve(&mut self, additional: usize)
        requires
            old(self).wf(),
        ensures
            final(self)@ == old(self)@,
            final(self).wf(),
    {
        self.vec_k.reserve(additional);
        self.vec_v.reserve(additional);
        proof {
            assert(final(self)@ =~= old(self)@);
        }
    }

    /// Like [`Self::reserve`], but reports an allocation failure instead of
    /// aborting.  The entries do not change, whether or not the growth
    /// succeeded.
    pub fn try_reserve(&mut self, additional: usize) -> (r: Result<(), TryReserveError>)
        requires
            old(self).wf(),
        ensures
            final(self)@ == old(self)@,
            final(self).wf(),
    {
        let res = self.vec_k.try_reserve(additional);
        match res {
            Err(e) => {
                proof {
                    assert(final(self)@ =~= old(self)@);
                }
                Err(e)
            }
            Ok(()) => {
                let res2 = self.vec_v.try_reserve(additional);
                proof {
                    assert(final(self)@ =~= old(self)@);
                }
                res2
            }
        }
    }

    /// Sheds excess capacity of both vectors down to `min_capacity` (or the
    /// length, if that is larger).  The entries do not change.
    pub fn shrink_to(&mut self, min_capacity: usize)
        requires
            old(self).wf(),
        ensures
            final(self)@ == old(self)@,
            final(self).wf(),
    {
        vec_shrink_to(&mut self.vec_k, min_capacity);
        vec_shrink_to(&mut self.vec_v, min_capacity);
        proof {
            assert(final(self)@ =~= old(self)@);
        }
    }

    /// Sheds all excess capacity of both vectors.  The entries do not
    /// change.
    pub fn shrink_to_fit(&mut self)
        requires
            old(self).wf(),
        ensures
            final(self)@ == old(self)@,
            final(self).wf(),
    {
        vec_shrink_to_fit(&mut self.vec_k);
        vec_shrink_to_fit(&mut self.vec_v);
        proof {
            assert(final(self)@ =~= old(self)@);
        }
    }

    /// Removes every entry.  Capacity may be retained.
    pub fn clear(&mut self)
        ensures
            final(self)@ == Seq::<(K, V)>::empty(),
            final(self).wf(),
    {
        self.vec_k.clear();
        self.vec_v.clear();
        proof {
            assert(final(self)@ =~= Seq::<(K, V)>::empty());
        }
    }

    /// Removes every entry and hands them all to the caller: the keys and
    /// the values, each in what was storage order.  The container is empty
    /// afterwards.
    pub fn drain(&mut self) -> (r: (Vec<K>, Vec<V>))
        requires
            old(self).wf(),
        ensures
            r.0@ == keys_of(old(self)@),
            r.1@ == vals_of(old(self)@),
            final(self)@ == Seq::<(K, V)>::empty(),
            final(self).wf(),
    {
        let mut ks: Vec<K> = Vec::new();
        let mut vs: Vec<V> = Vec::new();
        core::mem::swap(&mut self.vec_k, &mut ks);
        core::mem::swap(&mut self.vec_v, &mut vs);
        proof {
            assert(ks@ =~= keys_of(old(self)@));
            assert(vs@ =~= vals_of(old(self)@));
            assert(final(self)@ =~= Seq::<(K, V)>::empty());
        }
        (ks, vs)
    }

    /// The linear scan: the index of the first stored key that compares
    /// equal to `k`, or `None`.  Whatever `==` on `K` means, a returned
    /// index is in bounds.
    fn scan(keys: &Vec<K>, k: &K) -> (r: Option<usize>)
        ensures
            r matches Some(u) ==> u < keys@.len(),
            K::obeys_eq_spec() ==> match r {
                None => find_key(keys@, *k) is None,
                Some(u) => find_key(keys@, *k) == Some(u as int),
            },
    {
        let n = keys.len();
        let mut i: usize = 0;
        while i < n
            invariant
                i <= n,
                n == keys@.len(),
                K::obeys_eq_spec() ==> forall|j: int|
                    0 <= j < i ==> !(#[trigger] keys@[j].eq_spec(k)),
            decreases n - i,
        {
            if keys[i] == *k {
                proof {
                    if K::obeys_eq_spec() {
                        lemma_find_key_at(keys@, *k, i as int);
                    }
                }
                return Some(i);
            }
            i += 1;
        }
        proof {
            if K::obeys_eq_spec() {
                lemma_find_key_none(keys@, *k);
            }
        }
        None
    }

    /// Inserts `k` with value `v`.
    ///
    /// If an entry's key already equals `k`, that entry's value is replaced
    /// in place, keeping its key and position; otherwise a new entry is
    /// appended at the end.  Nothing distinguishes the two outcomes to the
    /// caller.
    pub fn insert(&mut self, k: K, v: V)
        requires
            old(self).wf(),
        ensures
            final(self).wf(),
            K::obeys_eq_spec() ==> final(self)@ == spec_insert(old(self)@, k, v),
    {
        let ghost s0 = self@;
        proof {
            if K::obeys_eq_spec() {
                lemma_find_key_characterization(keys_of(s0), k);
                assert(keys_of(s0) =~= self.vec_k@);
            }
        }
        match Self::scan(&self.vec_k, &k) {
            None => {
                self.vec_k.push(k);
                self.vec_v.push(v);
                proof {
                    if K::obeys_eq_spec() {
                        assert(self@ =~= spec_insert(s0, k, v));
                        assert(keys_of(self@) =~= keys_of(s0).push(k));
                    }
                }
            }
            Some(i) => {
                self.vec_v[i] = v;
                proof {
                    if K::obeys_eq_spec() {
                        assert(self@ =~= spec_insert(s0, k, v));
                        assert(keys_of(self@) =~= keys_of(s0));
                    }
                }
            }
        }
    }

    /// Whether some entry's key equals `k`.
    pub fn contains_key(&self, k: &K) -> (r: bool)
        requires
            self.wf(),
        ensures
            K::obeys_eq_spec() ==> r == (find_key(keys_of(self@), *k) is Some),
    {
        proof {
            assert(keys_of(self@) =~= self.vec_k@);
        }
        match Self::scan(&self.vec_k, k) {
            None => false,
            Some(_) => true,
        }
    }

    /// The value of the first entry whose key equals `k`, if any.
    pub fn get(&self, k: &K) -> (r: Option<&V>)
        requires
            self.wf(),
        ensures
            K::obeys_eq_spec() ==> match r {
                None => spec_get(self@, *k) is None,
                Some(v) => spec_get(self@, *k) == Some(*v),
            },
    {
        proof {
            assert(keys_of(self@) =~= self.vec_k@);
        }
        match Self::scan(&self.vec_k, k) {
            None => None,
            Some(i) => Some(&self.vec_v[i]),
        }
    }

    /// Borrows of the stored key and the value of the first entry whose key
    /// equals `k`, if any.
    pub fn get_key_value(&self, k: &K) -> (r: Option<(&K, &V)>)
        requires
            self.wf(),
        ensures
            K::obeys_eq_spec() ==> match r {
                None => find_key(keys_of(self@), *k) is None,
                Some(kv) => {
                    &&& find_key(keys_of(self@), *k) is Some
                    &&& self@[find_key(keys_of(self@), *k).unwrap()] == (*kv.0, *kv.1)
                },
            },
    {
        proof {
            assert(keys_of(self@) =~= self.vec_k@);
        }
        match Self::scan(&self.vec_k, k) {
            None => None,
            Some(i) => Some((&self.vec_k[i], &self.vec_v[i])),
        }
    }

    /// An exclusive borrow of the value of the first entry whose key equals
    /// `k`, if any.  Writing through it changes that entry's value and
    /// nothing else; the keys never change.
    pub fn get_mut(&mut self, k: &K) -> (r: Option<&mut V>)
        requires
            old(self).wf(),
        ensures
            final(self).wf(),
            keys_of(final(self)@) =~= keys_of(old(self)@),
            K::obeys_eq_spec() ==> match r {
                None => find_key(keys_of(old(self)@), *k) is None && final(self)@ =~= old(self)@,
                Some(v) => {
                    &&& find_key(keys_of(old(self)@), *k) is Some
                    &&& *v == old(self)@[find_key(keys_of(old(self)@), *k).unwrap()].1
                    &&& final(self)@ =~= old(self)@.update(
                        find_key(keys_of(old(self)@), *k).unwrap(),
                        (old(self)@[find_key(keys_of(old(self)@), *k).unwrap()].0, *final(v)),
                    )
                },
            },
    {
        let ghost s0 = self@;
        proof {
            assert(keys_of(s0) =~= self.vec_k@);
        }
        match Self::scan(&self.vec_k, k) {
            None => None,
            Some(i) => Some(&mut self.vec_v[i]),
        }
    }

    /// Keeps exactly the entries for which `f` answered true, in their
    /// relative order, and removes the rest.
    ///
    /// `f` is asked once per entry, in storage order.  The contract records
    /// each answer in a mask over the old entries: the entries that stay
    /// are precisely the masked ones, so a predicate whose contract pins
    /// its answers pins the result.
    pub fn retain<F: Fn(&K, &V) -> bool>(&mut self, f: F)
        requires
            old(self).wf(),
            forall|k: &K, v: &V| #[trigger] call_requires(f, (k, v)),
        ensures
            final(self).wf(),
            exists|keep: Seq<bool>|
                {
                    &&& keep.len() == old(self)@.len()
                    &&& final(self)@ == mask_entries(old(self)@, keep)
                    &&& forall|i: int|
                        0 <= i < keep.len() ==> call_ensures(
                            f,
                            (&old(self)@[i].0, &old(self)@[i].1),
                            #[trigger] keep[i],
                        )
                },
    {
        let ghost s0 = self@;
        let mut keep: Ghost<Seq<bool>> = Ghost(Seq::empty());
        let mut i: usize = 0;
        while i < self.vec_k.len()
            invariant
                self.aligned(),
                forall|k: &K, v: &V| #[trigger] call_requires(f, (k, v)),
                keep@.len() <= s0.len(),
                i == mask_entries(s0.take(keep@.len() as int), keep@).len(),
                i <= self.vec_k@.len(),
                self@ =~= mask_entries(s0.take(keep@.len() as int), keep@) + s0.skip(
                    keep@.len() as int,
                ),
                forall|j: int|
                    0 <= j < keep@.len() ==> call_ensures(
                        f,
                        (&s0[j].0, &s0[j].1),
                        #[trigger] keep@[j],
                    ),
            decreases s0.len() - keep@.len(),
        {
            let ghost p = keep@.len() as int;
            let ghost masked = mask_entries(s0.take(p), keep@);
            proof {
                assert(s0.len() - p == self@.len() - i > 0);
                assert(self@[i as int] == s0.skip(p)[0]);
                assert(s0.skip(p)[0] == s0[p]);
            }
            let b = f(&self.vec_k[i], &self.vec_v[i]);
            proof {
                let keep0 = keep@;
                keep@ = keep0.push(b);
                assert(s0.take(p + 1).drop_last() =~= s0.take(p));
                assert(keep@.drop_last() =~= keep0);
            }
            if b {
                i += 1;
                proof {
                    assert(mask_entries(s0.take(p + 1), keep@) =~= masked.push(s0[p]));
                    assert(self@ =~= masked.push(s0[p]) + s0.skip(p + 1));
                }
            } else {
                let _ = self.vec_k.remove(i);
                let _ = self.vec_v.remove(i);
                proof {
                    assert(mask_entries(s0.take(p + 1), keep@) =~= masked);
                    assert(self@ =~= (masked + s0.skip(p)).remove(i as int));
                    assert(self@ =~= masked + s0.skip(p + 1));
                }
            }
        }
        proof {
            assert(keep@.len() == s0.len());
            assert(s0.take(keep@.len() as int) =~= s0);
            assert(s0.skip(keep@.len() as int) =~= Seq::<(K, V)>::empty());
            assert(self@ =~= mask_entries(s0, keep@));
            lemma_mask_entries_props(s0, keep@);
        }
    }

    /// Renders the entries as a mapping literal `{k1: v1, k2: v2, ...}` in
    /// storage order, using the `Debug` form of keys and values.  The
    /// per-entry texts depend on the `Debug` implementations, which nothing
    /// can pin down; the frame around them — the braces, the `, `
    /// separators, one `key: value` text per entry, in storage order — is
    /// promised.
    pub fn debug_string(&self) -> (r: String) where K: core::fmt::Debug, V: core::fmt::Debug
        requires
            self.wf(),
        ensures
            exists|kts: Seq<Seq<char>>, vts: Seq<Seq<char>>|
                {
                    &&& kts.len() == self@.len()
                    &&& vts.len() == self@.len()
                    &&& r@ == mapping_literal(kts, vts)
                },
    {
        let mut kts: Ghost<Seq<Seq<char>>> = Ghost(Seq::empty());
        let mut vts: Ghost<Seq<Seq<char>>> = Ghost(Seq::empty());
        let mut out = String::new();
        out.append("{");
        proof {
            reveal_strlit("{");
            assert(out@ =~= seq!['{'] + joined(
                Seq::new(0 as nat, |j: int| entry_text(kts@[j], vts@[j])),
            ));
        }
        let n = self.vec_k.len();
        let mut i: usize = 0;
        while i < n
            invariant
                self.wf(),
                n == self@.len(),
                i <= n,
                kts@.len() == i,
                vts@.len() == i,
                out@ == seq!['{'] + joined(
                    Seq::new(i as nat, |j: int| entry_text(kts@[j], vts@[j])),
                ),
            decreases n - i,
        {
            let ghost parts0 = Seq::new(i as nat, |j: int| entry_text(kts@[j], vts@[j]));
            if i > 0 {
                out.append(", ");
            }
            let kt = debug_of(&self.vec_k[i]);
            out.append(kt.as_str());
            out.append(": ");
            let vt = debug_of(&self.vec_v[i]);
            out.append(vt.as_str());
            proof {
                reveal_strlit(", ");
                reveal_strlit(": ");
                assert(", "@ =~= seq![',', ' ']);
                assert(": "@ =~= seq![':', ' ']);
                kts@ = kts@.push(kt@);
                vts@ = vts@.push(vt@);
                let parts1 = Seq::new((i + 1) as nat, |j: int| entry_text(kts@[j], vts@[j]));
                assert(parts1.drop_last() =~= parts0);
                assert(parts1.last() == entry_text(kt@, vt@));
                if i == 0 {
                    assert(out@ =~= seq!['{'] + joined(parts1));
                } else {
                    assert(joined(parts1) == joined(parts0) + seq![',', ' '] + parts1.last());
                    assert(out@ =~= seq!['{'] + joined(parts1));
                }
            }
            i += 1;
        }
        out.append("}");
        proof {
            reveal_strlit("}");
            assert("}"@ =~= seq!['}']);
            assert(out@ =~= mapping_literal(kts@, vts@));
        }
        out
    }

    /// Removes the first entry whose key equals `k` and returns its value;
    /// all later entries shift left by one, keeping their relative order.
    pub fn remove(&mut self, k: &K) -> (r: Option<V>)
        requires
            old(self).wf(),
        ensures
            final(self).wf(),
            K::obeys_eq_spec() ==> {
                &&& final(self)@ == spec_remove(old(self)@, *k)
                &&& r == spec_get(old(self)@, *k)
            },
    {
        let ghost s0 = self@;
        proof {
            assert(keys_of(s0) =~= self.vec_k@);
        }
        match Self::scan(&self.vec_k, k) {
            None => None,
            Some(i) => {
                let _ = self.vec_k.remove(i);
                let v = self.vec_v.remove(i);
                proof {
                    assert(final(self)@ =~= s0.remove(i as int));
                    assert(keys_of(s0.remove(i as int)) =~= keys_of(s0).remove(i as int));
                    if vstd::laws_eq::obeys_eq::<K>() {
                        lemma_unique_keys_remove(keys_of(s0), i as int);
                    }
                }
                Some(v)
            }
        }
    }

    /// Removes the first entry whose key equals `k` and returns its value;
    /// the last entry moves into the vacated slot, so storage order is not
    /// preserved.
    pub fn swap_remove(&mut self, k: &K) -> (r: Option<V>)
        requires
            old(self).wf(),
        ensures
            final(self).wf(),
            K::obeys_eq_spec() ==> {
                &&& final(self)@ == spec_swap_remove(old(self)@, *k)
                &&& r == spec_get(old(self)@, *k)
            },
    {
        let ghost s0 = self@;
        proof {
            assert(keys_of(s0) =~= self.vec_k@);
        }
        match Self::scan(&self.vec_k, k) {
            None => None,
            Some(i) => {
                let _ = self.vec_k.swap_remove(i);
                let v = self.vec_v.swap_remove(i);
                proof {
                    assert(final(self)@ =~= s0.update(i as int, s0.last()).drop_last());
                    assert(keys_of(s0.update(i as int, s0.last()).drop_last()) =~= keys_of(
                        s0,
                    ).update(i as int, keys_of(s0).last()).drop_last());
                    if vstd::laws_eq::obeys_eq::<K>() {
                        reveal(vstd::laws_eq::obeys_eq_spec_properties);
                        lemma_unique_keys_swap_remove(keys_of(s0), i as int);
                    }
                }
                Some(v)
            }
        }
    }
}

} // verus!
