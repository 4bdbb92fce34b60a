//! The array-of-structures layout: one vector of key/value pairs.

use vstd::prelude::*;
use vstd::std_specs::cmp::PartialEqSpec;
use vstd::string::StringExecFns;

use crate::model::{
    entry_text, find_key, joined, keys_of, lemma_find_key_at, lemma_find_key_characterization,
    lemma_find_key_none, lemma_mask_entries_props, lemma_unique_keys_remove,
    lemma_unique_keys_swap_remove, mapping_literal, mask_entries, spec_get, spec_insert,
    spec_remove, spec_swap_remove, unique_keys, vals_of,
};
use crate::vecext::{debug_of, vec_capacity, vec_shrink_to, vec_shrink_to_fit};
use std::collections::TryReserveError;

verus! {

broadcast use crate::model::lemma_unique_keys_update_value;

/// A map over equality-only keys, stored as one vector of key/value pairs.
///
/// The view is the entry sequence in storage order;
/// [`NoHashMapVecTuple::wf`] states the invariant.
#[derive(Clone, Debug)]
pub struct NoHashMapVecTuple<K, V> {
    vec: Vec<(K, V)>,
}

impl<K, V> View for NoHashMapVecTuple<K, V> {
    type V = Seq<(K, V)>;

    closed spec fn view(&self) -> Seq<(K, V)> {
        self.vec@
    }
}

impl<K: PartialEq, V> NoHashMapVecTuple<K, V> {
    /// The invariant: whenever `==` on `K` is a lawful equality (its
    /// specification is pinned down, symmetric and transitive), no two
    /// entries carry equal keys.
    pub open spec fn wf(&self) -> bool {
        vstd::laws_eq::obeys_eq::<K>() ==> unique_keys(keys_of(self@))
    }

    /// Returns an empty container.
    pub fn new() -> (r: Self)
        ensures
            r@ == Seq::<(K, V)>::empty(),
            r.wf(),
    {
        NoHashMapVecTuple { vec: Vec::new() }
    }

    /// Returns an empty container pre-allocated for at least `capacity`
    /// entries.
    pub fn with_capacity(capacity: usize) -> (r: Self)
        ensures
            r@ == Seq::<(K, V)>::empty(),
            r.wf(),
    {
        NoHashMapVecTuple { vec: Vec::with_capacity(capacity) }
    }

    /// The number of entries.
    pub fn len(&self) -> (r: usize)
        ensures
            r == self@.len(),
    {
        self.vec.len()
    }

    /// Whether the container holds no entry.
    pub fn is_empty(&self) -> (r: bool)
        ensures
            r == (self@.len() == 0),
    {
        self.vec.is_empty()
    }

    /// The entry vector itself, borrowed: the pairs in storage order with
    /// no per-entry work — the point of this layout.
    pub fn iter(&self) -> (r: &Vec<(K, V)>)
        ensures
            r@ == self@,
    {
        &self.vec
    }

    /// An exclusive borrow of the entry vector, for mutating keys and
    /// values in place.
    ///
    /// The entries afterwards are whatever the borrower leaves in the
    /// vector; the container is well-formed again provided the keys it
    /// hands back are pairwise distinct.
    pub fn iter_mut(&mut self) -> (r: &mut Vec<(K, V)>)
        ensures
            r@ == old(self)@,
            final(self)@ == final(r)@,
            (vstd::laws_eq::obeys_eq::<K>() ==> unique_keys(keys_of(final(r)@)))
                ==> final(self).wf(),
    {
        &mut self.vec
    }

    /// Borrows of the values in storage order, projected out of every pair.
    pub fn values(&self) -> (r: Vec<&V>)
        ensures
            r@.len() == self@.len(),
            forall|i: int| 0 <= i < r@.len() ==> *#[trigger] r@[i] == self@[i].1,
    {
        let mut r: Vec<&V> = Vec::new();
        let n = self.vec.len();
        let mut i: usize = 0;
        while i < n
            invariant
                i <= n,
                n == self@.len(),
                r@.len() == i,
                forall|j: int| 0 <= j < i ==> *#[trigger] r@[j] == self@[j].1,
            decreases n - i,
        {
            let e = &self.vec[i];
            r.push(&e.1);
            i += 1;
        }
        r
    }

    /// Borrows of the keys in storage order, projected out of every pair.
    pub fn keys(&self) -> (r: Vec<&K>)
        ensures
            r@.len() == self@.len(),
            forall|i: int| 0 <= i < r@.len() ==> *#[trigger] r@[i] == self@[i].0,
    {
        let mut r: Vec<&K> = Vec::new();
        let n = self.vec.len();
        let mut i: usize = 0;
        while i < n
            invariant
                i <= n,
                n == self@.len(),
                r@.len() == i,
                forall|j: int| 0 <= j < i ==> *#[trigger] r@[j] == self@[j].0,
            decreases n - i,
        {
            let e = &self.vec[i];
            r.push(&e.0);
            i += 1;
        }
        r
    }

    /// Consumes the container and returns the values in storage order.
    pub fn into_values(self) -> (r: Vec<V>)
        ensures
            r@ == vals_of(self@),
    {
        let ghost s0 = self@;
        let mut vec = self.vec;
        let mut r: Vec<V> = Vec::new();
        while vec.len() > 0
            invariant
                r@.len() + vec@.len() == s0.len(),
                vec@ =~= s0.skip(r@.len() as int),
                forall|j: int| 0 <= j < r@.len() ==> #[trigger] r@.index(j) == s0[j].1,
            decreases vec@.len(),
        {
            let e = vec.remove(0);
            r.push(e.1);
            proof {
                assert(vec@ =~= s0.skip(r@.len() as int));
            }
        }
        proof {
            assert(r@ =~= vals_of(s0));
        }
        r
    }

    /// Consumes the container and returns the keys in storage order.
    pub fn into_keys(self) -> (r: Vec<K>)
        ensures
            r@ == keys_of(self@),
    {
        let ghost s0 = self@;
        let mut vec = self.vec;
        let mut r: Vec<K> = Vec::new();
        while vec.len() > 0
            invariant
                r@.len() + vec@.len() == s0.len(),
                vec@ =~= s0.skip(r@.len() as int),
                forall|j: int| 0 <= j < r@.len() ==> #[trigger] r@.index(j) == s0[j].0,
            decreases vec@.len(),
        {
            let e = vec.remove(0);
            r.push(e.0);
            proof {
                assert(vec@ =~= s0.skip(r@.len() as int));
            }
        }
        proof {
            assert(r@ =~= keys_of(s0));
        }
        r
    }

    /// How many entries the container can hold without reallocating.
    pub fn capacity(&self) -> (r: usize)
        ensures
            r >= self@.len(),
    {
        vec_capacity(&self.vec)
    }

    /// Grows the vector so that `additional` more entries fit without
    /// reallocating.  The entries do not change.
    pub fn reserve(&mut self, additional: usize)
        requires
            old(self).wf(),
        ensures
            final(self)@ == old(self)@,
            final(self).wf(),
    {
        self.vec.reserve(additional);
    }

    /// Like [`Self::reserve`], but reports an allocation failure instead of
    /// aborting.  The entries do not change, whether or not the growth
    /// succeeded.
    pub fn try_reserve(&mut self, additional: usize) -> (r: Result<(), TryReserveError>)
        requires
            old(self).wf(),
        ensures
            final(self)@ == old(self)@,
            final(self).wf(),
    {
        self.vec.try_reserve(additional)
    }

    /// Sheds excess capacity down to `min_capacity` (or the length, if that
    /// is larger).  The entries do not change.
    pub fn shrink_to(&mut self, min_capacity: usize)
        requires
            old(self).wf(),
        ensures
            final(self)@ == old(self)@,
            final(self).wf(),
    {
        vec_shrink_to(&mut self.vec, min_capacity);
    }

    /// Sheds all excess capacity.  The entries do not change.
    pub fn shrink_to_fit(&mut self)
        requires
            old(self).wf(),
        ensures
            final(self)@ == old(self)@,
            final(self).wf(),
    {
        vec_shrink_to_fit(&mut self.vec);
    }

    /// Removes every entry.  Capacity may be retained.
    pub fn clear(&mut self)
        ensures
            final(self)@ == Seq::<(K, V)>::empty(),
            final(self).wf(),
    {
        self.vec.clear();
    }

    /// Removes every entry and hands them all to the caller, in what was
    /// storage order.  The container is empty afterwards.
    pub fn drain(&mut self) -> (r: Vec<(K, V)>)
        requires
            old(self).wf(),
        ensures
            r@ == old(self)@,
            final(self)@ == Seq::<(K, V)>::empty(),
            final(self).wf(),
    {
        let mut out: Vec<(K, V)> = Vec::new();
        core::mem::swap(&mut self.vec, &mut out);
        out
    }

    /// Keeps exactly the entries for which `f` answered true, in their
    /// relative order, and removes the rest.
    ///
    /// `f` is asked once per entry, in storage order.  The contract records
    /// each answer in a mask over the old entries: the entries that stay
    /// are precisely the masked ones, so a predicate whose contract pins
    /// its answers pins the result.
    pub fn retain<F: Fn(&K, &V) -> bool>(&mut self, f: F)
        requires
            old(self).wf(),
            forall|k: &K, v: &V| #[trigger] call_requires(f, (k, v)),
        ensures
            final(self).wf(),
            exists|keep: Seq<bool>|
                {
                    &&& keep.len() == old(self)@.len()
                    &&& final(self)@ == mask_entries(old(self)@, keep)
                    &&& forall|i: int|
                        0 <= i < keep.len() ==> call_ensures(
                            f,
                            (&old(self)@[i].0, &old(self)@[i].1),
                            #[trigger] keep[i],
                        )
                },
    {
        let ghost s0 = self@;
        let mut keep: Ghost<Seq<bool>> = Ghost(Seq::empty());
        let mut i: usize = 0;
        while i < self.vec.len()
            invariant
                forall|k: &K, v: &V| #[trigger] call_requires(f, (k, v)),
                keep@.len() <= s0.len(),
                i == mask_entries(s0.take(keep@.len() as int), keep@).len(),
                i <= self.vec@.len(),
                self@ =~= mask_entries(s0.take(keep@.len() as int), keep@) + s0.skip(
                    keep@.len() as int,
                ),
                forall|j: int|
                    0 <= j < keep@.len() ==> call_ensures(
                        f,
                        (&s0[j].0, &s0[j].1),
                        #[trigger] keep@[j],
                    ),
            decreases s0.len() - keep@.len(),
        {
            let ghost p = keep@.len() as int;
            let ghost masked = mask_entries(s0.take(p), keep@);
            proof {
                assert(s0.len() - p == self@.len() - i > 0);
                assert(self@[i as int] == s0.skip(p)[0]);
                assert(s0.skip(p)[0] == s0[p]);
            }
            let e = &self.vec[i];
            let b = f(&e.0, &e.1);
            proof {
                let keep0 = keep@;
                keep@ = keep0.push(b);
                assert(s0.take(p + 1).drop_last() =~= s0.take(p));
                assert(keep@.drop_last() =~= keep0);
            }
            if b {
                i += 1;
                proof {
                    assert(mask_entries(s0.take(p + 1), keep@) =~= masked.push(s0[p]));
                    assert(self@ =~= masked.push(s0[p]) + s0.skip(p + 1));
                }
            } else {
                let _ = self.vec.remove(i);
                proof {
                    assert(mask_entries(s0.take(p + 1), keep@) =~= masked);
                    assert(self@ =~= (masked + s0.skip(p)).remove(i as int));
                    assert(self@ =~= masked + s0.skip(p + 1));
                }
            }
        }
        proof {
            assert(keep@.len() == s0.len());
            assert(s0.take(keep@.len() as int) =~= s0);
            assert(s0.skip(keep@.len() as int) =~= Seq::<(K, V)>::empty());
            assert(self@ =~= mask_entries(s0, keep@));
            lemma_mask_entries_props(s0, keep@);
        }
    }

    /// Renders the entries as a mapping literal `{k1: v1, k2: v2, ...}` in
    /// storage order, using the `Debug` form of keys and values.  The
    /// per-entry texts depend on the `Debug` implementations, which nothing
    /// can pin down; the frame around them — the braces, the `, `
    /// separators, one `key: value` text per entry, in storage order — is
    /// promised.
    pub fn debug_string(&self) -> (r: String) where K: core::fmt::Debug, V: core::fmt::Debug
        ensures
            exists|kts: Seq<Seq<char>>, vts: Seq<Seq<char>>|
                {
                    &&& kts.len() == self@.len()
                    &&& vts.len() == self@.len()
                    &&& r@ == mapping_literal(kts, vts)
                },
    {
        let mut kts: Ghost<Seq<Seq<char>>> = Ghost(Seq::empty());
        let mut vts: Ghost<Seq<Seq<char>>> = Ghost(Seq::empty());
        let mut out = String::new();
        out.append("{");
        proof {
            reveal_strlit("{");
            assert(out@ =~= seq!['{'] + joined(
                Seq::new(0 as nat, |j: int| entry_text(kts@[j], vts@[j])),
            ));
        }
        let n = self.vec.len();
        let mut i: usize = 0;
        while i < n
            invariant
                n == self@.len(),
                i <= n,
                kts@.len() == i,
                vts@.len() == i,
                out@ == seq!['{'] + joined(
                    Seq::new(i as nat, |j: int| entry_text(kts@[j], vts@[j])),
                ),
            decreases n - i,
        {
            let ghost parts0 = Seq::new(i as nat, |j: int| entry_text(kts@[j], vts@[j]));
            if i > 0 {
                out.append(", ");
            }
            let entry = &self.vec[i];
            let kt = debug_of(&entry.0);
            out.append(kt.as_str());
            out.append(": ");
            let vt = debug_of(&entry.1);
            out.append(vt.as_str());
            proof {
                reveal_strlit(", ");
                reveal_strlit(": ");
                assert(", "@ =~= seq![',', ' ']);
                assert(": "@ =~= seq![':', ' ']);
                kts@ = kts@.push(kt@);
                vts@ = vts@.push(vt@);
                let parts1 = Seq::new((i + 1) as nat, |j: int| entry_text(kts@[j], vts@[j]));
                assert(parts1.drop_last() =~= parts0);
                assert(parts1.last() == entry_text(kt@, vt@));
                if i == 0 {
                    assert(out@ =~= seq!['{'] + joined(parts1));
                } else {
                    assert(joined(parts1) == joined(parts0) + seq![',', ' '] + parts1.last());
                    assert(out@ =~= seq!['{'] + joined(parts1));
                }
            }
            i += 1;
        }
        out.append("}");
        proof {
            reveal_strlit("}");
            assert("}"@ =~= seq!['}']);
            assert(out@ =~= mapping_literal(kts@, vts@));
        }
        out
    }

    /// The linear scan: the index of the first entry whose key compares
    /// equal to `k`, or `None`.  Whatever `==` on `K` means, a returned
    /// index is in bounds.
    fn scan(vec: &Vec<(K, V)>, k: &K) -> (r: Option<usize>)
        ensures
            r matches Some(u) ==> u < vec@.len(),
            K::obeys_eq_spec() ==> match r {
                None => find_key(keys_of(vec@), *k) is None,
                Some(u) => find_key(keys_of(vec@), *k) == Some(u as int),
            },
    {
        let ghost ks = keys_of(vec@);
        let n = vec.len();
        let mut i: usize = 0;
        while i < n
            invariant
                i <= n,
                n == vec@.len(),
                ks == keys_of(vec@),
                K::obeys_eq_spec() ==> forall|j: int|
                    0 <= j < i ==> !(#[trigger] ks[j].eq_spec(k)),
            decreases n - i,
        {
            let e = &vec[i];
            if e.0 == *k {
                proof {
                    if K::obeys_eq_spec() {
                        assert(ks[i as int] == vec@[i as int].0);
                        lemma_find_key_at(ks, *k, i as int);
                    }
                }
                return Some(i);
            }
            proof {
                assert(ks[i as int] == vec@[i as int].0);
            }
            i += 1;
        }
        proof {
            if K::obeys_eq_spec() {
                lemma_find_key_none(ks, *k);
            }
        }
        None
    }

    /// Inserts `k` with value `v`.
    ///
    /// If an entry's key already equals `k`, that entry's value is replaced
    /// in place, keeping its key and position; otherwise a new entry is
    /// appended at the end.  Nothing distinguishes the two outcomes to the
    /// caller.
    pub fn insert(&mut self, k: K, v: V)
        requires
            old(self).wf(),
        ensures
            final(self).wf(),
            K::obeys_eq_spec() ==> final(self)@ == spec_insert(old(self)@, k, v),
    {
        let ghost s0 = self@;
        proof {
            if K::obeys_eq_spec() {
                lemma_find_key_characterization(keys_of(s0), k);
            }
        }
        match Self::scan(&self.vec, &k) {
            None => {
                self.vec.push((k, v));
                proof {
                    if K::obeys_eq_spec() {
                        assert(self@ =~= spec_insert(s0, k, v));
                        assert(keys_of(self@) =~= keys_of(s0).push(k));
                    }
                }
            }
            Some(i) => {
                self.vec[i].1 = v;
                proof {
                    if K::obeys_eq_spec() {
                        assert(self@ =~= spec_insert(s0, k, v));
                        assert(keys_of(self@) =~= keys_of(s0));
                    }
                }
            }
        }
    }

    /// Whether some entry's key equals `k`.
    pub fn contains_key(&self, k: &K) -> (r: bool)
        requires
            self.wf(),
        ensures
            K::obeys_eq_spec() ==> r == (find_key(keys_of(self@), *k) is Some),
    {
        match Self::scan(&self.vec, k) {
            None => false,
            Some(_) => true,
        }
    }

    /// The value of the first entry whose key equals `k`, if any.
    pub fn get(&self, k: &K) -> (r: Option<&V>)
        requires
            self.wf(),
        ensures
            K::obeys_eq_spec() ==> match r {
                None => spec_get(self@, *k) is None,
                Some(v) => spec_get(self@, *k) == Some(*v),
            },
    {
        match Self::scan(&self.vec, k) {
            None => None,
            Some(i) => {
                let e = &self.vec[i];
                Some(&e.1)
            }
        }
    }

    /// A borrow of the first entry whose key equals `k`, if any: the stored
    /// key and its value as one pair.
    pub fn get_key_value(&self, k: &K) -> (r: Option<&(K, V)>)
        requires
            self.wf(),
        ensures
            K::obeys_eq_spec() ==> match r {
                None => find_key(keys_of(self@), *k) is None,
                Some(e) => {
                    &&& find_key(keys_of(self@), *k) is Some
                    &&& *e == self@[find_key(keys_of(self@), *k).unwrap()]
                },
            },
    {
        match Self::scan(&self.vec, k) {
            None => None,
            Some(i) => Some(&self.vec[i]),
        }
    }

    /// An exclusive borrow of the value of the first entry whose key equals
    /// `k`, if any.  Writing through it changes that entry's value and
    /// nothing else; the keys never change.
    pub fn get_mut(&mut self, k: &K) -> (r: Option<&mut V>)
        requires
            old(self).wf(),
        ensures
            final(self).wf(),
            keys_of(final(self)@) =~= keys_of(old(self)@),
            K::obeys_eq_spec() ==> match r {
                None => find_key(keys_of(old(self)@), *k) is None && final(self)@ =~= old(self)@,
                Some(v) => {
                    &&& find_key(keys_of(old(self)@), *k) is Some
                    &&& *v == old(self)@[find_key(keys_of(old(self)@), *k).unwrap()].1
                    &&& final(self)@ =~= old(self)@.update(
                        find_key(keys_of(old(self)@), *k).unwrap(),
                        (old(self)@[find_key(keys_of(old(self)@), *k).unwrap()].0, *final(v)),
                    )
                },
            },
    {
        match Self::scan(&self.vec, k) {
            None => None,
            Some(i) => Some(&mut self.vec[i].1),
        }
    }

    /// Removes the first entry whose key equals `k` and returns its value;
    /// all later entries shift left by one, keeping their relative order.
    pub fn remove(&mut self, k: &K) -> (r: Option<V>)
        requires
            old(self).wf(),
        ensures
            final(self).wf(),
            K::obeys_eq_spec() ==> {
                &&& final(self)@ == spec_remove(old(self)@, *k)
                &&& r == spec_get(old(self)@, *k)
            },
    {
        let ghost s0 = self@;
        match Self::scan(&self.vec, k) {
            None => None,
            Some(i) => {
                let e = self.vec.remove(i);
                proof {
                    assert(keys_of(s0.remove(i as int)) =~= keys_of(s0).remove(i as int));
                    if vstd::laws_eq::obeys_eq::<K>() {
                        lemma_unique_keys_remove(keys_of(s0), i as int);
                    }
                }
                Some(e.1)
            }
        }
    }

    /// Removes the first entry whose key equals `k` and returns its value;
    /// the last entry moves into the vacated slot, so storage order is not
    /// preserved.
    pub fn swap_remove(&mut self, k: &K) -> (r: Option<V>)
        requires
            old(self).wf(),
        ensures
            final(self).wf(),
            K::obeys_eq_spec() ==> {
                &&& final(self)@ == spec_swap_remove(old(self)@, *k)
                &&& r == spec_get(old(self)@, *k)
            },
    {
        let ghost s0 = self@;
        match Self::scan(&self.vec, k) {
            None => None,
            Some(i) => {
                let e = self.vec.swap_remove(i);
                proof {
                    assert(keys_of(s0.update(i as int, s0.last()).drop_last()) =~= keys_of(
                        s0,
                    ).update(i as int, keys_of(s0).last()).drop_last());
                    if vstd::laws_eq::obeys_eq::<K>() {
                        reveal(vstd::laws_eq::obeys_eq_spec_properties);
                        lemma_unique_keys_swap_remove(keys_of(s0), i as int);
                    }
                }
                Some(e.1)
            }
        }
    }
}

} // verus!
