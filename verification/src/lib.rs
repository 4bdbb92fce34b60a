//! Associative containers for key types that support only equality.
//!
//! Keys here need neither a hash nor a total order: membership is decided by a
//! linear scan comparing keys with `==`.  That admits key types that a
//! `HashMap` or `BTreeMap` cannot take, at the price of `O(n)` lookup.
//!
//! The same container contract is realized twice:
//!
//! * [`NoHashMapMultiVec`] keeps keys and values in two index-aligned vectors
//!   (a structure-of-arrays layout, cheap key-only or value-only scans);
//! * [`NoHashMapVecTuple`] keeps one vector of key/value pairs (an
//!   array-of-structures layout, cheap paired iteration and single-vector
//!   structural edits).
//!
//! Both describe their behaviour through the entry-sequence model of
//! [`model`], so a caller can reason about either layout with the same
//! specification vocabulary; [`laws`] proves the container laws once, over
//! that shared model.

use vstd::prelude::*;

pub mod laws;
pub mod model;
pub mod multivec;
pub mod vectuple;
mod vecext;

pub use multivec::NoHashMapMultiVec;
pub use vectuple::NoHashMapVecTuple;

verus! {

/// The default layout, as [`NoHashMapMultiVec`].
pub type NoHashMap<K, V> = NoHashMapMultiVec<K, V>;

} // verus!
