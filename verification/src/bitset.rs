//! What this library assumes of `fixedbitset::FixedBitSet`.
//!
//! A bit set is modelled by the sequence of its bits: position `i` of
//! `bits(s)` is `true` exactly when bit `i` is enabled, and the length of the
//! sequence is the number of bits the set was made with.

use fixedbitset::FixedBitSet;
use vstd::prelude::*;

verus! {

/// The outside type `fixedbitset::FixedBitSet`, opaque to the verifier.
#[verifier::external_type_specification]
#[verifier::external_body]
pub struct ExFixedBitSet(FixedBitSet);

/// The bits that a `FixedBitSet` holds, in index order.
pub uninterp spec fn bits(s: FixedBitSet) -> Seq<bool>;

/// `FixedBitSet::with_capacity`: a set of `n` bits, all of them clear.
pub assume_specification[ FixedBitSet::with_capacity ](n: usize) -> (s: FixedBitSet)
    ensures
        bits(s) == Seq::new(n as nat, |i: int| false),
;

/// `FixedBitSet::len`: the number of bits, set or not.
pub assume_specification[ FixedBitSet::len ](s: &FixedBitSet) -> (n: usize)
    ensures
        n == bits(*s).len(),
;

/// `FixedBitSet::contains`: the bit at `at`, and `false` past the end.
pub assume_specification[ FixedBitSet::contains ](s: &FixedBitSet, at: usize) -> (b: bool)
    ensures
        b == (at < bits(*s).len() && bits(*s)[at as int]),
;

/// `FixedBitSet::set`: writes `enabled` at `at` and leaves the other bits.
/// The outside function panics when `at` is past the end.
pub assume_specification[ FixedBitSet::set ](s: &mut FixedBitSet, at: usize, enabled: bool)
    requires
        at < bits(*old(s)).len(),
    ensures
        bits(*final(s)) == bits(*old(s)).update(at as int, enabled),
;

/// `FixedBitSet::insert`: enables `at` and leaves the other bits.
/// The outside function panics when `at` is past the end.
pub assume_specification[ FixedBitSet::insert ](s: &mut FixedBitSet, at: usize)
    requires
        at < bits(*old(s)).len(),
    ensures
        bits(*final(s)) == bits(*old(s)).update(at as int, true),
;

/// `FixedBitSet::toggle`: inverts `at` and leaves the other bits.
/// The outside function panics when `at` is past the end.
pub assume_specification[ FixedBitSet::toggle ](s: &mut FixedBitSet, at: usize)
    requires
        at < bits(*old(s)).len(),
    ensures
        bits(*final(s)) == bits(*old(s)).update(at as int, !bits(*old(s))[at as int]),
;

/// `FixedBitSet::clear`: disables every bit and keeps the length.
pub assume_specification[ FixedBitSet::clear ](s: &mut FixedBitSet)
    ensures
        bits(*final(s)) == Seq::new(bits(*old(s)).len(), |i: int| false),
;

} // verus!
