//! The order and equality that interval bounds need.

use vstd::prelude::*;

verus! {

/// A version scheme: values with a strict total order and an equality, both
/// decidable by executable methods.
pub trait Versionable: Sized {
    /// This value sorts strictly before the other.
    spec fn spec_precedes(&self, other: &Self) -> bool;

    /// The two values are equal.
    spec fn spec_same(&self, other: &Self) -> bool;

    /// Whether this value sorts strictly before the other.
    fn precedes(&self, other: &Self) -> (r: bool)
        ensures
            r == self.spec_precedes(other),
    ;

    /// Whether the two values are equal.
    fn same_as(&self, other: &Self) -> (r: bool)
        ensures
            r == self.spec_same(other),
    ;

    /// The order is strict and total, and equality is an equivalence that the
    /// order respects.
    proof fn lemma_order(a: &Self, b: &Self, c: &Self)
        ensures
            a.spec_same(a),
            !a.spec_precedes(a),
            a.spec_same(b) ==> b.spec_same(a),
            a.spec_same(b) ==> !a.spec_precedes(b),
            a.spec_same(b) && b.spec_same(c) ==> a.spec_same(c),
            a.spec_precedes(b) ==> !b.spec_precedes(a),
            a.spec_precedes(b) && b.spec_precedes(c) ==> a.spec_precedes(c),
            !a.spec_same(b) ==> a.spec_precedes(b) || b.spec_precedes(a),
    ;
}

} // verus!
