//! Intervals over an ordered type and their containment test.

use vstd::prelude::*;
use crate::traits::Versionable;

verus! {

/// The bounds of an interval, as texts not yet parsed.
#[derive(Debug, PartialEq, Eq)]
pub enum Range<'a> {
    Single(&'a str),
    HalfOpen(&'a str, &'a str),
    Open(&'a str, &'a str),
}

/// A range of values: a single value, a half-open range whose lower bound is
/// inclusive and upper bound exclusive, or an "open" range whose two bounds are
/// both inclusive.
#[derive(Debug, PartialEq, Eq, Hash, Clone)]
pub enum Interval<T> {
    Single(T),
    HalfOpen { start: T, end: T },
    Open { start: T, end: T },
}

impl<T: View> View for Interval<T> {
    type V = Interval<T::V>;

    open spec fn view(&self) -> Interval<T::V> {
        match self {
            Interval::Single(v) => Interval::Single(v@),
            Interval::HalfOpen { start, end } => Interval::HalfOpen { start: start@, end: end@ },
            Interval::Open { start, end } => Interval::Open { start: start@, end: end@ },
        }
    }
}

impl<T> Interval<T> {
    /// The representative bound: the value of a single-value interval, the lower
    /// bound of a range.
    pub open spec fn spec_element_key(&self) -> &T {
        match self {
            Interval::Single(v) => v,
            Interval::HalfOpen { start, end } => start,
            Interval::Open { start, end } => start,
        }
    }

    /// The representative bound: the value of a single-value interval, the lower
    /// bound of a range.
    pub fn element_key(&self) -> (r: &T)
        ensures
            r == self.spec_element_key(),
    {
        match self {
            Interval::Single(v) => v,
            Interval::HalfOpen { start, end: _ } => start,
            Interval::Open { start, end: _ } => start,
        }
    }
}

impl<T: Versionable> Interval<T> {
    /// Whether the interval holds a value: equal to a single value, or
    /// `start <= value < end` for a half-open range, `start <= value <= end` for an
    /// open one.
    pub open spec fn spec_contains(&self, value: &T) -> bool {
        match self {
            Interval::Single(v) => value.spec_same(v),
            Interval::HalfOpen { start, end } => !value.spec_precedes(start) && value.spec_precedes(
                end,
            ),
            Interval::Open { start, end } => !value.spec_precedes(start) && !end.spec_precedes(
                value,
            ),
        }
    }

    /// Tests whether the interval holds a value.
    pub fn contains(&self, value: &T) -> (r: bool)
        ensures
            r == self.spec_contains(value),
    {
        match self {
            Interval::Single(v) => value.same_as(v),
            Interval::HalfOpen { start, end } => !value.precedes(start) && value.precedes(end),
            Interval::Open { start, end } => !value.precedes(start) && !end.precedes(value),
        }
    }
}

/// A single-value interval holds its value and no other.
pub proof fn lemma_single_contains_only_its_value<T: Versionable>(v: T, w: T)
    ensures
        Interval::Single(v).spec_contains(&v),
        !w.spec_same(&v) ==> !Interval::Single(v).spec_contains(&w),
{
    T::lemma_order(&v, &w, &v);
}

/// A half-open interval never holds its upper bound; an open one holds it whenever
/// the bounds are in order.
pub proof fn lemma_upper_bound<T: Versionable>(start: T, end: T)
    ensures
        !(Interval::HalfOpen { start, end }).spec_contains(&end),
        !end.spec_precedes(&start) ==> (Interval::Open { start, end }).spec_contains(&end),
{
    T::lemma_order(&end, &start, &end);
}

} // verus!
