//! Intervals of version numbers and their compact text.

use vstd::prelude::*;
use crate::errors::VersionitisError;
use crate::interval::{Interval, Range};
use crate::traits::Versionable;
use crate::vernum_interval_parser::{parse_interval_spec, VerNumIntervalParser};
use crate::version_number::{parse_version_spec, render_version, version_lt, VersionNumber};

verus! {

/// An interval of version numbers.
pub type VersionNumberInterval = Interval<VersionNumber>;

/// Whether an interval of versions holds a version, over the components.
pub open spec fn interval_holds(i: Interval<Seq<u16>>, v: Seq<u16>) -> bool {
    match i {
        Interval::Single(x) => v == x,
        Interval::HalfOpen { start, end } => !version_lt(v, start) && version_lt(v, end),
        Interval::Open { start, end } => !version_lt(v, start) && !version_lt(end, v),
    }
}

/// The compact text of an interval: "<v>", "<start><<end>" or "<start><=<end>".
pub open spec fn render_interval(i: Interval<Seq<u16>>) -> Seq<char> {
    match i {
        Interval::Single(v) => render_version(v),
        Interval::HalfOpen { start, end } => render_version(start) + seq!['<'] + render_version(
            end,
        ),
        Interval::Open { start, end } => render_version(start) + seq!['<', '='] + render_version(
            end,
        ),
    }
}

/// The interval whose bounds a `Range` writes, when every bound is a version text.
pub open spec fn range_interval_spec(r: Range) -> Option<Interval<Seq<u16>>> {
    match r {
        Range::Single(a) => match parse_version_spec(a@) {
            Some(v) => Some(Interval::Single(v)),
            None => None,
        },
        Range::HalfOpen(a, b) => match (parse_version_spec(a@), parse_version_spec(b@)) {
            (Some(x), Some(y)) => Some(Interval::HalfOpen { start: x, end: y }),
            _ => None,
        },
        Range::Open(a, b) => match (parse_version_spec(a@), parse_version_spec(b@)) {
            (Some(x), Some(y)) => Some(Interval::Open { start: x, end: y }),
            _ => None,
        },
    }
}

impl Interval<VersionNumber> {
    /// Parses the compact text of an interval.
    pub fn from_str(name: &str) -> (r: Result<VersionNumberInterval, VersionitisError>)
        ensures
            match parse_interval_spec(name@) {
                Some(i) => r is Ok && r->Ok_0@ == i,
                None => r matches Err(VersionitisError::ParseError(t, _)) && t@ == name@,
            },
    {
        VerNumIntervalParser::parse(name)
    }

    /// The compact text of the interval.
    pub fn to_range(&self) -> (r: String)
        ensures
            r@ == render_interval(self@),
    {
        proof {
            reveal_strlit("<");
            reveal_strlit("<=");
        }
        match self {
            Interval::Single(v) => v.to_string(),
            Interval::HalfOpen { start, end } => {
                let mut r = start.to_string();
                r.append("<");
                let e = end.to_string();
                r.append(e.as_str());
                r
            },
            Interval::Open { start, end } => {
                let mut r = start.to_string();
                r.append("<=");
                let e = end.to_string();
                r.append(e.as_str());
                assert(r@ =~= render_interval(self@));
                r
            },
        }
    }

    /// Constructs an interval from the texts of its bounds.
    pub fn from_range(input: &Range) -> (r: Result<VersionNumberInterval, VersionitisError>)
        ensures
            match range_interval_spec(*input) {
                Some(i) => r is Ok && r->Ok_0@ == i,
                None => r matches Err(VersionitisError::ParseError(_, _)),
            },
    {
        match input {
            Range::Single(a) => {
                let v = VersionNumber::from_str(a)?;
                Ok(Interval::Single(v))
            },
            Range::HalfOpen(a, b) => {
                let start = VersionNumber::from_str(a)?;
                let end = VersionNumber::from_str(b)?;
                Ok(Interval::HalfOpen { start, end })
            },
            Range::Open(a, b) => {
                let start = VersionNumber::from_str(a)?;
                let end = VersionNumber::from_str(b)?;
                Ok(Interval::Open { start, end })
            },
        }
    }

    /// Whether the two intervals are of the same kind with the same bounds.
    pub fn same_interval(&self, other: &Self) -> (r: bool)
        ensures
            r == (self@ == other@),
    {
        match (self, other) {
            (Interval::Single(a), Interval::Single(b)) => a.same_as(b),
            (
                Interval::HalfOpen { start: a, end: b },
                Interval::HalfOpen { start: c, end: d },
            ) => a.same_as(c) && b.same_as(d),
            (Interval::Open { start: a, end: b }, Interval::Open { start: c, end: d }) => a.same_as(
                c,
            ) && b.same_as(d),
            _ => false,
        }
    }

    /// A copy of the interval.
    pub fn duplicate(&self) -> (r: Self)
        ensures
            r@ == self@,
    {
        match self {
            Interval::Single(v) => Interval::Single(v.duplicate()),
            Interval::HalfOpen { start, end } => Interval::HalfOpen {
                start: start.duplicate(),
                end: end.duplicate(),
            },
            Interval::Open { start, end } => Interval::Open {
                start: start.duplicate(),
                end: end.duplicate(),
            },
        }
    }
}

} // verus!
