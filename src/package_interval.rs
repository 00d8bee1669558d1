//! Intervals of versions of one named package.

use vstd::prelude::*;
use crate::errors::VersionitisError;
use crate::interval::Range;
use crate::interval::Interval;
use crate::package::{lemma_name_order, package_lt, parse_package_spec, Package};
use crate::text::{
    find_char, first_index, has_char, is_first, lemma_first_index, text_chars, text_eq,
};
use crate::vernum_interval_parser::{
    bounds_nonempty, lemma_interval_text_round_trip, parse_interval_chars, parse_interval_spec,
};
use crate::version_number_interval::{interval_holds, render_interval, VersionNumberInterval};

verus! {

/// The package interval that "<name>-<interval>" denotes: the name is what stands
/// before the first '-'.
pub open spec fn parse_named_interval_spec(s: Seq<char>) -> Option<(Seq<char>, Interval<Seq<u16>>)> {
    if has_char(s, '-') {
        let k = first_index(s, '-');
        match parse_interval_spec(s.skip(k + 1)) {
            Some(i) => Some((s.take(k), i)),
            None => None,
        }
    } else {
        None
    }
}

/// The package interval whose bounds a `Range` writes as "<name>-<version>", when
/// every bound is such a text and all bounds have the same name.
pub open spec fn package_range_spec(r: Range) -> Option<(Seq<char>, Interval<Seq<u16>>)> {
    match r {
        Range::Single(a) => match parse_package_spec(a@) {
            Some(p) => Some((p.0, Interval::Single(p.1))),
            None => None,
        },
        Range::HalfOpen(a, b) => match (parse_package_spec(a@), parse_package_spec(b@)) {
            (Some(p), Some(q)) => if p.0 == q.0 {
                Some((p.0, Interval::HalfOpen { start: p.1, end: q.1 }))
            } else {
                None
            },
            _ => None,
        },
        Range::Open(a, b) => match (parse_package_spec(a@), parse_package_spec(b@)) {
            (Some(p), Some(q)) => if p.0 == q.0 {
                Some((p.0, Interval::Open { start: p.1, end: q.1 }))
            } else {
                None
            },
            _ => None,
        },
    }
}

/// The interval over packages whose bounds all carry the name.
pub open spec fn named_bounds(
    name: Seq<char>,
    i: Interval<Seq<u16>>,
) -> Interval<(Seq<char>, Seq<u16>)> {
    match i {
        Interval::Single(v) => Interval::Single((name, v)),
        Interval::HalfOpen { start, end } => Interval::HalfOpen { start: (name, start), end: (name, end) },
        Interval::Open { start, end } => Interval::Open { start: (name, start), end: (name, end) },
    }
}

/// Whether an interval over packages holds a package, in the order of packages.
pub open spec fn package_interval_holds(
    i: Interval<(Seq<char>, Seq<u16>)>,
    p: (Seq<char>, Seq<u16>),
) -> bool {
    match i {
        Interval::Single(v) => p == v,
        Interval::HalfOpen { start, end } => !package_lt(p, start) && package_lt(p, end),
        Interval::Open { start, end } => !package_lt(p, start) && !package_lt(end, p),
    }
}

/// A package interval holds exactly the packages that the interval over packages
/// with the name on both bounds holds.
pub proof fn lemma_named_bounds_agree(
    name: Seq<char>,
    i: Interval<Seq<u16>>,
    p: (Seq<char>, Seq<u16>),
)
    ensures
        package_interval_holds(named_bounds(name, i), p) == (p.0 == name && interval_holds(i, p.1)),
{
    lemma_name_order(p.0, name, p.0);
}

/// The text of a package interval: the name once, '-', then the compact text of
/// the interval of versions.
pub open spec fn render_named_interval(p: (Seq<char>, Interval<Seq<u16>>)) -> Seq<char> {
    p.0 + seq!['-'] + render_interval(p.1)
}

/// Parsing the text of a package interval gives it back, when its name holds no
/// '-' and its bounds have at least one component.
pub proof fn lemma_named_interval_text_round_trip(p: (Seq<char>, Interval<Seq<u16>>))
    requires
        !has_char(p.0, '-'),
        bounds_nonempty(p.1),
    ensures
        parse_named_interval_spec(render_named_interval(p)) == Some(p),
{
    let t = render_named_interval(p);
    let k = p.0.len() as int;
    assert(t[k] == '-');
    assert forall|j: int| 0 <= j < k implies t[j] != '-' by {
        assert(t[j] == p.0[j]);
    }
    lemma_first_index(t, '-', k);
    assert(is_first(t, '-', k));
    assert(t.take(k) =~= p.0);
    assert(t.skip(k + 1) =~= render_interval(p.1));
    lemma_interval_text_round_trip(p.1);
}

/// A range of versions of one named package.
#[derive(Debug, PartialEq, Eq, Clone)]
pub struct PackageInterval {
    name: String,
    interval: VersionNumberInterval,
}

impl View for PackageInterval {
    type V = (Seq<char>, Interval<Seq<u16>>);

    closed spec fn view(&self) -> (Seq<char>, Interval<Seq<u16>>) {
        (self.name@, self.interval@)
    }
}

impl PackageInterval {
    /// Constructs a package interval from a name and an interval of versions.
    pub fn new(name: &str, interval: VersionNumberInterval) -> (r: Self)
        ensures
            r@ == (name@, interval@),
    {
        PackageInterval { name: String::from_str(name), interval }
    }

    /// Parses "<name>-<interval>", such as "foo-1.2.3<2.0.0".
    pub fn from_str(name: &str) -> (r: Result<PackageInterval, VersionitisError>)
        ensures
            match parse_named_interval_spec(name@) {
                Some(p) => r is Ok && r->Ok_0@ == p,
                None => r matches Err(VersionitisError::ParseError(t, _)) && t@ == name@,
            },
    {
        let cs = text_chars(name);
        let n = cs.len();
        assert(cs@.subrange(0, n as int) =~= name@);
        if let Some(k) = find_char(&cs, 0, n, '-') {
            assert(cs@.subrange(k + 1, n as int) =~= name@.skip(k + 1));
            if let Some(i) = parse_interval_chars(&cs, k + 1, n) {
                let pname = name.substring_char(0, k);
                assert(pname@ =~= name@.take(k as int));
                return Ok(PackageInterval { name: String::from_str(pname), interval: i });
            }
        }
        Err(
            VersionitisError::ParseError(
                String::from_str(name),
                String::from_str("not a package interval"),
            ),
        )
    }

    /// Constructs a package interval from bounds written "<name>-<version>".
    pub fn from_range(input: &Range) -> (r: Result<PackageInterval, VersionitisError>)
        ensures
            match package_range_spec(*input) {
                Some(p) => r is Ok && r->Ok_0@ == p,
                None => r matches Err(VersionitisError::ParseError(_, _)),
            },
    {
        match input {
            Range::Single(a) => {
                let p = Package::from_str(a)?;
                Ok(
                    PackageInterval {
                        name: String::from_str(p.name()),
                        interval: Interval::Single(p.version_number().duplicate()),
                    },
                )
            },
            Range::HalfOpen(a, b) => {
                let p = Package::from_str(a)?;
                let q = Package::from_str(b)?;
                if !text_eq(p.name(), q.name()) {
                    return Err(
                        VersionitisError::ParseError(
                            String::from_str(b),
                            String::from_str("bounds name different packages"),
                        ),
                    );
                }
                Ok(
                    PackageInterval {
                        name: String::from_str(p.name()),
                        interval: Interval::HalfOpen {
                            start: p.version_number().duplicate(),
                            end: q.version_number().duplicate(),
                        },
                    },
                )
            },
            Range::Open(a, b) => {
                let p = Package::from_str(a)?;
                let q = Package::from_str(b)?;
                if !text_eq(p.name(), q.name()) {
                    return Err(
                        VersionitisError::ParseError(
                            String::from_str(b),
                            String::from_str("bounds name different packages"),
                        ),
                    );
                }
                Ok(
                    PackageInterval {
                        name: String::from_str(p.name()),
                        interval: Interval::Open {
                            start: p.version_number().duplicate(),
                            end: q.version_number().duplicate(),
                        },
                    },
                )
            },
        }
    }

    /// The interval over packages, with the name on every bound.
    pub fn to_packages(&self) -> (r: Interval<Package>)
        ensures
            r@ == named_bounds(self@.0, self@.1),
    {
        let name = self.name.as_str();
        match &self.interval {
            Interval::Single(v) => Interval::Single(Package::new(name, v.duplicate())),
            Interval::HalfOpen { start, end } => Interval::HalfOpen {
                start: Package::new(name, start.duplicate()),
                end: Package::new(name, end.duplicate()),
            },
            Interval::Open { start, end } => Interval::Open {
                start: Package::new(name, start.duplicate()),
                end: Package::new(name, end.duplicate()),
            },
        }
    }

    /// The text of the package interval, such as "foo-1.2.3<2.0.0".
    pub fn to_range(&self) -> (r: String)
        ensures
            r@ == render_named_interval(self@),
    {
        let mut r = String::from_str(self.name.as_str());
        proof {
            reveal_strlit("-");
        }
        r.append("-");
        let i = self.interval.to_range();
        r.append(i.as_str());
        r
    }

    /// The interval of versions.
    pub fn interval(&self) -> (r: VersionNumberInterval)
        ensures
            r@ == self@.1,
    {
        self.interval.duplicate()
    }

    /// The name of the package.
    pub fn package_name(&self) -> (r: &str)
        ensures
            r@ == self@.0,
    {
        self.name.as_str()
    }

    /// The name of the package.
    pub fn name(&self) -> (r: &str)
        ensures
            r@ == self@.0,
    {
        self.name.as_str()
    }

    /// Whether a package has this name and a version in the interval.
    pub fn contains(&self, package: &Package) -> (r: bool)
        ensures
            r == (package@.0 == self@.0 && interval_holds(self@.1, package@.1)),
    {
        let same_name = text_eq(self.name.as_str(), package.name());
        same_name && self.interval.contains(package.version_number())
    }
}

} // verus!
