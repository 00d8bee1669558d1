//! The compact text of a package interval, such as "foo: '1.2.3<2.0.0'".

use vstd::prelude::*;
use crate::errors::VersionitisError;
use crate::interval::Interval;
use crate::package_interval::PackageInterval;
use crate::text::{
    check_package_name, find_char, first_index, has_char, is_package_name, skip_ws, skip_ws_back,
    text_chars, trim, trim_end,
};
use crate::vernum_interval_parser::{parse_interval_chars, parse_interval_spec};

verus! {

/// The position of the first ':' or '=' in a text that holds one.
pub open spec fn separator_index(t: Seq<char>) -> int {
    if has_char(t, ':') && (!has_char(t, '=') || first_index(t, ':') < first_index(t, '=')) {
        first_index(t, ':')
    } else {
        first_index(t, '=')
    }
}

/// The package interval that "<name>: <interval>" or "<name> = <interval>" denotes,
/// with whitespace allowed around each part and the interval optionally quoted.
pub open spec fn parse_package_interval_spec(s: Seq<char>) -> Option<
    (Seq<char>, Interval<Seq<u16>>),
> {
    let t = trim(s);
    if has_char(t, ':') || has_char(t, '=') {
        let k = separator_index(t);
        let name = trim_end(t.take(k));
        if is_package_name(name) {
            match parse_interval_spec(t.skip(k + 1)) {
                Some(i) => Some((name, i)),
                None => None,
            }
        } else {
            None
        }
    } else {
        None
    }
}

/// Parses package intervals written with a package name.
pub struct PackageIntervalParser;

impl PackageIntervalParser {
    /// Converts a text such as "foo: '1.2.3<2.0.0'" or "foo = 1.2.3 <= 2.0.0" into
    /// a package interval.
    pub fn parse(input: &str) -> (r: Result<PackageInterval, VersionitisError>)
        ensures
            match parse_package_interval_spec(input@) {
                Some(p) => r is Ok && r->Ok_0@ == p,
                None => r matches Err(VersionitisError::ParseError(t, _)) && t@ == input@,
            },
    {
        let cs = text_chars(input);
        let n = cs.len();
        assert(cs@.subrange(0, n as int) =~= input@);
        let a = skip_ws(&cs, 0, n);
        let b = skip_ws_back(&cs, a, n);
        let ghost t = cs@.subrange(a as int, b as int);
        assert(t == trim(input@));
        let colon = find_char(&cs, a, b, ':');
        let equals = find_char(&cs, a, b, '=');
        let sep = match (colon, equals) {
            (Some(x), Some(y)) => if x < y {
                Some(x)
            } else {
                Some(y)
            },
            (Some(x), None) => Some(x),
            (None, Some(y)) => Some(y),
            (None, None) => None,
        };
        if let Some(k) = sep {
            assert(k - a == separator_index(t));
            let ne = skip_ws_back(&cs, a, k);
            assert(t.take(k - a) =~= cs@.subrange(a as int, k as int));
            assert(t.skip(k - a + 1) =~= cs@.subrange(k + 1, b as int));
            if check_package_name(&cs, a, ne) {
                if let Some(i) = parse_interval_chars(&cs, k + 1, b) {
                    let name = input.substring_char(a, ne);
                    assert(name@ =~= cs@.subrange(a as int, ne as int));
                    return Ok(PackageInterval::new(name, i));
                }
            }
        }
        Err(
            VersionitisError::ParseError(
                String::from_str(input),
                String::from_str("not a package interval"),
            ),
        )
    }
}

} // verus!
