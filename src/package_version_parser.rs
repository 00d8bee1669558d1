//! Splitting "<name>-<version>" into its parts.

use vstd::prelude::*;
use crate::errors::VersionitisError;
use crate::text::{check_package_name, find_char, first_index, has_char, is_package_name, text_chars};
use crate::version_number::{parse_version_chars, parse_version_spec};

verus! {

/// The name and version texts of "<name>-<version>": a valid package name before
/// the first '-', and a version text after it.
pub open spec fn split_package_version_spec(s: Seq<char>) -> Option<(Seq<char>, Seq<char>)> {
    if has_char(s, '-') {
        let k = first_index(s, '-');
        if is_package_name(s.take(k)) && parse_version_spec(s.skip(k + 1)) is Some {
            Some((s.take(k), s.skip(k + 1)))
        } else {
            None
        }
    } else {
        None
    }
}

/// Splits package texts into name and version.
pub struct PackageVersionParser;

impl PackageVersionParser {
    /// Splits "<name>-<version>" into its name and its version text.
    pub fn parse(input: &str) -> (r: Result<(&str, &str), VersionitisError>)
        ensures
            match split_package_version_spec(input@) {
                Some(p) => r is Ok && r->Ok_0.0@ == p.0 && r->Ok_0.1@ == p.1,
                None => r matches Err(VersionitisError::ParseError(t, _)) && t@ == input@,
            },
    {
        let cs = text_chars(input);
        let n = cs.len();
        assert(cs@.subrange(0, n as int) =~= input@);
        if let Some(k) = find_char(&cs, 0, n, '-') {
            assert(cs@.subrange(0, k as int) =~= input@.take(k as int));
            assert(cs@.subrange(k + 1, n as int) =~= input@.skip(k + 1));
            if check_package_name(&cs, 0, k) {
                if parse_version_chars(&cs, k + 1, n).is_some() {
                    let name = input.substring_char(0, k);
                    let version = input.substring_char(k + 1, n);
                    return Ok((name, version));
                }
            }
        }
        Err(
            VersionitisError::ParseError(
                String::from_str(input),
                String::from_str("not of the form name-version"),
            ),
        )
    }
}

} // verus!
