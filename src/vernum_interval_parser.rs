//! The compact text of an interval of versions, such as "1.2.3<2.0.0".

use vstd::prelude::*;
use crate::errors::VersionitisError;
use crate::interval::Interval;
use crate::text::{
    find_char, first_index, has_char, is_digit, is_first, is_ws, lemma_first_index, skip_ws,
    skip_ws_back, text_chars, trim, trim_end, trim_start,
};
use crate::version_number::{
    lemma_render_chars, lemma_render_parse_round_trip, parse_version_chars, parse_version_spec,
    render_version, VersionNumber,
};
use crate::version_number_interval::{render_interval, VersionNumberInterval};

verus! {

/// A quote character that may surround an interval.
pub open spec fn is_quote(c: char) -> bool {
    c == '\'' || c == '"'
}

/// The text inside matching surrounding quotes, the text itself when it has none,
/// or `None` for a quote left unmatched.
pub open spec fn unquote(t: Seq<char>) -> Option<Seq<char>> {
    if t.len() > 0 && is_quote(t[0]) {
        if t.len() >= 2 && t.last() == t[0] {
            Some(t.subrange(1, t.len() - 1))
        } else {
            None
        }
    } else if t.len() > 0 && is_quote(t.last()) {
        None
    } else {
        Some(t)
    }
}

/// The interval that an unquoted text denotes: one bound, or two bounds around
/// '<' (upper bound excluded) or "<=" (upper bound included), with whitespace
/// allowed around each part.
pub open spec fn interval_of_body(b: Seq<char>) -> Option<Interval<Seq<u16>>> {
    let t = trim(b);
    if has_char(t, '<') {
        let k = first_index(t, '<');
        let left = trim_end(t.take(k));
        let inclusive = k + 1 < t.len() && t[k + 1] == '=';
        let right = trim_start(
            if inclusive {
                t.skip(k + 2)
            } else {
                t.skip(k + 1)
            },
        );
        match (parse_version_spec(left), parse_version_spec(right)) {
            (Some(x), Some(y)) => if inclusive {
                Some(Interval::Open { start: x, end: y })
            } else {
                Some(Interval::HalfOpen { start: x, end: y })
            },
            _ => None,
        }
    } else {
        match parse_version_spec(t) {
            Some(v) => Some(Interval::Single(v)),
            None => None,
        }
    }
}

/// The interval that a text denotes: whitespace, an optional quote, the body, and
/// the matching quote.
pub open spec fn parse_interval_spec(s: Seq<char>) -> Option<Interval<Seq<u16>>> {
    match unquote(trim(s)) {
        Some(b) => interval_of_body(b),
        None => None,
    }
}

proof fn lemma_trim_keeps(t: Seq<char>)
    requires
        t.len() >= 1,
        !is_ws(t[0]),
        !is_ws(t.last()),
    ensures
        trim(t) == t,
        trim_start(t) == t,
        trim_end(t) == t,
{
}

/// The bounds of an interval have at least one component each.
pub open spec fn bounds_nonempty(i: Interval<Seq<u16>>) -> bool {
    match i {
        Interval::Single(v) => v.len() >= 1,
        Interval::HalfOpen { start, end } => start.len() >= 1 && end.len() >= 1,
        Interval::Open { start, end } => start.len() >= 1 && end.len() >= 1,
    }
}

/// Parsing the compact text of an interval gives the interval back.
pub proof fn lemma_interval_text_round_trip(i: Interval<Seq<u16>>)
    requires
        bounds_nonempty(i),
    ensures
        parse_interval_spec(render_interval(i)) == Some(i),
{
    let t = render_interval(i);
    match i {
        Interval::Single(v) => {
            lemma_render_chars(v);
            lemma_render_parse_round_trip(v);
            lemma_trim_keeps(t);
            assert(!has_char(t, '<')) by {
                assert forall|k: int| 0 <= k < t.len() implies t[k] != '<' by {
                    assert(is_digit(t[k]) || t[k] == '.');
                }
            }
        },
        Interval::HalfOpen { start, end } => {
            let rs = render_version(start);
            let re = render_version(end);
            lemma_render_chars(start);
            lemma_render_chars(end);
            lemma_render_parse_round_trip(start);
            lemma_render_parse_round_trip(end);
            assert(t == rs + seq!['<'] + re);
            let k = rs.len() as int;
            assert(t[0] == rs[0]);
            assert(t.last() == re.last());
            lemma_trim_keeps(t);
            assert(t[k] == '<');
            assert forall|j: int| 0 <= j < k implies t[j] != '<' by {
                assert(t[j] == rs[j]);
                assert(is_digit(rs[j]) || rs[j] == '.');
            }
            lemma_first_index(t, '<', k);
            assert(is_first(t, '<', k));
            assert(first_index(t, '<') == k);
            assert(t.take(k) =~= rs);
            lemma_trim_keeps(rs);
            assert(t[k + 1] == re[0]);
            assert(t.skip(k + 1) =~= re);
            lemma_trim_keeps(re);
        },
        Interval::Open { start, end } => {
            let rs = render_version(start);
            let re = render_version(end);
            lemma_render_chars(start);
            lemma_render_chars(end);
            lemma_render_parse_round_trip(start);
            lemma_render_parse_round_trip(end);
            assert(t == rs + seq!['<', '='] + re);
            let k = rs.len() as int;
            assert(t[0] == rs[0]);
            assert(t.last() == re.last());
            lemma_trim_keeps(t);
            assert(t[k] == '<');
            assert forall|j: int| 0 <= j < k implies t[j] != '<' by {
                assert(t[j] == rs[j]);
                assert(is_digit(rs[j]) || rs[j] == '.');
            }
            lemma_first_index(t, '<', k);
            assert(is_first(t, '<', k));
            assert(first_index(t, '<') == k);
            assert(t.take(k) =~= rs);
            lemma_trim_keeps(rs);
            assert(t[k + 1] == '=');
            assert(t.skip(k + 2) =~= re);
            lemma_trim_keeps(re);
        },
    }
}

/// Parses the characters in `lo..hi` as an interval text.
pub fn parse_interval_chars(cs: &Vec<char>, lo: usize, hi: usize) -> (r: Option<
    VersionNumberInterval,
>)
    requires
        lo <= hi <= cs@.len(),
    ensures
        match r {
            Some(i) => parse_interval_spec(cs@.subrange(lo as int, hi as int)) == Some(i@),
            None => parse_interval_spec(cs@.subrange(lo as int, hi as int)) is None,
        },
{
    let ghost s = cs@.subrange(lo as int, hi as int);
    let a = skip_ws(cs, lo, hi);
    let b = skip_ws_back(cs, a, hi);
    let ghost t = cs@.subrange(a as int, b as int);
    assert(t == trim(s));
    let mut blo = a;
    let mut bhi = b;
    if a < b && (cs[a] == '\'' || cs[a] == '"') {
        if b - a >= 2 && cs[b - 1] == cs[a] {
            blo = a + 1;
            bhi = b - 1;
            assert(cs@.subrange(blo as int, bhi as int) =~= t.subrange(1, t.len() - 1));
        } else {
            return None;
        }
    } else if a < b && (cs[b - 1] == '\'' || cs[b - 1] == '"') {
        return None;
    }
    let ghost body = cs@.subrange(blo as int, bhi as int);
    assert(unquote(t) == Some(body));
    let c = skip_ws(cs, blo, bhi);
    let d = skip_ws_back(cs, c, bhi);
    let ghost u = cs@.subrange(c as int, d as int);
    assert(u == trim(body));
    match find_char(cs, c, d, '<') {
        Some(k) => {
            let le = skip_ws_back(cs, c, k);
            assert(u.take(k - c) =~= cs@.subrange(c as int, k as int));
            let inclusive = k + 1 < d && cs[k + 1] == '=';
            let rs = if inclusive {
                k + 2
            } else {
                k + 1
            };
            let rstart = skip_ws(cs, rs, d);
            assert(u.skip(rs - c) =~= cs@.subrange(rs as int, d as int));
            proof {
                if inclusive {
                    assert(u[k - c + 1] == cs@[k + 1]);
                } else if k - c + 1 < u.len() {
                    assert(u[k - c + 1] == cs@[k + 1]);
                }
            }
            let x = parse_version_chars(cs, c, le);
            let y = parse_version_chars(cs, rstart, d);
            match (x, y) {
                (Some(x), Some(y)) => {
                    let start = VersionNumber::new(x);
                    let end = VersionNumber::new(y);
                    if inclusive {
                        Some(Interval::Open { start, end })
                    } else {
                        Some(Interval::HalfOpen { start, end })
                    }
                },
                _ => None,
            }
        },
        None => match parse_version_chars(cs, c, d) {
            Some(v) => Some(Interval::Single(VersionNumber::new(v))),
            None => None,
        },
    }
}

/// Parses the compact text of an interval of version numbers.
pub struct VerNumIntervalParser;

impl VerNumIntervalParser {
    /// Converts a text such as "1.2.3", "1.2.3 < 2.0.0" or "'1.2.3<=2.0.0'" into an
    /// interval of version numbers.
    pub fn parse(input: &str) -> (r: Result<VersionNumberInterval, VersionitisError>)
        ensures
            match parse_interval_spec(input@) {
                Some(i) => r is Ok && r->Ok_0@ == i,
                None => r matches Err(VersionitisError::ParseError(t, _)) && t@ == input@,
            },
    {
        let cs = text_chars(input);
        assert(cs@.subrange(0, cs@.len() as int) =~= input@);
        match parse_interval_chars(&cs, 0, cs.len()) {
            Some(i) => Ok(i),
            None => Err(
                VersionitisError::ParseError(
                    String::from_str(input),
                    String::from_str("not an interval of version numbers"),
                ),
            ),
        }
    }
}

} // verus!
