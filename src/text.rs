//! Characters, whitespace and searches in texts.

use vstd::prelude::*;

verus! {

/// An ASCII decimal digit.
pub open spec fn is_digit(c: char) -> bool {
    '0' <= c && c <= '9'
}

/// The value of an ASCII decimal digit.
pub open spec fn digit_value(c: char) -> nat {
    ((c as int) - ('0' as int)) as nat
}

/// The character that writes a digit value below ten.
pub open spec fn digit_char(d: nat) -> char {
    ((d + ('0' as int)) as u32) as char
}

/// ASCII whitespace, as `char::is_ascii_whitespace` defines it.
pub open spec fn is_ws(c: char) -> bool {
    c == ' ' || c == '\t' || c == '\n' || c == '\r' || c == '\x0C'
}

/// The text without its leading whitespace.
pub open spec fn trim_start(s: Seq<char>) -> Seq<char>
    decreases s.len(),
{
    if s.len() > 0 && is_ws(s[0]) {
        trim_start(s.drop_first())
    } else {
        s
    }
}

/// The text without its trailing whitespace.
pub open spec fn trim_end(s: Seq<char>) -> Seq<char>
    decreases s.len(),
{
    if s.len() > 0 && is_ws(s.last()) {
        trim_end(s.drop_last())
    } else {
        s
    }
}

/// The text without leading and trailing whitespace.
pub open spec fn trim(s: Seq<char>) -> Seq<char> {
    trim_end(trim_start(s))
}

/// `k` is the first position of `c` in `s`.
pub open spec fn is_first(s: Seq<char>, c: char, k: int) -> bool {
    0 <= k < s.len() && s[k] == c && forall|j: int| 0 <= j < k ==> s[j] != c
}

/// Whether `c` occurs in `s`.
pub open spec fn has_char(s: Seq<char>, c: char) -> bool {
    exists|k: int| 0 <= k < s.len() && s[k] == c
}

/// The first position of `c` in `s`; meaningful when `c` occurs.
pub open spec fn first_index(s: Seq<char>, c: char) -> int {
    choose|k: int| is_first(s, c, k)
}

/// An occurrence of a character has a first one, and it is unique.
pub proof fn lemma_first_index(s: Seq<char>, c: char, k: int)
    requires
        0 <= k < s.len(),
        s[k] == c,
    ensures
        is_first(s, c, first_index(s, c)),
        forall|m: int| is_first(s, c, m) ==> m == first_index(s, c),
    decreases k,
{
    if forall|j: int| 0 <= j < k ==> s[j] != c {
        assert(is_first(s, c, k));
    } else {
        let j2 = choose|j2: int| 0 <= j2 < k && s[j2] == c;
        lemma_first_index(s, c, j2);
    }
    let f = first_index(s, c);
    assert forall|m: int| is_first(s, c, m) implies m == f by {
        if m < f {
            assert(s[m] == c);
        } else if f < m {
            assert(s[f] == c);
        }
    }
}

/// An ASCII letter.
pub open spec fn is_alpha(c: char) -> bool {
    ('a' <= c && c <= 'z') || ('A' <= c && c <= 'Z')
}

/// An ASCII letter or digit.
pub open spec fn is_alnum(c: char) -> bool {
    is_alpha(c) || is_digit(c)
}

/// A package name: a letter, then letters and digits, where single underscores may
/// stand between two letters or digits.
pub open spec fn is_package_name(n: Seq<char>) -> bool {
    &&& n.len() > 0
    &&& is_alpha(n[0])
    &&& forall|i: int|
        0 <= i < n.len() ==> is_alnum(#[trigger] n[i]) || (n[i] == '_' && i + 1 < n.len()
            && is_alnum(n[i + 1]))
}

/// The first position in `lo..hi` that holds `c`.
pub fn find_char(cs: &Vec<char>, lo: usize, hi: usize, c: char) -> (r: Option<usize>)
    requires
        lo <= hi <= cs@.len(),
    ensures
        match r {
            Some(k) => lo <= k < hi && is_first(
                cs@.subrange(lo as int, hi as int),
                c,
                k - lo,
            ) && first_index(cs@.subrange(lo as int, hi as int), c) == k - lo,
            None => !has_char(cs@.subrange(lo as int, hi as int), c),
        },
{
    let ghost s = cs@.subrange(lo as int, hi as int);
    let mut i = lo;
    while i < hi
        invariant
            lo <= i <= hi <= cs@.len(),
            s == cs@.subrange(lo as int, hi as int),
            forall|j: int| 0 <= j < i - lo ==> s[j] != c,
        decreases hi - i,
    {
        if cs[i] == c {
            proof {
                assert(s[i - lo] == c);
                lemma_first_index(s, c, i - lo);
                assert(is_first(s, c, i - lo));
            }
            return Some(i);
        }
        i = i + 1;
    }
    None
}

/// Whether the characters in `lo..hi` form a package name.
pub fn check_package_name(cs: &Vec<char>, lo: usize, hi: usize) -> (r: bool)
    requires
        lo <= hi <= cs@.len(),
    ensures
        r == is_package_name(cs@.subrange(lo as int, hi as int)),
{
    let ghost n = cs@.subrange(lo as int, hi as int);
    if lo == hi {
        return false;
    }
    let c0 = cs[lo];
    if !(('a' <= c0 && c0 <= 'z') || ('A' <= c0 && c0 <= 'Z')) {
        return false;
    }
    let mut i = lo;
    while i < hi
        invariant
            lo <= i <= hi <= cs@.len(),
            n == cs@.subrange(lo as int, hi as int),
            forall|j: int|
                0 <= j < i - lo ==> is_alnum(#[trigger] n[j]) || (n[j] == '_' && j + 1 < n.len()
                    && is_alnum(n[j + 1])),
        decreases hi - i,
    {
        let c = cs[i];
        let alnum = ('a' <= c && c <= 'z') || ('A' <= c && c <= 'Z') || ('0' <= c && c <= '9');
        if !alnum {
            if c != '_' || i + 1 >= hi {
                assert(!(is_alnum(n[i - lo]) || (n[i - lo] == '_' && i - lo + 1 < n.len()
                    && is_alnum(n[i - lo + 1]))));
                return false;
            }
            let d = cs[i + 1];
            let next_alnum = ('a' <= d && d <= 'z') || ('A' <= d && d <= 'Z') || ('0' <= d && d
                <= '9');
            if !next_alnum {
                assert(n[i - lo + 1] == d);
                assert(!(is_alnum(n[i - lo]) || (n[i - lo] == '_' && i - lo + 1 < n.len()
                    && is_alnum(n[i - lo + 1]))));
                return false;
            }
            assert(n[i - lo + 1] == d);
        }
        i = i + 1;
    }
    true
}

/// Whether two texts are equal.
pub fn text_eq(a: &str, b: &str) -> (r: bool)
    ensures
        r == (a@ == b@),
{
    String::from_str(a) == String::from_str(b)
}

/// Copies the characters of a text into a vector.
pub fn text_chars(s: &str) -> (r: Vec<char>)
    ensures
        r@ == s@,
{
    let n = s.unicode_len();
    let mut r: Vec<char> = Vec::new();
    let mut i: usize = 0;
    while i < n
        invariant
            n == s@.len(),
            i <= n,
            r@ == s@.take(i as int),
        decreases n - i,
    {
        let c = s.get_char(i);
        r.push(c);
        assert(r@ =~= s@.take(i + 1));
        i = i + 1;
    }
    assert(r@ =~= s@);
    r
}

/// The first position at or after `lo` whose character is not whitespace, or `hi`.
pub fn skip_ws(cs: &Vec<char>, lo: usize, hi: usize) -> (r: usize)
    requires
        lo <= hi <= cs@.len(),
    ensures
        lo <= r <= hi,
        cs@.subrange(r as int, hi as int) == trim_start(cs@.subrange(lo as int, hi as int)),
{
    let mut i = lo;
    while i < hi && is_ascii_ws(cs[i])
        invariant
            lo <= i <= hi <= cs@.len(),
            trim_start(cs@.subrange(i as int, hi as int)) == trim_start(
                cs@.subrange(lo as int, hi as int),
            ),
        decreases hi - i,
    {
        assert(cs@.subrange(i as int, hi as int).drop_first() =~= cs@.subrange(
            i + 1,
            hi as int,
        ));
        i = i + 1;
    }
    i
}

/// The end of the text in `lo..hi` without its trailing whitespace.
pub fn skip_ws_back(cs: &Vec<char>, lo: usize, hi: usize) -> (r: usize)
    requires
        lo <= hi <= cs@.len(),
    ensures
        lo <= r <= hi,
        cs@.subrange(lo as int, r as int) == trim_end(cs@.subrange(lo as int, hi as int)),
{
    let mut j = hi;
    while j > lo && is_ascii_ws(cs[j - 1])
        invariant
            lo <= j <= hi <= cs@.len(),
            trim_end(cs@.subrange(lo as int, j as int)) == trim_end(
                cs@.subrange(lo as int, hi as int),
            ),
        decreases j - lo,
    {
        assert(cs@.subrange(lo as int, j as int).drop_last() =~= cs@.subrange(
            lo as int,
            j - 1,
        ));
        j = j - 1;
    }
    j
}

/// Whether a character is ASCII whitespace.
pub fn is_ascii_ws(c: char) -> (r: bool)
    ensures
        r == is_ws(c),
{
    c == ' ' || c == '\t' || c == '\n' || c == '\r' || c == '\x0C'
}

} // verus!
