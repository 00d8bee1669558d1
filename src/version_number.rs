//! Version numbers: their components, order, canonical text and parser.

use vstd::prelude::*;
use crate::errors::VersionitisError;
use crate::text::{digit_char, digit_value, is_digit, text_chars};
use crate::traits::Versionable;

verus! {

/// Splits a text at every '.', as `str::split('.')` does: a text without a dot is
/// one piece, and each dot starts a new (possibly empty) piece.
pub open spec fn split_dots(s: Seq<char>) -> Seq<Seq<char>>
    decreases s.len(),
{
    if s.len() == 0 {
        seq![Seq::<char>::empty()]
    } else {
        let prev = split_dots(s.drop_last());
        if s.last() == '.' {
            prev.push(Seq::<char>::empty())
        } else {
            prev.update(prev.len() - 1, prev.last().push(s.last()))
        }
    }
}

/// The decimal value of a run of digits.
pub open spec fn digits_value(t: Seq<char>) -> nat
    decreases t.len(),
{
    if t.len() == 0 {
        0
    } else {
        10 * digits_value(t.drop_last()) + digit_value(t.last())
    }
}

/// A non-empty run of decimal digits.
pub open spec fn is_number_token(t: Seq<char>) -> bool {
    t.len() > 0 && forall|i: int| 0 <= i < t.len() ==> is_digit(#[trigger] t[i])
}

/// A component of a version: a run of digits whose value fits in 16 bits.
pub open spec fn is_component(t: Seq<char>) -> bool {
    is_number_token(t) && digits_value(t) <= u16::MAX
}

/// The value of a version component.
pub open spec fn component_value(t: Seq<char>) -> u16 {
    digits_value(t) as u16
}

/// The components that a version text denotes, or `None` when some piece between
/// dots is not a run of digits whose value fits in 16 bits.
pub open spec fn parse_version_spec(s: Seq<char>) -> Option<Seq<u16>> {
    let toks = split_dots(s);
    if forall|i: int| 0 <= i < toks.len() ==> is_component(#[trigger] toks[i]) {
        Some(toks.map_values(|t: Seq<char>| component_value(t)))
    } else {
        None
    }
}

/// The canonical decimal writing of a number: no leading zero.
pub open spec fn decimal(n: nat) -> Seq<char>
    decreases n,
{
    if n < 10 {
        seq![digit_char(n)]
    } else {
        decimal(n / 10).push(digit_char(n % 10))
    }
}

/// The canonical text of a version: its components in decimal, joined by '.'.
pub open spec fn render_version(v: Seq<u16>) -> Seq<char>
    decreases v.len(),
{
    if v.len() == 0 {
        Seq::empty()
    } else if v.len() == 1 {
        decimal(v[0] as nat)
    } else {
        render_version(v.drop_last()) + seq!['.'] + decimal(v.last() as nat)
    }
}

/// Strict lexicographic order: compared from the first element; a strict prefix
/// comes first.
pub open spec fn lex_lt(a: Seq<int>, b: Seq<int>) -> bool
    decreases a.len(),
{
    if b.len() == 0 {
        false
    } else if a.len() == 0 {
        true
    } else if a[0] != b[0] {
        a[0] < b[0]
    } else {
        lex_lt(a.drop_first(), b.drop_first())
    }
}

/// The components of a version as integers.
pub open spec fn version_key(v: Seq<u16>) -> Seq<int> {
    v.map_values(|x: u16| x as int)
}

/// The order of versions: lexicographic on the components.
pub open spec fn version_lt(a: Seq<u16>, b: Seq<u16>) -> bool {
    lex_lt(version_key(a), version_key(b))
}

pub proof fn lemma_split_dots_nonempty(s: Seq<char>)
    ensures
        split_dots(s).len() >= 1,
    decreases s.len(),
{
    if s.len() > 0 {
        lemma_split_dots_nonempty(s.drop_last());
    }
}

pub proof fn lemma_lex_irreflexive(a: Seq<int>)
    ensures
        !lex_lt(a, a),
    decreases a.len(),
{
    if a.len() > 0 {
        lemma_lex_irreflexive(a.drop_first());
    }
}

pub proof fn lemma_lex_asymmetric(a: Seq<int>, b: Seq<int>)
    ensures
        lex_lt(a, b) ==> !lex_lt(b, a),
    decreases a.len(),
{
    if a.len() > 0 && b.len() > 0 {
        lemma_lex_asymmetric(a.drop_first(), b.drop_first());
    }
}

pub proof fn lemma_lex_transitive(a: Seq<int>, b: Seq<int>, c: Seq<int>)
    ensures
        lex_lt(a, b) && lex_lt(b, c) ==> lex_lt(a, c),
    decreases a.len(),
{
    if a.len() > 0 && b.len() > 0 && c.len() > 0 {
        lemma_lex_transitive(a.drop_first(), b.drop_first(), c.drop_first());
    }
}

pub proof fn lemma_lex_total(a: Seq<int>, b: Seq<int>)
    ensures
        a != b ==> lex_lt(a, b) || lex_lt(b, a),
    decreases a.len(),
{
    if a.len() > 0 && b.len() > 0 {
        lemma_lex_total(a.drop_first(), b.drop_first());
        if a[0] == b[0] && a.drop_first() == b.drop_first() {
            assert(a =~= seq![a[0]] + a.drop_first());
            assert(b =~= seq![b[0]] + b.drop_first());
        }
    } else if a.len() == 0 && b.len() == 0 {
        assert(a =~= b);
    }
}

/// Whether a strict prefix comes first in lexicographic order.
pub proof fn lemma_lex_prefix(a: Seq<int>, b: Seq<int>)
    requires
        a.len() < b.len(),
        a == b.take(a.len() as int),
    ensures
        lex_lt(a, b),
    decreases a.len(),
{
    if a.len() > 0 {
        assert(a.drop_first() =~= b.drop_first().take(a.len() - 1));
        lemma_lex_prefix(a.drop_first(), b.drop_first());
    }
}

pub proof fn lemma_version_key_injective(a: Seq<u16>, b: Seq<u16>)
    ensures
        version_key(a) == version_key(b) ==> a == b,
{
    if version_key(a) == version_key(b) {
        assert(a.len() == version_key(a).len());
        assert forall|i: int| 0 <= i < a.len() implies a[i] == b[i] by {
            assert(version_key(a)[i] == version_key(b)[i]);
        }
        assert(a =~= b);
    }
}

/// The order of versions is a strict total order.
pub proof fn lemma_version_order(a: Seq<u16>, b: Seq<u16>, c: Seq<u16>)
    ensures
        !version_lt(a, a),
        version_lt(a, b) ==> !version_lt(b, a),
        version_lt(a, b) && version_lt(b, c) ==> version_lt(a, c),
        a != b ==> version_lt(a, b) || version_lt(b, a),
{
    lemma_lex_irreflexive(version_key(a));
    lemma_lex_asymmetric(version_key(a), version_key(b));
    lemma_lex_transitive(version_key(a), version_key(b), version_key(c));
    lemma_version_key_injective(a, b);
    lemma_lex_total(version_key(a), version_key(b));
}

/// A version number: a sequence of 16-bit components, compared lexicographically.
/// Parsing always gives at least one component.
#[derive(Debug, PartialEq, Eq, PartialOrd, Ord, Hash, Clone)]
pub struct VersionNumber {
    value: Vec<u16>,
}

impl View for VersionNumber {
    type V = Seq<u16>;

    closed spec fn view(&self) -> Seq<u16> {
        self.value@
    }
}

/// The text of one decimal digit.
fn digit_text(d: u16) -> (r: &'static str)
    requires
        d < 10,
    ensures
        r@ == seq![digit_char(d as nat)],
{
    proof {
        reveal_strlit("0");
        reveal_strlit("1");
        reveal_strlit("2");
        reveal_strlit("3");
        reveal_strlit("4");
        reveal_strlit("5");
        reveal_strlit("6");
        reveal_strlit("7");
        reveal_strlit("8");
        reveal_strlit("9");
    }
    let r = match d {
        0 => "0",
        1 => "1",
        2 => "2",
        3 => "3",
        4 => "4",
        5 => "5",
        6 => "6",
        7 => "7",
        8 => "8",
        _ => "9",
    };
    assert(r@ =~= seq![digit_char(d as nat)]);
    r
}

/// The canonical decimal text of a number.
pub fn decimal_text(n: u16) -> (r: String)
    ensures
        r@ == decimal(n as nat),
    decreases n,
{
    if n < 10 {
        String::from_str(digit_text(n))
    } else {
        let mut s = decimal_text(n / 10);
        s.append(digit_text(n % 10));
        s
    }
}

/// Parses the characters in `lo..hi` as a version text.
pub fn parse_version_chars(cs: &Vec<char>, lo: usize, hi: usize) -> (r: Option<Vec<u16>>)
    requires
        lo <= hi <= cs@.len(),
    ensures
        match r {
            Some(v) => parse_version_spec(cs@.subrange(lo as int, hi as int)) == Some(v@)
                && v@.len() >= 1,
            None => parse_version_spec(cs@.subrange(lo as int, hi as int)) is None,
        },
{
    let mut vals: Vec<u16> = Vec::new();
    let mut all_ok = true;
    let mut cur: u32 = 0;
    let mut cur_len: usize = 0;
    let mut cur_digits = true;
    let mut i = lo;
    proof {
        assert(cs@.subrange(lo as int, lo as int) =~= Seq::<char>::empty());
        assert(split_dots(Seq::<char>::empty()).last() =~= Seq::<char>::empty());
    }
    while i < hi
        invariant
            lo <= i <= hi <= cs@.len(),
            split_dots(cs@.subrange(lo as int, i as int)).len() >= 1,
            all_ok == forall|k: int|
                0 <= k < split_dots(cs@.subrange(lo as int, i as int)).len() - 1
                    ==> is_component(#[trigger] split_dots(cs@.subrange(lo as int, i as int))[k]),
            all_ok ==> vals@ == split_dots(cs@.subrange(lo as int, i as int)).take(
                split_dots(cs@.subrange(lo as int, i as int)).len() - 1,
            ).map_values(|t: Seq<char>| component_value(t)),
            cur_len == split_dots(cs@.subrange(lo as int, i as int)).last().len(),
            cur_digits == forall|j: int|
                0 <= j < split_dots(cs@.subrange(lo as int, i as int)).last().len() ==> is_digit(
                    #[trigger] split_dots(cs@.subrange(lo as int, i as int)).last()[j],
                ),
            cur_digits ==> cur as nat == if digits_value(
                split_dots(cs@.subrange(lo as int, i as int)).last(),
            ) < 65536 {
                digits_value(split_dots(cs@.subrange(lo as int, i as int)).last())
            } else {
                65536
            },
            cur <= 65536,
            cur_len <= i,
        decreases hi - i,
    {
        let ghost prev = split_dots(cs@.subrange(lo as int, i as int));
        let ghost last = prev.last();
        let c = cs[i];
        proof {
            assert(cs@.subrange(lo as int, i + 1).drop_last() =~= cs@.subrange(
                lo as int,
                i as int,
            ));
            assert(cs@.subrange(lo as int, i + 1).last() == c);
        }
        if c == '.' {
            let ghost next = prev.push(Seq::<char>::empty());
            assert(split_dots(cs@.subrange(lo as int, i + 1)) == next);
            let ok = cur_digits && cur_len > 0 && cur <= 65535;
            proof {
                assert(next[next.len() - 2] == last);
                if cur_digits && cur_len > 0 {
                    assert(is_number_token(last));
                }
                if ok {
                    assert(is_component(last));
                } else {
                    assert(!is_component(last));
                }
            }
            if all_ok && ok {
                vals.push(cur as u16);
            }
            proof {
                assert forall|k: int| 0 <= k < prev.len() implies next[k] == prev[k] by {}
                if all_ok && ok {
                    assert(next.take(next.len() - 1) =~= prev);
                    assert(prev =~= prev.take(prev.len() - 1).push(last));
                    assert(vals@ =~= next.take(next.len() - 1).map_values(
                        |t: Seq<char>| component_value(t),
                    ));
                }
                if !(all_ok && ok) {
                    if !ok {
                        assert(!is_component(next[prev.len() - 1]));
                    } else {
                        let k = choose|k: int|
                            0 <= k < prev.len() - 1 && !is_component(#[trigger] prev[k]);
                        assert(!is_component(next[k]));
                    }
                }
                assert(next.last() =~= Seq::<char>::empty());
                assert(digits_value(Seq::<char>::empty()) == 0);
            }
            all_ok = all_ok && ok;
            cur = 0;
            cur_len = 0;
            cur_digits = true;
        } else {
            let ghost nlast = last.push(c);
            let ghost next = prev.update(prev.len() - 1, nlast);
            assert(split_dots(cs@.subrange(lo as int, i + 1)) == next);
            proof {
                assert(nlast.drop_last() =~= last);
                assert forall|k: int| 0 <= k < prev.len() - 1 implies next[k] == prev[k] by {}
                if all_ok {
                    assert(next.take(next.len() - 1) =~= prev.take(prev.len() - 1));
                }
                assert(next.last() == nlast);
            }
            if cur_digits && '0' <= c && c <= '9' {
                let d = (c as u32) - ('0' as u32);
                assert(d as nat == digit_value(c));
                if cur >= 65536 {
                    cur = 65536;
                } else {
                    let t = cur * 10 + d;
                    if t > 65536 {
                        cur = 65536;
                    } else {
                        cur = t;
                    }
                }
                proof {
                    assert(digits_value(nlast) == 10 * digits_value(last) + digit_value(c));
                    assert forall|j: int| 0 <= j < nlast.len() implies is_digit(
                        #[trigger] nlast[j],
                    ) by {
                        if j < last.len() {
                            assert(nlast[j] == last[j]);
                        }
                    }
                }
            } else {
                proof {
                    if !cur_digits {
                        let j = choose|j: int| 0 <= j < last.len() && !is_digit(#[trigger] last[j]);
                        assert(nlast[j] == last[j]);
                    } else {
                        assert(!is_digit(nlast[nlast.len() - 1]));
                    }
                }
                cur_digits = false;
            }
            cur_len = cur_len + 1;
        }
        i = i + 1;
    }
    let ghost toks = split_dots(cs@.subrange(lo as int, hi as int));
    let ok = cur_digits && cur_len > 0 && cur <= 65535;
    proof {
        if cur_digits && cur_len > 0 {
            assert(is_number_token(toks.last()));
        }
        if ok {
            assert(is_component(toks.last()));
        } else {
            assert(!is_component(toks[toks.len() - 1]));
        }
    }
    if all_ok && ok {
        vals.push(cur as u16);
        proof {
            assert(toks =~= toks.take(toks.len() - 1).push(toks.last()));
            assert(vals@ =~= toks.map_values(|t: Seq<char>| component_value(t)));
            lemma_split_dots_nonempty(cs@.subrange(lo as int, hi as int));
            assert forall|k: int| 0 <= k < toks.len() implies is_component(#[trigger] toks[k]) by {
                if k < toks.len() - 1 {
                } else {
                    assert(k == toks.len() - 1);
                }
            }
        }
        Some(vals)
    } else {
        proof {
            if !all_ok {
                let k = choose|k: int| 0 <= k < toks.len() - 1 && !is_component(#[trigger] toks[k]);
                assert(!is_component(toks[k]));
            }
        }
        None
    }
}


/// A component written without a leading zero.
pub open spec fn is_canonical_component(t: Seq<char>) -> bool {
    t.len() == 1 || t[0] != '0'
}

/// Pieces of text joined by '.'.
pub open spec fn join_dots(toks: Seq<Seq<char>>) -> Seq<char>
    decreases toks.len(),
{
    if toks.len() == 0 {
        Seq::empty()
    } else if toks.len() == 1 {
        toks[0]
    } else {
        join_dots(toks.drop_last()) + seq!['.'] + toks.last()
    }
}

proof fn lemma_join_split(s: Seq<char>)
    ensures
        join_dots(split_dots(s)) == s,
    decreases s.len(),
{
    if s.len() == 0 {
        assert(join_dots(split_dots(s)) =~= s);
    } else {
        let p = split_dots(s.drop_last());
        lemma_split_dots_nonempty(s.drop_last());
        lemma_join_split(s.drop_last());
        if s.last() == '.' {
            let q = p.push(Seq::<char>::empty());
            assert(q.drop_last() =~= p);
            assert(q.last() =~= Seq::<char>::empty());
            assert(join_dots(q) == join_dots(p) + seq!['.'] + q.last());
            assert(s =~= s.drop_last().push('.'));
            assert(join_dots(p) == s.drop_last());
            assert(join_dots(q) =~= s.drop_last() + seq!['.']);
            assert(s.drop_last() + seq!['.'] =~= s.drop_last().push('.'));
        } else {
            let q = p.update(p.len() - 1, p.last().push(s.last()));
            if p.len() == 1 {
                assert(join_dots(q) =~= s);
            } else {
                assert(q.drop_last() =~= p.drop_last());
                assert(q.last() == p.last().push(s.last()));
                assert(join_dots(p) == join_dots(p.drop_last()) + seq!['.'] + p.last());
                assert(join_dots(q) == join_dots(p.drop_last()) + seq!['.'] + q.last());
                assert(s =~= s.drop_last().push(s.last()));
                assert(join_dots(q) =~= join_dots(p).push(s.last()));
            }
        }
    }
}

proof fn lemma_leading_digit_positive(t: Seq<char>)
    requires
        is_number_token(t),
        t[0] != '0',
    ensures
        digits_value(t) >= 1,
    decreases t.len(),
{
    if t.len() > 1 {
        let u = t.drop_last();
        assert(u[0] == t[0]);
        assert(is_digit(u[0]));
        assert forall|i: int| 0 <= i < u.len() implies is_digit(#[trigger] u[i]) by {
            assert(u[i] == t[i]);
        }
        lemma_leading_digit_positive(u);
    } else {
        assert(is_digit(t[0]));
        assert(t.last() == t[0]);
    }
}

proof fn lemma_decimal_of_token(t: Seq<char>)
    requires
        is_number_token(t),
        is_canonical_component(t),
    ensures
        decimal(digits_value(t)) == t,
    decreases t.len(),
{
    let c = t.last();
    assert(is_digit(t[t.len() - 1]));
    let d = digit_value(c);
    assert(d < 10);
    assert(digit_char(d) == c);
    if t.len() == 1 {
        assert(t.drop_last().len() == 0);
        assert(digits_value(t.drop_last()) == 0);
        assert(digits_value(t) == d);
        assert(decimal(d) =~= t);
    } else {
        let u = t.drop_last();
        assert(u[0] == t[0]);
        assert forall|i: int| 0 <= i < u.len() implies is_digit(#[trigger] u[i]) by {
            assert(u[i] == t[i]);
        }
        lemma_leading_digit_positive(u);
        lemma_decimal_of_token(u);
        let v = digits_value(u);
        let n = digits_value(t);
        assert(n == 10 * v + d);
        assert(n / 10 == v && n % 10 == d) by (nonlinear_arith)
            requires
                n == 10 * v + d,
                d < 10,
        ;
        assert(decimal(n) == decimal(n / 10).push(digit_char(n % 10)));
        assert(decimal(n) =~= t);
    }
}

proof fn lemma_render_join(toks: Seq<Seq<char>>)
    requires
        forall|i: int|
            0 <= i < toks.len() ==> is_component(#[trigger] toks[i]) && is_canonical_component(
                toks[i],
            ),
    ensures
        render_version(toks.map_values(|t: Seq<char>| component_value(t))) == join_dots(toks),
    decreases toks.len(),
{
    let v = toks.map_values(|t: Seq<char>| component_value(t));
    if toks.len() == 1 {
        assert(is_component(toks[0]));
        lemma_decimal_of_token(toks[0]);
    } else if toks.len() > 1 {
        let last = toks.last();
        assert(is_component(toks[toks.len() - 1]));
        lemma_decimal_of_token(last);
        assert(v.drop_last() =~= toks.drop_last().map_values(|t: Seq<char>| component_value(t)));
        assert forall|i: int| 0 <= i < toks.drop_last().len() implies is_component(
            #[trigger] toks.drop_last()[i],
        ) && is_canonical_component(toks.drop_last()[i]) by {
            assert(toks.drop_last()[i] == toks[i]);
        }
        lemma_render_join(toks.drop_last());
    }
}

/// Rendering a parsed version gives back the text, for every text whose components
/// are written without leading zeros: no component is added or dropped.
pub proof fn lemma_parse_render_round_trip(s: Seq<char>)
    requires
        parse_version_spec(s) is Some,
        forall|i: int|
            0 <= i < split_dots(s).len() ==> is_canonical_component(#[trigger] split_dots(s)[i]),
    ensures
        render_version(parse_version_spec(s)->0) == s,
{
    let toks = split_dots(s);
    assert forall|i: int| 0 <= i < toks.len() implies is_component(#[trigger] toks[i])
        && is_canonical_component(toks[i]) by {}
    lemma_render_join(toks);
    lemma_join_split(s);
}

proof fn lemma_decimal_digits(n: nat)
    ensures
        is_number_token(decimal(n)),
        digits_value(decimal(n)) == n,
    decreases n,
{
    if n < 10 {
        let t = decimal(n);
        assert(t.drop_last().len() == 0);
        assert(digits_value(t.drop_last()) == 0);
        assert(digit_value(digit_char(n)) == n);
    } else {
        lemma_decimal_digits(n / 10);
        let t = decimal(n);
        let u = decimal(n / 10);
        assert(t.drop_last() =~= u);
        assert(digit_value(digit_char(n % 10)) == n % 10);
        assert(n == 10 * (n / 10) + n % 10);
        assert forall|i: int| 0 <= i < t.len() implies is_digit(#[trigger] t[i]) by {
            if i < u.len() {
                assert(t[i] == u[i]);
            }
        }
    }
}

proof fn lemma_split_no_dot(b: Seq<char>)
    requires
        forall|i: int| 0 <= i < b.len() ==> b[i] != '.',
    ensures
        split_dots(b) == seq![b],
    decreases b.len(),
{
    if b.len() == 0 {
        assert(b =~= Seq::<char>::empty());
        assert(split_dots(b) =~= seq![b]);
    } else {
        lemma_split_no_dot(b.drop_last());
        assert(b.last() == b[b.len() - 1]);
        assert(b.last() != '.');
        assert(b.drop_last().push(b.last()) =~= b);
        assert(seq![b.drop_last()].update(0, b.drop_last().push(b.last())) =~= seq![b]);
    }
}

proof fn lemma_split_append_piece(a: Seq<char>, b: Seq<char>)
    requires
        forall|i: int| 0 <= i < b.len() ==> b[i] != '.',
    ensures
        split_dots(a + seq!['.'] + b) == split_dots(a).push(b),
    decreases b.len(),
{
    let s = a + seq!['.'] + b;
    if b.len() == 0 {
        assert(b =~= Seq::<char>::empty());
        assert(s.drop_last() =~= a);
        assert(s.last() == '.');
    } else {
        let b1 = b.drop_last();
        lemma_split_append_piece(a, b1);
        assert(s.drop_last() =~= a + seq!['.'] + b1);
        assert(s.last() == b.last());
        assert(b.last() == b[b.len() - 1]);
        assert(b.last() != '.');
        assert(b1.push(b.last()) =~= b);
        let p = split_dots(a).push(b1);
        assert(p.last() == b1);
        assert(p.update(p.len() - 1, p.last().push(b.last())) =~= split_dots(a).push(b));
    }
}

proof fn lemma_split_render(v: Seq<u16>)
    requires
        v.len() >= 1,
    ensures
        split_dots(render_version(v)) == v.map_values(|x: u16| decimal(x as nat)),
    decreases v.len(),
{
    let d = decimal(v.last() as nat);
    lemma_decimal_digits(v.last() as nat);
    assert forall|i: int| 0 <= i < d.len() implies d[i] != '.' by {
        assert(is_digit(d[i]));
    }
    if v.len() == 1 {
        lemma_split_no_dot(d);
        assert(v.map_values(|x: u16| decimal(x as nat)) =~= seq![d]);
    } else {
        lemma_split_render(v.drop_last());
        lemma_split_append_piece(render_version(v.drop_last()), d);
        assert(v.map_values(|x: u16| decimal(x as nat)) =~= v.drop_last().map_values(
            |x: u16| decimal(x as nat),
        ).push(d));
    }
}

/// Parsing the canonical text of a version gives the version back.
pub proof fn lemma_render_parse_round_trip(v: Seq<u16>)
    requires
        v.len() >= 1,
    ensures
        parse_version_spec(render_version(v)) == Some(v),
{
    lemma_split_render(v);
    let toks = split_dots(render_version(v));
    assert forall|i: int| 0 <= i < toks.len() implies is_component(#[trigger] toks[i]) by {
        lemma_decimal_digits(v[i] as nat);
    }
    assert forall|i: int| 0 <= i < toks.len() implies component_value(toks[i]) == v[i] by {
        lemma_decimal_digits(v[i] as nat);
    }
    assert(toks.map_values(|t: Seq<char>| component_value(t)) =~= v);
}

/// The canonical text of a version starts and ends with a digit, and holds only
/// digits and dots.
pub proof fn lemma_render_chars(v: Seq<u16>)
    requires
        v.len() >= 1,
    ensures
        render_version(v).len() >= 1,
        is_digit(render_version(v)[0]),
        is_digit(render_version(v).last()),
        forall|i: int|
            0 <= i < render_version(v).len() ==> is_digit(#[trigger] render_version(v)[i])
                || render_version(v)[i] == '.',
    decreases v.len(),
{
    let d = decimal(v.last() as nat);
    lemma_decimal_digits(v.last() as nat);
    assert(is_digit(d[d.len() - 1]));
    if v.len() > 1 {
        lemma_render_chars(v.drop_last());
        let r = render_version(v.drop_last());
        let t = render_version(v);
        assert(t == r + seq!['.'] + d);
        assert(t[0] == r[0]);
        assert(t.last() == d.last());
        assert forall|i: int| 0 <= i < t.len() implies is_digit(#[trigger] t[i]) || t[i] == '.' by {
            if i < r.len() {
                assert(t[i] == r[i]);
            } else if i > r.len() {
                assert(t[i] == d[i - r.len() - 1]);
            }
        }
    } else {
        assert(is_digit(d[0]));
    }
}

/// A version that is a strict prefix of another sorts strictly before it.
pub proof fn lemma_prefix_sorts_first(a: Seq<u16>, b: Seq<u16>)
    requires
        a.len() < b.len(),
        a == b.take(a.len() as int),
    ensures
        version_lt(a, b),
        !version_lt(b, a),
{
    assert(version_key(a) =~= version_key(b).take(a.len() as int));
    lemma_lex_prefix(version_key(a), version_key(b));
    lemma_lex_asymmetric(version_key(a), version_key(b));
}

impl VersionNumber {
    /// Constructs a version number from its components.
    pub fn new(value: Vec<u16>) -> (r: Self)
        ensures
            r@ == value@,
    {
        VersionNumber { value }
    }

    /// The components of the version.
    pub fn value(&self) -> (r: Vec<u16>)
        ensures
            r@ == self@,
    {
        self.value.clone()
    }

    /// The canonical text of the version, such as "0.1.0".
    pub fn name(&self) -> (r: String)
        ensures
            r@ == render_version(self@),
    {
        self.to_string()
    }

    /// The canonical text of the version: components joined by '.'.
    pub fn to_string(&self) -> (r: String)
        ensures
            r@ == render_version(self@),
    {
        let mut r = String::new();
        let mut i: usize = 0;
        proof {
            reveal_strlit(".");
            assert(self.value@.take(0) =~= Seq::<u16>::empty());
        }
        while i < self.value.len()
            invariant
                i <= self.value@.len(),
                r@ == render_version(self.value@.take(i as int)),
            decreases self.value@.len() - i,
        {
            let ghost before = r@;
            if i > 0 {
                r.append(".");
            }
            let d = decimal_text(self.value[i]);
            r.append(d.as_str());
            proof {
                let t = self.value@.take(i + 1);
                assert(t.drop_last() =~= self.value@.take(i as int));
                assert(t.last() == self.value@[i as int]);
                if i == 0 {
                    assert(r@ =~= render_version(t));
                } else {
                    reveal_strlit(".");
                    assert("."@ =~= seq!['.']);
                    assert(render_version(t) == render_version(t.drop_last()) + seq!['.'] + decimal(
                        t.last() as nat,
                    ));
                    assert(r@ =~= render_version(t));
                }
            }
            i = i + 1;
        }
        assert(self.value@.take(i as int) =~= self.value@);
        r
    }

    /// Constructs a version of three components.
    pub fn semver(major: u16, minor: u16, micro: u16) -> (r: Self)
        ensures
            r@ == seq![major, minor, micro],
    {
        let value = vec![major, minor, micro];
        assert(value@ =~= seq![major, minor, micro]);
        Self::new(value)
    }

    /// Constructs a version of four components.
    pub fn semver4(major: u16, minor: u16, micro: u16, patch: u16) -> (r: Self)
        ensures
            r@ == seq![major, minor, micro, patch],
    {
        let value = vec![major, minor, micro, patch];
        assert(value@ =~= seq![major, minor, micro, patch]);
        Self::new(value)
    }

    /// Parses a version text; the same as `from_str`.
    pub fn from_string(s: &str) -> (r: Result<Self, VersionitisError>)
        ensures
            match parse_version_spec(s@) {
                Some(v) => r is Ok && r->Ok_0@ == v,
                None => r matches Err(VersionitisError::ParseError(t, _)) && t@ == s@,
            },
    {
        Self::from_str(s)
    }

    /// Parses a version text: numbers separated by '.', each below 65536.
    pub fn from_str(s: &str) -> (r: Result<Self, VersionitisError>)
        ensures
            match parse_version_spec(s@) {
                Some(v) => r is Ok && r->Ok_0@ == v,
                None => r matches Err(VersionitisError::ParseError(t, _)) && t@ == s@,
            },
    {
        let cs = text_chars(s);
        assert(cs@.subrange(0, cs@.len() as int) =~= s@);
        match parse_version_chars(&cs, 0, cs.len()) {
            Some(v) => Ok(VersionNumber { value: v }),
            None => Err(
                VersionitisError::ParseError(
                    String::from_str(s),
                    String::from_str("not a version number"),
                ),
            ),
        }
    }

    /// A copy of the version.
    pub fn duplicate(&self) -> (r: Self)
        ensures
            r@ == self@,
    {
        VersionNumber { value: self.value() }
    }
}

impl Versionable for VersionNumber {
    open spec fn spec_precedes(&self, other: &Self) -> bool {
        version_lt(self@, other@)
    }

    open spec fn spec_same(&self, other: &Self) -> bool {
        self@ == other@
    }

    /// Whether this version sorts strictly before the other.
    fn precedes(&self, other: &Self) -> (r: bool)
        ensures
            r == self.spec_precedes(other),
    {
        let ghost a = version_key(self@);
        let ghost b = version_key(other@);
        let mut i: usize = 0;
        assert(a.skip(0) =~= a);
        assert(b.skip(0) =~= b);
        while i < self.value.len() && i < other.value.len()
            invariant
                i <= self.value@.len(),
                i <= other.value@.len(),
                a == version_key(self.value@),
                b == version_key(other.value@),
                lex_lt(a, b) == lex_lt(a.skip(i as int), b.skip(i as int)),
            decreases self.value@.len() - i,
        {
            let x = self.value[i];
            let y = other.value[i];
            proof {
                assert(a.skip(i as int)[0] == x as int);
                assert(b.skip(i as int)[0] == y as int);
                assert(a.skip(i as int).drop_first() =~= a.skip(i + 1));
                assert(b.skip(i as int).drop_first() =~= b.skip(i + 1));
            }
            if x != y {
                return x < y;
            }
            i = i + 1;
        }
        i < other.value.len()
    }

    /// Whether the two versions have the same components.
    fn same_as(&self, other: &Self) -> (r: bool)
        ensures
            r == self.spec_same(other),
    {
        if self.value.len() != other.value.len() {
            return false;
        }
        let mut i: usize = 0;
        while i < self.value.len()
            invariant
                i <= self.value@.len() == other.value@.len(),
                self.value@.take(i as int) == other.value@.take(i as int),
            decreases self.value@.len() - i,
        {
            if self.value[i] != other.value[i] {
                assert(self.value@[i as int] != other.value@[i as int]);
                return false;
            }
            assert(self.value@.take(i + 1) =~= self.value@.take(i as int).push(self.value@[i as int]));
            assert(other.value@.take(i + 1) =~= other.value@.take(i as int).push(other.value@[i as int]));
            i = i + 1;
        }
        assert(self.value@ =~= self.value@.take(i as int));
        assert(other.value@ =~= other.value@.take(i as int));
        true
    }

    proof fn lemma_order(a: &Self, b: &Self, c: &Self) {
        lemma_version_order(a@, b@, c@);
        lemma_version_order(b@, c@, a@);
    }
}

} // verus!
