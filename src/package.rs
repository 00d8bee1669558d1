//! Packages: a name and a version, ordered by name, then version.

use vstd::prelude::*;
use crate::errors::VersionitisError;
use crate::text::{find_char, first_index, has_char, is_first, lemma_first_index, text_chars};
use crate::traits::Versionable;
use crate::version_number::{
    lemma_lex_asymmetric, lemma_lex_irreflexive, lemma_lex_total, lemma_lex_transitive,
    lemma_render_parse_round_trip, lemma_version_order, lex_lt, parse_version_chars,
    parse_version_spec, render_version,
    version_lt, VersionNumber,
};

verus! {

/// The characters of a text as integers.
pub open spec fn text_key(s: Seq<char>) -> Seq<int> {
    s.map_values(|c: char| c as int)
}

/// The order of names: lexicographic on the characters.
pub open spec fn name_lt(a: Seq<char>, b: Seq<char>) -> bool {
    lex_lt(text_key(a), text_key(b))
}

/// The order of packages: by name, then by version.
pub open spec fn package_lt(a: (Seq<char>, Seq<u16>), b: (Seq<char>, Seq<u16>)) -> bool {
    name_lt(a.0, b.0) || (a.0 == b.0 && version_lt(a.1, b.1))
}

/// The canonical text of a package: "<name>-<version>".
pub open spec fn render_package(p: (Seq<char>, Seq<u16>)) -> Seq<char> {
    p.0 + seq!['-'] + render_version(p.1)
}

/// The package that a text "<name>-<version>" denotes: the name is what stands
/// before the first '-', the version what follows it.
pub open spec fn parse_package_spec(s: Seq<char>) -> Option<(Seq<char>, Seq<u16>)> {
    if has_char(s, '-') {
        let k = first_index(s, '-');
        match parse_version_spec(s.skip(k + 1)) {
            Some(v) => Some((s.take(k), v)),
            None => None,
        }
    } else {
        None
    }
}

/// Parsing the canonical text of a package gives it back, when its name holds no
/// '-' and its version at least one component.
pub proof fn lemma_package_text_round_trip(p: (Seq<char>, Seq<u16>))
    requires
        !has_char(p.0, '-'),
        p.1.len() >= 1,
    ensures
        parse_package_spec(render_package(p)) == Some(p),
{
    let t = render_package(p);
    let k = p.0.len() as int;
    assert(t[k] == '-');
    assert forall|j: int| 0 <= j < k implies t[j] != '-' by {
        assert(t[j] == p.0[j]);
    }
    lemma_first_index(t, '-', k);
    assert(is_first(t, '-', k));
    assert(t.take(k) =~= p.0);
    assert(t.skip(k + 1) =~= render_version(p.1));
    lemma_render_parse_round_trip(p.1);
}

proof fn lemma_text_key_injective(a: Seq<char>, b: Seq<char>)
    ensures
        text_key(a) == text_key(b) ==> a == b,
{
    if text_key(a) == text_key(b) {
        assert(a.len() == text_key(a).len());
        assert forall|i: int| 0 <= i < a.len() implies a[i] == b[i] by {
            assert(text_key(a)[i] == text_key(b)[i]);
        }
        assert(a =~= b);
    }
}

/// The order of packages is a strict total order.
pub proof fn lemma_package_order(
    a: (Seq<char>, Seq<u16>),
    b: (Seq<char>, Seq<u16>),
    c: (Seq<char>, Seq<u16>),
)
    ensures
        !package_lt(a, a),
        package_lt(a, b) ==> !package_lt(b, a),
        package_lt(a, b) && package_lt(b, c) ==> package_lt(a, c),
        a != b ==> package_lt(a, b) || package_lt(b, a),
{
    lemma_lex_irreflexive(text_key(a.0));
    lemma_lex_asymmetric(text_key(a.0), text_key(b.0));
    lemma_lex_transitive(text_key(a.0), text_key(b.0), text_key(c.0));
    lemma_lex_total(text_key(a.0), text_key(b.0));
    lemma_text_key_injective(a.0, b.0);
    lemma_lex_irreflexive(text_key(b.0));
    lemma_lex_asymmetric(text_key(b.0), text_key(c.0));
    lemma_lex_asymmetric(text_key(a.0), text_key(c.0));
    lemma_version_order(a.1, b.1, c.1);
}

/// The order of names is a strict total order.
pub proof fn lemma_name_order(a: Seq<char>, b: Seq<char>, c: Seq<char>)
    ensures
        !name_lt(a, a),
        name_lt(a, b) ==> !name_lt(b, a),
        name_lt(a, b) && name_lt(b, c) ==> name_lt(a, c),
        a != b ==> name_lt(a, b) || name_lt(b, a),
{
    lemma_lex_irreflexive(text_key(a));
    lemma_lex_asymmetric(text_key(a), text_key(b));
    lemma_lex_transitive(text_key(a), text_key(b), text_key(c));
    lemma_lex_total(text_key(a), text_key(b));
    lemma_text_key_injective(a, b);
}

/// Whether one text sorts strictly before another.
pub fn text_precedes(a: &str, b: &str) -> (r: bool)
    ensures
        r == name_lt(a@, b@),
{
    let x = text_chars(a);
    let y = text_chars(b);
    let ghost ka = text_key(a@);
    let ghost kb = text_key(b@);
    let mut i: usize = 0;
    assert(ka.skip(0) =~= ka);
    assert(kb.skip(0) =~= kb);
    while i < x.len() && i < y.len()
        invariant
            x@ == a@,
            y@ == b@,
            ka == text_key(a@),
            kb == text_key(b@),
            i <= x@.len(),
            i <= y@.len(),
            lex_lt(ka, kb) == lex_lt(ka.skip(i as int), kb.skip(i as int)),
        decreases x@.len() - i,
    {
        let c = x[i];
        let d = y[i];
        proof {
            assert(ka.skip(i as int)[0] == c as int);
            assert(kb.skip(i as int)[0] == d as int);
            assert(ka.skip(i as int).drop_first() =~= ka.skip(i + 1));
            assert(kb.skip(i as int).drop_first() =~= kb.skip(i + 1));
        }
        if c != d {
            return c < d;
        }
        i = i + 1;
    }
    i < y.len()
}

/// A named version of a package, ordered by name, then by version.
#[derive(Debug, PartialEq, Eq, PartialOrd, Ord, Hash, Clone)]
pub struct Package {
    name: String,
    version: VersionNumber,
}

impl View for Package {
    type V = (Seq<char>, Seq<u16>);

    closed spec fn view(&self) -> (Seq<char>, Seq<u16>) {
        (self.name@, self.version@)
    }
}

impl Package {
    /// The name of the package.
    pub fn name(&self) -> (r: &str)
        ensures
            r@ == self@.0,
    {
        self.name.as_str()
    }

    /// The full text of the package, "<name>-<version>".
    pub fn spec(&self) -> (r: String)
        ensures
            r@ == render_package(self@),
    {
        let mut r = String::from_str(self.name.as_str());
        proof {
            reveal_strlit("-");
        }
        r.append("-");
        let v = self.version.to_string();
        r.append(v.as_str());
        r
    }

    /// The full text of the package, "<name>-<version>".
    pub fn to_string(&self) -> (r: String)
        ensures
            r@ == render_package(self@),
    {
        self.spec()
    }

    /// The canonical text of the version.
    pub fn version(&self) -> (r: String)
        ensures
            r@ == render_version(self@.1),
    {
        self.version.to_string()
    }

    /// The version number.
    pub fn version_number(&self) -> (r: &VersionNumber)
        ensures
            r@ == self@.1,
    {
        &self.version
    }

    /// Constructs a package from a name and a version number.
    pub fn new(name: &str, version: VersionNumber) -> (r: Self)
        ensures
            r@ == (name@, version@),
    {
        Package { name: String::from_str(name), version }
    }

    /// Constructs a package whose version has three components.
    pub fn semver(name: &str, major: u16, minor: u16, micro: u16) -> (r: Self)
        ensures
            r@ == (name@, seq![major, minor, micro]),
    {
        Self::new(name, VersionNumber::semver(major, minor, micro))
    }

    /// Constructs a package whose version has four components.
    pub fn semver4(name: &str, major: u16, minor: u16, micro: u16, patch: u16) -> (r: Self)
        ensures
            r@ == (name@, seq![major, minor, micro, patch]),
    {
        Self::new(name, VersionNumber::semver4(major, minor, micro, patch))
    }

    /// Parses "<name>-<version>", splitting at the first '-'.
    pub fn from_str(s: &str) -> (r: Result<Self, VersionitisError>)
        ensures
            match parse_package_spec(s@) {
                Some(p) => r is Ok && r->Ok_0@ == p,
                None => r matches Err(VersionitisError::ParseError(t, _)) && t@ == s@,
            },
    {
        let cs = text_chars(s);
        let n = cs.len();
        proof {
            assert(cs@.subrange(0, n as int) =~= s@);
        }
        match find_char(&cs, 0, n, '-') {
            Some(k) => {
                proof {
                    assert(cs@.subrange(k + 1, n as int) =~= s@.skip(k + 1));
                }
                match parse_version_chars(&cs, k + 1, n) {
                    Some(v) => {
                        let name = s.substring_char(0, k);
                        assert(name@ =~= s@.take(k as int));
                        Ok(Package { name: String::from_str(name), version: VersionNumber::new(v) })
                    },
                    None => Err(
                        VersionitisError::ParseError(
                            String::from_str(s),
                            String::from_str("not a package version"),
                        ),
                    ),
                }
            },
            None => Err(
                VersionitisError::ParseError(
                    String::from_str(s),
                    String::from_str("missing '-' between name and version"),
                ),
            ),
        }
    }

    /// Parses "<name>-<version>"; the same as `from_str`.
    pub fn from_string(s: &str) -> (r: Result<Self, VersionitisError>)
        ensures
            match parse_package_spec(s@) {
                Some(p) => r is Ok && r->Ok_0@ == p,
                None => r matches Err(VersionitisError::ParseError(t, _)) && t@ == s@,
            },
    {
        Self::from_str(s)
    }

    /// Constructs a package from a name and a version text.
    pub fn from_strs(name: &str, version: &str) -> (r: Result<Self, VersionitisError>)
        ensures
            match parse_version_spec(version@) {
                Some(v) => r is Ok && r->Ok_0@ == (name@, v),
                None => r matches Err(VersionitisError::ParseError(t, _)) && t@ == version@,
            },
    {
        match VersionNumber::from_str(version) {
            Ok(v) => Ok(Self::new(name, v)),
            Err(e) => Err(e),
        }
    }

    /// A copy of the package.
    pub fn duplicate(&self) -> (r: Self)
        ensures
            r@ == self@,
    {
        Package { name: String::from_str(self.name.as_str()), version: self.version.duplicate() }
    }
}

impl Versionable for Package {
    open spec fn spec_precedes(&self, other: &Self) -> bool {
        package_lt(self@, other@)
    }

    open spec fn spec_same(&self, other: &Self) -> bool {
        self@ == other@
    }

    fn precedes(&self, other: &Self) -> (r: bool) {
        if text_precedes(self.name.as_str(), other.name.as_str()) {
            return true;
        }
        if self.name != other.name {
            return false;
        }
        proof {
            lemma_lex_irreflexive(text_key(self@.0));
        }
        self.version.precedes(&other.version)
    }

    fn same_as(&self, other: &Self) -> (r: bool) {
        self.name == other.name && self.version.same_as(&other.version)
    }

    proof fn lemma_order(a: &Self, b: &Self, c: &Self) {
        lemma_package_order(a@, b@, c@);
        lemma_package_order(b@, c@, a@);
    }
}

} // verus!
