//! Repositories: the known versions of each package, kept in order.

use vstd::prelude::*;
use crate::assoc::{assoc_keys_unique, assoc_map, lemma_assoc_map};
use crate::errors::VersionitisError;
use crate::package::{lemma_package_order, package_lt, render_package, Package};
use crate::text::text_eq;
use crate::traits::Versionable;
use crate::version_number::parse_version_spec;

verus! {

/// Each package sorts strictly before every later one: ascending, no duplicate.
pub open spec fn strictly_sorted(s: Seq<(Seq<char>, Seq<u16>)>) -> bool {
    forall|i: int, j: int| 0 <= i < j < s.len() ==> package_lt(s[i], s[j])
}

/// `after` holds the packages of `before`, ascending and without duplicates.
pub open spec fn dedup_sorted(
    before: Seq<(Seq<char>, Seq<u16>)>,
    after: Seq<(Seq<char>, Seq<u16>)>,
) -> bool {
    strictly_sorted(after) && forall|x: (Seq<char>, Seq<u16>)| #[trigger]
        after.contains(x) <==> before.contains(x)
}

/// Every version list of `after` is the one of `before`, sorted and deduplicated.
pub open spec fn dedup_sort_result(
    before: Map<Seq<char>, Seq<(Seq<char>, Seq<u16>)>>,
    after: Map<Seq<char>, Seq<(Seq<char>, Seq<u16>)>>,
) -> bool {
    &&& after.dom() == before.dom()
    &&& forall|k: Seq<char>| #[trigger]
        before.contains_key(k) ==> dedup_sorted(before[k], after[k])
}

/// A checked insertion accepts a package that sorts after the latest version of its
/// name, or the first version of a name.
pub open spec fn add_version_accepts(
    m: Map<Seq<char>, Seq<(Seq<char>, Seq<u16>)>>,
    name: Seq<char>,
    p: (Seq<char>, Seq<u16>),
) -> bool {
    !(m.contains_key(name) && m[name].len() > 0 && !package_lt(m[name].last(), p))
}

/// The version lists after appending a package under a name.
pub open spec fn appended(
    m: Map<Seq<char>, Seq<(Seq<char>, Seq<u16>)>>,
    name: Seq<char>,
    p: (Seq<char>, Seq<u16>),
) -> Map<Seq<char>, Seq<(Seq<char>, Seq<u16>)>> {
    m.insert(
        name,
        if m.contains_key(name) {
            m[name].push(p)
        } else {
            seq![p]
        },
    )
}

/// The views of a list of packages.
pub open spec fn package_views(v: Seq<Package>) -> Seq<(Seq<char>, Seq<u16>)> {
    v.map_values(|p: Package| p@)
}

/// Adding the same version twice with checking: the second insertion is rejected.
pub proof fn lemma_same_version_twice_rejected(
    m: Map<Seq<char>, Seq<(Seq<char>, Seq<u16>)>>,
    name: Seq<char>,
    v: Seq<u16>,
)
    requires
        add_version_accepts(m, name, (name, v)),
    ensures
        !add_version_accepts(appended(m, name, (name, v)), name, (name, v)),
{
    lemma_package_order((name, v), (name, v), (name, v));
}

/// Two ascending lists without duplicates that hold the same packages are equal.
pub proof fn lemma_sorted_unique(a: Seq<(Seq<char>, Seq<u16>)>, b: Seq<(Seq<char>, Seq<u16>)>)
    requires
        strictly_sorted(a),
        strictly_sorted(b),
        forall|x: (Seq<char>, Seq<u16>)| #[trigger] a.contains(x) <==> b.contains(x),
    ensures
        a == b,
    decreases a.len(),
{
    if a.len() == 0 {
        if b.len() > 0 {
            assert(b.contains(b[0]));
            assert(a.contains(b[0]));
        }
        assert(a =~= b);
    } else {
        assert(a.contains(a[0]));
        assert(b.contains(a[0]));
        assert(b.len() > 0);
        assert(b.contains(b[0]));
        assert(a.contains(b[0]));
        let i = choose|i: int| 0 <= i < a.len() && a[i] == b[0];
        let j = choose|j: int| 0 <= j < b.len() && b[j] == a[0];
        lemma_package_order(a[0], b[0], a[0]);
        if i > 0 {
            assert(package_lt(a[0], a[i]));
        }
        if j > 0 {
            assert(package_lt(b[0], b[j]));
        }
        assert(a[0] == b[0]);
        let a1 = a.drop_first();
        let b1 = b.drop_first();
        assert forall|x: (Seq<char>, Seq<u16>)| #[trigger] a1.contains(x) implies b1.contains(
            x,
        ) by {
            let k = choose|k: int| 0 <= k < a1.len() && a1[k] == x;
            assert(package_lt(a[0], a[k + 1]));
            lemma_package_order(a[0], x, a[0]);
            assert(a.contains(x));
            let m = choose|m: int| 0 <= m < b.len() && b[m] == x;
            assert(m != 0);
            assert(b1[m - 1] == x);
        }
        assert forall|x: (Seq<char>, Seq<u16>)| #[trigger] b1.contains(x) implies a1.contains(
            x,
        ) by {
            let k = choose|k: int| 0 <= k < b1.len() && b1[k] == x;
            assert(package_lt(b[0], b[k + 1]));
            lemma_package_order(b[0], x, b[0]);
            assert(b.contains(x));
            assert(a.contains(x));
            let m = choose|m: int| 0 <= m < a.len() && a[m] == x;
            assert(m != 0);
            assert(a1[m - 1] == x);
        }
        lemma_sorted_unique(a1, b1);
        assert(a =~= b) by {
            assert forall|k: int| 0 <= k < a.len() implies a[k] == b[k] by {
                if k > 0 {
                    assert(a[k] == a1[k - 1]);
                    assert(b[k] == b1[k - 1]);
                }
            }
        }
    }
}

/// Sorting and deduplicating a second time changes nothing.
pub proof fn lemma_dedup_sort_idempotent(
    r0: Map<Seq<char>, Seq<(Seq<char>, Seq<u16>)>>,
    r1: Map<Seq<char>, Seq<(Seq<char>, Seq<u16>)>>,
    r2: Map<Seq<char>, Seq<(Seq<char>, Seq<u16>)>>,
)
    requires
        dedup_sort_result(r0, r1),
        dedup_sort_result(r1, r2),
    ensures
        r2 == r1,
{
    assert forall|k: Seq<char>| #[trigger] r1.contains_key(k) implies r2[k] == r1[k] by {
        assert(r0.contains_key(k));
        assert(dedup_sorted(r0[k], r1[k]));
        assert(dedup_sorted(r1[k], r2[k]));
        lemma_sorted_unique(r2[k], r1[k]);
    }
    assert(r2 =~= r1);
}

/// The packages of a list, ascending and without duplicates.
pub fn sort_dedup(list: &Vec<Package>) -> (r: Vec<Package>)
    ensures
        dedup_sorted(package_views(list@), package_views(r@)),
{
    let mut out: Vec<Package> = Vec::new();
    let mut i: usize = 0;
    while i < list.len()
        invariant
            i <= list@.len(),
            strictly_sorted(package_views(out@)),
            forall|x: (Seq<char>, Seq<u16>)| #[trigger]
                package_views(out@).contains(x) <==> package_views(list@).take(i as int).contains(
                    x,
                ),
        decreases list@.len() - i,
    {
        let x = &list[i];
        let ghost xv = x@;
        let ghost ov = package_views(out@);
        let mut j: usize = 0;
        while j < out.len() && out[j].precedes(x)
            invariant
                j <= out@.len(),
                ov == package_views(out@),
                xv == x@,
                forall|a: int| 0 <= a < j ==> package_lt(#[trigger] ov[a], xv),
            decreases out@.len() - j,
        {
            j = j + 1;
        }
        let ghost before = package_views(list@).take(i as int);
        let ghost after = package_views(list@).take(i + 1);
        assert(after =~= before.push(xv));
        if j < out.len() && out[j].same_as(x) {
            proof {
                assert(ov[j as int] == xv);
                assert forall|y: (Seq<char>, Seq<u16>)| #[trigger] ov.contains(y) <==> after.contains(
                    y,
                ) by {
                    if after.contains(y) && y != xv {
                        let k = choose|k: int| 0 <= k < after.len() && after[k] == y;
                        assert(before[k] == y);
                        assert(before.contains(y));
                    }
                    if ov.contains(y) {
                        assert(before.contains(y));
                        let k = choose|k: int| 0 <= k < before.len() && before[k] == y;
                        assert(after[k] == y);
                    }
                }
            }
        } else {
            out.insert(j, x.duplicate());
            proof {
                let nv = package_views(out@);
                assert(nv =~= ov.insert(j as int, xv));
                if j < ov.len() {
                    lemma_package_order(ov[j as int], xv, ov[j as int]);
                    assert(package_lt(xv, ov[j as int]));
                }
                assert forall|a: int, b: int| 0 <= a < b < nv.len() implies package_lt(
                    nv[a],
                    nv[b],
                ) by {
                    if b < j {
                        assert(nv[a] == ov[a] && nv[b] == ov[b]);
                    } else if b == j {
                        assert(nv[a] == ov[a]);
                    } else if a == j {
                        assert(nv[b] == ov[b - 1]);
                        if b - 1 > j {
                            lemma_package_order(xv, ov[j as int], ov[b - 1]);
                        }
                    } else if a < j {
                        assert(nv[a] == ov[a] && nv[b] == ov[b - 1]);
                        lemma_package_order(ov[a], xv, ov[b - 1]);
                        if b - 1 > j {
                            lemma_package_order(xv, ov[j as int], ov[b - 1]);
                        }
                    } else {
                        assert(nv[a] == ov[a - 1] && nv[b] == ov[b - 1]);
                    }
                }
                assert forall|y: (Seq<char>, Seq<u16>)| #[trigger] nv.contains(y) <==> after.contains(
                    y,
                ) by {
                    if nv.contains(y) {
                        let k = choose|k: int| 0 <= k < nv.len() && nv[k] == y;
                        if k < j {
                            assert(ov[k] == y);
                            assert(ov.contains(y));
                        } else if k > j {
                            assert(ov[k - 1] == y);
                            assert(ov.contains(y));
                        }
                        if y != xv {
                            let m = choose|m: int| 0 <= m < before.len() && before[m] == y;
                            assert(after[m] == y);
                        } else {
                            assert(after[after.len() - 1] == y);
                        }
                    }
                    if after.contains(y) {
                        let k = choose|k: int| 0 <= k < after.len() && after[k] == y;
                        if k < before.len() {
                            assert(before[k] == y);
                            assert(before.contains(y));
                            assert(ov.contains(y) == before.contains(y));
                            let m = choose|m: int| 0 <= m < ov.len() && ov[m] == y;
                            if m < j {
                                assert(nv[m] == y);
                            } else {
                                assert(nv[m + 1] == y);
                            }
                        } else {
                            assert(nv[j as int] == y);
                        }
                    }
                }
            }
        }
        i = i + 1;
    }
    assert(package_views(list@).take(i as int) =~= package_views(list@));
    out
}

/// The known versions of each package name.
#[derive(Debug, PartialEq, Eq)]
pub struct Repo {
    packages: Vec<(String, Vec<Package>)>,
    unchecked: bool,
}

impl Repo {
    /// The entries, as views.
    pub closed spec fn pairs(&self) -> Seq<(Seq<char>, Seq<(Seq<char>, Seq<u16>)>)> {
        self.packages@.map_values(
            |e: (String, Vec<Package>)| (e.0@, package_views(e.1@)),
        )
    }

    #[verifier::type_invariant]
    spec fn well_formed(&self) -> bool {
        &&& assoc_keys_unique(self.pairs())
        &&& !self.unchecked ==> forall|i: int|
            0 <= i < self.pairs().len() ==> strictly_sorted(#[trigger] self.pairs()[i].1)
    }
}

impl View for Repo {
    /// The version list of each name, and whether every list is known to be
    /// ascending without duplicates.
    type V = (Map<Seq<char>, Seq<(Seq<char>, Seq<u16>)>>, bool);

    closed spec fn view(&self) -> (Map<Seq<char>, Seq<(Seq<char>, Seq<u16>)>>, bool) {
        (assoc_map(self.pairs()), !self.unchecked)
    }
}

impl Repo {
    /// An empty repository.
    pub fn new() -> (r: Self)
        ensures
            r@ == (Map::<Seq<char>, Seq<(Seq<char>, Seq<u16>)>>::empty(), true),
    {
        let r = Repo { packages: Vec::new(), unchecked: false };
        assert(r.pairs() =~= Seq::<(Seq<char>, Seq<(Seq<char>, Seq<u16>)>)>::empty());
        r
    }

    /// The position of the entry with a name.
    fn find(&self, k: &str) -> (r: Option<usize>)
        ensures
            match r {
                Some(i) => i < self.pairs().len() && self.pairs()[i as int].0 == k@,
                None => !self@.0.contains_key(k@),
            },
            self@.0.contains_key(k@) <==> r is Some,
    {
        let mut i: usize = 0;
        while i < self.packages.len()
            invariant
                i <= self.packages@.len(),
                forall|j: int| 0 <= j < i ==> self.pairs()[j].0 != k@,
            decreases self.packages@.len() - i,
        {
            if text_eq(self.packages[i].0.as_str(), k) {
                proof {
                    use_type_invariant(self);
                    lemma_assoc_map(self.pairs());
                    assert(self.pairs()[i as int].0 == k@);
                }
                return Some(i);
            }
            assert(self.pairs()[i as int].0 != k@);
            i = i + 1;
        }
        proof {
            use_type_invariant(self);
            lemma_assoc_map(self.pairs());
        }
        None
    }

    /// Adds a version, with or without checking that it sorts after the latest one.
    fn add_version_imp(&mut self, package_name: &str, version: &str, check: bool) -> (r: Result<
        (),
        VersionitisError,
    >)
        ensures
            match parse_version_spec(version@) {
                None => r matches Err(VersionitisError::ParseError(t, _)) && t@ == version@ && final(self)@ == old(self)@,
                Some(v) => if check && !add_version_accepts(
                    old(self)@.0,
                    package_name@,
                    (package_name@, v),
                ) {
                    r matches Err(VersionitisError::InvalidPackageVersion(t)) && t@
                        == render_package((package_name@, v)) && final(self)@ == old(self)@
                } else {
                    r is Ok && final(self)@ == (
                        appended(old(self)@.0, package_name@, (package_name@, v)),
                        old(self)@.1 && check,
                    )
                },
            },
    {
        let pack = match Package::from_strs(package_name, version) {
            Ok(p) => p,
            Err(e) => {
                return Err(e);
            },
        };
        proof {
            use_type_invariant(&*self);
            lemma_assoc_map(self.pairs());
        }
        let ghost old_pairs = self.pairs();
        let ghost pv = pack@;
        let pos = self.find(package_name);
        if check {
            if let Some(i) = pos {
                let n = self.packages[i].1.len();
                if n > 0 {
                    proof {
                        assert(old_pairs[i as int].1.last() == self.packages@[i as int].1@[n - 1]@);
                    }
                    if !self.packages[i].1[n - 1].precedes(&pack) {
                        return Err(VersionitisError::InvalidPackageVersion(pack.to_string()));
                    }
                }
            }
        } else {
            self.unchecked = true;
        }
        let ghost mid_unchecked = self.unchecked;
        let mut entries: Vec<(String, Vec<Package>)> = Vec::new();
        std::mem::swap(&mut entries, &mut self.packages);
        assert(entries@.map_values(|e: (String, Vec<Package>)| (e.0@, package_views(e.1@)))
            == old_pairs);
        let ghost new_pairs;
        match pos {
            Some(i) => {
                let (name, mut list) = entries.remove(i);
                let ghost old_list = package_views(list@);
                list.push(pack);
                assert(package_views(list@) =~= old_list.push(pv));
                entries.insert(i, (name, list));
                proof {
                    new_pairs = entries@.map_values(
                        |e: (String, Vec<Package>)| (e.0@, package_views(e.1@)),
                    );
                    assert(new_pairs =~= old_pairs.update(i as int, (package_name@, old_list.push(pv))));
                    if check && !mid_unchecked {
                        assert(strictly_sorted(old_list));
                        assert forall|a: int, b: int|
                            0 <= a < b < old_list.len() + 1 implies package_lt(
                            old_list.push(pv)[a],
                            old_list.push(pv)[b],
                        ) by {
                            if b == old_list.len() && a < old_list.len() - 1 {
                                lemma_package_order(old_list[a], old_list.last(), pv);
                            }
                        }
                    }
                }
            },
            None => {
                let name = String::from_str(package_name);
                let list = vec![pack];
                assert(package_views(list@) =~= seq![pv]);
                entries.push((name, list));
                proof {
                    new_pairs = entries@.map_values(
                        |e: (String, Vec<Package>)| (e.0@, package_views(e.1@)),
                    );
                    assert(new_pairs =~= old_pairs.push((package_name@, seq![pv])));
                }
            },
        }
        proof {
            assert(assoc_keys_unique(new_pairs));
            lemma_assoc_map(new_pairs);
            let target = appended(assoc_map(old_pairs), package_name@, pv);
            assert forall|key: Seq<char>| #[trigger]
                assoc_map(new_pairs).contains_key(key) implies target.contains_key(key) by {
                let j = choose|j: int| 0 <= j < new_pairs.len() && new_pairs[j].0 == key;
                if key != package_name@ {
                    assert(old_pairs[j].0 == key);
                }
            }
            assert forall|key: Seq<char>| #[trigger] target.contains_key(key) implies assoc_map(
                new_pairs,
            ).contains_key(key) && assoc_map(new_pairs)[key] == target[key] by {
                if key == package_name@ {
                    let j = if pos is Some {
                        pos->0 as int
                    } else {
                        new_pairs.len() - 1
                    };
                    assert(new_pairs[j].0 == key);
                } else {
                    let j = choose|j: int| 0 <= j < old_pairs.len() && old_pairs[j].0 == key;
                    assert(new_pairs[j] == old_pairs[j]);
                }
            }
            assert(assoc_map(new_pairs) =~= target);
        }
        self.packages = entries;
        Ok(())
    }

    /// Adds a version that must sort after the latest version of its name.
    pub fn add_version(&mut self, package_name: &str, version: &str) -> (r: Result<
        (),
        VersionitisError,
    >)
        ensures
            match parse_version_spec(version@) {
                None => r matches Err(VersionitisError::ParseError(t, _)) && t@ == version@ && final(self)@ == old(self)@,
                Some(v) => if add_version_accepts(old(self)@.0, package_name@, (package_name@, v)) {
                    r is Ok && final(self)@ == (
                        appended(old(self)@.0, package_name@, (package_name@, v)),
                        old(self)@.1,
                    )
                } else {
                    r matches Err(VersionitisError::InvalidPackageVersion(t)) && t@
                        == render_package((package_name@, v)) && final(self)@ == old(self)@
                },
            },
    {
        self.add_version_imp(package_name, version, true)
    }

    /// Adds a version without checking its order; the repository is then no longer
    /// known to be sorted.
    pub fn add_version_unchecked(&mut self, package_name: &str, version: &str) -> (r: Result<
        (),
        VersionitisError,
    >)
        ensures
            match parse_version_spec(version@) {
                None => r matches Err(VersionitisError::ParseError(t, _)) && t@ == version@ && final(self)@ == old(self)@,
                Some(v) => r is Ok && final(self)@ == (
                    appended(old(self)@.0, package_name@, (package_name@, v)),
                    false,
                ),
            },
    {
        self.add_version_imp(package_name, version, false)
    }

    /// The versions known under a name.
    pub fn get(&self, package: &str) -> (r: Result<&Vec<Package>, VersionitisError>)
        ensures
            match r {
                Ok(list) => self@.0.contains_key(package@) && package_views(list@)
                    == self@.0[package@],
                Err(e) => !self@.0.contains_key(package@) && (e matches VersionitisError::UnknownPackage(
                    n,
                ) && n@ == package@),
            },
    {
        proof {
            use_type_invariant(self);
            lemma_assoc_map(self.pairs());
        }
        match self.find(package) {
            Some(i) => Ok(&self.packages[i].1),
            None => Err(VersionitisError::UnknownPackage(String::from_str(package))),
        }
    }

    /// Whether every version list is known to be ascending without duplicates.
    pub fn is_clean(&self) -> (r: bool)
        ensures
            r == self@.1,
    {
        !self.unchecked
    }

    /// Sorts every version list ascending and removes duplicates.
    pub fn dedup_sort(&mut self)
        ensures
            final(self)@.1,
            dedup_sort_result(old(self)@.0, final(self)@.0),
    {
        proof {
            use_type_invariant(&*self);
            lemma_assoc_map(self.pairs());
        }
        let ghost old_pairs = self.pairs();
        let mut entries: Vec<(String, Vec<Package>)> = Vec::new();
        std::mem::swap(&mut entries, &mut self.packages);
        assert(entries@.map_values(|e: (String, Vec<Package>)| (e.0@, package_views(e.1@)))
            == old_pairs);
        let mut out: Vec<(String, Vec<Package>)> = Vec::new();
        let mut i: usize = 0;
        while i < entries.len()
            invariant
                i <= entries@.len(),
                old_pairs == entries@.map_values(
                    |e: (String, Vec<Package>)| (e.0@, package_views(e.1@)),
                ),
                out@.len() == i,
                forall|j: int|
                    0 <= j < i ==> (#[trigger] out@[j]).0@ == old_pairs[j].0 && dedup_sorted(
                        old_pairs[j].1,
                        package_views(out@[j].1@),
                    ),
            decreases entries@.len() - i,
        {
            let name = String::from_str(entries[i].0.as_str());
            let sorted = sort_dedup(&entries[i].1);
            out.push((name, sorted));
            i = i + 1;
        }
        let ghost new_pairs = out@.map_values(
            |e: (String, Vec<Package>)| (e.0@, package_views(e.1@)),
        );
        proof {
            assert forall|j: int| 0 <= j < new_pairs.len() implies new_pairs[j].0 == old_pairs[j].0
                && dedup_sorted(old_pairs[j].1, #[trigger] new_pairs[j].1) by {
                assert(out@[j].0@ == old_pairs[j].0);
            }
            assert(assoc_keys_unique(new_pairs));
            lemma_assoc_map(new_pairs);
            let before = assoc_map(old_pairs);
            let after = assoc_map(new_pairs);
            assert forall|k: Seq<char>| #[trigger] after.contains_key(k) implies before.contains_key(
                k,
            ) by {
                let j = choose|j: int| 0 <= j < new_pairs.len() && new_pairs[j].0 == k;
                assert(old_pairs[j].0 == k);
            }
            assert forall|k: Seq<char>| #[trigger] before.contains_key(k) implies after.contains_key(k)
                && dedup_sorted(before[k], after[k]) by {
                let j = choose|j: int| 0 <= j < old_pairs.len() && old_pairs[j].0 == k;
                assert(new_pairs[j].0 == k);
                assert(dedup_sorted(old_pairs[j].1, new_pairs[j].1));
            }
            assert(after.dom() =~= before.dom());
        }
        *self = Repo { packages: out, unchecked: false };
    }

    /// The package names, in no particular order.
    pub fn package_names(&self) -> (r: Vec<String>)
        ensures
            r@.len() == self@.0.len(),
            forall|i: int| 0 <= i < r@.len() ==> self@.0.contains_key(#[trigger] r@[i]@),
            forall|k: Seq<char>|
                #[trigger] self@.0.contains_key(k) ==> exists|i: int| 0 <= i < r@.len() && r@[i]@ == k,
    {
        proof {
            use_type_invariant(self);
            lemma_assoc_map(self.pairs());
        }
        let mut r: Vec<String> = Vec::new();
        let mut i: usize = 0;
        while i < self.packages.len()
            invariant
                i <= self.packages@.len(),
                r@.len() == i,
                forall|j: int| 0 <= j < i ==> (#[trigger] r@[j])@ == self.pairs()[j].0,
            decreases self.packages@.len() - i,
        {
            r.push(String::from_str(self.packages[i].0.as_str()));
            i = i + 1;
        }
        proof {
            assert forall|k: Seq<char>| #[trigger] self@.0.contains_key(k) implies exists|i: int|
                0 <= i < r@.len() && r@[i]@ == k by {
                let j = choose|j: int| 0 <= j < self.pairs().len() && self.pairs()[j].0 == k;
                assert(r@[j]@ == k);
            }
        }
        r
    }
}

} // verus!
