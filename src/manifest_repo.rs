//! Collections of manifests keyed by manifest name.

use vstd::prelude::*;
use crate::assoc::{assoc_keys_unique, assoc_map, lemma_assoc_map};
use crate::interval::Interval;
use crate::manifest::Manifest;
use crate::package::{lemma_name_order, name_lt, text_precedes};
use crate::text::{find_char, first_index, has_char, text_chars, text_eq};

verus! {

/// The view of a manifest: its name and its dependencies.
pub type ManifestView = (Seq<char>, Map<Seq<char>, Interval<Seq<u16>>>);

/// The package name of "<name>-<version>": what stands before the first '-', or the
/// whole text when it has none.
pub open spec fn base_name(s: Seq<char>) -> Seq<char> {
    if has_char(s, '-') {
        s.take(first_index(s, '-'))
    } else {
        s
    }
}

/// Each name sorts strictly before every later one.
pub open spec fn names_sorted(s: Seq<Seq<char>>) -> bool {
    forall|i: int, j: int| 0 <= i < j < s.len() ==> name_lt(s[i], s[j])
}

/// The texts of a list of strings.
pub open spec fn string_views(v: Seq<String>) -> Seq<Seq<char>> {
    v.map_values(|s: String| s@)
}

/// The names that `packages` lists: every manifest name, or the package name of
/// every manifest name.
pub open spec fn listed_name(key: Seq<char>, versioned: bool) -> Seq<char> {
    if versioned {
        key
    } else {
        base_name(key)
    }
}

/// The package name of "<name>-<version>".
pub fn base_name_of(s: &str) -> (r: String)
    ensures
        r@ == base_name(s@),
{
    let cs = text_chars(s);
    let n = cs.len();
    assert(cs@.subrange(0, n as int) =~= s@);
    match find_char(&cs, 0, n, '-') {
        Some(k) => {
            let name = s.substring_char(0, k);
            assert(name@ =~= s@.take(k as int));
            String::from_str(name)
        },
        None => String::from_str(s),
    }
}

/// The texts of a list, ascending and without duplicates.
pub fn sort_dedup_names(list: &Vec<String>) -> (r: Vec<String>)
    ensures
        names_sorted(string_views(r@)),
        forall|x: Seq<char>| #[trigger]
            string_views(r@).contains(x) <==> string_views(list@).contains(x),
{
    let mut out: Vec<String> = Vec::new();
    let mut i: usize = 0;
    while i < list.len()
        invariant
            i <= list@.len(),
            names_sorted(string_views(out@)),
            forall|x: Seq<char>| #[trigger]
                string_views(out@).contains(x) <==> string_views(list@).take(i as int).contains(x),
        decreases list@.len() - i,
    {
        let x = list[i].as_str();
        let ghost xv = x@;
        let ghost ov = string_views(out@);
        let mut j: usize = 0;
        while j < out.len() && text_precedes(out[j].as_str(), x)
            invariant
                j <= out@.len(),
                ov == string_views(out@),
                xv == x@,
                forall|a: int| 0 <= a < j ==> name_lt(#[trigger] ov[a], xv),
            decreases out@.len() - j,
        {
            j = j + 1;
        }
        let ghost before = string_views(list@).take(i as int);
        let ghost after = string_views(list@).take(i + 1);
        assert(after =~= before.push(xv));
        if j < out.len() && text_eq(out[j].as_str(), x) {
            proof {
                assert(ov[j as int] == xv);
                assert forall|y: Seq<char>| #[trigger] ov.contains(y) <==> after.contains(y) by {
                    if after.contains(y) && y != xv {
                        let k = choose|k: int| 0 <= k < after.len() && after[k] == y;
                        assert(before[k] == y);
                        assert(before.contains(y));
                    }
                    if ov.contains(y) {
                        assert(before.contains(y));
                        let k = choose|k: int| 0 <= k < before.len() && before[k] == y;
                        assert(after[k] == y);
                    }
                }
            }
        } else {
            out.insert(j, String::from_str(x));
            proof {
                let nv = string_views(out@);
                assert(nv =~= ov.insert(j as int, xv));
                if j < ov.len() {
                    lemma_name_order(ov[j as int], xv, ov[j as int]);
                    assert(name_lt(xv, ov[j as int]));
                }
                assert forall|a: int, b: int| 0 <= a < b < nv.len() implies name_lt(
                    nv[a],
                    nv[b],
                ) by {
                    if b < j {
                        assert(nv[a] == ov[a] && nv[b] == ov[b]);
                    } else if b == j {
                        assert(nv[a] == ov[a]);
                    } else if a == j {
                        assert(nv[b] == ov[b - 1]);
                        if b - 1 > j {
                            lemma_name_order(xv, ov[j as int], ov[b - 1]);
                        }
                    } else if a < j {
                        assert(nv[a] == ov[a] && nv[b] == ov[b - 1]);
                        lemma_name_order(ov[a], xv, ov[b - 1]);
                        if b - 1 > j {
                            lemma_name_order(xv, ov[j as int], ov[b - 1]);
                        }
                    } else {
                        assert(nv[a] == ov[a - 1] && nv[b] == ov[b - 1]);
                    }
                }
                assert forall|y: Seq<char>| #[trigger] nv.contains(y) <==> after.contains(y) by {
                    if nv.contains(y) {
                        let k = choose|k: int| 0 <= k < nv.len() && nv[k] == y;
                        if k < j {
                            assert(ov[k] == y);
                            assert(ov.contains(y));
                        } else if k > j {
                            assert(ov[k - 1] == y);
                            assert(ov.contains(y));
                        }
                        if y != xv {
                            let m = choose|m: int| 0 <= m < before.len() && before[m] == y;
                            assert(after[m] == y);
                        } else {
                            assert(after[after.len() - 1] == y);
                        }
                    }
                    if after.contains(y) {
                        let k = choose|k: int| 0 <= k < after.len() && after[k] == y;
                        if k < before.len() {
                            assert(before[k] == y);
                            assert(before.contains(y));
                            assert(ov.contains(y) == before.contains(y));
                            let m = choose|m: int| 0 <= m < ov.len() && ov[m] == y;
                            if m < j {
                                assert(nv[m] == y);
                            } else {
                                assert(nv[m + 1] == y);
                            }
                        } else {
                            assert(nv[j as int] == y);
                        }
                    }
                }
            }
        }
        i = i + 1;
    }
    assert(string_views(list@).take(i as int) =~= string_views(list@));
    out
}

/// Manifests, each under its own name; adding one with a name already there
/// replaces the earlier one.
#[derive(Debug, PartialEq, Eq)]
pub struct ManifestRepo {
    manifests: Vec<Manifest>,
}

impl ManifestRepo {
    /// The entries, as views keyed by manifest name.
    pub closed spec fn pairs(&self) -> Seq<(Seq<char>, ManifestView)> {
        self.manifests@.map_values(|m: Manifest| (m@.0, m@))
    }

    #[verifier::type_invariant]
    spec fn well_formed(&self) -> bool {
        assoc_keys_unique(self.pairs())
    }
}

impl View for ManifestRepo {
    type V = Map<Seq<char>, ManifestView>;

    closed spec fn view(&self) -> Map<Seq<char>, ManifestView> {
        assoc_map(self.pairs())
    }
}

impl ManifestRepo {
    /// An empty collection.
    pub fn new() -> (r: Self)
        ensures
            r@ == Map::<Seq<char>, ManifestView>::empty(),
    {
        let r = ManifestRepo { manifests: Vec::new() };
        assert(r.pairs() =~= Seq::<(Seq<char>, ManifestView)>::empty());
        r
    }

    /// The position of the manifest with a name.
    fn find(&self, k: &str) -> (r: Option<usize>)
        ensures
            match r {
                Some(i) => i < self.pairs().len() && self.pairs()[i as int].0 == k@,
                None => !self@.contains_key(k@),
            },
            self@.contains_key(k@) <==> r is Some,
    {
        let mut i: usize = 0;
        while i < self.manifests.len()
            invariant
                i <= self.manifests@.len(),
                forall|j: int| 0 <= j < i ==> self.pairs()[j].0 != k@,
            decreases self.manifests@.len() - i,
        {
            if text_eq(self.manifests[i].package(), k) {
                proof {
                    use_type_invariant(self);
                    lemma_assoc_map(self.pairs());
                    assert(self.pairs()[i as int].0 == k@);
                }
                return Some(i);
            }
            assert(self.pairs()[i as int].0 != k@);
            i = i + 1;
        }
        proof {
            use_type_invariant(self);
            lemma_assoc_map(self.pairs());
        }
        None
    }

    /// Adds a manifest under its name, replacing one of the same name.
    pub fn add(&mut self, manifest: Manifest)
        ensures
            final(self)@ == old(self)@.insert(manifest@.0, manifest@),
    {
        proof {
            use_type_invariant(&*self);
            lemma_assoc_map(self.pairs());
        }
        let ghost old_pairs = self.pairs();
        let ghost mv = manifest@;
        let pos = self.find(manifest.package());
        let mut manifests: Vec<Manifest> = Vec::new();
        std::mem::swap(&mut manifests, &mut self.manifests);
        let ghost new_pairs;
        match pos {
            Some(i) => {
                manifests.remove(i);
                manifests.insert(i, manifest);
                proof {
                    new_pairs = manifests@.map_values(|m: Manifest| (m@.0, m@));
                    assert(new_pairs =~= old_pairs.update(i as int, (mv.0, mv)));
                }
            },
            None => {
                manifests.push(manifest);
                proof {
                    new_pairs = manifests@.map_values(|m: Manifest| (m@.0, m@));
                    assert(new_pairs =~= old_pairs.push((mv.0, mv)));
                }
            },
        }
        proof {
            assert(assoc_keys_unique(new_pairs));
            lemma_assoc_map(new_pairs);
            let target = assoc_map(old_pairs).insert(mv.0, mv);
            assert forall|key: Seq<char>| #[trigger]
                assoc_map(new_pairs).contains_key(key) implies target.contains_key(key) by {
                let j = choose|j: int| 0 <= j < new_pairs.len() && new_pairs[j].0 == key;
                if key != mv.0 {
                    assert(old_pairs[j].0 == key);
                }
            }
            assert forall|key: Seq<char>| #[trigger] target.contains_key(key) implies assoc_map(
                new_pairs,
            ).contains_key(key) && assoc_map(new_pairs)[key] == target[key] by {
                if key == mv.0 {
                    let j = if pos is Some {
                        pos->0 as int
                    } else {
                        new_pairs.len() - 1
                    };
                    assert(new_pairs[j].0 == key);
                } else {
                    let j = choose|j: int| 0 <= j < old_pairs.len() && old_pairs[j].0 == key;
                    assert(new_pairs[j] == old_pairs[j]);
                }
            }
            assert(assoc_map(new_pairs) =~= target);
        }
        self.manifests = manifests;
    }

    /// The manifest with a name.
    pub fn get(&self, name: &str) -> (r: Option<&Manifest>)
        ensures
            match r {
                Some(m) => self@.contains_key(name@) && m@ == self@[name@],
                None => !self@.contains_key(name@),
            },
    {
        proof {
            use_type_invariant(self);
            lemma_assoc_map(self.pairs());
        }
        match self.find(name) {
            Some(i) => Some(&self.manifests[i]),
            None => None,
        }
    }

    /// The manifest names, in no particular order.
    pub fn keys(&self) -> (r: Vec<String>)
        ensures
            r@.len() == self@.len(),
            forall|i: int| 0 <= i < r@.len() ==> self@.contains_key(#[trigger] r@[i]@),
            forall|k: Seq<char>|
                #[trigger] self@.contains_key(k) ==> exists|i: int| 0 <= i < r@.len() && r@[i]@ == k,
    {
        proof {
            use_type_invariant(self);
            lemma_assoc_map(self.pairs());
        }
        let mut r: Vec<String> = Vec::new();
        let mut i: usize = 0;
        while i < self.manifests.len()
            invariant
                i <= self.manifests@.len(),
                r@.len() == i,
                forall|j: int| 0 <= j < i ==> (#[trigger] r@[j])@ == self.pairs()[j].0,
            decreases self.manifests@.len() - i,
        {
            r.push(String::from_str(self.manifests[i].package()));
            i = i + 1;
        }
        proof {
            assert forall|k: Seq<char>| #[trigger] self@.contains_key(k) implies exists|i: int|
                0 <= i < r@.len() && r@[i]@ == k by {
                let j = choose|j: int| 0 <= j < self.pairs().len() && self.pairs()[j].0 == k;
                assert(r@[j]@ == k);
            }
        }
        r
    }

    /// The manifest names, or the package names they carry when `versioned` is
    /// false, ascending and without duplicates.
    pub fn packages_sorted(&self, versioned: bool) -> (r: Vec<String>)
        ensures
            names_sorted(string_views(r@)),
            forall|x: Seq<char>| #[trigger]
                string_views(r@).contains(x) <==> exists|k: Seq<char>|
                    self@.contains_key(k) && listed_name(k, versioned) == x,
    {
        let keys = self.keys();
        let mut names: Vec<String> = Vec::new();
        let mut i: usize = 0;
        while i < keys.len()
            invariant
                i <= keys@.len(),
                names@.len() == i,
                forall|j: int|
                    0 <= j < i ==> (#[trigger] names@[j])@ == listed_name(keys@[j]@, versioned),
            decreases keys@.len() - i,
        {
            if versioned {
                names.push(String::from_str(keys[i].as_str()));
            } else {
                names.push(base_name_of(keys[i].as_str()));
            }
            i = i + 1;
        }
        let r = sort_dedup_names(&names);
        proof {
            assert forall|x: Seq<char>| #[trigger] string_views(r@).contains(x) implies exists|
                k: Seq<char>,
            | self@.contains_key(k) && listed_name(k, versioned) == x by {
                assert(string_views(names@).contains(x));
                let j = choose|j: int| 0 <= j < names@.len() && string_views(names@)[j] == x;
                assert(names@[j]@ == listed_name(keys@[j]@, versioned));
                assert(self@.contains_key(keys@[j]@));
            }
            assert forall|x: Seq<char>|
                (exists|k: Seq<char>| self@.contains_key(k) && listed_name(k, versioned) == x)
                implies #[trigger] string_views(r@).contains(x) by {
                let k = choose|k: Seq<char>| self@.contains_key(k) && listed_name(k, versioned) == x;
                let j = choose|j: int| 0 <= j < keys@.len() && keys@[j]@ == k;
                assert(string_views(names@)[j] == x);
                assert(string_views(names@).contains(x));
            }
        }
        r
    }

    /// The manifest names, or the package names they carry when `versioned` is
    /// false, without duplicates.
    pub fn packages(&self, versioned: bool) -> (r: Vec<String>)
        ensures
            forall|i: int, j: int|
                0 <= i < j < r@.len() ==> (#[trigger] r@[i])@ != (#[trigger] r@[j])@,
            forall|x: Seq<char>| #[trigger]
                string_views(r@).contains(x) <==> exists|k: Seq<char>|
                    self@.contains_key(k) && listed_name(k, versioned) == x,
    {
        let r = self.packages_sorted(versioned);
        proof {
            assert forall|i: int, j: int| 0 <= i < j < r@.len() implies (#[trigger] r@[i])@ != (
            #[trigger] r@[j])@ by {
                assert(name_lt(string_views(r@)[i], string_views(r@)[j]));
                lemma_name_order(r@[i]@, r@[j]@, r@[i]@);
            }
        }
        r
    }

    /// Whether a manifest has this name.
    pub fn has(&self, package: &str) -> (r: bool)
        ensures
            r == self@.contains_key(package@),
    {
        self.find(package).is_some()
    }

    /// Adds an empty manifest with a name.
    pub fn add_str(&mut self, vs: &str)
        ensures
            final(self)@ == old(self)@.insert(
                vs@,
                (vs@, Map::<Seq<char>, Interval<Seq<u16>>>::empty()),
            ),
    {
        self.add(Manifest::new(vs));
    }

    /// The number of manifests.
    pub fn len(&self) -> (r: usize)
        ensures
            r == self@.len(),
    {
        proof {
            use_type_invariant(self);
            lemma_assoc_map(self.pairs());
        }
        self.manifests.len()
    }
}

} // verus!
