//! Manifests by name, listed by package name.

use vstd::prelude::*;
use crate::interval::Interval;
use crate::manifest::Manifest;
use crate::manifest_repo::{
    base_name, listed_name, names_sorted, string_views, ManifestRepo, ManifestView,
};

verus! {

/// Manifests, each under its own name, listing packages by their package names.
#[derive(Debug, PartialEq, Eq)]
pub struct ManifestMap {
    repo: ManifestRepo,
}

impl View for ManifestMap {
    type V = Map<Seq<char>, ManifestView>;

    closed spec fn view(&self) -> Map<Seq<char>, ManifestView> {
        self.repo@
    }
}

impl ManifestMap {
    /// An empty map.
    pub fn new() -> (r: Self)
        ensures
            r@ == Map::<Seq<char>, ManifestView>::empty(),
    {
        ManifestMap { repo: ManifestRepo::new() }
    }

    /// Adds a manifest under its name, replacing one of the same name.
    pub fn add(&mut self, manifest: Manifest)
        ensures
            final(self)@ == old(self)@.insert(manifest@.0, manifest@),
    {
        self.repo.add(manifest);
    }

    /// The manifest with a name.
    pub fn get(&self, name: &str) -> (r: Option<&Manifest>)
        ensures
            match r {
                Some(m) => self@.contains_key(name@) && m@ == self@[name@],
                None => !self@.contains_key(name@),
            },
    {
        self.repo.get(name)
    }

    /// The manifest names, in no particular order.
    pub fn keys(&self) -> (r: Vec<String>)
        ensures
            r@.len() == self@.len(),
            forall|i: int| 0 <= i < r@.len() ==> self@.contains_key(#[trigger] r@[i]@),
            forall|k: Seq<char>|
                #[trigger] self@.contains_key(k) ==> exists|i: int| 0 <= i < r@.len() && r@[i]@ == k,
    {
        self.repo.keys()
    }

    /// The package names that the manifest names carry, without duplicates.
    pub fn packages(&self) -> (r: Vec<String>)
        ensures
            forall|i: int, j: int|
                0 <= i < j < r@.len() ==> (#[trigger] r@[i])@ != (#[trigger] r@[j])@,
            forall|x: Seq<char>| #[trigger]
                string_views(r@).contains(x) <==> exists|k: Seq<char>|
                    self@.contains_key(k) && base_name(k) == x,
    {
        let r = self.repo.packages(false);
        proof {
            assert forall|x: Seq<char>| #[trigger] string_views(r@).contains(x) <==> exists|
                k: Seq<char>,
            | self@.contains_key(k) && base_name(k) == x by {
                if string_views(r@).contains(x) {
                    let k = choose|k: Seq<char>|
                        self@.contains_key(k) && listed_name(k, false) == x;
                    assert(base_name(k) == x);
                }
                if exists|k: Seq<char>| self@.contains_key(k) && base_name(k) == x {
                    let k = choose|k: Seq<char>| self@.contains_key(k) && base_name(k) == x;
                    assert(listed_name(k, false) == x);
                }
            }
        }
        r
    }

    /// The package names that the manifest names carry, ascending and without
    /// duplicates.
    pub fn packages_sorted(&self) -> (r: Vec<String>)
        ensures
            names_sorted(string_views(r@)),
            forall|x: Seq<char>| #[trigger]
                string_views(r@).contains(x) <==> exists|k: Seq<char>|
                    self@.contains_key(k) && base_name(k) == x,
    {
        let r = self.repo.packages_sorted(false);
        proof {
            assert forall|x: Seq<char>| #[trigger] string_views(r@).contains(x) <==> exists|
                k: Seq<char>,
            | self@.contains_key(k) && base_name(k) == x by {
                if string_views(r@).contains(x) {
                    let k = choose|k: Seq<char>|
                        self@.contains_key(k) && listed_name(k, false) == x;
                    assert(base_name(k) == x);
                }
                if exists|k: Seq<char>| self@.contains_key(k) && base_name(k) == x {
                    let k = choose|k: Seq<char>| self@.contains_key(k) && base_name(k) == x;
                    assert(listed_name(k, false) == x);
                }
            }
        }
        r
    }

    /// Whether a manifest has this name.
    pub fn has(&self, package: &str) -> (r: bool)
        ensures
            r == self@.contains_key(package@),
    {
        self.repo.has(package)
    }

    /// Adds an empty manifest with a name.
    pub fn add_str(&mut self, vs: &str)
        ensures
            final(self)@ == old(self)@.insert(
                vs@,
                (vs@, Map::<Seq<char>, Interval<Seq<u16>>>::empty()),
            ),
    {
        self.repo.add_str(vs);
    }

    /// The number of manifests.
    pub fn len(&self) -> (r: usize)
        ensures
            r == self@.len(),
    {
        self.repo.len()
    }
}

} // verus!
