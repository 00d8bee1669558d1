//! Packages numbered from 1 in the order they were added.

use vstd::prelude::*;
use crate::package::{parse_package_spec, render_package, Package};
use crate::text::text_eq;

verus! {

/// The largest number of packages that 1-based `i32` ids can number.
pub const MAX_PACKAGES: usize = 2147483646;

/// Whether a list of packages holds one whose text is `s`.
pub open spec fn holds_spec(v: Seq<(Seq<char>, Seq<u16>)>, s: Seq<char>) -> bool {
    exists|i: int| 0 <= i < v.len() && render_package(#[trigger] v[i]) == s
}

/// Packages numbered from 1 in the order they were added, each text once.
pub struct PackageMap {
    arena: Vec<Package>,
}

impl View for PackageMap {
    type V = Seq<(Seq<char>, Seq<u16>)>;

    closed spec fn view(&self) -> Seq<(Seq<char>, Seq<u16>)> {
        self.arena@.map_values(|p: Package| p@)
    }
}

impl PackageMap {
    #[verifier::type_invariant]
    spec fn well_formed(&self) -> bool {
        &&& self@.len() <= MAX_PACKAGES
        &&& forall|i: int, j: int|
            0 <= i < j < self@.len() ==> render_package(self@[i]) != render_package(self@[j])
    }

    /// An empty map.
    pub fn new() -> (r: Self)
        ensures
            r@ == Seq::<(Seq<char>, Seq<u16>)>::empty(),
    {
        let r = PackageMap { arena: Vec::new() };
        assert(r@ =~= Seq::<(Seq<char>, Seq<u16>)>::empty());
        r
    }

    /// The position of the package whose text is `s`.
    fn find(&self, s: &str) -> (r: Option<usize>)
        ensures
            match r {
                Some(i) => i < self@.len() && render_package(self@[i as int]) == s@,
                None => !holds_spec(self@, s@),
            },
    {
        let mut i: usize = 0;
        while i < self.arena.len()
            invariant
                i <= self.arena@.len(),
                forall|j: int| 0 <= j < i ==> render_package(self@[j]) != s@,
            decreases self.arena@.len() - i,
        {
            let text = self.arena[i].spec();
            if text_eq(text.as_str(), s) {
                return Some(i);
            }
            i = i + 1;
        }
        None
    }

    /// Adds a package unless one with the same text is there.
    pub fn add(&mut self, version: Package)
        requires
            old(self)@.len() < MAX_PACKAGES,
        ensures
            holds_spec(old(self)@, render_package(version@)) ==> final(self)@ == old(self)@,
            !holds_spec(old(self)@, render_package(version@)) ==> final(self)@ == old(self)@.push(
                version@,
            ),
    {
        proof {
            use_type_invariant(&*self);
        }
        let text = version.spec();
        if self.find(text.as_str()).is_none() {
            let ghost old_view = self@;
            let mut arena: Vec<Package> = Vec::new();
            std::mem::swap(&mut arena, &mut self.arena);
            arena.push(version);
            let ghost nv = arena@.map_values(|p: Package| p@);
            assert(nv =~= old_view.push(version@));
            proof {
                assert forall|i: int, j: int| 0 <= i < j < nv.len() implies render_package(nv[i])
                    != render_package(nv[j]) by {
                    if j == nv.len() - 1 {
                        assert(nv[i] == old_view[i]);
                    } else {
                        assert(nv[i] == old_view[i] && nv[j] == old_view[j]);
                    }
                }
            }
            self.arena = arena;
        }
    }

    /// Whether a package with this text is there.
    pub fn has(&self, version_str: &str) -> (r: bool)
        ensures
            r == holds_spec(self@, version_str@),
    {
        self.find(version_str).is_some()
    }

    /// Parses "<name>-<version>" and adds that package.
    pub fn add_str(&mut self, vs: &str)
        requires
            old(self)@.len() < MAX_PACKAGES,
            parse_package_spec(vs@) is Some,
        ensures
            holds_spec(old(self)@, render_package(parse_package_spec(vs@)->0)) ==> final(self)@
                == old(self)@,
            !holds_spec(old(self)@, render_package(parse_package_spec(vs@)->0)) ==> final(self)@
                == old(self)@.push(parse_package_spec(vs@)->0),
    {
        if let Ok(p) = Package::from_string(vs) {
            self.add(p);
        }
    }

    /// The 1-based id of the package whose text is `value`.
    pub fn get(&self, value: &str) -> (r: Option<i32>)
        ensures
            match r {
                Some(id) => 1 <= id <= self@.len() && render_package(self@[id - 1]) == value@
                    && forall|j: int|
                    0 <= j < self@.len() && render_package(#[trigger] self@[j]) == value@ ==> j
                        == id - 1,
                None => !holds_spec(self@, value@),
            },
    {
        proof {
            use_type_invariant(self);
        }
        match self.find(value) {
            Some(i) => Some((i + 1) as i32),
            None => None,
        }
    }

    /// The package with a 1-based id.
    pub fn at_lit(&self, lit: i32) -> (r: Option<&Package>)
        ensures
            match r {
                Some(p) => 1 <= lit <= self@.len() && p@ == self@[lit - 1],
                None => !(1 <= lit <= self@.len()),
            },
    {
        if lit >= 1 && ((lit - 1) as usize) < self.arena.len() {
            Some(&self.arena[(lit - 1) as usize])
        } else {
            None
        }
    }

    /// The number of packages.
    pub fn len(&self) -> (r: usize)
        ensures
            r == self@.len(),
    {
        self.arena.len()
    }
}

} // verus!
