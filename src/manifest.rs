//! Manifests: the dependencies of a package, one interval per name.

use vstd::prelude::*;
use crate::errors::VersionitisError;
use crate::interval::Interval;
use crate::interval_map::IntervalMap;
use crate::package::Package;
use crate::version_number_interval::{interval_holds, VersionNumberInterval};

verus! {

/// The dependencies after adding one: `None` when the name already has an interval,
/// which is then kept; otherwise the name is added with its interval.
pub open spec fn add_dependency_result(
    deps: Map<Seq<char>, Interval<Seq<u16>>>,
    name: Seq<char>,
    interval: Interval<Seq<u16>>,
) -> Option<Map<Seq<char>, Interval<Seq<u16>>>> {
    if deps.contains_key(name) {
        None
    } else {
        Some(deps.insert(name, interval))
    }
}

/// Adding a second interval under a name that was just added is rejected, and the
/// first interval stays.
pub proof fn lemma_second_dependency_rejected(
    deps: Map<Seq<char>, Interval<Seq<u16>>>,
    name: Seq<char>,
    first: Interval<Seq<u16>>,
    second: Interval<Seq<u16>>,
)
    requires
        add_dependency_result(deps, name, first) is Some,
    ensures
        add_dependency_result(add_dependency_result(deps, name, first)->0, name, second) is None,
        add_dependency_result(deps, name, first)->0[name] == first,
{
}

/// The dependencies of a named package: at most one interval of versions for each
/// dependency name.
#[derive(Debug, PartialEq, Eq)]
pub struct Manifest {
    name: String,
    dependencies: IntervalMap,
}

impl View for Manifest {
    type V = (Seq<char>, Map<Seq<char>, Interval<Seq<u16>>>);

    closed spec fn view(&self) -> (Seq<char>, Map<Seq<char>, Interval<Seq<u16>>>) {
        (self.name@, self.dependencies@)
    }
}

impl Manifest {
    /// A manifest with a name and no dependency.
    pub fn new(name: &str) -> (r: Self)
        ensures
            r@ == (name@, Map::<Seq<char>, Interval<Seq<u16>>>::empty()),
    {
        Manifest { name: String::from_str(name), dependencies: IntervalMap::new() }
    }

    /// The name of the package that the manifest describes.
    pub fn package(&self) -> (r: &str)
        ensures
            r@ == self@.0,
    {
        self.name.as_str()
    }

    /// The dependencies.
    pub fn dependencies(&self) -> (r: &IntervalMap)
        ensures
            r@ == self@.1,
    {
        &self.dependencies
    }

    /// Adds a dependency; a name that already has an interval is rejected and the
    /// manifest stays as it was.
    pub fn add_dependency(&mut self, package_name: &str, interval: VersionNumberInterval) -> (r:
        Result<(), VersionitisError>)
        ensures
            match add_dependency_result(old(self)@.1, package_name@, interval@) {
                Some(deps) => r is Ok && final(self)@ == (old(self)@.0, deps),
                None => r matches Err(VersionitisError::DuplicatePackageDependency(n)) && n@
                    == package_name@ && final(self)@ == old(self)@,
            },
    {
        if self.depends_on(package_name) {
            return Err(VersionitisError::DuplicatePackageDependency(String::from_str(package_name)));
        }
        self.dependencies.insert(package_name, interval);
        Ok(())
    }

    /// Whether the manifest has a dependency of this name, whatever its versions.
    pub fn depends_on(&self, name: &str) -> (r: bool)
        ensures
            r == self@.1.contains_key(name@),
    {
        self.dependencies.contains_key(name)
    }

    /// Whether the manifest has a dependency of the package's name whose interval
    /// holds the package's version.
    pub fn depends_on_package(&self, package: &Package) -> (r: bool)
        ensures
            r == (self@.1.contains_key(package@.0) && interval_holds(
                self@.1[package@.0],
                package@.1,
            )),
    {
        match self.dependencies.get(package.name()) {
            Some(dep) => dep.contains(package.version_number()),
            None => false,
        }
    }
}

} // verus!
