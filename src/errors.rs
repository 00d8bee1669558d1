//! The errors that the library reports.

use vstd::prelude::*;

verus! {

/// The error kinds reported by the library's operations.
#[derive(Debug, PartialEq, Eq, Clone)]
pub enum VersionitisError {
    /// Text that does not follow the expected grammar: the offending input and a diagnostic.
    ParseError(String, String),
    /// A checked insertion whose version is not greater than the latest one.
    InvalidPackageVersion(String),
    /// A lookup of a package name that was never inserted.
    UnknownPackage(String),
    /// A failure reported by a serialization format.
    SerdeYamlError(String),
    /// A failure reported by the file system.
    IoError(String),
    /// A path that does not exist.
    NonExtantFileError(String),
    /// A failure while adding a version interactively.
    AddVersionError(String),
    /// A second interval for a dependency name that already has one.
    DuplicatePackageDependency(String),
}

} // verus!
