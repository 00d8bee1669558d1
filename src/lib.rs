//! Package versions and the data a dependency resolver works on: version numbers
//! and their order, named packages, intervals of versions with their compact text
//! and its parsers, manifests with at most one interval per dependency, and
//! repositories that keep the versions of each package in order.

pub mod assoc;
pub mod command;
pub mod errors;
pub mod interval;
pub mod interval_map;
pub mod manifest;
pub mod manifest_map;
pub mod manifest_repo;
pub mod package;
pub mod package_interval;
pub mod package_interval_parser;
pub mod package_map;
pub mod package_version_parser;
pub mod repo;
pub mod text;
pub mod traits;
pub mod vernum_interval_parser;
pub mod version_number;
pub mod version_number_interval;

pub use crate::repo::Repo;
