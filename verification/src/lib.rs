//! Create, parse, edit, and compare semantic version numbers.
//!
//! The version model follows the Semantic Versioning 2.0.0 rules: a version
//! is three numeric fields, an optional pre-release identifier list and an
//! optional build metadata list.  Versions are totally ordered; build
//! metadata never takes part in comparison.  A parser turns text into a
//! `Version` and a small constraint language filters pools of versions.

pub mod parser;
pub mod resolve;
pub mod version;

pub use version::Identifier;
pub use version::Version;
