//! Release computation for conventional-commit based projects: commit
//! classification, version resolution, release-notes rendering and
//! partitioning of a repository into independently released packages.

pub mod text;
pub mod git;
pub mod changelog;
pub mod ctx;
pub mod notes;
pub mod version;
pub mod package;
pub mod laws;
pub mod bump_files;
pub mod api;
