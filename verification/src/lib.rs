//! Release-orchestration helper library: semantic-version bumping, commit-log
//! harvesting, and changelog-section splicing and extraction.

pub mod changelog;
pub mod commits;
pub mod release;
pub mod text;
pub mod version;
