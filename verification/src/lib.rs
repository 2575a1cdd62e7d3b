//! Repository introspection and diff engine.
//!
//! The crate derives structured branch, commit, diff, conflict and staging
//! data from a version-control repository: it enumerates and ranks branches,
//! walks commit history, produces unified diffs with parsed hunk lists,
//! classifies porcelain status codes, and synthesizes partial-staging
//! patches.  All parsing, classification and assembly logic is verified;
//! calls into the underlying toolchain stand behind a small set of trusted
//! wrappers.

pub mod assemble;
pub mod branches;
pub mod commits;
pub mod diffs;
pub mod gitio;
pub mod hunks;
pub mod models;
pub mod repo;
pub mod staging;
pub mod status;
pub mod text;
