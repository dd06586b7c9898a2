//! Verified core of a lightweight local code index for Rust workspaces.
use vstd::prelude::*;

pub mod candidates;
pub mod cli;
pub mod compactor;
pub mod derived;
pub mod enrich;
pub mod evidence;
pub mod extract;
pub mod git;
pub mod model;
pub mod parse;
pub mod paths;
pub mod persist;
pub mod query;
pub mod ranking;
pub mod results;
pub mod scanner;
pub mod summary;
pub mod syntax;
pub mod test_mapping;
pub mod text;
pub mod update;

verus! {
} // verus!
