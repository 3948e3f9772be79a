//! Verified core of the unblock MCP tool layer.
use vstd::prelude::*;

pub mod args;
pub mod cross_repo;
pub mod dep_cycles;
pub mod dep_remove;
pub mod error;
pub mod json;
pub mod list;
pub mod markdown;
pub mod model;
pub mod prime;
pub mod quota;
pub mod ready;
pub mod sorting;
pub mod text;
pub mod tools;

verus! {
} // verus!
