//! Dynamic version manager for Git repositories: computes the current
//! semantic version from release tags and derives the next version by
//! applying a bump strategy and pre-release/build-metadata templates.

use vstd::prelude::*;

pub mod bump;
pub mod cli;
pub mod config;
pub mod errors;
pub mod extract;
pub mod order;
pub mod output;
pub mod scan;
pub mod settings;
pub mod template;
pub mod text;
pub mod version;

verus! {

} // verus!
