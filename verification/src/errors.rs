//! The fatal configuration errors of the engine.  Each is reported to
//! the caller, never recovered locally: an unusable tag filter, a
//! template whose substitution yields grammatically invalid pre-release
//! or build text, or a bump increment of zero.

use vstd::prelude::*;

verus! {

/// A fatal configuration error of the version engine.
#[derive(Clone, Copy, Debug, PartialEq, Eq, Structural)]
pub enum EngineError {
    /// The tag filter is not a usable regular expression.
    InvalidTagFilter,
    /// The pre-release template produced invalid pre-release text.
    InvalidPrerelease,
    /// The build-metadata template produced invalid build text.
    InvalidBuildMetadata,
    /// The configured bump increment is zero.
    InvalidIncrement,
    /// The output template lacks the required `{version}` token.
    InvalidOutputTemplate,
}

} // verus!
