//! The invocation model: which command runs, which bump strategy is
//! chosen and which options were given.  A `None` option means "not
//! given": the settings layer fills it from configuration or defaults.

use vstd::prelude::*;

verus! {

/// One invocation: repository directory, configuration path, tag
/// filter, output options and the command to run.
pub struct Cli {
    pub directory: Option<String>,
    pub config: Option<String>,
    pub filter: FilterOptions,
    pub output: OutputOptions,
    pub cmd: Commands,
}

/// The two commands: report the current version, or compute the next.
pub enum Commands {
    Current { field: Option<Field> },
    Next { strategy: Option<Strategy>, field: Option<Field> },
}

/// A single requested field of a version.
#[derive(Clone, Copy, Debug, PartialEq, Eq, Structural)]
pub enum Field {
    Major,
    Minor,
    Patch,
    Pre,
    Build,
}

/// The bump strategy, each variant carrying the options relevant to
/// it.  `Dev` is the non-standard development strategy used when no
/// strategy is given.
pub enum Strategy {
    Major(StandardBumpArgs),
    Minor(StandardBumpArgs),
    Patch(StandardBumpArgs),
    Prerelease(PrereleaseArgs),
    PreMajor(PreReleaseWithBumpArgs),
    PreMinor(PreReleaseWithBumpArgs),
    PrePatch(PreReleaseWithBumpArgs),
    Dev(PrereleaseArgs),
}

impl Strategy {
    /// Strategies that bump the major number.
    pub open spec fn is_major_family(&self) -> bool {
        self is Major || self is PreMajor
    }

    /// Strategies that bump the minor number.
    pub open spec fn is_minor_family(&self) -> bool {
        self is Minor || self is PreMinor
    }

    /// Strategies that attach a pre-release to the result.
    pub open spec fn is_pre_family(&self) -> bool {
        self is Prerelease || self is PreMajor || self is PreMinor || self is PrePatch
            || self is Dev
    }

    /// Whether this strategy bumps the major number.
    pub fn major_family(&self) -> (r: bool)
        ensures
            r == self.is_major_family(),
    {
        matches!(self, Strategy::Major(_) | Strategy::PreMajor(_))
    }

    /// Whether this strategy bumps the minor number.
    pub fn minor_family(&self) -> (r: bool)
        ensures
            r == self.is_minor_family(),
    {
        matches!(self, Strategy::Minor(_) | Strategy::PreMinor(_))
    }

    /// Whether this strategy attaches a pre-release to the result.
    pub fn pre_family(&self) -> (r: bool)
        ensures
            r == self.is_pre_family(),
    {
        matches!(
            self,
            Strategy::Prerelease(_)
                | Strategy::PreMajor(_)
                | Strategy::PreMinor(_)
                | Strategy::PrePatch(_)
                | Strategy::Dev(_)
        )
    }

    /// Whether this is the plain patch strategy.
    pub fn patch_plain(&self) -> (r: bool)
        ensures
            r == (self is Patch),
    {
        matches!(self, Strategy::Patch(_))
    }

    /// Whether this is the pre-release patch strategy.
    pub fn patch_pre(&self) -> (r: bool)
        ensures
            r == (self is PrePatch),
    {
        matches!(self, Strategy::PrePatch(_))
    }
}

pub struct StandardBumpArgs {
    pub bump_options: BumpingOptions,
    pub build_metadata_options: BuildMetadataOptions,
}

pub struct PrereleaseArgs {
    pub prerelease_options: PrereleaseOptions,
    pub build_metadata_options: BuildMetadataOptions,
}

pub struct PreReleaseWithBumpArgs {
    pub prerelease_options: PrereleaseOptions,
    pub bump_options: BumpingOptions,
    pub build_metadata_options: BuildMetadataOptions,
}

/// The pre-release identifier (e.g. `alpha`, `beta`) and the template
/// for the next version's pre-release text.
pub struct PrereleaseOptions {
    pub identifier: Option<String>,
    pub prerelease_template: Option<String>,
}

/// The bump increment.
pub struct BumpingOptions {
    pub increment: Option<u64>,
}

/// The template for the next version's build metadata.
pub struct BuildMetadataOptions {
    pub template: Option<String>,
}

/// The regular expression that selects relevant tags.
pub struct FilterOptions {
    pub tag: Option<String>,
}

/// Output format and the template for the resulting version text.
pub struct OutputOptions {
    pub format: Option<Format>,
    pub template: Option<String>,
}

/// Plain text, or a structured JSON object.
#[derive(Clone, Copy, Debug, PartialEq, Eq, Structural)]
pub enum Format {
    Plain,
    Json,
}

} // verus!
