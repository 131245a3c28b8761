//! The effective settings of one invocation, merged from three layers
//! with fixed precedence: an option given on the command line wins,
//! then a configuration value looked up under the command's name, then
//! the built-in default.  When no strategy is given, the development
//! strategy's defaults apply: identifier `dev`, pre-release template
//! `{pre}.{identifier}.{distance}` and build template `{hash}`.

use vstd::prelude::*;

use crate::cli::BumpingOptions;
use crate::cli::Cli;
use crate::cli::Commands;
use crate::cli::Format;
use crate::cli::PrereleaseOptions;
use crate::cli::Strategy;
use crate::config::spec_get;
use crate::config::spec_get_u64;
use crate::config::Configuration;
use crate::errors::EngineError;
use crate::text::chars_vec;
use crate::text::lower_seq;
use crate::text::to_lowercase_ascii;
use crate::text::window_eq;

verus! {

/// The tag filter pattern text.
pub struct FilterSettings {
    pub tag: String,
}

/// Output format and the template for the resulting version text.
pub struct OutputSettings {
    pub format: Format,
    pub template: String,
}

/// The bump increment.
pub struct BumpSettings {
    pub increment: u64,
}

/// The pre-release identifier (`None` means: detect it from the
/// current version's pre-release text) and the pre-release template.
pub struct PrereleaseSettings {
    pub identifier: Option<String>,
    pub template: String,
}

/// The build-metadata template.
pub struct BuildMetadataSettings {
    pub template: String,
}

/// Everything one invocation needs, fully merged.
pub struct Settings {
    pub directory: String,
    pub filter: FilterSettings,
    pub output: OutputSettings,
    pub bump: BumpSettings,
    pub prerelease: PrereleaseSettings,
    pub build: BuildMetadataSettings,
}

/// The configuration-section name of the invoked command.
pub open spec fn spec_command(cmd: &Commands) -> Seq<char> {
    match cmd {
        Commands::Current { .. } => "current"@,
        Commands::Next { strategy, .. } => match strategy {
            Some(Strategy::Major(_)) => "next.major"@,
            Some(Strategy::Minor(_)) => "next.minor"@,
            Some(Strategy::Patch(_)) => "next.patch"@,
            Some(Strategy::Prerelease(_)) => "next.prerelease"@,
            Some(Strategy::PreMajor(_)) => "next.pre-major"@,
            Some(Strategy::PreMinor(_)) => "next.pre-minor"@,
            Some(Strategy::PrePatch(_)) => "next.pre-patch"@,
            Some(Strategy::Dev(_)) => "next.dev"@,
            None => "next"@,
        },
    }
}

/// The configuration-section name of the invoked command.
pub fn command_name(cmd: &Commands) -> (r: &'static str)
    ensures
        r@ == spec_command(cmd),
{
    match cmd {
        Commands::Current { .. } => "current",
        Commands::Next { strategy, .. } => match strategy {
            Some(Strategy::Major(_)) => "next.major",
            Some(Strategy::Minor(_)) => "next.minor",
            Some(Strategy::Patch(_)) => "next.patch",
            Some(Strategy::Prerelease(_)) => "next.prerelease",
            Some(Strategy::PreMajor(_)) => "next.pre-major",
            Some(Strategy::PreMinor(_)) => "next.pre-minor",
            Some(Strategy::PrePatch(_)) => "next.pre-patch",
            Some(Strategy::Dev(_)) => "next.dev",
            None => "next",
        },
    }
}

/// A string-valued setting: command-line value, else configuration
/// value under the command, else the default.
pub open spec fn spec_string_setting(
    given: Option<String>,
    conf: Seq<(Seq<char>, Seq<char>)>,
    cmd: Seq<char>,
    key: Seq<char>,
    default: Seq<char>,
) -> Seq<char> {
    match given {
        Some(s) => s@,
        None => match spec_get(conf, cmd, key) {
            Some(v) => v,
            None => default,
        },
    }
}

/// The merged bump increment: option, else configuration value under
/// the command's `increment` key, else one.
pub open spec fn spec_increment(
    opts: &BumpingOptions,
    conf: Seq<(Seq<char>, Seq<char>)>,
    cmd: Seq<char>,
) -> int {
    match opts.increment {
        Some(i) => i as int,
        None => match spec_get_u64(conf, cmd, "increment"@) {
            Some(v) => v,
            None => 1,
        },
    }
}

/// The merged pre-release identifier: option, else configuration
/// value under `identifier`, else the given default (`None` lets the
/// engine detect it from the current pre-release text).
pub open spec fn spec_identifier(
    opts: &PrereleaseOptions,
    conf: Seq<(Seq<char>, Seq<char>)>,
    cmd: Seq<char>,
    default: Option<Seq<char>>,
) -> Option<Seq<char>> {
    match opts.identifier {
        Some(s) => Some(s@),
        None => match spec_get(conf, cmd, "identifier"@) {
            Some(v) => Some(v),
            None => default,
        },
    }
}

/// The merged output format: the configuration text `json` (in any
/// ASCII case) selects JSON; anything else falls back to plain.
pub open spec fn spec_format(
    given: Option<Format>,
    conf: Seq<(Seq<char>, Seq<char>)>,
    cmd: Seq<char>,
) -> Format {
    match given {
        Some(f) => f,
        None => match spec_get(conf, cmd, "output.format"@) {
            Some(v) => if lower_seq(v) == "json"@ {
                Format::Json
            } else {
                Format::Plain
            },
            None => Format::Plain,
        },
    }
}

/// The merged increment for the whole invocation: one unless the
/// strategy carries bump options.
pub open spec fn spec_merged_increment(cli: &Cli, conf: Seq<(Seq<char>, Seq<char>)>) -> int {
    let cmd = spec_command(&cli.cmd);
    match &cli.cmd {
        Commands::Current { .. } => 1,
        Commands::Next { strategy, .. } => match strategy {
            Some(st) => match st {
                Strategy::Major(a) => spec_increment(&a.bump_options, conf, cmd),
                Strategy::Minor(a) => spec_increment(&a.bump_options, conf, cmd),
                Strategy::Patch(a) => spec_increment(&a.bump_options, conf, cmd),
                Strategy::PreMajor(a) => spec_increment(&a.bump_options, conf, cmd),
                Strategy::PreMinor(a) => spec_increment(&a.bump_options, conf, cmd),
                Strategy::PrePatch(a) => spec_increment(&a.bump_options, conf, cmd),
                Strategy::Prerelease(_) => 1,
                Strategy::Dev(_) => 1,
            },
            None => 1,
        },
    }
}

/// The merged pre-release identifier for the whole invocation.
pub open spec fn spec_merged_identifier(cli: &Cli, conf: Seq<(Seq<char>, Seq<char>)>) -> Option<
    Seq<char>,
> {
    let cmd = spec_command(&cli.cmd);
    match &cli.cmd {
        Commands::Current { .. } => None,
        Commands::Next { strategy, .. } => match strategy {
            Some(st) => match st {
                Strategy::Prerelease(a) => spec_identifier(&a.prerelease_options, conf, cmd, None),
                Strategy::PreMajor(a) => spec_identifier(&a.prerelease_options, conf, cmd, None),
                Strategy::PreMinor(a) => spec_identifier(&a.prerelease_options, conf, cmd, None),
                Strategy::PrePatch(a) => spec_identifier(&a.prerelease_options, conf, cmd, None),
                Strategy::Dev(a) => spec_identifier(
                    &a.prerelease_options,
                    conf,
                    cmd,
                    Some("dev"@),
                ),
                _ => None,
            },
            None => match spec_get(conf, cmd, "identifier"@) {
                Some(v) => Some(v),
                None => Some("dev"@),
            },
        },
    }
}

/// The merged pre-release template for the whole invocation.
pub open spec fn spec_merged_pre_template(cli: &Cli, conf: Seq<(Seq<char>, Seq<char>)>) -> Seq<
    char,
> {
    let cmd = spec_command(&cli.cmd);
    match &cli.cmd {
        Commands::Current { .. } => "{identifier}.{inc}"@,
        Commands::Next { strategy, .. } => match strategy {
            Some(st) => match st {
                Strategy::Prerelease(a) => spec_string_setting(
                    a.prerelease_options.prerelease_template,
                    conf,
                    cmd,
                    "template"@,
                    "{identifier}.{inc}"@,
                ),
                Strategy::PreMajor(a) => spec_string_setting(
                    a.prerelease_options.prerelease_template,
                    conf,
                    cmd,
                    "template"@,
                    "{identifier}.{inc}"@,
                ),
                Strategy::PreMinor(a) => spec_string_setting(
                    a.prerelease_options.prerelease_template,
                    conf,
                    cmd,
                    "template"@,
                    "{identifier}.{inc}"@,
                ),
                Strategy::PrePatch(a) => spec_string_setting(
                    a.prerelease_options.prerelease_template,
                    conf,
                    cmd,
                    "template"@,
                    "{identifier}.{inc}"@,
                ),
                Strategy::Dev(a) => spec_string_setting(
                    a.prerelease_options.prerelease_template,
                    conf,
                    cmd,
                    "template"@,
                    "{pre}.{identifier}.{distance}"@,
                ),
                _ => "{identifier}.{inc}"@,
            },
            None => match spec_get(conf, cmd, "template"@) {
                Some(v) => v,
                None => "{pre}.{identifier}.{distance}"@,
            },
        },
    }
}

/// The merged build-metadata template for the whole invocation.
pub open spec fn spec_merged_build_template(cli: &Cli, conf: Seq<(Seq<char>, Seq<char>)>) -> Seq<
    char,
> {
    let cmd = spec_command(&cli.cmd);
    match &cli.cmd {
        Commands::Current { .. } => ""@,
        Commands::Next { strategy, .. } => match strategy {
            Some(st) => match st {
                Strategy::Major(a) => spec_string_setting(
                    a.build_metadata_options.template,
                    conf,
                    cmd,
                    "template"@,
                    ""@,
                ),
                Strategy::Minor(a) => spec_string_setting(
                    a.build_metadata_options.template,
                    conf,
                    cmd,
                    "template"@,
                    ""@,
                ),
                Strategy::Patch(a) => spec_string_setting(
                    a.build_metadata_options.template,
                    conf,
                    cmd,
                    "template"@,
                    ""@,
                ),
                Strategy::Prerelease(a) => spec_string_setting(
                    a.build_metadata_options.template,
                    conf,
                    cmd,
                    "template"@,
                    ""@,
                ),
                Strategy::PreMajor(a) => spec_string_setting(
                    a.build_metadata_options.template,
                    conf,
                    cmd,
                    "template"@,
                    ""@,
                ),
                Strategy::PreMinor(a) => spec_string_setting(
                    a.build_metadata_options.template,
                    conf,
                    cmd,
                    "template"@,
                    ""@,
                ),
                Strategy::PrePatch(a) => spec_string_setting(
                    a.build_metadata_options.template,
                    conf,
                    cmd,
                    "template"@,
                    ""@,
                ),
                Strategy::Dev(a) => spec_string_setting(
                    a.build_metadata_options.template,
                    conf,
                    cmd,
                    "template"@,
                    "{hash}"@,
                ),
            },
            None => match spec_get(conf, cmd, "template"@) {
                Some(v) => v,
                None => "{hash}"@,
            },
        },
    }
}

/// Whether an optional string matches an optional character sequence,
/// viewwise.
pub open spec fn option_view_eq(o: Option<String>, v: Option<Seq<char>>) -> bool {
    match o {
        Some(s) => v == Some(s@),
        None => v is None,
    }
}

/// What merging must yield for every field.
pub open spec fn spec_merged(cli: &Cli, conf: Seq<(Seq<char>, Seq<char>)>, s: &Settings) -> bool {
    let cmd = spec_command(&cli.cmd);
    &&& s.directory@ == spec_string_setting(cli.directory, conf, cmd, "directory"@, "."@)
    &&& s.filter.tag@ == spec_string_setting(cli.filter.tag, conf, cmd, "filter.tag"@, ""@)
    &&& s.output.format == spec_format(cli.output.format, conf, cmd)
    &&& s.output.template@ == spec_string_setting(
        cli.output.template,
        conf,
        cmd,
        "output.template"@,
        "{version}"@,
    )
    &&& s.bump.increment as int == spec_merged_increment(cli, conf)
    &&& option_view_eq(s.prerelease.identifier, spec_merged_identifier(cli, conf))
    &&& s.prerelease.template@ == spec_merged_pre_template(cli, conf)
    &&& s.build.template@ == spec_merged_build_template(cli, conf)
}

/// Whether `pat` occurs as a substring of `s`.
pub open spec fn contains_sub(s: Seq<char>, pat: Seq<char>) -> bool {
    exists|i: int|
        0 <= i && i + pat.len() <= s.len() && #[trigger] s.subrange(i, i + pat.len()) == pat
}

/// A string-valued setting, merged.
fn string_setting(
    given: &Option<String>,
    config: &Configuration,
    cmd: &str,
    key: &str,
    default: &str,
) -> (r: String)
    ensures
        r@ == spec_string_setting(*given, config@, cmd@, key@, default@),
{
    match given {
        Some(s) => s.clone(),
        None => match config.get(cmd, key) {
            Some(v) => v,
            None => default.to_owned(),
        },
    }
}

/// The bump increment, merged.  A configured value that does not fit
/// in `u64` falls back to the default of one.
fn increment_setting(opts: &BumpingOptions, config: &Configuration, cmd: &str) -> (r: u64)
    ensures
        r as int == spec_increment(opts, config@, cmd@),
{
    match opts.increment {
        Some(i) => i,
        None => match config.get_u64(cmd, "increment") {
            Some(v) => v,
            None => 1,
        },
    }
}

/// The pre-release identifier, merged.
fn identifier_setting(
    opts: &PrereleaseOptions,
    config: &Configuration,
    cmd: &str,
    default: Option<&str>,
) -> (r: Option<String>)
    ensures
        option_view_eq(
            r,
            spec_identifier(
                opts,
                config@,
                cmd@,
                match default {
                    Some(d) => Some(d@),
                    None => None,
                },
            ),
        ),
{
    match &opts.identifier {
        Some(s) => Some(s.clone()),
        None => match config.get(cmd, "identifier") {
            Some(v) => Some(v),
            None => match default {
                Some(d) => Some(d.to_owned()),
                None => None,
            },
        },
    }
}

/// The output format, merged.
fn format_setting(given: &Option<Format>, config: &Configuration, cmd: &str) -> (r: Format)
    ensures
        r == spec_format(*given, config@, cmd@),
{
    match given {
        Some(f) => *f,
        None => match config.get(cmd, "output.format") {
            Some(v) => {
                let folded = to_lowercase_ascii(v.as_str());
                let cs = chars_vec(folded.as_str());
                let json: Vec<char> = vec!['j', 's', 'o', 'n'];
                proof {
                    reveal_strlit("json");
                    assert(json@ =~= "json"@);
                }
                if cs.len() == 4 && window_eq(&cs, 0, &json) {
                    proof {
                        assert(cs@.subrange(0, 4) =~= cs@);
                    }
                    Format::Json
                } else {
                    proof {
                        if cs@.len() == 4 {
                            assert(cs@.subrange(0, 4) =~= cs@);
                        }
                    }
                    Format::Plain
                }
            },
            None => Format::Plain,
        },
    }
}

impl Settings {
    /// Merges the command line, the configuration store and the
    /// built-in defaults into the effective settings, with that
    /// precedence.
    pub fn merge(cli: &Cli, config: &Configuration) -> (r: Settings)
        ensures
            spec_merged(cli, config@, &r),
    {
        let cmd = command_name(&cli.cmd);
        let directory = string_setting(&cli.directory, config, cmd, "directory", ".");
        let filter_tag = string_setting(&cli.filter.tag, config, cmd, "filter.tag", "");
        let output_format = format_setting(&cli.output.format, config, cmd);
        let output_template = string_setting(
            &cli.output.template,
            config,
            cmd,
            "output.template",
            "{version}",
        );
        let mut increment: u64 = 1;
        let mut prerelease_identifier: Option<String> = None;
        let mut prerelease_template: String = String::from_str("{identifier}.{inc}");
        let mut build_metadata_template: String = String::from_str("");
        match &cli.cmd {
            Commands::Current { .. } => {},
            Commands::Next { strategy, .. } => match strategy {
                Some(st) => match st {
                    Strategy::Major(a) | Strategy::Minor(a) | Strategy::Patch(a) => {
                        increment = increment_setting(&a.bump_options, config, cmd);
                        build_metadata_template = string_setting(
                            &a.build_metadata_options.template,
                            config,
                            cmd,
                            "template",
                            "",
                        );
                    },
                    Strategy::Prerelease(a) => {
                        prerelease_identifier = identifier_setting(
                            &a.prerelease_options,
                            config,
                            cmd,
                            None,
                        );
                        prerelease_template = string_setting(
                            &a.prerelease_options.prerelease_template,
                            config,
                            cmd,
                            "template",
                            "{identifier}.{inc}",
                        );
                        build_metadata_template = string_setting(
                            &a.build_metadata_options.template,
                            config,
                            cmd,
                            "template",
                            "",
                        );
                    },
                    Strategy::PreMajor(a) | Strategy::PreMinor(a) | Strategy::PrePatch(a) => {
                        increment = increment_setting(&a.bump_options, config, cmd);
                        prerelease_identifier = identifier_setting(
                            &a.prerelease_options,
                            config,
                            cmd,
                            None,
                        );
                        prerelease_template = string_setting(
                            &a.prerelease_options.prerelease_template,
                            config,
                            cmd,
                            "template",
                            "{identifier}.{inc}",
                        );
                        build_metadata_template = string_setting(
                            &a.build_metadata_options.template,
                            config,
                            cmd,
                            "template",
                            "",
                        );
                    },
                    Strategy::Dev(a) => {
                        prerelease_identifier = identifier_setting(
                            &a.prerelease_options,
                            config,
                            cmd,
                            Some("dev"),
                        );
                        prerelease_template = string_setting(
                            &a.prerelease_options.prerelease_template,
                            config,
                            cmd,
                            "template",
                            "{pre}.{identifier}.{distance}",
                        );
                        build_metadata_template = string_setting(
                            &a.build_metadata_options.template,
                            config,
                            cmd,
                            "template",
                            "{hash}",
                        );
                    },
                },
                None => {
                    prerelease_identifier = match config.get(cmd, "identifier") {
                        Some(v) => Some(v),
                        None => Some(String::from_str("dev")),
                    };
                    prerelease_template = match config.get(cmd, "template") {
                        Some(v) => v,
                        None => String::from_str("{pre}.{identifier}.{distance}"),
                    };
                    build_metadata_template = match config.get(cmd, "template") {
                        Some(v) => v,
                        None => String::from_str("{hash}"),
                    };
                },
            },
        }
        Settings {
            directory,
            filter: FilterSettings { tag: filter_tag },
            output: OutputSettings { format: output_format, template: output_template },
            bump: BumpSettings { increment },
            prerelease: PrereleaseSettings {
                identifier: prerelease_identifier,
                template: prerelease_template,
            },
            build: BuildMetadataSettings { template: build_metadata_template },
        }
    }

    /// Checks the fatal configuration conditions that must be
    /// surfaced before any computation: the output template must
    /// carry the `{version}` token and the increment must be
    /// positive.
    pub fn validate(&self) -> (r: Result<(), EngineError>)
        ensures
            r is Ok <==> contains_sub(self.output.template@, "{version}"@) && self.bump.increment
                >= 1,
            !contains_sub(self.output.template@, "{version}"@) ==> r == Err::<(), EngineError>(
                EngineError::InvalidOutputTemplate,
            ),
            contains_sub(self.output.template@, "{version}"@) && self.bump.increment == 0 ==> r
                == Err::<(), EngineError>(EngineError::InvalidIncrement),
    {
        let cs = chars_vec(self.output.template.as_str());
        let pat: Vec<char> = vec!['{', 'v', 'e', 'r', 's', 'i', 'o', 'n', '}'];
        proof {
            reveal_strlit("{version}");
            assert(pat@ =~= "{version}"@);
        }
        let n = cs.len();
        let mut i: usize = 0;
        let mut found = false;
        while i < n && !found
            invariant
                i <= n == cs@.len(),
                cs@ == self.output.template@,
                pat@ == "{version}"@,
                pat@.len() == 9,
                found ==> contains_sub(self.output.template@, "{version}"@),
                !found ==> forall|t: int|
                    0 <= t < i && t + pat@.len() <= cs@.len() ==> #[trigger] cs@.subrange(
                        t,
                        t + pat@.len(),
                    ) != pat@,
            decreases
                    n - i,
                    (if found {
                        0int
                    } else {
                        1int
                    }),
        {
            if pat.len() <= n - i && window_eq(&cs, i, &pat) {
                found = true;
            } else {
                i = i + 1;
            }
        }
        if !found {
            proof {
                if contains_sub(self.output.template@, "{version}"@) {
                    let w = choose|t: int|
                        0 <= t && t + "{version}"@.len() <= self.output.template@.len()
                            && #[trigger] self.output.template@.subrange(
                            t,
                            t + "{version}"@.len(),
                        ) == "{version}"@;
                    assert(cs@.subrange(w, w + pat@.len()) == pat@);
                }
            }
            return Err(EngineError::InvalidOutputTemplate);
        }
        if self.bump.increment == 0 {
            return Err(EngineError::InvalidIncrement);
        }
        Ok(())
    }
}

} // verus!
