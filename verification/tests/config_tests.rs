use doxxer::cli::{
    BuildMetadataOptions, BumpingOptions, Cli, Commands, FilterOptions, Format, OutputOptions,
    PrereleaseArgs, PrereleaseOptions, StandardBumpArgs, Strategy,
};
use doxxer::config::Configuration;
use doxxer::errors::EngineError;
use doxxer::settings::Settings;

fn entries(pairs: &[(&str, &str)]) -> Vec<(String, String)> {
    pairs.iter().map(|(k, v)| (k.to_string(), v.to_string())).collect()
}

fn bare_cli(cmd: Commands) -> Cli {
    Cli {
        directory: None,
        config: None,
        filter: FilterOptions { tag: None },
        output: OutputOptions { format: None, template: None },
        cmd,
    }
}

#[test]
fn get_prefers_the_most_specific_section() {
    let c = Configuration::load(entries(&[
        ("increment", "1"),
        ("next.increment", "2"),
        ("next.minor.increment", "3"),
    ]));
    assert_eq!(c.get("next.minor", "increment"), Some("3".to_string()));
    assert_eq!(c.get("next.major", "increment"), Some("2".to_string()));
    assert_eq!(c.get("current", "increment"), Some("1".to_string()));
}

#[test]
fn get_tries_environment_style_keys_first() {
    let c = Configuration::load(entries(&[
        ("next.minor.increment", "3"),
        ("next_minor_increment", "9"),
    ]));
    assert_eq!(c.get("next.minor", "increment"), Some("9".to_string()));
}

#[test]
fn get_is_case_insensitive_on_stored_keys() {
    let c = Configuration::load(entries(&[("NEXT_MINOR_INCREMENT", "4")]));
    assert_eq!(c.get("next.minor", "increment"), Some("4".to_string()));
}

#[test]
fn later_entries_override_earlier_ones() {
    let c = Configuration::load(entries(&[("directory", "a"), ("directory", "b")]));
    assert_eq!(c.get("current", "directory"), Some("b".to_string()));
}

#[test]
fn get_misses_report_none() {
    let c = Configuration::load(entries(&[("other", "x")]));
    assert_eq!(c.get("next", "increment"), None);
}

#[test]
fn get_u64_parses_decimal_values() {
    let c = Configuration::load(entries(&[
        ("a", "42"),
        ("b", "nope"),
        ("c", ""),
        ("d", "18446744073709551616"),
    ]));
    assert_eq!(c.get_u64("current", "a"), Some(42));
    assert_eq!(c.get_u64("current", "b"), None);
    assert_eq!(c.get_u64("current", "c"), None);
    assert_eq!(c.get_u64("current", "d"), None);
    assert_eq!(c.get_u64("current", "missing"), None);
}

#[test]
fn merge_takes_cli_over_config_over_default() {
    let config = Configuration::load(entries(&[
        ("next.minor.increment", "3"),
        ("filter.tag", "^v"),
    ]));
    let cli = bare_cli(Commands::Next {
        strategy: Some(Strategy::Minor(StandardBumpArgs {
            bump_options: BumpingOptions { increment: None },
            build_metadata_options: BuildMetadataOptions { template: None },
        })),
        field: None,
    });
    let s = Settings::merge(&cli, &config);
    assert_eq!(s.bump.increment, 3);
    assert_eq!(s.filter.tag, "^v");
    assert_eq!(s.directory, ".");
    assert_eq!(s.output.template, "{version}");
    assert!(matches!(s.output.format, Format::Plain));

    let mut cli2 = bare_cli(Commands::Next {
        strategy: Some(Strategy::Minor(StandardBumpArgs {
            bump_options: BumpingOptions { increment: Some(7) },
            build_metadata_options: BuildMetadataOptions { template: None },
        })),
        field: None,
    });
    cli2.filter.tag = Some("release-".to_string());
    let s2 = Settings::merge(&cli2, &config);
    assert_eq!(s2.bump.increment, 7);
    assert_eq!(s2.filter.tag, "release-");
}

#[test]
fn merge_without_strategy_uses_dev_defaults() {
    let config = Configuration::load(entries(&[]));
    let cli = bare_cli(Commands::Next { strategy: None, field: None });
    let s = Settings::merge(&cli, &config);
    assert_eq!(s.prerelease.identifier, Some("dev".to_string()));
    assert_eq!(s.prerelease.template, "{pre}.{identifier}.{distance}");
    assert_eq!(s.build.template, "{hash}");
    assert_eq!(s.bump.increment, 1);
}

#[test]
fn merge_prerelease_leaves_identifier_open() {
    let config = Configuration::load(entries(&[]));
    let cli = bare_cli(Commands::Next {
        strategy: Some(Strategy::Prerelease(PrereleaseArgs {
            prerelease_options: PrereleaseOptions { identifier: None, prerelease_template: None },
            build_metadata_options: BuildMetadataOptions { template: None },
        })),
        field: None,
    });
    let s = Settings::merge(&cli, &config);
    assert_eq!(s.prerelease.identifier, None);
    assert_eq!(s.prerelease.template, "{identifier}.{inc}");
    assert_eq!(s.build.template, "");
}

#[test]
fn merge_reads_format_from_config() {
    let config = Configuration::load(entries(&[("output.format", "JSON")]));
    let cli = bare_cli(Commands::Current { field: None });
    let s = Settings::merge(&cli, &config);
    assert!(matches!(s.output.format, Format::Json));
    let config2 = Configuration::load(entries(&[("output.format", "fancy")]));
    let s2 = Settings::merge(&bare_cli(Commands::Current { field: None }), &config2);
    assert!(matches!(s2.output.format, Format::Plain));
}

#[test]
fn validate_requires_version_token_and_positive_increment() {
    let config = Configuration::load(entries(&[]));
    let mut s = Settings::merge(&bare_cli(Commands::Current { field: None }), &config);
    assert!(s.validate().is_ok());
    s.output.template = "no token".to_string();
    assert_eq!(s.validate().unwrap_err(), EngineError::InvalidOutputTemplate);
    s.output.template = "v{version}".to_string();
    s.bump.increment = 0;
    assert_eq!(s.validate().unwrap_err(), EngineError::InvalidIncrement);
}
