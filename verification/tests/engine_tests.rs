//! End-to-end runs of the engine at the library boundary: tag names,
//! strategy and repository facts in, final version text out.

use doxxer::bump::next_version;
use doxxer::cli::{Cli, Commands, FilterOptions, Format, OutputOptions};
use doxxer::config::Configuration;
use doxxer::output::format_version;
use doxxer::scan::{current_version, find_tag_name_matching_version, TagFilter};
use doxxer::settings::Settings;

fn bare_cli(cmd: Commands) -> Cli {
    Cli {
        directory: None,
        config: None,
        filter: FilterOptions { tag: None },
        output: OutputOptions { format: None, template: None },
        cmd,
    }
}

#[test]
fn default_next_on_a_tagged_repository() {
    // A repository whose only tag is `9.7.5`, filtered with the empty
    // prefix and no strategy given: the default dev strategy yields
    // `9.7.5-dev.<distance>+<short-hash>`.
    let config = Configuration::load(Vec::new());
    let cli = bare_cli(Commands::Next { strategy: None, field: None });
    let settings = Settings::merge(&cli, &config);
    settings.validate().unwrap();

    let tags: Vec<String> = vec!["9.7.5".to_string()];
    let filter = TagFilter::new(&settings.filter.tag).unwrap();
    let current = current_version(&tags, &filter);
    assert_eq!(current.render(), "9.7.5");

    // The tag name is re-derived by exact lookup, so the distance walk
    // would start from `refs/tags/9.7.5`.
    assert_eq!(
        find_tag_name_matching_version(&tags, &filter, &current.render()),
        Some("refs/tags/9.7.5".to_string())
    );

    // Repository facts as the walk would report them.
    let distance: usize = 3;
    let short_hash = "0fe1a2b";
    let strategy = doxxer::cli::Strategy::Dev(doxxer::cli::PrereleaseArgs {
        prerelease_options: doxxer::cli::PrereleaseOptions {
            identifier: settings.prerelease.identifier.clone(),
            prerelease_template: None,
        },
        build_metadata_options: doxxer::cli::BuildMetadataOptions { template: None },
    });
    let next = next_version(
        &strategy,
        &settings,
        &current,
        distance,
        short_hash,
        "main",
        "20260101T000000Z",
    )
    .unwrap();
    assert_eq!(next.render(), "9.7.5-dev.3+0fe1a2b");
    assert_eq!(
        format_version(&None, &next, &settings.output.format, &settings.output.template),
        "9.7.5-dev.3+0fe1a2b"
    );
}

#[test]
fn decorated_tag_counts_from_the_beginning() {
    // With the default empty filter a tag `version-9.7.5` still yields
    // the current version, but the exact-name lookup finds no tag, so
    // the caller walks the whole history.
    let config = Configuration::load(Vec::new());
    let cli = bare_cli(Commands::Next { strategy: None, field: None });
    let settings = Settings::merge(&cli, &config);
    let tags: Vec<String> = vec!["version-9.7.5".to_string()];
    let filter = TagFilter::new(&settings.filter.tag).unwrap();
    let current = current_version(&tags, &filter);
    assert_eq!(current.render(), "9.7.5");
    assert_eq!(find_tag_name_matching_version(&tags, &filter, &current.render()), None);
}

#[test]
fn configured_increment_drives_a_minor_bump() {
    // An environment-style entry sets the increment for the minor
    // strategy; the repository carries the tag `v4.86.7`.
    let config = Configuration::load(vec![(
        "next_minor_increment".to_string(),
        "3".to_string(),
    )]);
    let strategy = doxxer::cli::Strategy::Minor(doxxer::cli::StandardBumpArgs {
        bump_options: doxxer::cli::BumpingOptions { increment: None },
        build_metadata_options: doxxer::cli::BuildMetadataOptions { template: None },
    });
    let cli = bare_cli(Commands::Next {
        strategy: Some(doxxer::cli::Strategy::Minor(doxxer::cli::StandardBumpArgs {
            bump_options: doxxer::cli::BumpingOptions { increment: None },
            build_metadata_options: doxxer::cli::BuildMetadataOptions { template: None },
        })),
        field: None,
    });
    let settings = Settings::merge(&cli, &config);
    assert_eq!(settings.bump.increment, 3);
    let tags: Vec<String> = vec!["v4.86.7".to_string()];
    let filter = TagFilter::new(&settings.filter.tag).unwrap();
    let current = current_version(&tags, &filter);
    let next = next_version(&strategy, &settings, &current, 0, "", "", "").unwrap();
    assert_eq!(next.render(), "4.89.0");
}

#[test]
fn current_command_formats_a_field() {
    let config = Configuration::load(Vec::new());
    let cli = bare_cli(Commands::Current { field: Some(doxxer::cli::Field::Patch) });
    let settings = Settings::merge(&cli, &config);
    let tags: Vec<String> = vec!["v9.7.5".to_string(), "v9.7.4".to_string()];
    let filter = TagFilter::new(&settings.filter.tag).unwrap();
    let current = current_version(&tags, &filter);
    assert_eq!(
        format_version(
            &Some(doxxer::cli::Field::Patch),
            &current,
            &settings.output.format,
            &settings.output.template
        ),
        "5"
    );
}

#[test]
fn format_plain_formats_whole_version() {
    let config = Configuration::load(Vec::new());
    let cli = bare_cli(Commands::Current { field: None });
    let settings = Settings::merge(&cli, &config);
    assert!(matches!(settings.output.format, Format::Plain));
    let tags: Vec<String> = Vec::new();
    let filter = TagFilter::new(&settings.filter.tag).unwrap();
    let current = current_version(&tags, &filter);
    assert_eq!(
        format_version(&None, &current, &settings.output.format, &settings.output.template),
        "0.0.0"
    );
}
