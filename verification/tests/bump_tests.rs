use doxxer::bump::{detect_identifier, get_inc, next_version, normalize_branch_name_for_semver};
use doxxer::cli::{
    BuildMetadataOptions, BumpingOptions, PrereleaseArgs, PrereleaseOptions, StandardBumpArgs,
    Strategy,
};
use doxxer::errors::EngineError;
use doxxer::settings::{
    BuildMetadataSettings, BumpSettings, FilterSettings, OutputSettings, PrereleaseSettings,
    Settings,
};
use doxxer::cli::Format;
use doxxer::version::Version;

fn ver(s: &str) -> Version {
    Version::parse(s).unwrap()
}

fn settings(
    increment: u64,
    identifier: Option<&str>,
    pre_template: &str,
    build_template: &str,
) -> Settings {
    Settings {
        directory: ".".to_string(),
        filter: FilterSettings { tag: String::new() },
        output: OutputSettings { format: Format::Plain, template: "{version}".to_string() },
        bump: BumpSettings { increment },
        prerelease: PrereleaseSettings {
            identifier: identifier.map(|s| s.to_string()),
            template: pre_template.to_string(),
        },
        build: BuildMetadataSettings { template: build_template.to_string() },
    }
}

fn standard() -> Strategy {
    Strategy::Patch(StandardBumpArgs {
        bump_options: BumpingOptions { increment: None },
        build_metadata_options: BuildMetadataOptions { template: None },
    })
}

fn strategy_major() -> Strategy {
    Strategy::Major(StandardBumpArgs {
        bump_options: BumpingOptions { increment: None },
        build_metadata_options: BuildMetadataOptions { template: None },
    })
}

fn strategy_minor() -> Strategy {
    Strategy::Minor(StandardBumpArgs {
        bump_options: BumpingOptions { increment: None },
        build_metadata_options: BuildMetadataOptions { template: None },
    })
}

fn strategy_prerelease() -> Strategy {
    Strategy::Prerelease(PrereleaseArgs {
        prerelease_options: PrereleaseOptions { identifier: None, prerelease_template: None },
        build_metadata_options: BuildMetadataOptions { template: None },
    })
}

fn strategy_dev() -> Strategy {
    Strategy::Dev(PrereleaseArgs {
        prerelease_options: PrereleaseOptions { identifier: None, prerelease_template: None },
        build_metadata_options: BuildMetadataOptions { template: None },
    })
}

#[test]
fn get_inc_counter_rules() {
    assert_eq!(get_inc("", "beta"), 1);
    assert_eq!(get_inc("beta", "beta"), 2);
    assert_eq!(get_inc("beta.7", "beta"), 8);
    assert_eq!(get_inc("beta-x", "beta"), 2);
    assert_eq!(get_inc("alpha.3", "beta"), 1);
}

#[test]
fn get_inc_more_counter_rules() {
    assert_eq!(get_inc("beta.9", "beta"), 10);
    assert_eq!(get_inc("beta99", "beta"), 100);
    assert_eq!(get_inc("beta-x3", "beta"), 4);
    assert_eq!(get_inc("betamax", "beta"), 2);
    assert_eq!(get_inc("alpha5", "alpha"), 6);
    // A numeric suffix too large to represent counts as decoration.
    assert_eq!(get_inc("beta.99999999999999999999", "beta"), 2);
}

#[test]
fn detect_identifier_from_existing_pre() {
    assert_eq!(detect_identifier("alpha.5"), "alpha");
    assert_eq!(detect_identifier("alpha5"), "alpha");
    assert_eq!(detect_identifier("rc.1.2"), "rc");
    assert_eq!(detect_identifier(""), "");
    assert_eq!(detect_identifier("123"), "");
}

#[test]
fn normalize_branch_names() {
    assert_eq!(normalize_branch_name_for_semver("Feature/ABC-123"), "feature-abc-123");
    assert_eq!(normalize_branch_name_for_semver("--main--"), "main");
    assert_eq!(normalize_branch_name_for_semver("a//b"), "a-b");
    assert_eq!(normalize_branch_name_for_semver(""), "");
    assert_eq!(normalize_branch_name_for_semver("///"), "");
}

#[test]
fn bump_major_minor_patch() {
    let s = settings(1, Some("build"), "{identifier}.{inc}", "");
    let v = next_version(&strategy_major(), &s, &ver("1.4.9"), 0, "", "", "").unwrap();
    assert_eq!(v.render(), "2.0.0");
    let v = next_version(&strategy_minor(), &s, &ver("1.4.9"), 0, "", "", "").unwrap();
    assert_eq!(v.render(), "1.5.0");
    let v = next_version(&standard(), &s, &ver("1.4.9"), 0, "", "", "").unwrap();
    assert_eq!(v.render(), "1.4.10");
}

#[test]
fn bump_with_larger_increment() {
    let s = settings(3, Some("build"), "{identifier}.{inc}", "");
    let v = next_version(&strategy_minor(), &s, &ver("4.86.7"), 0, "", "", "").unwrap();
    assert_eq!(v.render(), "4.89.0");
}

#[test]
fn patch_bump_promotes_a_prerelease() {
    let s = settings(1, Some("build"), "{identifier}.{inc}", "");
    let v = next_version(&standard(), &s, &ver("9.0.0-beta.4"), 0, "", "", "").unwrap();
    assert_eq!(v.render(), "9.0.0");
}

#[test]
fn patch_bump_without_prerelease_increments() {
    let s = settings(1, Some("build"), "{identifier}.{inc}", "");
    let v = next_version(&standard(), &s, &ver("9.0.0"), 0, "", "", "").unwrap();
    assert_eq!(v.render(), "9.0.1");
}

#[test]
fn prerelease_counts_up_its_track() {
    let s = settings(1, Some("alpha"), "{identifier}.{inc}", "");
    let v = next_version(&strategy_prerelease(), &s, &ver("5.1.2-alpha.5"), 0, "", "", "")
        .unwrap();
    assert_eq!(v.render(), "5.1.2-alpha.6");
}

#[test]
fn prerelease_detects_identifier_when_none_given() {
    let s = settings(1, None, "{identifier}.{inc}", "");
    let v = next_version(&strategy_prerelease(), &s, &ver("5.1.2-alpha.5"), 0, "", "", "")
        .unwrap();
    assert_eq!(v.render(), "5.1.2-alpha.6");
    let v = next_version(&strategy_prerelease(), &s, &ver("5.1.2-alpha5"), 0, "", "", "")
        .unwrap();
    assert_eq!(v.render(), "5.1.2-alpha.6");
}

#[test]
fn prerelease_detection_falls_back_to_build() {
    let s = settings(1, None, "{identifier}.{inc}", "");
    let v = next_version(&strategy_prerelease(), &s, &ver("5.1.2"), 0, "", "", "").unwrap();
    assert_eq!(v.render(), "5.1.2-build.1");
}

#[test]
fn prerelease_override_starts_new_track() {
    let s = settings(1, Some("beta"), "{identifier}.{inc}", "");
    let v = next_version(&strategy_prerelease(), &s, &ver("5.1.2-alpha.5"), 0, "", "", "")
        .unwrap();
    assert_eq!(v.render(), "5.1.2-beta.1");
}

#[test]
fn dev_strategy_appends_distance_and_hash() {
    let s = settings(1, Some("dev"), "{pre}.{identifier}.{distance}", "{hash}");
    let v = next_version(&strategy_dev(), &s, &ver("9.7.5"), 4, "abc1234", "", "").unwrap();
    assert_eq!(v.render(), "9.7.5-dev.4+abc1234");
    let v = next_version(&strategy_dev(), &s, &ver("5.1.2-alpha.5"), 0, "abc1234", "", "")
        .unwrap();
    assert_eq!(v.render(), "5.1.2-alpha.5.dev.0+abc1234");
}

#[test]
fn templates_may_use_branch_and_timestamp() {
    let s = settings(1, Some("dev"), "{branch}.{identifier}.{distance}", "{timestamp}");
    let v = next_version(
        &strategy_dev(),
        &s,
        &ver("1.0.0"),
        2,
        "",
        "Feature/X",
        "20260101T000000Z",
    )
    .unwrap();
    assert_eq!(v.render(), "1.0.0-feature-x.dev.2+20260101T000000Z");
}

#[test]
fn invalid_template_output_is_a_fatal_error() {
    let s = settings(1, Some("dev"), "{identifier}..{inc}", "");
    let r = next_version(&strategy_dev(), &s, &ver("1.0.0"), 0, "", "", "");
    assert_eq!(r.unwrap_err(), EngineError::InvalidPrerelease);
    let s = settings(1, Some("dev"), "{identifier}.{inc}", "!!");
    let r = next_version(&strategy_dev(), &s, &ver("1.0.0"), 0, "", "", "");
    assert_eq!(r.unwrap_err(), EngineError::InvalidBuildMetadata);
}

#[test]
fn doubled_separator_is_not_silently_healed() {
    // With an empty `{pre}` this template leaves `..dev`; only one
    // stray dot is stripped, and the leftover empty segment is the
    // fatal configuration error, not a silently corrected value.
    let s = settings(1, Some("dev"), "{pre}..{identifier}", "");
    let r = next_version(&strategy_dev(), &s, &ver("1.0.0"), 0, "", "", "");
    assert_eq!(r.unwrap_err(), EngineError::InvalidPrerelease);
}

#[test]
fn standard_bumps_clear_prerelease_and_keep_build_template() {
    let s = settings(1, Some("build"), "{identifier}.{inc}", "{hash}");
    let v = next_version(&strategy_minor(), &s, &ver("2.3.4-rc.1"), 7, "beefcafe", "", "")
        .unwrap();
    assert_eq!(v.render(), "2.4.0+beefcafe");
}
