use doxxer::errors::EngineError;
use doxxer::extract::extract_version;
use doxxer::scan::{current_version, find_tag_name_matching_version, TagFilter};
use doxxer::version::Version;

fn tags(names: &[&str]) -> Vec<String> {
    names.iter().map(|s| s.to_string()).collect()
}

#[test]
fn extraction_tolerates_decorated_tags() {
    let v = extract_version("release-1.2.3").unwrap();
    assert_eq!(v.render(), "1.2.3");
    let v = extract_version("v9.7.5").unwrap();
    assert_eq!(v.render(), "9.7.5");
    let v = extract_version("version-9.7.5").unwrap();
    assert_eq!(v.render(), "9.7.5");
}

#[test]
fn extraction_takes_leftmost_match() {
    let v = extract_version("old-1.0.0-then-2.0.0").unwrap();
    assert_eq!(v.render(), "1.0.0-then-2.0.0");
    let v = extract_version("x01.2.3").unwrap();
    assert_eq!(v.render(), "1.2.3");
}

#[test]
fn extraction_is_first_match_not_strict_parse() {
    // The search stops at the first text the pattern accepts, so a
    // pre-release identifier starting with `0` matches just the `0`.
    let v = extract_version("1.2.3-0a").unwrap();
    assert_eq!(v.render(), "1.2.3-0");
    // A numeric identifier ends at the digit run.
    let v = extract_version("5.1.2-12ab").unwrap();
    assert_eq!(v.render(), "5.1.2-12");
    // Leading zeros end the numeric fields early.
    let v = extract_version("1.2.05").unwrap();
    assert_eq!(v.render(), "1.2.0");
}

#[test]
fn extraction_none_without_version() {
    for s in ["", "release", "1.2", "1.2.x", "v1.2-3", "..", "0..1"] {
        assert!(extract_version(s).is_none(), "extracted from {:?}", s);
    }
}

#[test]
fn extraction_drops_oversized_numbers() {
    assert!(extract_version("v18446744073709551616.0.0").is_none());
}

#[test]
fn extraction_agrees_with_regex_and_semver() {
    let re = regex::Regex::new(
        r"(?P<major>0|[1-9]\d*)\.(?P<minor>0|[1-9]\d*)\.(?P<patch>0|[1-9]\d*)(?:-(?P<prerelease>(?:0|[1-9]\d*|\d*[a-zA-Z-][0-9a-zA-Z-]*)(?:\.(?:0|[1-9]\d*|\d*[a-zA-Z-][0-9a-zA-Z-]*))*))?(?:\+(?P<buildmetadata>[0-9a-zA-Z-]+(?:\.[0-9a-zA-Z-]+)*))?",
    )
    .unwrap();
    for tag in [
        "v1.2.3",
        "release-1.2.3",
        "1.2.3-0a",
        "5.1.2-12ab",
        "1.2.05",
        "x01.2.3",
        "0.0.0",
        "9.0.0-beta.4",
        "1.2.3-alpha.5.dev.0+hash",
        "1.2.3--",
        "1.2.3-.",
        "a.b.c",
        "00.1.2",
        "1.2.3+x+y",
        "v4.86.7",
        "5.1.2-alpha5",
        "old-1.0.0-then-2.0.0",
    ] {
        let expected = re
            .find(tag)
            .and_then(|m| semver::Version::parse(m.as_str()).ok());
        let ours = extract_version(tag);
        match (&ours, &expected) {
            (Some(a), Some(b)) => assert_eq!(a.render(), b.to_string(), "tag {:?}", tag),
            (None, None) => {}
            _ => panic!("disagreement on {:?}", tag),
        }
    }
}

#[test]
fn current_version_of_no_tags_is_zero() {
    let filter = TagFilter::new("").unwrap();
    let v = current_version(&tags(&[]), &filter);
    assert_eq!(v.render(), "0.0.0");
}

#[test]
fn current_version_of_unparseable_tags_is_zero() {
    let filter = TagFilter::new("").unwrap();
    let v = current_version(&tags(&["start", "checkpoint", "x.y.z"]), &filter);
    assert_eq!(v.render(), "0.0.0");
}

#[test]
fn current_version_picks_highest_matching() {
    let filter = TagFilter::new("v").unwrap();
    let v = current_version(&tags(&["v1.2.3", "v1.3.0", "v1.2.9"]), &filter);
    assert_eq!(v.render(), "1.3.0");
}

#[test]
fn current_version_respects_filter() {
    let filter = TagFilter::new("false-").unwrap();
    let v = current_version(&tags(&["release-9.7.5"]), &filter);
    assert_eq!(v.render(), "0.0.0");
}

#[test]
fn current_version_orders_prereleases() {
    let filter = TagFilter::new("").unwrap();
    let v = current_version(
        &tags(&["1.0.0-alpha", "1.0.0-rc.2", "1.0.0-beta.11", "0.9.9"]),
        &filter,
    );
    assert_eq!(v.render(), "1.0.0-rc.2");
}

#[test]
fn bad_filter_is_reported() {
    match TagFilter::new("(") {
        Err(e) => assert_eq!(e, EngineError::InvalidTagFilter),
        Ok(_) => panic!("accepted an invalid pattern"),
    }
}

#[test]
fn filter_keeps_its_pattern_text() {
    let filter = TagFilter::new("^v").unwrap();
    assert_eq!(filter.pattern_text(), "^v");
}

#[test]
fn find_tag_name_exact_lookup() {
    let filter = TagFilter::new("v").unwrap();
    let names = tags(&["v1.2.3", "v1.3.0"]);
    assert_eq!(
        find_tag_name_matching_version(&names, &filter, "1.3.0"),
        Some("refs/tags/v1.3.0".to_string())
    );
    assert_eq!(find_tag_name_matching_version(&names, &filter, "1.4.0"), None);
}

#[test]
fn find_tag_name_needs_whole_name_equal() {
    // The distance lookup is exact: a decorated tag that only contains
    // the version does not count.
    let filter = TagFilter::new("").unwrap();
    let names = tags(&["version-9.7.5"]);
    assert_eq!(find_tag_name_matching_version(&names, &filter, "9.7.5"), None);
    let v = current_version(&names, &filter);
    assert_eq!(v.render(), "9.7.5");
}
