use doxxer::order::compare_versions;
use doxxer::version::{build_text_valid, pre_text_valid, Version};
use std::cmp::Ordering;

fn ver(major: u64, minor: u64, patch: u64, pre: &str, build: &str) -> Version {
    Version { major, minor, patch, pre: pre.to_string(), build: build.to_string() }
}

#[test]
fn parse_plain_version() {
    let v = Version::parse("1.2.3").unwrap();
    assert_eq!(v.major, 1);
    assert_eq!(v.minor, 2);
    assert_eq!(v.patch, 3);
    assert_eq!(v.pre, "");
    assert_eq!(v.build, "");
}

#[test]
fn parse_full_version() {
    let v = Version::parse("10.20.30-alpha.1+build.5").unwrap();
    assert_eq!(v.major, 10);
    assert_eq!(v.minor, 20);
    assert_eq!(v.patch, 30);
    assert_eq!(v.pre, "alpha.1");
    assert_eq!(v.build, "build.5");
}

#[test]
fn parse_rejects_bad_shapes() {
    for s in [
        "", "1", "1.2", "1.2.3.4", "01.2.3", "1.02.3", "1.2.03", "1.2.3-", "1.2.3+", "1.2.3-a..b",
        "1.2.3-01", "1.2.3-alpha.", "1.2.3 ", "v1.2.3", "1.2.3-café", "1.2.3+x+y",
    ] {
        assert!(Version::parse(s).is_none(), "accepted {:?}", s);
    }
}

#[test]
fn parse_accepts_edge_shapes() {
    for s in [
        "0.0.0",
        "1.2.3-0",
        "1.2.3-0a",
        "1.2.3--",
        "1.2.3-a-b.c-d",
        "1.2.3+001",
        "1.2.3+0.0.0",
        "1.2.3-alpha+001",
        "18446744073709551615.0.0",
    ] {
        assert!(Version::parse(s).is_some(), "rejected {:?}", s);
    }
}

#[test]
fn parse_rejects_numeric_overflow() {
    assert!(Version::parse("18446744073709551616.0.0").is_none());
    assert!(Version::parse("0.18446744073709551616.0").is_none());
    assert!(Version::parse("0.0.99999999999999999999").is_none());
}

#[test]
fn parse_then_render_round_trips() {
    for s in [
        "0.0.0",
        "1.2.3",
        "9.7.5-dev.4+abc1234",
        "1.0.0-alpha.beta.2",
        "3.4.5+sha-0012",
        "1.2.3-0a",
        "12.0.1-rc1",
    ] {
        let v = Version::parse(s).unwrap();
        assert_eq!(v.render(), s);
    }
}

#[test]
fn parse_agrees_with_semver_crate() {
    for s in [
        "0.0.0",
        "1.2.3",
        "10.20.30-alpha.1+build.5",
        "1.2.3-0a",
        "1.2.3-01",
        "01.2.3",
        "1.2.3--",
        "1.2.3-a..b",
        "1.2.3+x+y",
        "1.2.3-",
        "18446744073709551616.0.0",
        "1.2.3+001",
    ] {
        let ours = Version::parse(s);
        let theirs = semver::Version::parse(s).ok();
        match (&ours, &theirs) {
            (Some(a), Some(b)) => {
                assert_eq!(a.major, b.major);
                assert_eq!(a.minor, b.minor);
                assert_eq!(a.patch, b.patch);
                assert_eq!(a.pre, b.pre.as_str());
                assert_eq!(a.build, b.build.as_str());
            }
            (None, None) => {}
            _ => panic!("disagreement on {:?}: ours {:?}", s, ours.is_some()),
        }
    }
}

#[test]
fn compare_orders_by_precedence() {
    let cases = [
        ("1.0.0", "2.0.0"),
        ("2.0.0", "2.1.0"),
        ("2.1.0", "2.1.1"),
        ("1.0.0-alpha", "1.0.0"),
        ("1.0.0-alpha", "1.0.0-alpha.1"),
        ("1.0.0-alpha.1", "1.0.0-alpha.beta"),
        ("1.0.0-alpha.beta", "1.0.0-beta"),
        ("1.0.0-beta", "1.0.0-beta.2"),
        ("1.0.0-beta.2", "1.0.0-beta.11"),
        ("1.0.0-beta.11", "1.0.0-rc.1"),
        ("1.0.0-rc.1", "1.0.0"),
        ("1.20.0", "1.20.0+bc17664"),
        ("1.20.0+bc17664", "1.20.0+c144a98"),
    ];
    for (lo, hi) in cases {
        let a = Version::parse(lo).unwrap();
        let b = Version::parse(hi).unwrap();
        assert_eq!(compare_versions(&a, &b), -1, "{} should precede {}", lo, hi);
        assert_eq!(compare_versions(&b, &a), 1, "{} should follow {}", hi, lo);
        assert_eq!(compare_versions(&a, &a), 0);
    }
}

#[test]
fn compare_agrees_with_semver_crate() {
    let texts = [
        "0.0.0",
        "1.0.0-alpha",
        "1.0.0-alpha.1",
        "1.0.0-1",
        "1.0.0-2",
        "1.0.0-11",
        "1.0.0",
        "1.0.0+0",
        "1.0.0+00",
        "1.0.0+1",
        "1.0.0+001",
        "1.0.0+abc",
        "2.3.4-rc.1+sha.99",
    ];
    for a in texts {
        for b in texts {
            let ours = compare_versions(
                &Version::parse(a).unwrap(),
                &Version::parse(b).unwrap(),
            );
            let theirs = semver::Version::parse(a)
                .unwrap()
                .cmp(&semver::Version::parse(b).unwrap());
            let expected: i8 = match theirs {
                Ordering::Less => -1,
                Ordering::Equal => 0,
                Ordering::Greater => 1,
            };
            assert_eq!(ours, expected, "comparing {} and {}", a, b);
        }
    }
}

#[test]
fn zero_version_is_all_zero() {
    let v = Version::zero();
    assert_eq!(v.render(), "0.0.0");
    assert_eq!(v.pre, "");
    assert_eq!(v.build, "");
}

#[test]
fn pre_and_build_text_validity() {
    assert!(pre_text_valid(""));
    assert!(pre_text_valid("alpha.5"));
    assert!(pre_text_valid("0.a-b.7"));
    assert!(!pre_text_valid("alpha..5"));
    assert!(!pre_text_valid("01"));
    assert!(!pre_text_valid("alpha."));
    assert!(!pre_text_valid("a!b"));
    assert!(build_text_valid(""));
    assert!(build_text_valid("001.abc"));
    assert!(!build_text_valid(".abc"));
    let _ = ver(1, 2, 3, "x", "y");
}
