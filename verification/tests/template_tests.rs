use doxxer::template::TemplateVariables;

fn vars(pre: &str, inc: usize, identifier: &str, hash: &str, distance: usize) -> TemplateVariables {
    TemplateVariables {
        pre: pre.to_string(),
        inc,
        identifier: identifier.to_string(),
        hash: hash.to_string(),
        distance,
        timestamp: "20260101T000000Z".to_string(),
        branch: "main".to_string(),
    }
}

#[test]
fn inject_strips_a_leading_separator() {
    let v = vars("", 1, "dev", "", 4);
    assert_eq!(v.inject("{pre}.{identifier}.{distance}"), "dev.4");
}

#[test]
fn inject_keeps_a_present_pre() {
    let v = vars("alpha.5", 1, "dev", "", 0);
    assert_eq!(v.inject("{pre}.{identifier}.{distance}"), "alpha.5.dev.0");
}

#[test]
fn inject_substitutes_every_token() {
    let v = vars("rc.1", 3, "beta", "abc1234", 12);
    assert_eq!(
        v.inject("{pre}-{inc}-{identifier}-{hash}-{distance}-{timestamp}-{branch}"),
        "rc.1-3-beta-abc1234-12-20260101T000000Z-main"
    );
}

#[test]
fn inject_replaces_repeated_tokens() {
    let v = vars("", 2, "x", "", 0);
    assert_eq!(v.inject("{inc}.{inc}"), "2.2");
}

#[test]
fn inject_strips_trailing_separator() {
    let v = vars("", 1, "dev", "", 0);
    assert_eq!(v.inject("{identifier}.{pre}"), "dev");
}

#[test]
fn inject_leaves_unknown_tokens_alone() {
    let v = vars("", 1, "dev", "", 0);
    assert_eq!(v.inject("{unknown}"), "{unknown}");
}

#[test]
fn inject_of_empty_template_is_empty() {
    let v = vars("a", 1, "b", "c", 0);
    assert_eq!(v.inject(""), "");
}

#[test]
fn inject_strips_at_most_one_dot_each_side() {
    // Only a single stray separator is healed; anything beyond it is
    // left in place for validation to reject.
    let v = vars("", 1, "dev", "", 0);
    assert_eq!(v.inject("..{identifier}"), ".dev");
    assert_eq!(v.inject("{identifier}.."), "dev.");
    assert_eq!(v.inject("..a"), ".a");
    assert_eq!(v.inject("{pre}..{identifier}"), ".dev");
}
