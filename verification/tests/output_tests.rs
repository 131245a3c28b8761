use doxxer::cli::{Field, Format};
use doxxer::output::format_version;
use doxxer::version::Version;

fn ver(s: &str) -> Version {
    Version::parse(s).unwrap()
}

#[test]
fn plain_full_version_uses_the_output_template() {
    let v = ver("9.7.5-dev.1+abc1234");
    assert_eq!(format_version(&None, &v, &Format::Plain, "{version}"), "9.7.5-dev.1+abc1234");
    assert_eq!(format_version(&None, &v, &Format::Plain, "v{version}"), "v9.7.5-dev.1+abc1234");
    assert_eq!(
        format_version(&None, &v, &Format::Plain, "{version} and {version}"),
        "9.7.5-dev.1+abc1234 and 9.7.5-dev.1+abc1234"
    );
}

#[test]
fn plain_single_fields() {
    let v = ver("10.20.30-rc.1+sha99");
    assert_eq!(format_version(&Some(Field::Major), &v, &Format::Plain, "{version}"), "10");
    assert_eq!(format_version(&Some(Field::Minor), &v, &Format::Plain, "{version}"), "20");
    assert_eq!(format_version(&Some(Field::Patch), &v, &Format::Plain, "{version}"), "30");
    assert_eq!(format_version(&Some(Field::Pre), &v, &Format::Plain, "{version}"), "rc.1");
    assert_eq!(format_version(&Some(Field::Build), &v, &Format::Plain, "{version}"), "sha99");
}

fn serde_pretty_full(v: &Version, template: &str) -> String {
    let full = template.replace("{version}", &v.render());
    let mut map = serde_json::Map::new();
    map.insert("major".to_string(), serde_json::Value::from(v.major));
    map.insert("minor".to_string(), serde_json::Value::from(v.minor));
    map.insert("patch".to_string(), serde_json::Value::from(v.patch));
    if !v.pre.is_empty() {
        map.insert("pre".to_string(), serde_json::Value::from(v.pre.clone()));
    }
    if !v.build.is_empty() {
        map.insert("build".to_string(), serde_json::Value::from(v.build.clone()));
    }
    map.insert("full".to_string(), serde_json::Value::from(full));
    serde_json::to_string_pretty(&serde_json::Value::Object(map)).unwrap()
}

#[test]
fn json_object_matches_serde_json_pretty_output() {
    for (text, template) in [
        ("9.7.5-dev.1+abc1234", "{version}"),
        ("1.2.3", "v{version}"),
        ("0.0.0-x", "{version}"),
        ("4.5.6+meta", "a \"quoted\" {version}\n"),
    ] {
        let v = ver(text);
        assert_eq!(
            format_version(&None, &v, &Format::Json, template),
            serde_pretty_full(&v, template),
            "object for {}",
            text
        );
    }
}

#[test]
fn json_single_field_matches_serde_json() {
    let v = ver("10.20.30-rc.1+sha99");
    let mut map = serde_json::Map::new();
    map.insert("major".to_string(), serde_json::Value::from(v.major));
    let expected = serde_json::to_string_pretty(&serde_json::Value::Object(map)).unwrap();
    assert_eq!(format_version(&Some(Field::Major), &v, &Format::Json, "{version}"), expected);

    let mut map = serde_json::Map::new();
    map.insert("pre".to_string(), serde_json::Value::from(v.pre.clone()));
    let expected = serde_json::to_string_pretty(&serde_json::Value::Object(map)).unwrap();
    assert_eq!(format_version(&Some(Field::Pre), &v, &Format::Json, "{version}"), expected);
}

#[test]
fn json_escapes_template_text() {
    let v = ver("1.0.0");
    let out = format_version(&None, &v, &Format::Json, "say \"{version}\"\t");
    assert!(out.contains("\"full\": \"say \\\"1.0.0\\\"\\t\""), "got {}", out);
}
