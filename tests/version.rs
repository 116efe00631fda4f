use macos_icon::catalog::{app_icon_name, AssetsCarInfo};
use macos_icon::version::{actool_major_version, actool_version_supported, parse_actool_version};

#[test]
fn test_parse_actool_version() {
    let output = r#"/* com.apple.actool.version */
some other line
bundle-version: 24411
short-bundle-version: 26.1
another line
"#;

    let version = parse_actool_version(output).expect("Failed to parse version");
    assert_eq!(version, "26.1");
}

#[test]
fn test_parse_actool_version_missing_fields() {
    let output = r#"/* com.apple.actool.version */
bundle-version: 24411
"#;

    assert!(parse_actool_version(output).is_none());
}

#[test]
fn test_parse_actool_version_empty() {
    assert!(parse_actool_version("").is_none());
}

#[test]
fn parse_version_trims_line_and_value() {
    let output = "bundle-version: 1\r\n   short-bundle-version:   15.4  \r\n";
    assert_eq!(parse_actool_version(output).unwrap(), "15.4");
}

#[test]
fn parse_version_takes_first_matching_line() {
    let output = "short-bundle-version: 26.0\nshort-bundle-version: 27.2\n";
    assert_eq!(parse_actool_version(output).unwrap(), "26.0");
}

#[test]
fn parse_version_without_trailing_newline() {
    assert_eq!(parse_actool_version("short-bundle-version:9").unwrap(), "9");
}

#[test]
fn parse_version_empty_value() {
    assert_eq!(parse_actool_version("short-bundle-version:   \n").unwrap(), "");
}

#[test]
fn parse_version_key_must_start_line() {
    assert!(parse_actool_version("x short-bundle-version: 26.1\n").is_none());
}

#[test]
fn parse_version_keeps_non_ascii_text() {
    assert_eq!(parse_actool_version("short-bundle-version: 26.1β\n").unwrap(), "26.1β");
}

#[test]
fn major_version_reads_leading_component() {
    assert_eq!(actool_major_version("26.1"), Some(26));
    assert_eq!(actool_major_version("15"), Some(15));
    assert_eq!(actool_major_version("+27.0"), Some(27));
    assert_eq!(actool_major_version("4294967295.1"), Some(4294967295));
}

#[test]
fn major_version_rejects_malformed() {
    assert_eq!(actool_major_version(""), None);
    assert_eq!(actool_major_version(".1"), None);
    assert_eq!(actool_major_version("x26.1"), None);
    assert_eq!(actool_major_version("-26.1"), None);
    assert_eq!(actool_major_version("+"), None);
    assert_eq!(actool_major_version("4294967296.0"), None);
}

#[test]
fn version_support_threshold() {
    assert!(actool_version_supported(Some("26.1")));
    assert!(actool_version_supported(Some("27")));
    assert!(!actool_version_supported(Some("25.9")));
    assert!(!actool_version_supported(Some("beta")));
    assert!(!actool_version_supported(None));
}

fn info(asset_type: &str, name: &str) -> AssetsCarInfo {
    AssetsCarInfo { asset_type: asset_type.to_string(), name: name.to_string() }
}

#[test]
fn app_icon_name_first_icon_image() {
    let infos = vec![info("Color", "AccentColor"), info("Icon Image", "AppIcon"), info("Icon Image", "Other")];
    assert_eq!(app_icon_name(&infos).unwrap(), "AppIcon");
}

#[test]
fn app_icon_name_none_without_icon_image() {
    let infos = vec![info("Color", "AccentColor"), info("Icon", "X")];
    assert!(app_icon_name(&infos).is_none());
    assert!(app_icon_name(&Vec::new()).is_none());
}

#[test]
fn parse_version_trims_unicode_white_space() {
    let output = "\u{2003}short-bundle-version:\u{a0}26.1\u{3000}\u{85}\n";
    assert_eq!(parse_actool_version(output).unwrap(), "26.1");
    assert_eq!(parse_actool_version(output).unwrap(), output.lines().next().unwrap().trim()["short-bundle-version:".len()..].trim());
}

#[test]
fn parse_version_keeps_inner_white_space() {
    assert_eq!(parse_actool_version("short-bundle-version: 26 .1 \u{2028}").unwrap(), "26 .1");
}
