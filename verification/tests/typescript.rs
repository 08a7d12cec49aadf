use doc2skill::typescript::package::parse_version_spec;
use doc2skill::typescript::target::NpmTarget;

#[test]
fn strips_caret() {
    assert_eq!(parse_version_spec("^19.0.0"), Some("19.0.0".to_owned()));
}

#[test]
fn strips_tilde() {
    assert_eq!(parse_version_spec("~1.2.3"), Some("1.2.3".to_owned()));
}

#[test]
fn wildcard_is_none() {
    assert_eq!(parse_version_spec("*"), None);
}

#[test]
fn workspace_is_none() {
    assert_eq!(parse_version_spec("workspace:*"), None);
}

#[test]
fn exact_version_unchanged() {
    assert_eq!(parse_version_spec("19.2.7"), Some("19.2.7".to_owned()));
}

#[test]
fn parses_plain() {
    let t = NpmTarget::parse("react");
    assert_eq!(t.name, "react");
    assert_eq!(t.version, None);
}

#[test]
fn parses_versioned() {
    let t = NpmTarget::parse("react@19.0.0");
    assert_eq!(t.name, "react");
    assert_eq!(t.version, Some("19.0.0".to_owned()));
}

#[test]
fn parses_scoped() {
    let t = NpmTarget::parse("@angular/core");
    assert_eq!(t.name, "@angular/core");
    assert_eq!(t.version, None);
}

#[test]
fn parses_scoped_versioned() {
    let t = NpmTarget::parse("@angular/core@17.0.0");
    assert_eq!(t.name, "@angular/core");
    assert_eq!(t.version, Some("17.0.0".to_owned()));
}
