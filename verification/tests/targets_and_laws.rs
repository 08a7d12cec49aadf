use doc2skill::crate_target::CrateTarget;
use doc2skill::csharp::target::PackageTarget;
use doc2skill::typescript::target::NpmTarget;

#[test]
fn crate_target_splits_at_first_at() {
    let t = CrateTarget::parse("clap@4.5");
    assert_eq!(t.name, "clap");
    assert_eq!(t.version, Some("4.5".to_owned()));
    let plain = CrateTarget::parse("serde");
    assert_eq!(plain.name, "serde");
    assert_eq!(plain.version, None);
    let twice = CrateTarget::parse("a@b@c");
    assert_eq!(twice.name, "a");
    assert_eq!(twice.version, Some("b@c".to_owned()));
}

#[test]
fn crate_target_written_back_is_the_spec() {
    for spec in ["clap@4.5", "serde", "a@b@c", "@", ""] {
        assert_eq!(CrateTarget::parse(spec).to_spec_string(), spec);
    }
}

#[test]
fn crate_target_parsed_back_is_the_target() {
    let t = CrateTarget { name: "tokio".to_owned(), version: Some("1.0".to_owned()) };
    let back = CrateTarget::parse(&t.to_spec_string());
    assert_eq!(back.name, t.name);
    assert_eq!(back.version, t.version);
    let u = CrateTarget { name: "tokio".to_owned(), version: None };
    let back = CrateTarget::parse(&u.to_spec_string());
    assert_eq!(back.name, "tokio");
    assert_eq!(back.version, None);
}

#[test]
fn package_target_parses_and_lowers_the_id() {
    let t = PackageTarget::parse("Newtonsoft.Json@13.0.3");
    assert_eq!(t.name, "Newtonsoft.Json");
    assert_eq!(t.version, Some("13.0.3".to_owned()));
    assert_eq!(t.id_lower(), "newtonsoft.json");
    assert_eq!(t.to_spec_string(), "Newtonsoft.Json@13.0.3");
}

#[test]
fn npm_target_written_back_is_the_spec() {
    for spec in ["react", "react@19.0.0", "@angular/core", "@angular/core@17.0.0", "@1.0", "a@b@c"] {
        assert_eq!(NpmTarget::parse(spec).to_spec_string(), spec);
    }
}

#[test]
fn npm_target_parsed_back_is_the_target() {
    let t = NpmTarget { name: "@types/node".to_owned(), version: Some("20.1.0".to_owned()) };
    let back = NpmTarget::parse(&t.to_spec_string());
    assert_eq!(back.name, "@types/node");
    assert_eq!(back.version, Some("20.1.0".to_owned()));
}

#[test]
fn npm_scope_without_version_keeps_whole_spec() {
    let t = NpmTarget::parse("@1.0");
    assert_eq!(t.name, "@1.0");
    assert_eq!(t.version, None);
}
