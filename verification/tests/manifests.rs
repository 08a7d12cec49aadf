use doc2skill::cargo::{cargo_deps_from_manifest, cargo_deps_from_text, parse_version_req, TomlValue};
use doc2skill::csharp::project::{extract_attr, project_deps_from_files};
use doc2skill::json::JsonValue;
use doc2skill::typescript::package::{npm_deps_from_manifest, npm_deps_from_text};

fn ts(v: &str) -> TomlValue {
    TomlValue::String(v.to_owned())
}

fn table(pairs: Vec<(&str, TomlValue)>) -> TomlValue {
    TomlValue::Table(pairs.into_iter().map(|(k, v)| (k.to_owned(), v)).collect())
}

fn js(v: &str) -> JsonValue {
    JsonValue::Str(v.to_owned())
}

fn obj(pairs: Vec<(&str, JsonValue)>) -> JsonValue {
    JsonValue::Object(pairs.into_iter().map(|(k, v)| (k.to_owned(), v)).collect())
}

#[test]
fn version_requirements_keep_first_number() {
    assert_eq!(parse_version_req("^0.9.8"), Some("0.9.8".to_owned()));
    assert_eq!(parse_version_req(">=1.2, <2"), Some("1.2".to_owned()));
    assert_eq!(parse_version_req("= 1.0 "), Some("1.0".to_owned()));
    assert_eq!(parse_version_req("*"), None);
    assert_eq!(parse_version_req(""), None);
}

#[test]
fn cargo_dependencies_sorted_first_section_wins() {
    let manifest = table(vec![
        ("package", table(vec![("name", ts("demo"))])),
        (
            "dependencies",
            table(vec![
                ("serde", table(vec![("version", ts("1.0")), ("features", TomlValue::Other)])),
                ("clap", ts("^4.5")),
                ("alias", table(vec![("package", ts("real-name")), ("version", ts("~0.3"))])),
                ("local", table(vec![("path", ts("../local"))])),
            ]),
        ),
        ("dev-dependencies", table(vec![("clap", ts("3.0")), ("anyhow", ts("*"))])),
    ]);
    let deps = cargo_deps_from_manifest(&manifest);
    let got: Vec<(String, Option<String>)> =
        deps.into_iter().map(|t| (t.name, t.version)).collect();
    assert_eq!(
        got,
        vec![
            ("anyhow".to_owned(), None),
            ("clap".to_owned(), Some("4.5".to_owned())),
            ("local".to_owned(), None),
            ("real-name".to_owned(), Some("0.3".to_owned())),
            ("serde".to_owned(), Some("1.0".to_owned())),
        ]
    );
}

#[test]
fn cargo_manifest_without_dependencies_is_empty() {
    assert!(cargo_deps_from_manifest(&table(vec![])).is_empty());
    assert!(cargo_deps_from_manifest(&TomlValue::Other).is_empty());
}

#[test]
fn npm_dependencies_skip_type_packages() {
    let manifest = obj(vec![
        (
            "dependencies",
            obj(vec![("react", js("^19.0.0")), ("b", js("*")), ("@types/react", js("19.0.0"))]),
        ),
        ("devDependencies", obj(vec![("react", js("1.0.0")), ("a", js("~1.2.3")), ("c", JsonValue::Null)])),
    ]);
    let deps = npm_deps_from_manifest(&manifest);
    let got: Vec<(String, Option<String>)> =
        deps.into_iter().map(|t| (t.name, t.version)).collect();
    assert_eq!(
        got,
        vec![
            ("a".to_owned(), Some("1.2.3".to_owned())),
            ("b".to_owned(), None),
            ("c".to_owned(), None),
            ("react".to_owned(), Some("19.0.0".to_owned())),
        ]
    );
}

#[test]
fn nuget_project_files_merge_props_first() {
    let files = vec![
        (
            "Directory.Packages.props".to_owned(),
            r#"<PackageVersion Include="Serilog" Version="3.1.0" /><PackageReference Include="Ignored" Version="1.0" />"#.to_owned(),
        ),
        (
            "./App/App.csproj".to_owned(),
            r#"<PackageReference Include="Serilog" Version="2.0" /><PackageReference Include="Newtonsoft.Json" Version="13.0.3"></PackageReference><PackageReference Include="Floating" Version="*" />"#.to_owned(),
        ),
    ];
    let deps = project_deps_from_files(&files);
    let got: Vec<(String, Option<String>)> =
        deps.into_iter().map(|t| (t.name, t.version)).collect();
    assert_eq!(
        got,
        vec![
            ("Floating".to_owned(), None),
            ("Newtonsoft.Json".to_owned(), Some("13.0.3".to_owned())),
            ("Serilog".to_owned(), Some("3.1.0".to_owned())),
        ]
    );
}

#[test]
fn attributes_read_by_name() {
    assert_eq!(extract_attr(r#" Include="Foo" Version="1.2""#, "Version"), Some("1.2".to_owned()));
    assert_eq!(extract_attr(r#" Include="Foo""#, "Version"), None);
    assert_eq!(extract_attr(r#" Version="1.2"#, "Version"), None);
}

#[test]
fn manifest_texts_are_parsed_by_the_library() {
    let toml = "[package]\nname = \"demo\"\n\n[dependencies]\nserde = { version = \"1.0\", features = [\"derive\"] }\nclap = \"^4.5\"\nalias = { package = \"real-name\", version = \"~0.3\" }\n\n[dev-dependencies]\nclap = \"3\"\nanyhow = \"*\"\n";
    let deps: Vec<(String, Option<String>)> = cargo_deps_from_text(toml)
        .expect("valid TOML")
        .into_iter()
        .map(|t| (t.name, t.version))
        .collect();
    assert_eq!(
        deps,
        vec![
            ("anyhow".to_owned(), None),
            ("clap".to_owned(), Some("4.5".to_owned())),
            ("real-name".to_owned(), Some("0.3".to_owned())),
            ("serde".to_owned(), Some("1.0".to_owned())),
        ]
    );
    assert!(cargo_deps_from_text("[dependencies\nbroken").is_err());
    let json = r#"{"dependencies": {"react": "^19.0.0", "@types/react": "19"}, "devDependencies": {"a": "~1.2.3"}}"#;
    let deps: Vec<(String, Option<String>)> = npm_deps_from_text(json)
        .expect("valid JSON")
        .into_iter()
        .map(|t| (t.name, t.version))
        .collect();
    assert_eq!(
        deps,
        vec![("a".to_owned(), Some("1.2.3".to_owned())), ("react".to_owned(), Some("19.0.0".to_owned()))]
    );
    assert!(npm_deps_from_text("{ not json").is_err());
    assert!(matches!(
        doc2skill::json::json_from_text("[1, 2.5, true, null]"),
        Ok(JsonValue::Array(v)) if v.len() == 4 && matches!(&v[1], JsonValue::Number(n) if n == "2.5")
    ));
}
