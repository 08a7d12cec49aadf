use doc2skill::csharp::project::{
    extract_package_entries, parse_version_spec, project_file_paths, ListedEntry,
};

#[test]
fn parses_package_reference() {
    let xml = r#"<PackageReference Include="Newtonsoft.Json" Version="13.0.3" />"#;
    let entries = extract_package_entries(xml, "PackageReference");
    assert_eq!(
        entries,
        vec![("Newtonsoft.Json".to_owned(), Some("13.0.3".to_owned()))]
    );
}

#[test]
fn parses_package_version() {
    let xml = r#"<PackageVersion Include="Serilog" Version="3.1.0" />"#;
    let entries = extract_package_entries(xml, "PackageVersion");
    assert_eq!(
        entries,
        vec![("Serilog".to_owned(), Some("3.1.0".to_owned()))]
    );
}

#[test]
fn version_range_stripped() {
    let xml = r#"<PackageReference Include="Foo" Version="[1.0, 2.0)" />"#;
    let entries = extract_package_entries(xml, "PackageReference");
    assert_eq!(entries[0].1, Some("1.0".to_owned()));
}

#[test]
fn wildcard_version_is_none() {
    assert_eq!(parse_version_spec("*"), None);
    assert_eq!(parse_version_spec("1.0.*"), Some("1.0".to_owned()));
}

#[test]
fn only_elements_of_the_tag_are_reported() {
    let xml = r#"<Compile Include="a.cs" /><PackageReference Include="B" />"#;
    assert_eq!(extract_package_entries(xml, "PackageReference"), vec![("B".to_owned(), None)]);
    assert!(extract_package_entries(r#"<Compile Include="a.cs" />"#, "PackageReference").is_empty());
}

#[test]
fn project_files_are_chosen_from_listings() {
    let entries = vec![
        ListedEntry { path: "./App.csproj".to_owned(), name: "App.csproj".to_owned(), is_dir: false, children: vec![] },
        ListedEntry { path: "./README.md".to_owned(), name: "README.md".to_owned(), is_dir: false, children: vec![] },
        ListedEntry {
            path: "./Lib".to_owned(),
            name: "Lib".to_owned(),
            is_dir: true,
            children: vec![
                ("./Lib/Lib.csproj".to_owned(), "Lib.csproj".to_owned()),
                ("./Lib/.csproj".to_owned(), ".csproj".to_owned()),
            ],
        },
    ];
    assert_eq!(
        project_file_paths(true, &entries),
        vec!["Directory.Packages.props".to_owned(), "./App.csproj".to_owned(), "./Lib/Lib.csproj".to_owned()]
    );
    assert_eq!(project_file_paths(false, &Vec::new()), Vec::<String>::new());
}
