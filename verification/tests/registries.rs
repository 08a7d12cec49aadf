use doc2skill::crate_target::CrateTarget;
use doc2skill::csharp::fetch::{
    catalog_entry_url, latest_version, nuget_metadata, nuget_skill_info, readme_url as nuget_readme_url,
    registration_url, resolve_version, versions_from_index, versions_index_url,
};
use doc2skill::error::FetchError;
use doc2skill::json::JsonValue;
use doc2skill::rust::fetch::{
    crate_api_url, crate_author, crate_metadata, crate_owners_url, crate_skill_info, docs_index_url,
    version_matches,
};
use doc2skill::skill::SkillPage;
use doc2skill::typescript::fetch::{
    npm_metadata, npm_skill_info, npmx_docs, npmx_docs_url, readme_url as npm_readme_url,
    registry_url, version_spec_of,
};
use doc2skill::typescript::target::NpmTarget;

fn s(v: &str) -> JsonValue {
    JsonValue::Str(v.to_owned())
}

fn obj(pairs: Vec<(&str, JsonValue)>) -> JsonValue {
    JsonValue::Object(pairs.into_iter().map(|(k, v)| (k.to_owned(), v)).collect())
}

fn strings(v: &[&str]) -> Vec<String> {
    v.iter().map(|x| x.to_string()).collect()
}

#[test]
fn version_prefix_matches_at_dot() {
    assert!(version_matches("4.5.40", "4.5"));
    assert!(version_matches("4.5", "4.5"));
    assert!(!version_matches("4.50.0", "4.5"));
    assert!(!version_matches("4", "4.5"));
}

#[test]
fn crates_io_metadata_picks_requested_version_license() {
    let resp = obj(vec![
        ("crate", obj(vec![("newest_version", s("4.6.0")), ("description", s("CLI parser"))])),
        (
            "versions",
            JsonValue::Array(vec![
                obj(vec![("num", s("4.6.0")), ("license", s("MIT OR Apache-2.0"))]),
                obj(vec![("num", s("4.5.40")), ("license", s("MIT"))]),
                obj(vec![("num", s("4.5.1")), ("license", s("Apache-2.0"))]),
            ]),
        ),
    ]);
    let pinned = CrateTarget::parse("clap@4.5");
    match crate_metadata(&resp, &pinned) {
        Ok((v, d, l)) => {
            assert_eq!(v, "4.5");
            assert_eq!(d, "CLI parser");
            assert_eq!(l, "MIT");
        }
        Err(_) => panic!("expected metadata"),
    }
    let latest = CrateTarget::parse("clap");
    match crate_metadata(&resp, &latest) {
        Ok((v, _, l)) => {
            assert_eq!(v, "4.6.0");
            assert_eq!(l, "MIT OR Apache-2.0");
        }
        Err(_) => panic!("expected metadata"),
    }
    let unknown = CrateTarget::parse("clap@9");
    match crate_metadata(&resp, &unknown) {
        Ok((_, _, l)) => assert_eq!(l, "unknown"),
        Err(_) => panic!("expected metadata"),
    }
}

#[test]
fn crates_io_without_newest_version_fails() {
    let resp = obj(vec![("crate", obj(vec![]))]);
    match crate_metadata(&resp, &CrateTarget::parse("nope")) {
        Err(e) => {
            assert!(matches!(&e, FetchError::MissingNewestVersion(n) if n == "nope"));
            assert_eq!(e.message(), "crates.io: missing newest_version for nope");
        }
        Ok(_) => panic!("expected an error"),
    }
}

#[test]
fn crates_io_author_is_first_owner() {
    let resp = obj(vec![("users", JsonValue::Array(vec![obj(vec![("login", s("kbknapp"))]), obj(vec![("login", s("epage"))])]))]);
    assert_eq!(crate_author(&resp), "kbknapp");
    assert_eq!(crate_author(&obj(vec![("users", JsonValue::Array(vec![]))])), "unknown");
}

#[test]
fn rust_addresses() {
    assert_eq!(crate_api_url("clap"), "https://crates.io/api/v1/crates/clap");
    assert_eq!(crate_owners_url("clap"), "https://crates.io/api/v1/crates/clap/owners");
    assert_eq!(
        docs_index_url("color-eyre", "0.6.3"),
        "https://docs.rs/color-eyre/0.6.3/color_eyre/index.html"
    );
}

#[test]
fn crate_skill_info_carries_metadata() {
    let page = SkillPage { slug: "index".to_owned(), title: "t".to_owned(), markdown: "m".to_owned() };
    let info = crate_skill_info(
        &CrateTarget::parse("clap@4.5"),
        ("4.5".to_owned(), "d".to_owned(), "MIT".to_owned()),
        "kbknapp".to_owned(),
        page,
        Vec::new(),
    );
    assert_eq!(info.name, "clap");
    assert_eq!(info.version, "4.5");
    assert_eq!(info.author, "kbknapp");
    assert!(info.items.is_empty());
}

#[test]
fn nuget_versions_and_resolution() {
    let index = obj(vec![("versions", JsonValue::Array(vec![s("1.0.0"), s("1.1.0"), JsonValue::Null, s("2.0.0-beta")]))]);
    let versions = match versions_from_index(&index, "Foo") {
        Ok(v) => v,
        Err(_) => panic!("expected versions"),
    };
    assert_eq!(versions, strings(&["1.0.0", "1.1.0", "2.0.0-beta"]));
    assert!(matches!(latest_version(&versions, "Foo"), Ok(v) if v == "1.1.0"));
    assert!(matches!(latest_version(&strings(&["1.0.0-a", "1.0.0-b"]), "Foo"), Ok(v) if v == "1.0.0-b"));
    match latest_version(&Vec::new(), "Foo") {
        Err(e) => assert_eq!(e.message(), "nuget: no versions found for Foo"),
        Ok(_) => panic!("expected an error"),
    }
    let vs = strings(&["13.0.1", "13.0.3", "14.0.0"]);
    assert!(matches!(resolve_version(&vs, "13", "Newtonsoft.Json"), Ok(v) if v == "13.0.3"));
    assert!(matches!(resolve_version(&vs, "14.0.0", "Newtonsoft.Json"), Ok(v) if v == "14.0.0"));
    match resolve_version(&vs, "15", "Newtonsoft.Json") {
        Err(e) => assert_eq!(e.message(), "nuget: no version matching '15' for Newtonsoft.Json"),
        Ok(_) => panic!("expected an error"),
    }
    match versions_from_index(&obj(vec![]), "Foo") {
        Err(e) => assert_eq!(e.message(), "nuget: missing versions array for Foo"),
        Ok(_) => panic!("expected an error"),
    }
}

#[test]
fn nuget_addresses_and_catalog() {
    assert_eq!(versions_index_url("newtonsoft.json"), "https://api.nuget.org/v3-flatcontainer/newtonsoft.json/index.json");
    assert_eq!(
        registration_url("newtonsoft.json", "13.0.3"),
        "https://api.nuget.org/v3/registration5-semver1/newtonsoft.json/13.0.3.json"
    );
    assert_eq!(nuget_readme_url("serilog", "3.1.0"), "https://api.nuget.org/v3-flatcontainer/serilog/3.1.0/readme");
    let leaf = obj(vec![("catalogEntry", s("https://api.nuget.org/catalog/x.json"))]);
    assert!(matches!(catalog_entry_url(&leaf, "x", "1"), Ok(u) if u == "https://api.nuget.org/catalog/x.json"));
    match catalog_entry_url(&obj(vec![]), "x", "1") {
        Err(e) => assert_eq!(e.message(), "nuget: missing catalogEntry for x/1"),
        Ok(_) => panic!("expected an error"),
    }
}

#[test]
fn nuget_metadata_reads_catalog_entry() {
    let entry = obj(vec![
        ("id", s("Newtonsoft.Json")),
        ("description", s("Json.NET")),
        ("licenseUrl", s("https://licenses.nuget.org/MIT")),
        ("authors", s(" James Newton-King , Other")),
    ]);
    let (id, d, l, a) = nuget_metadata(&entry, "newtonsoft.json");
    assert_eq!(id, "Newtonsoft.Json");
    assert_eq!(d, "Json.NET");
    assert_eq!(l, "https://licenses.nuget.org/MIT");
    assert_eq!(a, "James Newton-King");
    let (id, d, l, a) = nuget_metadata(&obj(vec![("licenseExpression", s("MIT"))]), "foo");
    assert_eq!((id.as_str(), d.as_str(), l.as_str(), a.as_str()), ("foo", "", "MIT", ""));
    let info = nuget_skill_info("1.0".to_owned(), ("Foo".to_owned(), "desc".to_owned(), "MIT".to_owned(), "me".to_owned()), None);
    assert_eq!(info.page.markdown, "desc");
    assert_eq!(info.name, "Foo");
    let with_readme = nuget_skill_info("1.0".to_owned(), ("Foo".to_owned(), "desc".to_owned(), "MIT".to_owned(), "me".to_owned()), Some("# Foo".to_owned()));
    assert_eq!(with_readme.page.markdown, "# Foo");
}

#[test]
fn npm_addresses() {
    assert_eq!(registry_url("react", "latest"), "https://registry.npmjs.org/react/latest");
    assert_eq!(version_spec_of(&NpmTarget::parse("react")), "latest");
    assert_eq!(version_spec_of(&NpmTarget::parse("react@19.0.0")), "19.0.0");
    assert_eq!(npm_readme_url("react", "19.0.0"), "https://cdn.jsdelivr.net/npm/react@19.0.0/README.md");
    assert_eq!(npmx_docs_url("react", "19.0.0"), "https://npmx.dev/api/registry/docs/react/v/19.0.0");
}

#[test]
fn npm_metadata_reads_registry_answer() {
    let resp = obj(vec![
        ("version", s("19.0.0")),
        ("description", s("UI")),
        ("license", obj(vec![("type", s("MIT"))])),
        ("author", obj(vec![("name", s(""))])),
        ("maintainers", JsonValue::Array(vec![obj(vec![("name", s("gaearon"))])])),
        ("readme", s("# React")),
    ]);
    match npm_metadata(&resp, "react") {
        Ok((v, d, l, a, m)) => {
            assert_eq!(v, "19.0.0");
            assert_eq!(d, "UI");
            assert_eq!(l, "MIT");
            assert_eq!(a, "gaearon");
            assert_eq!(m, "# React");
        }
        Err(_) => panic!("expected metadata"),
    }
    let plain = obj(vec![("version", s("1.0.0")), ("author", s("me"))]);
    match npm_metadata(&plain, "x") {
        Ok((_, d, l, a, m)) => {
            assert_eq!((d.as_str(), l.as_str(), a.as_str(), m.as_str()), ("", "unknown", "me", ""));
        }
        Err(_) => panic!("expected metadata"),
    }
    match npm_metadata(&obj(vec![]), "ghost") {
        Err(e) => assert_eq!(e.message(), "npm: missing version for ghost"),
        Ok(_) => panic!("expected an error"),
    }
}

#[test]
fn npmx_articles_become_references_and_items() {
    let html = "<article id=\"function-useState\"><div class=\"docs-signature\">function useState()</div><div class=\"docs-description\"><p>Hook</p></div></article><article id=\"class-Component\"><div class=\"docs-signature\"> class Component </div></article><article id=\"other\"></article><article id=\"type-Props\"></article>";
    let (refs, items) = npmx_docs(&obj(vec![("html", s(html))]));
    assert_eq!(refs.len(), 2);
    assert_eq!(refs[0].slug, "class.Component");
    assert_eq!(refs[0].title, "Component");
    assert_eq!(refs[0].markdown, "```typescript\nclass Component\n```\n\n");
    assert_eq!(refs[1].slug, "fn.useState");
    assert_eq!(refs[1].markdown, "```typescript\nfunction useState()\n```\n\nHook\n");
    assert_eq!(
        items,
        vec![
            ("Functions".to_owned(), vec![("useState".to_owned(), "fn.useState".to_owned())]),
            ("Classes".to_owned(), vec![("Component".to_owned(), "class.Component".to_owned())]),
        ]
    );
    let (none, no_items) = npmx_docs(&obj(vec![("html", s(""))]));
    assert!(none.is_empty() && no_items.is_empty());
}

#[test]
fn npm_skill_prefers_cdn_readme() {
    let meta = ("1.0".to_owned(), "d".to_owned(), "MIT".to_owned(), "me".to_owned(), "registry readme".to_owned());
    let info = npm_skill_info(&NpmTarget::parse("x@1.0"), meta.clone(), Some("cdn readme".to_owned()), None);
    assert_eq!(info.page.markdown, "cdn readme");
    assert_eq!(info.name, "x");
    let info = npm_skill_info(&NpmTarget::parse("x"), meta, None, None);
    assert_eq!(info.page.markdown, "registry readme");
    assert!(info.references.is_empty());
}

#[test]
fn nuget_readme_absent_only_on_not_found() {
    assert!(doc2skill::csharp::fetch::readme_absent(404));
    assert!(!doc2skill::csharp::fetch::readme_absent(200));
    assert!(!doc2skill::csharp::fetch::readme_absent(500));
}
