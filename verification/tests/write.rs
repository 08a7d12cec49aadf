use doc2skill::skill::write::{build_frontmatter, build_items_section, rewrite_reference_links};
use doc2skill::skill::{insert_reference, SkillInfo, SkillPage};

fn make_info(license: &str, author: &str) -> SkillInfo {
    SkillInfo {
        name: "my_crate".to_string(),
        version: "1.0.0".to_string(),
        description: "A test crate".to_string(),
        license: license.to_string(),
        author: author.to_string(),
        page: SkillPage {
            slug: "index".to_string(),
            title: "".to_string(),
            markdown: "".to_string(),
        },
        references: Vec::new(),
        items: Vec::new(),
    }
}

fn make_reference(slug: &str) -> SkillPage {
    SkillPage {
        slug: slug.to_string(),
        title: String::new(),
        markdown: String::new(),
    }
}

#[test]
fn all_fields_present() {
    let info = make_info("MIT", "alice");
    let fm = build_frontmatter(&info);
    assert!(fm.contains("name: my-crate"));
    assert!(fm.contains("description: A test crate"));
    assert!(fm.contains("license: MIT"));
    assert!(fm.contains("  author: alice"));
    assert!(fm.contains("  version: \"1.0.0\""));
}

#[test]
fn skips_license_when_empty() {
    let info = make_info("", "alice");
    let fm = build_frontmatter(&info);
    assert!(
        !fm.contains("license:"),
        "license line should be absent when empty"
    );
}

#[test]
fn skips_author_when_empty() {
    let info = make_info("MIT", "");
    let fm = build_frontmatter(&info);
    assert!(
        !fm.contains("author:"),
        "author line should be absent when empty"
    );
    assert!(
        fm.contains("metadata:"),
        "metadata block must still exist for version"
    );
}

#[test]
fn rewrites_known_reference_links() {
    let mut refs = Vec::new();
    insert_reference(&mut refs, make_reference("struct.Command"));

    let input = r#"* Builder [tutorial](_tutorial/index.html "mod clap::_tutorial") and [reference](struct.Command.html "struct clap::Command")"#;
    let output = rewrite_reference_links(input, &refs);

    assert!(
        output.contains("(references/struct.Command.md"),
        "known reference should be rewritten to references/"
    );
    assert!(
        output.contains("(_tutorial/index.html"),
        "unknown link should be left unchanged"
    );
}

#[test]
fn leaves_non_reference_links_unchanged() {
    let refs: Vec<SkillPage> = Vec::new();
    let input = "See [docs](https://docs.rs/clap/latest/clap/) for details.";
    assert_eq!(rewrite_reference_links(input, &refs), input);
}

#[test]
fn build_items_section_generates_links() {
    let items = vec![
        (
            "Structs".to_string(),
            vec![
                ("Command".to_string(), "struct.Command".to_string()),
                ("builder::Arg".to_string(), "struct.builder.Arg".to_string()),
            ],
        ),
        (
            "Enums".to_string(),
            vec![("ColorChoice".to_string(), "enum.ColorChoice".to_string())],
        ),
    ];
    let s = build_items_section(&items);
    assert!(s.contains("### Items"));
    assert!(s.contains("#### Structs"));
    assert!(s.contains("* [Command](references/struct.Command.md)"));
    assert!(s.contains("* [builder::Arg](references/struct.builder.Arg.md)"));
    assert!(s.contains("#### Enums"));
    assert!(s.contains("* [ColorChoice](references/enum.ColorChoice.md)"));
}

#[test]
fn build_items_section_empty_returns_empty_string() {
    assert_eq!(build_items_section(&Vec::new()), "");
}
