use doc2skill::order::sort_names;
use doc2skill::rust::fetch::{crate_base_url, extract_page, reference_page, reference_slug, try_preprocess_pre_blocks};
use doc2skill::skill::count::{
    tokenizer_accepts, TokenCountError,
    colorize, count_skill, count_text_tokens, reference_files, render_tree, RefTokenCount,
    SkillTokenCount,
};
use doc2skill::skill::warn::{collect_warnings, warning_messages, SkillWarning};
use doc2skill::skill::write::{rewrite_reference_links, skill_files};
use doc2skill::skill::{insert_reference, SkillInfo, SkillPage};

fn page(slug: &str, md: &str) -> SkillPage {
    SkillPage { slug: slug.to_owned(), title: String::new(), markdown: md.to_owned() }
}

fn info_with(markdown: &str) -> SkillInfo {
    SkillInfo {
        name: "demo".to_owned(),
        version: "0.1.0".to_owned(),
        description: "Demo crate".to_owned(),
        license: "MIT".to_owned(),
        author: "me".to_owned(),
        page: page("index", markdown),
        references: Vec::new(),
        items: Vec::new(),
    }
}

#[test]
fn references_stay_sorted_one_per_slug() {
    let mut refs = Vec::new();
    insert_reference(&mut refs, page("struct.B", "b"));
    insert_reference(&mut refs, page("enum.A", "a"));
    insert_reference(&mut refs, page("struct.B", "b2"));
    insert_reference(&mut refs, page("trait.C", "c"));
    let slugs: Vec<&str> = refs.iter().map(|p| p.slug.as_str()).collect();
    assert_eq!(slugs, vec!["enum.A", "struct.B", "trait.C"]);
    assert_eq!(refs[1].markdown, "b2");
}

#[test]
fn unlinked_page_is_written_unchanged() {
    let refs = vec![page("struct.Command", "")];
    let md = "Nothing links here: [x](other.html).";
    assert_eq!(rewrite_reference_links(md, &refs), md);
    let linked = "[c](struct.Command.html) and [c](struct.Command.html#method)";
    assert_eq!(
        rewrite_reference_links(linked, &refs),
        "[c](references/struct.Command.md) and [c](references/struct.Command.md#method)"
    );
}

#[test]
fn skill_files_lay_out_the_skill() {
    let mut info = info_with("See [c](struct.Command.html).");
    info.references = vec![page("struct.Command", "# Command")];
    info.items = vec![("Structs".to_owned(), vec![("Command".to_owned(), "struct.Command".to_owned())])];
    let files = skill_files(&info);
    assert_eq!(files.dir_name, "demo");
    assert!(files.skill_md.starts_with("---\n"));
    assert!(files.skill_md.contains("See [c](references/struct.Command.md)."));
    assert!(files.skill_md.ends_with("\n### Items\n\n#### Structs\n\n* [Command](references/struct.Command.md)\n"));
    assert_eq!(files.doc_skill, "name = \"demo\"\nversion = \"0.1.0\"\ngen = \"v1\"\n");
    assert_eq!(files.references, vec![("struct.Command.md".to_owned(), "# Command".to_owned())]);
}

#[test]
fn tokens_are_counted_with_cl100k() {
    assert!(matches!(count_text_tokens("hello world"), Ok(2)));
    assert!(matches!(count_text_tokens(""), Ok(0)));
    let refs = vec![("Arg.md".to_owned(), "hello".to_owned())];
    let counted = count_skill("clap", "hello world", &refs).expect("tokenizer");
    assert_eq!(counted.name, "clap");
    assert_eq!(counted.skill_tokens, 2);
    assert_eq!(counted.references[0].name, "Arg.md");
    assert_eq!(counted.references[0].tokens, 1);
}

#[test]
fn warnings_for_blank_page() {
    let warnings = collect_warnings(&info_with("  \n "));
    assert_eq!(warnings.len(), 1);
    assert!(matches!(warnings[0], SkillWarning::NoContent));
    assert!(collect_warnings(&info_with("Some text")).is_empty());
    let big = "word ".repeat(6000);
    let warnings = collect_warnings(&info_with(&big));
    assert!(matches!(warnings[0], SkillWarning::TooManyTokens(n) if n > 5000));
    let lines = warning_messages("demo", &vec![SkillWarning::NoContent]);
    assert_eq!(lines, vec!["\u{1b}[33m\u{26a0} demo: no content\u{1b}[0m".to_owned()]);
}

#[test]
fn token_tree_marks_large_pages_red() {
    assert_eq!(colorize("x", true), "\u{1b}[31mx\u{1b}[0m");
    assert_eq!(colorize("x", false), "\u{1b}[32mx\u{1b}[0m");
    let results = vec![
        SkillTokenCount {
            name: "clap".to_owned(),
            skill_tokens: 6000,
            references: vec![
                RefTokenCount { name: "Arg.md".to_owned(), tokens: 12 },
                RefTokenCount { name: "Command.md".to_owned(), tokens: 8504 },
            ],
        },
        SkillTokenCount { name: "serde".to_owned(), skill_tokens: 5000, references: Vec::new() },
    ];
    assert_eq!(
        render_tree(".agents/skills", &results),
        vec![
            "/.agents/skills".to_owned(),
            "  /clap".to_owned(),
            "\u{1b}[31m    SKILL.md - 6000 tokens\u{1b}[0m".to_owned(),
            "    references".to_owned(),
            "      Arg.md - 12 tokens".to_owned(),
            "\u{1b}[31m      Command.md - 8504 tokens\u{1b}[0m".to_owned(),
            "  /serde".to_owned(),
            "\u{1b}[32m    SKILL.md - 5000 tokens\u{1b}[0m".to_owned(),
        ]
    );
}

#[test]
fn reference_files_are_markdown_in_order() {
    let names: Vec<String> = ["b.md", "a.md", "x.txt", ".md", "B.md"].iter().map(|s| s.to_string()).collect();
    assert_eq!(reference_files(&names), vec!["B.md".to_owned(), "a.md".to_owned(), "b.md".to_owned()]);
    let dirs: Vec<String> = ["serde", "clap", "anyhow", "clap"].iter().map(|s| s.to_string()).collect();
    assert_eq!(sort_names(&dirs), vec!["anyhow".to_owned(), "clap".to_owned(), "clap".to_owned(), "serde".to_owned()]);
}

#[test]
fn docs_page_is_converted() {
    let html = "<html><head><title>clap - Rust</title></head><body><section id=\"main-content\"><div class=\"docblock\"><h2 id=\"x\">Example</h2><p>See <a href=\"struct.Command.html\">Command</a>, <a href=\"struct.Command.html\">again</a>, <a href=\"../serde/index.html\">serde</a> and <a href=\"#x\">here</a>.</p></div></section></body></html>";
    let base = crate_base_url("https://docs.rs/clap/4.5.0/clap/index.html").expect("url");
    assert_eq!(base, "https://docs.rs/clap/4.5.0/clap/");
    let (title, markdown, links) = match extract_page(html, "https://docs.rs/clap/4.5.0/clap/index.html", &base) {
        Ok(r) => r,
        Err(_) => panic!("expected a page"),
    };
    assert_eq!(title, "clap - Rust");
    assert!(markdown.contains("Example"));
    assert!(!markdown.contains("<p>"));
    assert_eq!(links, vec!["https://docs.rs/clap/4.5.0/clap/struct.Command.html".to_owned()]);
    assert_eq!(reference_slug(&links[0]), "struct.Command");
    assert_eq!(reference_slug("https://docs.rs/clap/4.5.0/clap/"), "unknown");
    let p = match reference_page(&links[0], html, &links[0], &base) {
        Ok(p) => p,
        Err(_) => panic!("expected a page"),
    };
    assert_eq!(p.slug, "struct.Command");
    assert_eq!(p.title, "clap - Rust");
}

#[test]
fn malformed_pre_block_is_refused() {
    assert!(try_preprocess_pre_blocks("<pre</pre>>").is_none());
    assert_eq!(try_preprocess_pre_blocks("<p>no blocks</p>"), Some("<p>no blocks</p>".to_owned()));
    let html = "<html><body><section id=\"main-content\"><div class=\"docblock\"><pre</pre>></div></section></body></html>";
    let r = extract_page(html, "https://docs.rs/x/1/x/index.html", "https://docs.rs/x/1/x/");
    match r {
        Err(e) => assert_eq!(e.message(), "docs: malformed <pre> block"),
        Ok(_) => {}
    }
}

#[test]
fn every_reference_link_is_rewritten() {
    let mut refs = Vec::new();
    insert_reference(&mut refs, page("struct.AB", ""));
    insert_reference(&mut refs, page("struct.A", ""));
    let md = "[a](struct.A.html) [b](struct.AB.html#x) [c](struct.A.html \"A\")";
    let out = rewrite_reference_links(md, &refs);
    assert_eq!(
        out,
        "[a](references/struct.A.md) [b](references/struct.AB.md#x) [c](references/struct.A.md \"A\")"
    );
    assert!(!out.contains("(struct.A.html") && !out.contains("(struct.AB.html"));
}

#[test]
fn cross_crate_links_become_skill_notes() {
    let refs = vec![page("struct.Command", "")];
    let md = "See [Serialize](../serde/trait.Serialize.html \"trait serde::Serialize\") and [Command](struct.Command.html).";
    let out = rewrite_reference_links(md, &refs);
    assert_eq!(out, "See Serialize (use skill `/serde`) and [Command](references/struct.Command.md).");
    assert!(!out.contains("../serde/trait.Serialize.html"));
    assert_eq!(
        rewrite_reference_links("[up](../struct.Command.html) [src](../../src/x.rs.html)", &Vec::new()),
        "[up](../struct.Command.html) [src](../../src/x.rs.html)"
    );
    assert_eq!(
        rewrite_reference_links("[a](../tokio/index.html)[b](../serde_json/fn.to_string.html)", &Vec::new()),
        "a (use skill `/tokio`)b (use skill `/serde_json`)"
    );
}

#[test]
fn tokenizer_is_given_only_broken_texts() {
    assert!(tokenizer_accepts("hello world"));
    assert!(tokenizer_accepts(&"a".repeat(9999)));
    assert!(!tokenizer_accepts(&"a".repeat(10000)));
    assert!(!tokenizer_accepts(&" ".repeat(20000)));
    assert!(tokenizer_accepts(&"ab cd ".repeat(5000)));
    assert!(matches!(count_text_tokens(&" ".repeat(20000)), Err(TokenCountError::UnbrokenRunTooLong)));
    assert!(count_skill("x", &"é".repeat(20000), &Vec::new()).is_none());
}

#[test]
fn rewriting_twice_is_rewriting_once() {
    let refs = vec![page("struct.Command", ""), page("trait.Parser", "")];
    let md = "[c](struct.Command.html) and [p](trait.Parser.html \"t\") and [x](other.html)";
    let once = rewrite_reference_links(md, &refs);
    assert_eq!(rewrite_reference_links(&once, &refs), once);
    let tricky = "[x[y](../b/c) ](../d/e)";
    let once = rewrite_reference_links(tricky, &Vec::new());
    assert_eq!(once, "[xy (use skill `/b`) ](../d/e)");
    assert_eq!(rewrite_reference_links(&once, &Vec::new()), "xy (use skill `/b`)  (use skill `/d`)");
}
