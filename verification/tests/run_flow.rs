use doc2skill::cli::{
    default_output, language_choices, language_of_choice, preselected_language, Language,
};
use doc2skill::detection::{detect_all_deps, language_tag, PackageDetected};
use doc2skill::providers::{build_providers, provider_for, AnyProvider};
use doc2skill::run::{
    all_indices, batch_name, failure_line, fetching_message, mixed_display, mixed_selection,
    plan_run, single_report, success_line, summary_line, BatchTally, RunPlan,
};
use doc2skill::skill::warn::SkillWarning;
use doc2skill::skill::{SkillInfo, SkillPage};

fn page(slug: &str) -> SkillPage {
    SkillPage { slug: slug.to_owned(), title: String::new(), markdown: String::new() }
}

#[test]
fn plan_prefers_the_given_spec() {
    assert!(matches!(
        plan_run(Some("clap".to_owned()), Some(Err("bad".to_owned()))),
        Ok(RunPlan::Single(s)) if s == "clap"
    ));
    assert!(matches!(
        plan_run(None, Some(Ok(vec!["serde".to_owned()]))),
        Ok(RunPlan::Batch(d)) if d == vec!["serde".to_owned()]
    ));
    assert!(matches!(plan_run(None, Some(Err("bad".to_owned()))), Err(e) if e == "bad"));
    assert!(matches!(plan_run(None, None), Ok(RunPlan::Search)));
}

#[test]
fn batch_lines() {
    assert_eq!(batch_name("clap@4.5"), "clap");
    assert_eq!(batch_name("serde"), "serde");
    assert_eq!(batch_name("@angular/core@17"), "");
    assert_eq!(fetching_message("clap"), "fetching clap…");
    assert_eq!(success_line(".agents/skills/clap"), "✓ .agents/skills/clap");
    assert_eq!(failure_line("clap", "boom"), "✗ clap — boom");
    assert_eq!(summary_line(2, 3), "2/3 skills generated");
    assert_eq!(summary_line(0, 0), "0/0 skills generated");
    assert_eq!(all_indices(3), vec![0, 1, 2]);
}

#[test]
fn single_report_lists_pages_only_with_references() {
    let mut info = SkillInfo {
        name: "clap".to_owned(),
        version: "4.5.38".to_owned(),
        description: "A parser".to_owned(),
        license: "MIT".to_owned(),
        author: "kbknapp".to_owned(),
        page: page("index"),
        references: Vec::new(),
        items: Vec::new(),
    };
    assert_eq!(
        single_report(&info, ".agents/skills"),
        vec![
            "name:        clap".to_owned(),
            "version:     4.5.38".to_owned(),
            "license:     MIT".to_owned(),
            "description: A parser".to_owned(),
            "output:      .agents/skills".to_owned(),
        ]
    );
    info.references = vec![page("a"), page("b")];
    let lines = single_report(&info, "out");
    assert_eq!(lines[4], "pages:       3 (2 references)");
    assert_eq!(lines.len(), 6);
}

#[test]
fn tally_counts_successes_and_keeps_warnings() {
    let mut t = BatchTally::new(3);
    t.record_success("a".to_owned(), Vec::new());
    t.record_success("b".to_owned(), vec![SkillWarning::NoContent]);
    t.record_failure();
    assert_eq!(t.ok, 2);
    assert_eq!(t.done, 3);
    assert_eq!(t.warnings.len(), 1);
    assert_eq!(t.warnings[0].0, "b");
    assert_eq!(t.summary(), "2/3 skills generated");
}

#[test]
fn mixed_listing_and_choice() {
    let detected = vec![
        PackageDetected { name: "clap".to_owned(), language: Language::Rust },
        PackageDetected { name: "Serilog".to_owned(), language: Language::Csharp },
        PackageDetected { name: "react".to_owned(), language: Language::Typescript },
    ];
    let display = mixed_display(&detected);
    assert_eq!(
        display,
        vec!["[rust] clap".to_owned(), "[csharp] Serilog".to_owned(), "[typescript] react".to_owned()]
    );
    let chosen = vec!["[typescript] react".to_owned(), "[rust] clap".to_owned()];
    let items = mixed_selection(&detected, &chosen);
    assert_eq!(items, vec![("clap".to_owned(), Language::Rust), ("react".to_owned(), Language::Typescript)]);
    assert!(mixed_selection(&detected, &Vec::new()).is_empty());
}

#[test]
fn languages_and_providers() {
    assert_eq!(default_output(), ".agents/skills");
    let choices = language_choices();
    assert_eq!(choices.len(), 3);
    assert_eq!(preselected_language(Some(Language::Csharp), &choices), Some(Language::Csharp));
    assert_eq!(preselected_language(None, &choices), None);
    let one = vec![("Rust".to_owned(), Language::Rust)];
    assert_eq!(preselected_language(None, &one), Some(Language::Rust));
    assert_eq!(language_of_choice(&choices, "C#"), Some(Language::Csharp));
    assert_eq!(language_of_choice(&choices, "Go"), None);
    let providers = build_providers();
    assert_eq!(
        providers,
        vec![
            (Language::Rust, AnyProvider::Rust),
            (Language::Csharp, AnyProvider::Csharp),
            (Language::Typescript, AnyProvider::Typescript),
        ]
    );
    assert_eq!(provider_for(&providers, Language::Typescript), Some(AnyProvider::Typescript));
    assert_eq!(AnyProvider::Csharp.language(), Language::Csharp);
    assert_eq!(language_tag(&Language::Typescript), "typescript");
}

#[test]
fn project_files_are_recognised() {
    let names = |v: &[&str]| v.iter().map(|s| s.to_string()).collect::<Vec<String>>();
    assert!(AnyProvider::Rust.detects_project(&names(&["src", "Cargo.toml"])));
    assert!(!AnyProvider::Rust.detects_project(&names(&["cargo.toml"])));
    assert!(AnyProvider::Typescript.detects_project(&names(&["package.json"])));
    assert!(AnyProvider::Csharp.detects_project(&names(&["App.csproj"])));
    assert!(AnyProvider::Csharp.detects_project(&names(&["Directory.Packages.props"])));
    assert!(!AnyProvider::Csharp.detects_project(&names(&[".csproj", "App.csproj.user"])));
}

#[test]
fn detection_keeps_read_dependencies_in_order() {
    let found = vec![
        (Language::Rust, Some(Ok(vec!["clap".to_owned(), "serde".to_owned()]))),
        (Language::Csharp, None),
        (Language::Typescript, Some(Err("unreadable".to_owned()))),
    ];
    let all = detect_all_deps(&found);
    assert_eq!(all.len(), 2);
    assert_eq!(all[0].name, "clap");
    assert_eq!(all[1].name, "serde");
    assert_eq!(all[1].language, Language::Rust);
}

#[test]
fn keeping_every_listing_keeps_every_dependency() {
    let detected = vec![
        PackageDetected { name: "clap".to_owned(), language: Language::Rust },
        PackageDetected { name: "react".to_owned(), language: Language::Typescript },
    ];
    let all = mixed_selection(&detected, &mixed_display(&detected));
    assert_eq!(all, vec![("clap".to_owned(), Language::Rust), ("react".to_owned(), Language::Typescript)]);
}
