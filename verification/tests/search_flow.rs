use doc2skill::cli::Language;
use doc2skill::json::JsonValue;
use doc2skill::search::{
    search_prompt, search_request, selection_name, suggestion_line, suggestions, SearchCache,
    SearchStep,
};

fn s(v: &str) -> JsonValue {
    JsonValue::Str(v.to_owned())
}

fn obj(pairs: Vec<(&str, JsonValue)>) -> JsonValue {
    JsonValue::Object(pairs.into_iter().map(|(k, v)| (k.to_owned(), v)).collect())
}

#[test]
fn selection_takes_name_before_separator() {
    assert_eq!(selection_name("clap — A simple to use CLI parser"), "clap");
    assert_eq!(selection_name("  serde  "), "serde");
    assert_eq!(selection_name("a — b — c"), "a");
}

#[test]
fn suggestion_line_trims_description() {
    assert_eq!(suggestion_line("clap", "  Command line  "), "clap — Command line");
    assert_eq!(suggestion_line("x", ""), "x — ");
}

#[test]
fn choosing_a_suggestion_gives_back_its_name() {
    let line = suggestion_line("tokio", "  An async runtime ");
    assert_eq!(selection_name(&line), "tokio");
}

#[test]
fn crates_io_answer_becomes_lines() {
    let resp = obj(vec![(
        "crates",
        JsonValue::Array(vec![
            obj(vec![("name", s("clap")), ("description", s(" CLI "))]),
            obj(vec![("name", s("x"))]),
        ]),
    )]);
    assert_eq!(suggestions(Language::Rust, &resp), vec!["clap — CLI".to_owned(), "x — ".to_owned()]);
}

#[test]
fn nuget_and_npm_answers_become_lines() {
    let nuget = obj(vec![(
        "data",
        JsonValue::Array(vec![obj(vec![("id", s("Serilog")), ("description", s("Logging"))])]),
    )]);
    assert_eq!(suggestions(Language::Csharp, &nuget), vec!["Serilog — Logging".to_owned()]);
    let npm = obj(vec![(
        "objects",
        JsonValue::Array(vec![obj(vec![(
            "package",
            obj(vec![("name", s("react")), ("description", s("UI"))]),
        )])]),
    )]);
    assert_eq!(suggestions(Language::Typescript, &npm), vec!["react — UI".to_owned()]);
}

#[test]
fn answer_without_list_gives_no_lines() {
    assert!(suggestions(Language::Rust, &obj(vec![])).is_empty());
    assert!(suggestions(Language::Rust, &JsonValue::Null).is_empty());
}

#[test]
fn search_requests_per_registry() {
    let r = search_request(Language::Rust, "cl");
    assert_eq!(r.url, "https://crates.io/api/v1/crates");
    assert_eq!(r.query, vec![("q".to_owned(), "cl".to_owned()), ("per_page".to_owned(), "20".to_owned())]);
    let n = search_request(Language::Csharp, "js");
    assert_eq!(n.url, "https://azuresearch-usnc.nuget.org/query");
    assert_eq!(n.query[1], ("take".to_owned(), "20".to_owned()));
    let t = search_request(Language::Typescript, "re");
    assert_eq!(t.url, "https://registry.npmjs.org/-/v1/search");
    assert_eq!(t.query[0], ("text".to_owned(), "re".to_owned()));
    assert_eq!(search_prompt(Language::Csharp), "Search NuGet:");
}

#[test]
fn keystrokes_fetch_once_per_input() {
    let mut cache = SearchCache::new();
    assert_eq!(cache.next_step("", 100), SearchStep::Clear);
    assert_eq!(cache.next_step("cl", 5), SearchStep::Reuse);
    assert_eq!(cache.next_step("cl", 10), SearchStep::Fetch);
    cache.store("cl", vec!["clap — CLI".to_owned()]);
    assert_eq!(cache.next_step("cl", 1000), SearchStep::Reuse);
    assert_eq!(cache.next_step("cla", 10), SearchStep::Fetch);
    assert!(cache.shown(SearchStep::Clear).is_empty());
    assert_eq!(cache.shown(SearchStep::Reuse), vec!["clap — CLI".to_owned()]);
}
