//! The interactive package search: what is asked of each registry, the
//! suggestion lines built from its answer, when a keystroke fetches, and
//! which package a chosen line names.
use vstd::prelude::*;

use crate::cli::Language;
use crate::json::{field, json_array, json_field, json_str, str_or, JsonValue};
use crate::text::{
    before_first, concat3, lemma_find_from_unique, occurs_at, split_once_str, trim, trimmed,
};

verus! {

/// The separator between a package's name and its description in a line.
pub open spec fn separator() -> Seq<char> {
    " — "@
}

/// The name in a chosen suggestion line: the text before the first
/// separator (all of it where there is none), trimmed.
pub open spec fn selection_name_of(selected: Seq<char>) -> Seq<char> {
    trim(
        match split_once_str(selected, separator()) {
            Some((n, _)) => n,
            None => selected,
        },
    )
}

/// The package named by the suggestion line the user chose.
pub fn selection_name(selected: &str) -> (name: String)
    ensures
        name@ == selection_name_of(selected@),
{
    let head = before_first(selected, " — ");
    trimmed(head.as_str())
}

/// A suggestion line: the name, the separator and the trimmed description.
pub open spec fn suggestion_line_of(name: Seq<char>, description: Seq<char>) -> Seq<char> {
    name + separator() + trim(description)
}

/// Choosing a suggestion gives back its package's name, trimmed, for every
/// name without an em dash (one with an em dash could hold the separator).
pub proof fn law_selection_of_suggestion(name: Seq<char>, description: Seq<char>)
    requires
        !name.contains('\u{2014}'),
    ensures
        selection_name_of(suggestion_line_of(name, description)) == trim(name),
{
    reveal_strlit(" \u{2014} ");
    let line = suggestion_line_of(name, description);
    let sep = separator();
    let k = name.len() as int;
    assert(line.subrange(k, k + 3) =~= sep);
    assert forall|j: int| 0 <= j < k implies !occurs_at(line, sep, j) by {
        if occurs_at(line, sep, j) {
            assert(line.subrange(j, j + 3)[1] == line[j + 1]);
            if j + 1 < k {
                assert(name[j + 1] == '\u{2014}');
            } else {
                assert(line[k] == ' ');
            }
        }
    }
    lemma_find_from_unique(line, sep, 0, Some(k));
    assert(line.take(k) =~= name);
}

pub fn suggestion_line(name: &str, description: &str) -> (line: String)
    ensures
        line@ == suggestion_line_of(name@, description@),
{
    let d = trimmed(description);
    concat3(name, " — ", d.as_str())
}

/// A string value, or the empty text.
pub open spec fn text_or_empty(v: Option<JsonValue>) -> Seq<char> {
    match json_str(v) {
        Some(s) => s,
        None => seq![],
    }
}

/// Where each language's registry answers a search, the list in its answer,
/// and where each entry holds its package (`None`: the entry itself) and
/// the package's name.
pub open spec fn result_list_key(lang: Language) -> Seq<char> {
    match lang {
        Language::Rust => "crates"@,
        Language::Csharp => "data"@,
        Language::Typescript => "objects"@,
    }
}

/// The package an entry of a search answer describes.
pub open spec fn entry_package(lang: Language, entry: JsonValue) -> Option<JsonValue> {
    match lang {
        Language::Typescript => json_field(Some(entry), "package"@),
        _ => Some(entry),
    }
}

/// The key of a package's name in a search answer.
pub open spec fn name_key(lang: Language) -> Seq<char> {
    match lang {
        Language::Csharp => "id"@,
        _ => "name"@,
    }
}

/// The suggestion line of one entry of a search answer; a missing name or
/// description counts as empty.
pub open spec fn entry_line(lang: Language, entry: JsonValue) -> Seq<char> {
    let p = entry_package(lang, entry);
    suggestion_line_of(text_or_empty(json_field(p, name_key(lang))), text_or_empty(json_field(p, "description"@)))
}

/// The suggestion lines of a search answer, one per entry of its list, in
/// order; none where the answer holds no list.
pub open spec fn suggestions_of(lang: Language, resp: JsonValue) -> Seq<Seq<char>> {
    match json_array(json_field(Some(resp), result_list_key(lang))) {
        Some(entries) => entries.map_values(|e: JsonValue| entry_line(lang, e)),
        None => seq![],
    }
}

/// The suggestion lines of a registry's answer to a search.
pub fn suggestions(lang: Language, resp: &JsonValue) -> (lines: Vec<String>)
    ensures
        lines.deep_view() == suggestions_of(lang, *resp),
{
    proof {
        reveal_strlit("");
        assert(""@ =~= Seq::<char>::empty());
    }
    let list_key = match lang {
        Language::Rust => "crates",
        Language::Csharp => "data",
        Language::Typescript => "objects",
    };
    let mut lines: Vec<String> = Vec::new();
    match field(Some(resp), list_key) {
        Some(JsonValue::Array(entries)) => {
            let mut i: usize = 0;
            while i < entries.len()
                invariant
                    i <= entries@.len(),
                    json_array(json_field(Some(*resp), result_list_key(lang))) == Some(entries@),
                    ""@ == Seq::<char>::empty(),
                    lines.deep_view() == entries@.take(i as int).map_values(
                        |e: JsonValue| entry_line(lang, e),
                    ),
                decreases entries.len() - i,
            {
                let entry = &entries[i];
                let package = match lang {
                    Language::Typescript => field(Some(entry), "package"),
                    _ => Some(entry),
                };
                let key = match lang {
                    Language::Csharp => "id",
                    _ => "name",
                };
                assert(crate::json::opt(package) == entry_package(lang, entries@[i as int]));
                let name = str_or(field(package, key), "");
                let description = str_or(field(package, "description"), "");
                let line = suggestion_line(name.as_str(), description.as_str());
                assert(line@ == entry_line(lang, entries@[i as int]));
                let ghost prev = lines.deep_view();
                lines.push(line);
                assert(lines.deep_view() =~= prev.push(line@));
                assert(entries@.take(i + 1).map_values(|e: JsonValue| entry_line(lang, e))
                    =~= entries@.take(i as int).map_values(|e: JsonValue| entry_line(lang, e)).push(
                    entry_line(lang, entries@[i as int]),
                ));
                i = i + 1;
            }
            assert(entries@.take(entries@.len() as int) =~= entries@);
        },
        _ => {
            assert(lines.deep_view() =~= Seq::<Seq<char>>::empty());
        },
    }
    lines
}

/// The prompt of each language's search.
pub open spec fn prompt_of(lang: Language) -> Seq<char> {
    match lang {
        Language::Rust => "Search crates.io:"@,
        Language::Csharp => "Search NuGet:"@,
        Language::Typescript => "Search npm:"@,
    }
}

pub fn search_prompt(lang: Language) -> (p: String)
    ensures
        p@ == prompt_of(lang),
{
    match lang {
        Language::Rust => "Search crates.io:".to_owned(),
        Language::Csharp => "Search NuGet:".to_owned(),
        Language::Typescript => "Search npm:".to_owned(),
    }
}

/// A registry search: its address and its query pairs.
pub struct SearchRequest {
    pub url: String,
    pub query: Vec<(String, String)>,
}

/// The address of each registry's search.
pub open spec fn search_url(lang: Language) -> Seq<char> {
    match lang {
        Language::Rust => "https://crates.io/api/v1/crates"@,
        Language::Csharp => "https://azuresearch-usnc.nuget.org/query"@,
        Language::Typescript => "https://registry.npmjs.org/-/v1/search"@,
    }
}

/// The query of each registry's search for `input`: the text, and a limit
/// of twenty results.
pub open spec fn search_query(lang: Language, input: Seq<char>) -> Seq<(Seq<char>, Seq<char>)> {
    match lang {
        Language::Rust => seq![("q"@, input), ("per_page"@, "20"@)],
        Language::Csharp => seq![("q"@, input), ("take"@, "20"@)],
        Language::Typescript => seq![("text"@, input), ("size"@, "20"@)],
    }
}

/// Every registry is asked for at most twenty results, with what the user
/// typed under the parameter it reads: `q` for crates.io and NuGet's search
/// service, `text` for npm's.
pub proof fn law_search_carries_input(lang: Language, input: Seq<char>)
    ensures
        search_query(lang, input).len() == 2,
        search_query(lang, input)[0].1 == input,
        search_query(lang, input)[0].0 == (if lang == Language::Typescript {
            "text"@
        } else {
            "q"@
        }),
        search_query(lang, input)[1].1 == "20"@,
{
}

/// What to ask a language's registry for the suggestions of `input`.
pub fn search_request(lang: Language, input: &str) -> (r: SearchRequest)
    ensures
        r.url@ == search_url(lang),
        r.query.deep_view() == search_query(lang, input@),
{
    let (url, text_key, limit_key) = match lang {
        Language::Rust => ("https://crates.io/api/v1/crates", "q", "per_page"),
        Language::Csharp => ("https://azuresearch-usnc.nuget.org/query", "q", "take"),
        Language::Typescript => ("https://registry.npmjs.org/-/v1/search", "text", "size"),
    };
    let mut query: Vec<(String, String)> = Vec::new();
    query.push((text_key.to_owned(), input.to_owned()));
    query.push((limit_key.to_owned(), "20".to_owned()));
    assert(query.deep_view() =~= search_query(lang, input@));
    SearchRequest { url: url.to_owned(), query }
}

/// The pause, in milliseconds, after which a keystroke may fetch.
pub const DEBOUNCE_MS: u128 = 10;

/// What a keystroke does to the suggestions.
#[derive(Clone, Copy, Debug, PartialEq, Eq, Structural)]
pub enum SearchStep {
    /// The input is empty: show nothing.
    Clear,
    /// Ask the registry for this input, then show its answer.
    Fetch,
    /// Show the suggestions already fetched.
    Reuse,
}

/// The suggestions shown so far and the input they were fetched for.
#[derive(Clone)]
pub struct SearchCache {
    pub cached: Vec<String>,
    pub fetched_for: String,
}

/// The step for `input` when `since_last_ms` milliseconds passed since the
/// last keystroke: an empty input clears; a new input fetches once the
/// pause has passed; anything else reuses what was fetched.
pub open spec fn step_of(input: Seq<char>, fetched_for: Seq<char>, since_last_ms: u128) -> SearchStep {
    if input.len() == 0 {
        SearchStep::Clear
    } else if input != fetched_for && since_last_ms >= DEBOUNCE_MS {
        SearchStep::Fetch
    } else {
        SearchStep::Reuse
    }
}

/// Once the suggestions of an input are kept, typing that input again shows
/// them without asking the registry, however long the pause.
pub proof fn law_kept_input_not_refetched(input: Seq<char>, since_last_ms: u128)
    requires
        input.len() > 0,
    ensures
        step_of(input, input, since_last_ms) == SearchStep::Reuse,
{
}

/// An empty input shows nothing, whatever was fetched.
pub proof fn law_empty_input_clears(fetched_for: Seq<char>, since_last_ms: u128)
    ensures
        step_of(seq![], fetched_for, since_last_ms) == SearchStep::Clear,
{
}

impl SearchCache {
    /// Nothing fetched yet.
    pub fn new() -> (c: SearchCache)
        ensures
            c.cached@.len() == 0,
            c.fetched_for@.len() == 0,
    {
        SearchCache { cached: Vec::new(), fetched_for: String::new() }
    }

    pub fn next_step(&self, input: &str, since_last_ms: u128) -> (step: SearchStep)
        ensures
            step == step_of(input@, self.fetched_for@, since_last_ms),
    {
        if input.unicode_len() == 0 {
            SearchStep::Clear
        } else if !crate::text::str_eq(input, self.fetched_for.as_str())
            && since_last_ms >= DEBOUNCE_MS {
            SearchStep::Fetch
        } else {
            SearchStep::Reuse
        }
    }

    /// Keeps the suggestions fetched for `input`.
    pub fn store(&mut self, input: &str, lines: Vec<String>)
        ensures
            final(self).cached.deep_view() == lines.deep_view(),
            final(self).fetched_for@ == input@,
    {
        self.cached = lines;
        self.fetched_for = input.to_owned();
    }

    /// The suggestions a step shows: none when it clears, else those kept.
    pub fn shown(&self, step: SearchStep) -> (lines: Vec<String>)
        ensures
            step == SearchStep::Clear ==> lines@.len() == 0,
            step != SearchStep::Clear ==> lines.deep_view() == self.cached.deep_view(),
    {
        match step {
            SearchStep::Clear => Vec::new(),
            _ => self.cached.clone(),
        }
    }
}

} // verus!
