//! The command line: its arguments and the languages it can document.
use vstd::prelude::*;

verus! {

/// A language whose packages can be documented, in the order the tool
/// lists them.
#[derive(Clone, Copy, Debug, PartialEq, Eq, Structural, PartialOrd, Ord, Hash)]
pub enum Language {
    Rust,
    Csharp,
    Typescript,
}

/// The position of a language in the tool's order.
pub open spec fn language_rank(l: Language) -> nat {
    match l {
        Language::Rust => 0,
        Language::Csharp => 1,
        Language::Typescript => 2,
    }
}

/// The parsed command line.
pub struct CliArgs {
    /// Package to fetch, e.g. `clap` or `clap@4.5`; `None` to search interactively.
    pub spec: Option<String>,
    /// The base output path.
    pub output: String,
    /// Count tokens in generated skill files instead of generating.
    pub count: bool,
    /// Language to generate documentation for; prompted for when `None`.
    pub language: Option<Language>,
}

/// The base output path when none is given.
pub fn default_output() -> (s: String)
    ensures
        s@ == ".agents/skills"@,
{
    ".agents/skills".to_owned()
}

/// The name the language prompt shows for a language.
pub open spec fn choice_name(l: Language) -> Seq<char> {
    match l {
        Language::Rust => "Rust"@,
        Language::Csharp => "C#"@,
        Language::Typescript => "TypeScript"@,
    }
}

/// The languages the prompt offers, with the names it shows, in order.
pub fn language_choices() -> (choices: Vec<(String, Language)>)
    ensures
        choices@.len() == 3,
        choices@[0].1 == Language::Rust,
        choices@[1].1 == Language::Csharp,
        choices@[2].1 == Language::Typescript,
        forall|i: int| 0 <= i < 3 ==> (#[trigger] choices@[i]).0@ == choice_name(choices@[i].1),
{
    let mut v: Vec<(String, Language)> = Vec::new();
    v.push(("Rust".to_owned(), Language::Rust));
    v.push(("C#".to_owned(), Language::Csharp));
    v.push(("TypeScript".to_owned(), Language::Typescript));
    v
}

/// The language to use without asking: the one given on the command line,
/// else the only one offered; `None` where the user must choose.
pub fn preselected_language(given: Option<Language>, choices: &Vec<(String, Language)>) -> (l:
    Option<Language>)
    ensures
        l == match given {
            Some(g) => Some(g),
            None => if choices@.len() == 1 {
                Some(choices@[0].1)
            } else {
                None
            },
        },
{
    match given {
        Some(g) => Some(g),
        None => if choices.len() == 1 {
            Some(choices[0].1)
        } else {
            None
        },
    }
}

/// The language of the first choice shown as `selected`.
pub open spec fn choice_of(choices: Seq<(String, Language)>, selected: Seq<char>) -> Option<Language>
    decreases choices.len(),
{
    if choices.len() == 0 {
        None
    } else if choices[0].0@ == selected {
        Some(choices[0].1)
    } else {
        choice_of(choices.drop_first(), selected)
    }
}

/// The language the user picked by its shown name; `None` for a name that
/// was not offered.
pub fn language_of_choice(choices: &Vec<(String, Language)>, selected: &str) -> (l: Option<Language>)
    ensures
        l == choice_of(choices@, selected@),
{
    let mut i: usize = 0;
    assert(choices@.skip(0) =~= choices@);
    while i < choices.len()
        invariant
            i <= choices@.len(),
            choice_of(choices@, selected@) == choice_of(choices@.skip(i as int), selected@),
        decreases choices.len() - i,
    {
        assert(choices@.skip(i as int).drop_first() =~= choices@.skip(i + 1));
        if crate::text::str_eq(choices[i].0.as_str(), selected) {
            return Some(choices[i].1);
        }
        i = i + 1;
    }
    None
}

} // verus!
