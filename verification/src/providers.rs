//! The package providers, one per language, and how each finds a project.
use vstd::prelude::*;

use crate::cli::{language_rank, Language};
use crate::text::{ends_with, str_ends_with, str_eq};

verus! {

/// The provider of one language's packages: crates.io, NuGet or npm.
#[derive(Clone, Copy, Debug, PartialEq, Eq, Structural)]
pub enum AnyProvider {
    Rust,
    Csharp,
    Typescript,
}

/// The provider of a language.
pub open spec fn provider_of(l: Language) -> AnyProvider {
    match l {
        Language::Rust => AnyProvider::Rust,
        Language::Csharp => AnyProvider::Csharp,
        Language::Typescript => AnyProvider::Typescript,
    }
}

/// A file name whose extension is `csproj`: it ends with `.csproj` and
/// something comes before the dot.
pub open spec fn is_csproj_name(name: Seq<char>) -> bool {
    ends_with(name, ".csproj"@) && name.len() > 7
}

/// Whether a file name has the extension `csproj`.
pub fn is_csproj(name: &str) -> (b: bool)
    ensures
        b == is_csproj_name(name@),
{
    proof {
        reveal_strlit(".csproj");
    }
    str_ends_with(name, ".csproj") && name.unicode_len() > 7
}

/// Whether the names of the current directory's entries show a project of
/// the language: `Cargo.toml`; `package.json`; a `*.csproj` file or
/// `Directory.Packages.props`.
pub open spec fn has_project_file(p: AnyProvider, entries: Seq<Seq<char>>) -> bool {
    match p {
        AnyProvider::Rust => entries.contains("Cargo.toml"@),
        AnyProvider::Typescript => entries.contains("package.json"@),
        AnyProvider::Csharp => entries.contains("Directory.Packages.props"@) || exists|i: int|
            0 <= i < entries.len() && is_csproj_name(#[trigger] entries[i]),
    }
}

impl AnyProvider {
    /// The language this provider documents.
    pub fn language(&self) -> (l: Language)
        ensures
            provider_of(l) == *self,
    {
        match self {
            AnyProvider::Rust => Language::Rust,
            AnyProvider::Csharp => Language::Csharp,
            AnyProvider::Typescript => Language::Typescript,
        }
    }

    /// Whether the current directory holds a project of this language;
    /// `entries` are the names of its entries.
    pub fn detects_project(&self, entries: &Vec<String>) -> (found: bool)
        ensures
            found == has_project_file(*self, entries.deep_view()),
    {
        proof {
            reveal_strlit(".csproj");
        }
        let mut i: usize = 0;
        while i < entries.len()
            invariant
                i <= entries@.len(),
                forall|k: int|
                    0 <= k < i ==> match *self {
                        AnyProvider::Rust => entries@[k]@ != "Cargo.toml"@,
                        AnyProvider::Typescript => entries@[k]@ != "package.json"@,
                        AnyProvider::Csharp => entries@[k]@ != "Directory.Packages.props"@
                            && !is_csproj_name(entries@[k]@),
                    },
            decreases entries.len() - i,
        {
            let e = entries[i].as_str();
            let hit = match self {
                AnyProvider::Rust => str_eq(e, "Cargo.toml"),
                AnyProvider::Typescript => str_eq(e, "package.json"),
                AnyProvider::Csharp => str_eq(e, "Directory.Packages.props") || is_csproj(e),
            };
            if hit {
                assert(entries.deep_view()[i as int] == entries@[i as int]@);
                return true;
            }
            i = i + 1;
        }
        assert forall|k: int| 0 <= k < entries@.len() implies #[trigger] entries.deep_view()[k]
            == entries@[k]@ by {}
        false
    }
}

/// The providers, one per language, in the order of their languages.
pub fn build_providers() -> (map: Vec<(Language, AnyProvider)>)
    ensures
        map@.len() == 3,
        forall|i: int|
            0 <= i < map@.len() ==> language_rank((#[trigger] map@[i]).0) == i && map@[i].1
                == provider_of(map@[i].0),
{
    let mut map: Vec<(Language, AnyProvider)> = Vec::new();
    map.push((Language::Rust, AnyProvider::Rust));
    map.push((Language::Csharp, AnyProvider::Csharp));
    map.push((Language::Typescript, AnyProvider::Typescript));
    map
}

/// The provider of `lang` among `providers`.
pub fn provider_for(providers: &Vec<(Language, AnyProvider)>, lang: Language) -> (p: Option<AnyProvider>)
    ensures
        match p {
            Some(q) => exists|i: int|
                0 <= i < providers@.len() && (#[trigger] providers@[i]).0 == lang && providers@[i].1
                    == q,
            None => forall|i: int| 0 <= i < providers@.len() ==> (#[trigger] providers@[i]).0 != lang,
        },
{
    let mut i: usize = 0;
    while i < providers.len()
        invariant
            i <= providers@.len(),
            forall|k: int| 0 <= k < i ==> (#[trigger] providers@[k]).0 != lang,
        decreases providers.len() - i,
    {
        if providers[i].0 == lang {
            return Some(providers[i].1);
        }
        i = i + 1;
    }
    None
}

} // verus!
