//! The dependencies found in the current directory, over all languages.
use vstd::prelude::*;

use crate::cli::Language;

verus! {

/// A dependency of the current project, with its language.
pub struct PackageDetected {
    pub name: String,
    pub language: Language,
}

/// What the providers read from the project files of each language:
/// `None` where there was no project file, else the dependencies or the
/// message of a failed read.
pub type ProjectDeps = Vec<(Language, Option<Result<Vec<String>, String>>)>;

/// The `(name, language)` of each dependency that was read, language by
/// language and in the order of each list; a language whose project file
/// was missing or could not be read gives none.
pub open spec fn detected_of(found: Seq<(Language, Option<Result<Vec<String>, String>>)>) -> Seq<
    (Seq<char>, Language),
>
    decreases found.len(),
{
    if found.len() == 0 {
        seq![]
    } else {
        let (lang, deps) = found.last();
        detected_of(found.drop_last()) + match deps {
            Some(Ok(names)) => names.deep_view().map_values(|n: Seq<char>| (n, lang)),
            _ => seq![],
        }
    }
}

/// The `(name, language)` pairs of detected dependencies.
pub open spec fn detected_view(d: Seq<PackageDetected>) -> Seq<(Seq<char>, Language)> {
    d.map_values(|p: PackageDetected| (p.name@, p.language))
}

/// Every dependency that a provider read, with its language.
pub fn detect_all_deps(found: &ProjectDeps) -> (all: Vec<PackageDetected>)
    ensures
        detected_view(all@) == detected_of(found@),
{
    let mut all: Vec<PackageDetected> = Vec::new();
    let mut i: usize = 0;
    while i < found.len()
        invariant
            i <= found@.len(),
            detected_view(all@) == detected_of(found@.take(i as int)),
        decreases found.len() - i,
    {
        let lang = found[i].0;
        assert(found@.take(i + 1).drop_last() =~= found@.take(i as int));
        assert(found@.take(i + 1).last() == found@[i as int]);
        let ghost before = all@;
        match &found[i].1 {
            Some(Ok(deps)) => {
                let mut j: usize = 0;
                while j < deps.len()
                    invariant
                        j <= deps@.len(),
                        i < found@.len(),
                        all@.len() == before.len() + j,
                        detected_view(all@) == detected_view(before) + deps.deep_view().take(
                            j as int,
                        ).map_values(|n: Seq<char>| (n, lang)),
                    decreases deps.len() - j,
                {
                    let ghost prev = all@;
                    all.push(PackageDetected { name: deps[j].clone(), language: lang });
                    assert(detected_view(all@) =~= detected_view(prev).push((deps@[j as int]@, lang)));
                    assert(deps.deep_view().take(j + 1) =~= deps.deep_view().take(j as int).push(
                        deps@[j as int]@,
                    ));
                    assert(deps.deep_view().take(j + 1).map_values(|n: Seq<char>| (n, lang))
                        =~= deps.deep_view().take(j as int).map_values(|n: Seq<char>| (n, lang)).push(
                        (deps@[j as int]@, lang),
                    ));
                    j = j + 1;
                }
                assert(deps.deep_view().take(deps@.len() as int) =~= deps.deep_view());
            },
            _ => {
                assert(detected_view(all@) =~= detected_view(before) + Seq::<
                    (Seq<char>, Language),
                >::empty());
            },
        }
        i = i + 1;
    }
    assert(found@.take(found@.len() as int) =~= found@);
    all
}

/// The short tag of a language in listings.
pub open spec fn tag_of(lang: Language) -> Seq<char> {
    match lang {
        Language::Rust => "rust"@,
        Language::Csharp => "csharp"@,
        Language::Typescript => "typescript"@,
    }
}

/// The short tag of a language in listings.
pub fn language_tag(lang: &Language) -> (tag: &'static str)
    ensures
        tag@ == tag_of(*lang),
{
    match lang {
        Language::Rust => "rust",
        Language::Csharp => "csharp",
        Language::Typescript => "typescript",
    }
}

} // verus!
