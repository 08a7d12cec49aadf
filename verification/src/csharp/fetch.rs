//! NuGet version resolution and package metadata.
use vstd::prelude::*;

use crate::error::FetchError;
use crate::json::{as_str, field, json_array, json_field, json_str, str_or, JsonValue};
use crate::rust::fetch::{version_match, version_matches};
use crate::skill::{SkillInfo, SkillPage};
use crate::text::{before_first, concat2, concat3, split_once_str, str_contains_char, trim, trimmed};

verus! {

/// The flat-container index of a package's versions.
pub fn versions_index_url(id: &str) -> (url: String)
    ensures
        url@ == "https://api.nuget.org/v3-flatcontainer/"@ + id@ + "/index.json"@,
{
    concat3("https://api.nuget.org/v3-flatcontainer/", id, "/index.json")
}

/// The string entries of a JSON array, in order.
pub open spec fn strings_of(items: Seq<JsonValue>) -> Seq<Seq<char>>
    decreases items.len(),
{
    if items.len() == 0 {
        seq![]
    } else {
        strings_of(items.drop_last()) + match json_str(Some(items.last())) {
            Some(s) => seq![s],
            None => seq![],
        }
    }
}

/// Returns all versions from the flat-container index (oldest → newest): the
/// string entries of its `versions` array; an error where there is no such array.
pub fn versions_from_index(resp: &JsonValue, id: &str) -> (res: Result<Vec<String>, FetchError>)
    ensures
        match res {
            Ok(vs) => json_array(json_field(Some(*resp), "versions"@)) matches Some(items)
                && vs.deep_view() == strings_of(items),
            Err(e) => json_array(json_field(Some(*resp), "versions"@)) is None && match e {
                FetchError::MissingVersions(i) => i@ == id@,
                _ => false,
            },
        },
{
    match field(Some(resp), "versions") {
        Some(JsonValue::Array(items)) => {
            let mut out: Vec<String> = Vec::new();
            let mut i: usize = 0;
            while i < items.len()
                invariant
                    i <= items@.len(),
                    out.deep_view() == strings_of(items@.take(i as int)),
                decreases items.len() - i,
            {
                assert(items@.take(i + 1).drop_last() =~= items@.take(i as int));
                assert(items@.take(i + 1).last() == items@[i as int]);
                let ghost prev = out.deep_view();
                match as_str(Some(&items[i])) {
                    Some(s) => {
                        out.push(s.clone());
                        assert(out.deep_view() =~= prev + seq![s@]);
                    },
                    None => {
                        assert(prev + Seq::<Seq<char>>::empty() =~= prev);
                    },
                }
                i = i + 1;
            }
            assert(items@.take(items@.len() as int) =~= items@);
            Ok(out)
        },
        _ => Err(FetchError::MissingVersions(id.to_owned())),
    }
}

/// The last stable version (one without `-`).
pub open spec fn last_stable(vs: Seq<Seq<char>>) -> Option<Seq<char>>
    decreases vs.len(),
{
    if vs.len() == 0 {
        None
    } else if !vs.last().contains('-') {
        Some(vs.last())
    } else {
        last_stable(vs.drop_last())
    }
}

/// The version to use when none is asked for: the last stable version,
/// else the last pre-release; `None` when there are no versions.
pub open spec fn latest_of(vs: Seq<Seq<char>>) -> Option<Seq<char>> {
    match last_stable(vs) {
        Some(v) => Some(v),
        None => if vs.len() == 0 {
            None
        } else {
            Some(vs.last())
        },
    }
}

/// The version taken when none is asked for is one of the versions; it is
/// stable whenever some version is; there is one whenever there are versions.
pub proof fn law_latest_prefers_stable(vs: Seq<Seq<char>>)
    ensures
        latest_of(vs) is None <==> vs.len() == 0,
        latest_of(vs) matches Some(v) ==> vs.contains(v),
        (exists|i: int| 0 <= i < vs.len() && !(#[trigger] vs[i]).contains('-')) ==> (latest_of(
            vs,
        ) matches Some(v) && !v.contains('-')),
    decreases vs.len(),
{
    if vs.len() > 0 {
        law_latest_prefers_stable(vs.drop_last());
        if let Some(w) = last_stable(vs.drop_last()) {
            assert(vs.drop_last().contains(w));
            let j = choose|j: int| 0 <= j < vs.drop_last().len() && vs.drop_last()[j] == w;
            assert(vs[j] == w);
        }
        assert(vs[vs.len() - 1] == vs.last());
        if exists|i: int| 0 <= i < vs.len() && !(#[trigger] vs[i]).contains('-') {
            let i = choose|i: int| 0 <= i < vs.len() && !(#[trigger] vs[i]).contains('-');
            if vs.last().contains('-') {
                assert(i != vs.len() - 1);
                assert(vs.drop_last()[i] == vs[i]);
            }
        }
    }
}

/// Prefer stable; fall back to latest pre-release if no stable exists.
pub fn latest_version(versions: &Vec<String>, id: &str) -> (res: Result<String, FetchError>)
    ensures
        match res {
            Ok(v) => latest_of(versions.deep_view()) == Some(v@),
            Err(e) => latest_of(versions.deep_view()) is None && match e {
                FetchError::NoVersions(i) => i@ == id@,
                _ => false,
            },
        },
{
    let ghost vs = versions.deep_view();
    assert(vs.take(vs.len() as int) =~= vs);
    let mut i = versions.len();
    while i > 0
        invariant
            i <= vs.len(),
            vs == versions.deep_view(),
            last_stable(vs) == last_stable(vs.take(i as int)),
        decreases i,
    {
        assert(vs.take(i as int).last() == versions@[i - 1]@);
        assert(vs.take(i as int).drop_last() =~= vs.take(i - 1));
        if !str_contains_char(versions[i - 1].as_str(), '-') {
            return Ok(versions[i - 1].clone());
        }
        i = i - 1;
    }
    assert(vs.take(0) =~= Seq::<Seq<char>>::empty());
    if versions.len() == 0 {
        Err(FetchError::NoVersions(id.to_owned()))
    } else {
        Ok(versions[versions.len() - 1].clone())
    }
}

/// The last version that `spec` matches (exactly, or as a prefix ending at a dot).
pub open spec fn last_matching(vs: Seq<Seq<char>>, spec: Seq<char>) -> Option<Seq<char>>
    decreases vs.len(),
{
    if vs.len() == 0 {
        None
    } else if version_match(vs.last(), spec) {
        Some(vs.last())
    } else {
        last_matching(vs.drop_last(), spec)
    }
}

/// A resolved version is one of the versions and matches the request; none
/// is resolved exactly when no version matches.
pub proof fn law_resolved_matches(vs: Seq<Seq<char>>, spec: Seq<char>)
    ensures
        last_matching(vs, spec) matches Some(v) ==> vs.contains(v) && version_match(v, spec),
        last_matching(vs, spec) is None <==> forall|i: int|
            0 <= i < vs.len() ==> !version_match(#[trigger] vs[i], spec),
    decreases vs.len(),
{
    if vs.len() > 0 {
        law_resolved_matches(vs.drop_last(), spec);
        if let Some(w) = last_matching(vs.drop_last(), spec) {
            let j = choose|j: int| 0 <= j < vs.drop_last().len() && vs.drop_last()[j] == w;
            assert(vs[j] == w);
        }
        assert(vs[vs.len() - 1] == vs.last());
        assert forall|i: int| 0 <= i < vs.len() - 1 implies vs.drop_last()[i] == vs[i] by {}
    }
}

/// Finds the highest version that starts with `spec` (e.g. "13" matches "13.0.3").
pub fn resolve_version(versions: &Vec<String>, spec: &str, id: &str) -> (res: Result<String, FetchError>)
    ensures
        match res {
            Ok(v) => last_matching(versions.deep_view(), spec@) == Some(v@),
            Err(e) => last_matching(versions.deep_view(), spec@) is None && match e {
                FetchError::NoMatchingVersion(s, i) => s@ == spec@ && i@ == id@,
                _ => false,
            },
        },
{
    let ghost vs = versions.deep_view();
    assert(vs.take(vs.len() as int) =~= vs);
    let mut i = versions.len();
    while i > 0
        invariant
            i <= vs.len(),
            vs == versions.deep_view(),
            last_matching(vs, spec@) == last_matching(vs.take(i as int), spec@),
        decreases i,
    {
        assert(vs.take(i as int).last() == versions@[i - 1]@);
        assert(vs.take(i as int).drop_last() =~= vs.take(i - 1));
        if version_matches(versions[i - 1].as_str(), spec) {
            return Ok(versions[i - 1].clone());
        }
        i = i - 1;
    }
    Err(FetchError::NoMatchingVersion(spec.to_owned(), id.to_owned()))
}

/// The registration leaf of a package version.
pub fn registration_url(id: &str, version: &str) -> (url: String)
    ensures
        url@ == "https://api.nuget.org/v3/registration5-semver1/"@ + id@ + "/"@ + version@
            + ".json"@,
{
    let mut s = concat3("https://api.nuget.org/v3/registration5-semver1/", id, "/");
    s.append(version);
    s.append(".json");
    s
}

/// The address of a version's catalog entry, which the registration leaf
/// names; an error where it names none.
pub fn catalog_entry_url(leaf: &JsonValue, id: &str, version: &str) -> (res: Result<String, FetchError>)
    ensures
        match res {
            Ok(u) => json_str(json_field(Some(*leaf), "catalogEntry"@)) == Some(u@),
            Err(e) => json_str(json_field(Some(*leaf), "catalogEntry"@)) is None && match e {
                FetchError::MissingCatalogEntry(i, v) => i@ == id@ && v@ == version@,
                _ => false,
            },
        },
{
    match as_str(field(Some(leaf), "catalogEntry")) {
        Some(u) => Ok(u.clone()),
        None => Err(FetchError::MissingCatalogEntry(id.to_owned(), version.to_owned())),
    }
}

/// The first author of a comma-separated author list, trimmed.
pub open spec fn first_listed(authors: Seq<char>) -> Seq<char> {
    trim(
        match split_once_str(authors, ","@) {
            Some((a, _)) => a,
            None => authors,
        },
    )
}

/// `(canonical id, description, license, author)` of a catalog entry: the
/// entry's `id` (else the id asked for), its description (else empty), its
/// license expression (else its license URL, else empty), and the first of
/// its authors (else empty).
pub open spec fn nuget_metadata_of(entry: JsonValue, id: Seq<char>) -> (Seq<char>, Seq<char>, Seq<char>, Seq<char>) {
    let e = Some(entry);
    (
        match json_str(json_field(e, "id"@)) {
            Some(i) => i,
            None => id,
        },
        match json_str(json_field(e, "description"@)) {
            Some(d) => d,
            None => seq![],
        },
        match json_str(json_field(e, "licenseExpression"@)) {
            Some(l) => l,
            None => match json_str(json_field(e, "licenseUrl"@)) {
                Some(l) => l,
                None => seq![],
            },
        },
        first_listed(
            match json_str(json_field(e, "authors"@)) {
                Some(a) => a,
                None => seq![],
            },
        ),
    )
}

/// Returns (canonical_id, description, license, author) from a catalog entry.
pub fn nuget_metadata(entry: &JsonValue, id: &str) -> (res: (String, String, String, String))
    ensures
        (res.0@, res.1@, res.2@, res.3@) == nuget_metadata_of(*entry, id@),
{
    proof {
        reveal_strlit("");
        assert(""@ =~= Seq::<char>::empty());
    }
    let e = Some(entry);
    let canonical_id = str_or(field(e, "id"), id);
    let description = str_or(field(e, "description"), "");
    let license = match as_str(field(e, "licenseExpression")) {
        Some(l) => l.clone(),
        None => str_or(field(e, "licenseUrl"), ""),
    };
    let authors = str_or(field(e, "authors"), "");
    let first = before_first(authors.as_str(), ",");
    let author = trimmed(first.as_str());
    (canonical_id, description, license, author)
}

/// Whether the answer to a README request says the package has none: a
/// `404 Not Found` status. Any other failure status is an error.
pub fn readme_absent(status: u16) -> (absent: bool)
    ensures
        absent == (status == 404),
{
    status == 404
}

/// The address of a package version's README.
pub fn readme_url(id: &str, version: &str) -> (url: String)
    ensures
        url@ == "https://api.nuget.org/v3-flatcontainer/"@ + id@ + "/"@ + version@ + "/readme"@,
{
    let mut s = concat3("https://api.nuget.org/v3-flatcontainer/", id, "/");
    s.append(version);
    s.append("/readme");
    s
}

/// The skill of a NuGet package: named by its canonical id; its page is the
/// README, or the description where the package has none; no references
/// and no items.
pub fn nuget_skill_info(version: String, metadata: (String, String, String, String), readme: Option<String>) -> (info: SkillInfo)
    ensures
        info.name == metadata.0,
        info.version == version,
        info.description == metadata.1,
        info.license == metadata.2,
        info.author == metadata.3,
        info.page.slug@ == "index"@,
        info.page.title@.len() == 0,
        info.page.markdown@ == match readme {
            Some(r) => r@,
            None => metadata.1@,
        },
        info.references@.len() == 0,
        info.items@.len() == 0,
{
    let (canonical_name, description, license, author) = metadata;
    let markdown = match readme {
        Some(r) => r,
        None => description.clone(),
    };
    SkillInfo {
        name: canonical_name,
        version,
        description,
        license,
        author,
        page: SkillPage { slug: "index".to_owned(), title: String::new(), markdown },
        references: Vec::new(),
        items: Vec::new(),
    }
}

} // verus!
