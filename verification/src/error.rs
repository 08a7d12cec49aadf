//! Why fetching a skill fails.
use vstd::prelude::*;

use crate::text::{concat2, concat3};

verus! {

/// A registry answer or a documentation page the library cannot use.
pub enum FetchError {
    /// crates.io gave no `newest_version` for the crate.
    MissingNewestVersion(String),
    /// NuGet's flat-container index has no `versions` array for the package.
    MissingVersions(String),
    /// NuGet lists no version for the package.
    NoVersions(String),
    /// No NuGet version matches the spec: `(spec, id)`.
    NoMatchingVersion(String, String),
    /// NuGet's registration leaf has no `catalogEntry`: `(id, version)`.
    MissingCatalogEntry(String, String),
    /// The npm registry gave no `version` for the package.
    MissingNpmVersion(String),
    /// A `<pre>` block's opening tag runs past its `</pre>`.
    MalformedPreBlock,
    /// `htmd` could not convert a page.
    Conversion,
}

/// The message of an error.
pub open spec fn error_text(e: FetchError) -> Seq<char> {
    match e {
        FetchError::MissingNewestVersion(name) => "crates.io: missing newest_version for "@
            + name@,
        FetchError::MissingVersions(id) => "nuget: missing versions array for "@ + id@,
        FetchError::NoVersions(id) => "nuget: no versions found for "@ + id@,
        FetchError::NoMatchingVersion(spec, id) => "nuget: no version matching '"@ + spec@
            + "' for "@ + id@,
        FetchError::MissingCatalogEntry(id, version) => "nuget: missing catalogEntry for "@ + id@
            + "/"@ + version@,
        FetchError::MissingNpmVersion(name) => "npm: missing version for "@ + name@,
        FetchError::MalformedPreBlock => "docs: malformed <pre> block"@,
        FetchError::Conversion => "htmd: conversion failed"@,
    }
}

impl FetchError {
    /// The error's message.
    pub fn message(&self) -> (s: String)
        ensures
            s@ == error_text(*self),
    {
        match self {
            FetchError::MissingNewestVersion(name) => concat2("crates.io: missing newest_version for ", name.as_str()),
            FetchError::MissingVersions(id) => concat2("nuget: missing versions array for ", id.as_str()),
            FetchError::NoVersions(id) => concat2("nuget: no versions found for ", id.as_str()),
            FetchError::NoMatchingVersion(spec, id) => {
                let mut s = concat3("nuget: no version matching '", spec.as_str(), "' for ");
                s.append(id.as_str());
                s
            },
            FetchError::MissingCatalogEntry(id, version) => {
                let mut s = concat3("nuget: missing catalogEntry for ", id.as_str(), "/");
                s.append(version.as_str());
                s
            },
            FetchError::MissingNpmVersion(name) => concat2("npm: missing version for ", name.as_str()),
            FetchError::MalformedPreBlock => "docs: malformed <pre> block".to_owned(),
            FetchError::Conversion => "htmd: conversion failed".to_owned(),
        }
    }
}

} // verus!
