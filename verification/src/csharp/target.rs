//! A NuGet package named on the command line.
use vstd::prelude::*;

use crate::crate_target::{format_spec, parse_spec, CrateTarget};
use crate::text::concat3;

verus! {

/// A NuGet package ID and an optional version.
pub struct PackageTarget {
    pub name: String,
    pub version: Option<String>,
}

/// `str::to_lowercase`: the Unicode lower-case mapping of each character
/// (which may map one character to several).
pub uninterp spec fn lowercase(s: Seq<char>) -> Seq<char>;

/// Calls `str::to_lowercase`; the contract names its result.
#[verifier::external_body]
fn to_lowercase(s: &str) -> (res: String)
    ensures
        res@ == lowercase(s@),
{
    s.to_lowercase()
}

impl PackageTarget {
    /// The target's name and version, as character sequences.
    pub open spec fn spec_view(&self) -> (Seq<char>, Option<Seq<char>>) {
        (self.name@, self.version.deep_view())
    }

    pub fn parse(spec: &str) -> (t: Self)
        ensures
            t.spec_view() == parse_spec(spec@),
    {
        let t = CrateTarget::parse(spec);
        Self { name: t.name, version: t.version }
    }

    /// NuGet API requires lowercase IDs for flat-container endpoints.
    pub fn id_lower(&self) -> (id: String)
        ensures
            id@ == lowercase(self.name@),
    {
        to_lowercase(self.name.as_str())
    }

    /// The target written back as `name@version` (or `name`).
    pub fn to_spec_string(&self) -> (s: String)
        ensures
            s@ == format_spec(self.name@, self.version.deep_view()),
    {
        match &self.version {
            Some(v) => concat3(self.name.as_str(), "@", v.as_str()),
            None => self.name.clone(),
        }
    }
}

} // verus!
