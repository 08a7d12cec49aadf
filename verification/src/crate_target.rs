//! A crate named on the command line, optionally pinned to a version.
use vstd::prelude::*;

use crate::text::{
    concat3, find_char, lemma_find_bounds, lemma_find_from_unique, occurs_at, split_once,
    split_once_char,
};

verus! {

/// A crate name and an optional version, as in `clap` or `clap@4.5`.
pub struct CrateTarget {
    pub name: String,
    pub version: Option<String>,
}

/// A spec `name@version` split at its first `@`: the name and the version,
/// if there is an `@`.
pub open spec fn parse_spec(s: Seq<char>) -> (Seq<char>, Option<Seq<char>>) {
    match split_once(s, '@') {
        Some((name, version)) => (name, Some(version)),
        None => (s, None),
    }
}

/// `name@version`, or `name` when there is no version.
pub open spec fn format_spec(name: Seq<char>, version: Option<Seq<char>>) -> Seq<char> {
    match version {
        Some(v) => name + "@"@ + v,
        None => name,
    }
}

impl CrateTarget {
    /// The target's name and version, as character sequences.
    pub open spec fn spec_view(&self) -> (Seq<char>, Option<Seq<char>>) {
        (self.name@, self.version.deep_view())
    }

    pub fn parse(spec: &str) -> (t: CrateTarget)
        ensures
            t.spec_view() == parse_spec(spec@),
    {
        match split_once_char(spec, '@') {
            Some((name, version)) => CrateTarget { name, version: Some(version) },
            None => CrateTarget { name: spec.to_owned(), version: None },
        }
    }

    /// The target written back as `name@version` (or `name`).
    pub fn to_spec_string(&self) -> (s: String)
        ensures
            s@ == format_spec(self.name@, self.version.deep_view()),
    {
        match &self.version {
            Some(v) => concat3(self.name.as_str(), "@", v.as_str()),
            None => self.name.clone(),
        }
    }
}

/// Writing back a parsed spec gives the spec again, for every spec.
pub proof fn law_format_parse(s: Seq<char>)
    ensures
        format_spec(parse_spec(s).0, parse_spec(s).1) == s,
{
    reveal_strlit("@");
    lemma_find_bounds(s, seq!['@']);
    match find_char(s, '@') {
        Some(k) => {
            assert(s.subrange(k, k + 1)[0] == s[k]);
            assert(s.take(k) + "@"@ + s.skip(k + 1) =~= s);
        },
        None => {},
    }
}

/// Parsing a written target gives the target again, for every name
/// without an `@` (a name with one would be split there).
pub proof fn law_parse_format(name: Seq<char>, version: Option<Seq<char>>)
    requires
        !name.contains('@'),
    ensures
        parse_spec(format_spec(name, version)) == (name, version),
{
    reveal_strlit("@");
    let s = format_spec(name, version);
    let at = seq!['@'];
    match version {
        Some(v) => {
            let k = name.len() as int;
            assert(s.subrange(k, k + 1) =~= at);
            assert forall|j: int| 0 <= j < k implies !occurs_at(s, at, j) by {
                if occurs_at(s, at, j) {
                    assert(s.subrange(j, j + 1)[0] == s[j]);
                    assert(name[j] == '@');
                }
            }
            lemma_find_from_unique(s, at, 0, Some(k));
            assert(s.take(k) =~= name);
            assert(s.skip(k + 1) =~= v);
        },
        None => {
            assert forall|j: int| 0 <= j implies !occurs_at(s, at, j) by {
                if occurs_at(s, at, j) {
                    assert(s.subrange(j, j + 1)[0] == s[j]);
                    assert(name[j] == '@');
                }
            }
            lemma_find_from_unique(s, at, 0, None);
        },
    }
}

} // verus!
