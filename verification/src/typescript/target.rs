//! An npm package named on the command line.
use vstd::prelude::*;

use crate::crate_target::{format_spec, law_format_parse, law_parse_format, parse_spec};
use crate::text::{
    chars_of, concat3, find_char, find_char_after, lemma_find_bounds, lemma_find_from_unique, occurs_at,
    string_of_range,
};

verus! {

/// An npm package name, scoped or not, and an optional version.
pub struct NpmTarget {
    pub name: String,
    pub version: Option<String>,
}

/// A spec split into name and version: for a scoped `@scope/name[@version]`
/// the version `@` is the first one after the leading `@`; otherwise the
/// spec is split at its first `@`.
pub open spec fn parse_npm_spec(s: Seq<char>) -> (Seq<char>, Option<Seq<char>>) {
    if s.len() > 0 && s[0] == '@' {
        match find_char(s.skip(1), '@') {
            Some(a) => (s.take(1 + a), Some(s.skip(1 + a + 1))),
            None => (s, None),
        }
    } else {
        parse_spec(s)
    }
}

impl NpmTarget {
    /// The target's name and version, as character sequences.
    pub open spec fn spec_view(&self) -> (Seq<char>, Option<Seq<char>>) {
        (self.name@, self.version.deep_view())
    }

    pub fn parse(spec: &str) -> (t: Self)
        ensures
            t.spec_view() == parse_npm_spec(spec@),
    {
        let v = chars_of(spec);
        if v.len() > 0 && v[0] == '@' {
            match find_char_after(&v, '@', 1) {
                Some(a) => {
                    let name_end = 1 + a;
                    let name = string_of_range(&v, 0, name_end);
                    let version = string_of_range(&v, name_end + 1, v.len());
                    assert(v@.take(name_end as int) =~= name@);
                    assert(v@.skip(name_end + 1) =~= version@);
                    return Self { name, version: Some(version) };
                },
                None => {
                    return Self { name: spec.to_owned(), version: None };
                },
            }
        }
        let t = crate::crate_target::CrateTarget::parse(spec);
        Self { name: t.name, version: t.version }
    }

    /// The target written back as `name@version` (or `name`).
    pub fn to_spec_string(&self) -> (s: String)
        ensures
            s@ == format_spec(self.name@, self.version.deep_view()),
    {
        match &self.version {
            Some(v) => concat3(self.name.as_str(), "@", v.as_str()),
            None => self.name.clone(),
        }
    }
}

/// Writing back a parsed npm spec gives the spec again, for every spec.
pub proof fn law_npm_format_parse(s: Seq<char>)
    ensures
        format_spec(parse_npm_spec(s).0, parse_npm_spec(s).1) == s,
{
    reveal_strlit("@");
    if s.len() > 0 && s[0] == '@' {
        let r = s.skip(1);
        lemma_find_bounds(r, seq!['@']);
        match find_char(r, '@') {
            Some(a) => {
                assert(r.subrange(a, a + 1)[0] == r[a]);
                assert(s.take(1 + a) + "@"@ + s.skip(1 + a + 1) =~= s);
            },
            None => {},
        }
    } else {
        law_format_parse(s);
    }
}

/// Parsing a written npm target gives the target again, for every name
/// with no `@` but a leading one (the scope marker); an empty name is
/// written back only without a version (`@1.0` reads as a scope).
pub proof fn law_npm_parse_format(name: Seq<char>, version: Option<Seq<char>>)
    requires
        forall|i: int| 1 <= i < name.len() ==> name[i] != '@',
        name.len() == 0 ==> version is None,
    ensures
        parse_npm_spec(format_spec(name, version)) == (name, version),
{
    reveal_strlit("@");
    let s = format_spec(name, version);
    let at = seq!['@'];
    if name.len() > 0 && name[0] == '@' {
        let r = s.skip(1);
        match version {
            Some(v) => {
                let k = name.len() - 1;
                assert(r.subrange(k, k + 1) =~= at);
                assert forall|j: int| 0 <= j < k implies !occurs_at(r, at, j) by {
                    if occurs_at(r, at, j) {
                        assert(r.subrange(j, j + 1)[0] == r[j]);
                        assert(name[j + 1] == '@');
                    }
                }
                lemma_find_from_unique(r, at, 0, Some(k));
                assert(s.take(1 + k) =~= name);
                assert(s.skip(1 + k + 1) =~= v);
            },
            None => {
                assert forall|j: int| 0 <= j implies !occurs_at(r, at, j) by {
                    if occurs_at(r, at, j) {
                        assert(r.subrange(j, j + 1)[0] == r[j]);
                        assert(name[j + 1] == '@');
                    }
                }
                lemma_find_from_unique(r, at, 0, None);
            },
        }
    } else {
        assert(!name.contains('@')) by {
            if name.contains('@') {
                let i = choose|i: int| 0 <= i < name.len() && name[i] == '@';
                assert(i != 0);
            }
        }
        if version is Some {
            assert(s[0] == name[0]);
        }
        law_parse_format(name, version);
    }
}

} // verus!
