//! Dependencies declared in a `package.json`.
use vstd::prelude::*;

use crate::json::{as_str, field, json_document, json_field, json_object, json_str, opt, parse_json, JsonValue};
use crate::order::{clone_opt, first_wins_sorted, sort_first_wins};
use crate::text::{
    in_class, is_digit, is_ws, lemma_leading_bounds, lemma_trailing_le,
    chars_of, count_leading, count_trailing, leading, starts_with, string_of_range, trim,
    trim_bounds, trim_end, trim_start, CharClass,
};
use crate::typescript::target::NpmTarget;

verus! {

/// The concrete version a range names: operators stripped from the front of
/// the trimmed spec, the text cut at the first whitespace or `,`, trailing
/// dots dropped; `None` where nothing is left.
pub open spec fn npm_version_spec(spec: Seq<char>) -> Option<Seq<char>> {
    let stripped = trim_start(trim(spec), CharClass::NotDigit);
    let v = trim_end(stripped.take(leading(stripped, CharClass::NotListSep) as int), CharClass::Dot);
    if stripped.len() == 0 || v.len() == 0 {
        None
    } else {
        Some(v)
    }
}

/// The version kept for a `package.json` range is one version: it starts
/// with a digit and holds no whitespace and no `,`, so `^17.0.2 || ^18.0.0`
/// keeps only `17.0.2`-like text and never the rest of the range.
pub proof fn law_npm_version_is_single(spec: Seq<char>)
    ensures
        npm_version_spec(spec) matches Some(v) ==> {
            &&& v.len() > 0
            &&& is_digit(v[0])
            &&& forall|i: int| 0 <= i < v.len() ==> !is_ws(#[trigger] v[i]) && v[i] != ','
        },
{
    let t = trim(spec);
    let stripped = trim_start(t, CharClass::NotDigit);
    lemma_leading_bounds(t, CharClass::NotDigit);
    lemma_leading_bounds(stripped, CharClass::NotListSep);
    let n = leading(stripped, CharClass::NotListSep);
    let head = stripped.take(n as int);
    let v = trim_end(head, CharClass::Dot);
    lemma_trailing_le(head, CharClass::Dot);
    if stripped.len() > 0 && v.len() > 0 {
        assert(stripped[0] == t[leading(t, CharClass::NotDigit) as int]);
        assert(v[0] == stripped[0]);
        assert forall|i: int| 0 <= i < v.len() implies !is_ws(#[trigger] v[i]) && v[i] != ',' by {
            assert(v[i] == stripped[i]);
            assert(in_class(CharClass::NotListSep, stripped[i]));
        }
    }
}

/// Strips leading semver operators and returns the first concrete version.
/// `^19.0.0` → `19.0.0`, `~1.2.3` → `1.2.3`, `workspace:*` / `*` → `None`.
pub fn parse_version_spec(spec: &str) -> (res: Option<String>)
    ensures
        res.deep_view() == npm_version_spec(spec@),
{
    let v = chars_of(spec);
    assert(v@.subrange(0, v@.len() as int) =~= v@);
    let (t0, t1) = trim_bounds(&v, 0, v.len());
    let a = t0 + count_leading(&v, t0, t1, CharClass::NotDigit);
    let ghost stripped = trim_start(trim(spec@), CharClass::NotDigit);
    assert(stripped =~= v@.subrange(a as int, t1 as int));
    if a == t1 {
        return None;
    }
    let n = count_leading(&v, a, t1, CharClass::NotListSep);
    assert(stripped.take(n as int) =~= v@.subrange(a as int, a + n));
    let d = count_trailing(&v, a, a + n, CharClass::Dot);
    if d == n {
        return None;
    }
    let r = string_of_range(&v, a, a + n - d);
    assert(r@ =~= trim_end(stripped.take(n as int), CharClass::Dot));
    Some(r)
}

/// A dependency member that is kept: not a `@types/*` package.
pub open spec fn keeps_member(m: (String, JsonValue)) -> bool {
    !starts_with(m.0@, "@types/"@)
}

/// The `(name, version)` of a dependency member.
pub open spec fn member_entry(m: (String, JsonValue)) -> (Seq<char>, Option<Seq<char>>) {
    (
        m.0@,
        match json_str(Some(m.1)) {
            Some(s) => npm_version_spec(s),
            None => None,
        },
    )
}

/// The packages of one `package.json` section, `@types/*` left out, with
/// their concrete versions.
pub open spec fn npm_section(manifest: JsonValue, section: Seq<char>) -> Seq<(Seq<char>, Option<Seq<char>>)> {
    match json_object(json_field(Some(manifest), section)) {
        Some(members) => members.filter(|m: (String, JsonValue)| keeps_member(m)).map_values(
            |m: (String, JsonValue)| member_entry(m),
        ),
        None => seq![],
    }
}

/// All packages: `dependencies`, then `devDependencies`.
pub open spec fn npm_entries(manifest: JsonValue) -> Seq<(Seq<char>, Option<Seq<char>>)> {
    npm_section(manifest, "dependencies"@) + npm_section(manifest, "devDependencies"@)
}

/// The views of a list of npm targets.
pub open spec fn npm_targets_view(ts: Seq<NpmTarget>) -> Seq<(Seq<char>, Option<Seq<char>>)> {
    ts.map_values(|t: NpmTarget| t.spec_view())
}

fn push_npm_section(out: &mut Vec<(String, Option<String>)>, manifest: &JsonValue, section: &str)
    ensures
        final(out).deep_view() == old(out).deep_view() + npm_section(*manifest, section@),
{
    let obj = field(Some(manifest), section);
    let types_prefix = chars_of("@types/");
    match obj {
        Some(JsonValue::Object(members)) => {
            let ghost base = out.deep_view();
            let mut i: usize = 0;
            while i < members.len()
                invariant
                    i <= members@.len(),
                    types_prefix@ == "@types/"@,
                    json_object(json_field(Some(*manifest), section@)) == Some(members@),
                    out.deep_view() == base + members@.take(i as int).filter(|m: (String, JsonValue)| keeps_member(m)).map_values(
                        |m: (String, JsonValue)| member_entry(m),
                    ),
                decreases members.len() - i,
            {
                let name = &members[i].0;
                let ghost m = members@[i as int];
                let nv = chars_of(name.as_str());
                let skip = crate::text::starts_with_at(&nv, 0, &types_prefix);
                assert(nv@.skip(0) =~= nv@);
                assert(keeps_member(m) == !skip);
                let ghost prevd = out.deep_view();
                if !skip {
                    let version = match as_str(Some(&members[i].1)) {
                        Some(s) => parse_version_spec(s.as_str()),
                        None => None,
                    };
                    assert(opt(Some(&members@[i as int].1)) == Some(m.1));
                    let entry = (name.clone(), version);
                    assert(entry.deep_view() == member_entry(m));
                    out.push(entry);
                    assert(out.deep_view() =~= prevd.push(member_entry(m)));
                }
                proof {
                    reveal(Seq::filter);
                    assert(members@.take(i + 1).drop_last() =~= members@.take(i as int));
                    assert(members@.take(i + 1).last() == members@[i as int]);
                    if !skip {
                        assert(members@.take(i + 1).filter(|m: (String, JsonValue)| keeps_member(m)) =~= members@.take(
                            i as int,
                        ).filter(|m: (String, JsonValue)| keeps_member(m)).push(members@[i as int]));
                        assert(base + members@.take(i + 1).filter(|m: (String, JsonValue)| keeps_member(m)).map_values(|m: (String, JsonValue)| member_entry(m))
                            =~= prevd.push(member_entry(members@[i as int])));
                    } else {
                        assert(members@.take(i + 1).filter(|m: (String, JsonValue)| keeps_member(m)) =~= members@.take(
                            i as int,
                        ).filter(|m: (String, JsonValue)| keeps_member(m)));
                    }
                }
                i = i + 1;
            }
            assert(members@.take(members@.len() as int) =~= members@);
        },
        _ => {
            assert(out.deep_view() =~= old(out).deep_view() + npm_section(*manifest, section@));
        },
    }
}

/// The npm packages a `package.json` depends on, from both `dependencies`
/// and `devDependencies`, `@types/*` left out, sorted by name, one per name
/// (the first declaration wins).
pub fn npm_deps_from_manifest(manifest: &JsonValue) -> (deps: Vec<NpmTarget>)
    ensures
        first_wins_sorted(npm_entries(*manifest), npm_targets_view(deps@)),
{
    let mut entries: Vec<(String, Option<String>)> = Vec::new();
    push_npm_section(&mut entries, manifest, "dependencies");
    push_npm_section(&mut entries, manifest, "devDependencies");
    assert(entries.deep_view() =~= npm_entries(*manifest));
    let sorted = sort_first_wins(&entries);
    let mut deps: Vec<NpmTarget> = Vec::new();
    let mut i: usize = 0;
    while i < sorted.len()
        invariant
            i <= sorted@.len(),
            npm_targets_view(deps@) =~= sorted.deep_view().take(i as int),
        decreases sorted.len() - i,
    {
        let ghost prev = deps@;
        let t = NpmTarget { name: sorted[i].0.clone(), version: clone_opt(&sorted[i].1) };
        let ghost tv = t.spec_view();
        deps.push(t);
        assert(npm_targets_view(deps@) =~= npm_targets_view(prev).push(tv));
        assert(sorted.deep_view()[i as int] == sorted@[i as int].deep_view());
        assert(npm_targets_view(deps@) =~= sorted.deep_view().take(i + 1));
        i = i + 1;
    }
    assert(sorted.deep_view().take(sorted@.len() as int) =~= sorted.deep_view());
    deps
}

/// The packages a `package.json` text depends on (see
/// `npm_deps_from_manifest`); the JSON parser's message where the text is
/// no JSON.
pub fn npm_deps_from_text(text: &str) -> (res: Result<Vec<NpmTarget>, String>)
    ensures
        match res {
            Ok(deps) => json_document(text@) matches Ok(m) && first_wins_sorted(
                npm_entries(m),
                npm_targets_view(deps@),
            ),
            Err(e) => json_document(text@) == Err::<JsonValue, Seq<char>>(e@),
        },
{
    match parse_json(text) {
        Ok(m) => Ok(npm_deps_from_manifest(&m)),
        Err(e) => Err(e),
    }
}

} // verus!
