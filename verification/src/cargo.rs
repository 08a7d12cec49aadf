//! Dependencies declared in a `Cargo.toml` manifest.
use vstd::prelude::*;

use crate::crate_target::CrateTarget;
use crate::order::{first_wins_sorted, sort_first_wins};
use crate::text::{
    chars_of, count_leading, in_class, is_digit, is_ws, leading, lemma_leading_bounds,
    string_of_range, trim_start, CharClass,
};

verus! {

/// A TOML value, as far as manifests are read here: strings, tables (their
/// entries in the order the document's table yields them) and everything
/// else.
pub enum TomlValue {
    String(String),
    Table(Vec<(String, TomlValue)>),
    Other,
}

/// `toml::Value`, declared so that the conversion below can name it.
#[verifier::external_type_specification]
#[verifier::external_body]
pub struct ExTomlValue(toml::Value);

/// What `toml::from_str::<toml::Value>` makes of a text, converted variant by
/// variant into a `TomlValue` (strings and tables as they are, every other
/// variant `Other`); the parser's message where the text is no TOML.
pub uninterp spec fn toml_document(text: Seq<char>) -> Result<TomlValue, Seq<char>>;

/// Converts a parsed `toml::Value`: one arm per variant, tables entry by
/// entry in the order `toml::Table` iterates them.
#[verifier::external_body]
fn toml_tree(v: &toml::Value) -> TomlValue {
    match v {
        toml::Value::String(s) => TomlValue::String(s.clone()),
        toml::Value::Table(t) => TomlValue::Table(t.iter().map(|(k, v)| (k.clone(), toml_tree(v))).collect()),
        _ => TomlValue::Other,
    }
}

/// Calls `toml::from_str::<toml::Value>` and converts the document; its error
/// becomes its message.
#[verifier::external_body]
fn parse_toml(text: &str) -> (res: Result<TomlValue, String>)
    ensures
        match res {
            Ok(v) => toml_document(text@) == Ok::<TomlValue, Seq<char>>(v),
            Err(e) => toml_document(text@) == Err::<TomlValue, Seq<char>>(e@),
        },
{
    match toml::from_str::<toml::Value>(text) {
        Ok(v) => Ok(toml_tree(&v)),
        Err(e) => Err(e.to_string()),
    }
}

/// The value under `key` in a table's entries (the first, should a key recur).
pub open spec fn toml_lookup(entries: Seq<(String, TomlValue)>, key: Seq<char>) -> Option<TomlValue>
    decreases entries.len(),
{
    if entries.len() == 0 {
        None
    } else if entries[0].0@ == key {
        Some(entries[0].1)
    } else {
        toml_lookup(entries.drop_first(), key)
    }
}

/// `Value::get(key)`: the value under `key` when `v` is a table.
pub open spec fn toml_get(v: TomlValue, key: Seq<char>) -> Option<TomlValue> {
    match v {
        TomlValue::Table(entries) => toml_lookup(entries@, key),
        _ => None,
    }
}

/// `Value::as_str`, as characters.
pub open spec fn toml_str(v: Option<TomlValue>) -> Option<Seq<char>> {
    match v {
        Some(TomlValue::String(s)) => Some(s@),
        _ => None,
    }
}

/// The first version number of a requirement: operator characters (anything
/// but an ASCII digit) stripped from the front, then everything up to the
/// first whitespace or `,`; `None` when no digit remains.
pub open spec fn version_req(req: Seq<char>) -> Option<Seq<char>> {
    let stripped = trim_start(req, CharClass::NotDigit);
    if stripped.len() == 0 {
        None
    } else {
        Some(stripped.take(leading(stripped, CharClass::NotListSep) as int))
    }
}

/// The version kept for a requirement is one version: it starts with a
/// digit and holds no whitespace and no `,`, so `>=1.2, <2` keeps `1.2`.
pub proof fn law_cargo_version_is_single(req: Seq<char>)
    ensures
        version_req(req) matches Some(v) ==> {
            &&& v.len() > 0
            &&& is_digit(v[0])
            &&& forall|i: int| 0 <= i < v.len() ==> !is_ws(#[trigger] v[i]) && v[i] != ','
        },
{
    let stripped = trim_start(req, CharClass::NotDigit);
    lemma_leading_bounds(req, CharClass::NotDigit);
    lemma_leading_bounds(stripped, CharClass::NotListSep);
    if stripped.len() > 0 {
        let v = stripped.take(leading(stripped, CharClass::NotListSep) as int);
        assert(stripped[0] == req[leading(req, CharClass::NotDigit) as int]);
        assert(is_digit(stripped[0]));
        assert(in_class(CharClass::NotListSep, stripped[0]));
        assert forall|i: int| 0 <= i < v.len() implies !is_ws(#[trigger] v[i]) && v[i] != ',' by {
            assert(v[i] == stripped[i]);
            assert(in_class(CharClass::NotListSep, stripped[i]));
        }
    }
}

/// The `(name, version)` a dependency declaration contributes: the name is
/// the `package` key where it is a string, else the alias; the version is
/// that of a string requirement or of a table's `version` string.
pub open spec fn dep_entry(alias: Seq<char>, value: TomlValue) -> (Seq<char>, Option<Seq<char>>) {
    let name = match toml_str(toml_get(value, "package"@)) {
        Some(p) => p,
        None => alias,
    };
    let version = match value {
        TomlValue::String(s) => version_req(s@),
        TomlValue::Table(_) => match toml_str(toml_get(value, "version"@)) {
            Some(v) => version_req(v),
            None => None,
        },
        TomlValue::Other => None,
    };
    (name, version)
}

/// The entries of a table of dependency declarations.
pub open spec fn dep_entries(entries: Seq<(String, TomlValue)>) -> Seq<(Seq<char>, Option<Seq<char>>)> {
    entries.map_values(|e: (String, TomlValue)| dep_entry(e.0@, e.1))
}

/// The declarations of one manifest section, none unless it is a table.
pub open spec fn section_entries(manifest: TomlValue, section: Seq<char>) -> Seq<(Seq<char>, Option<Seq<char>>)> {
    match toml_get(manifest, section) {
        Some(TomlValue::Table(entries)) => dep_entries(entries@),
        _ => seq![],
    }
}

/// All declarations: `[dependencies]`, then `[dev-dependencies]`.
pub open spec fn manifest_entries(manifest: TomlValue) -> Seq<(Seq<char>, Option<Seq<char>>)> {
    section_entries(manifest, "dependencies"@) + section_entries(manifest, "dev-dependencies"@)
}

/// The views of a list of targets.
pub open spec fn targets_view(ts: Seq<CrateTarget>) -> Seq<(Seq<char>, Option<Seq<char>>)> {
    ts.map_values(|t: CrateTarget| t.spec_view())
}

/// Strips leading operator chars (^, ~, =, >, <, spaces) and returns the first
/// version number. E.g. `"^0.9.8"` → `Some("0.9.8")`, `"*"` → `None`.
pub fn parse_version_req(req: &str) -> (res: Option<String>)
    ensures
        res.deep_view() == version_req(req@),
{
    let v = chars_of(req);
    assert(v@.subrange(0, v@.len() as int) =~= v@);
    let a = count_leading(&v, 0, v.len(), CharClass::NotDigit);
    if a == v.len() {
        return None;
    }
    let n = count_leading(&v, a, v.len(), CharClass::NotListSep);
    let ghost stripped = trim_start(req@, CharClass::NotDigit);
    assert(stripped =~= v@.subrange(a as int, v@.len() as int));
    let r = string_of_range(&v, a, a + n);
    assert(r@ =~= stripped.take(n as int));
    Some(r)
}

/// The value stored under `key` in a table's entries.
fn lookup<'a>(entries: &'a Vec<(String, TomlValue)>, key: &str) -> (res: Option<&'a TomlValue>)
    ensures
        res matches Some(r) ==> toml_lookup(entries@, key@) == Some(*r),
        res is None ==> toml_lookup(entries@, key@) is None,
{
    let mut i: usize = 0;
    assert(entries@.skip(0) =~= entries@);
    while i < entries.len()
        invariant
            i <= entries@.len(),
            toml_lookup(entries@, key@) == toml_lookup(entries@.skip(i as int), key@),
        decreases entries.len() - i,
    {
        assert(entries@.skip(i as int).drop_first() =~= entries@.skip(i + 1));
        if crate::text::str_eq(entries[i].0.as_str(), key) {
            return Some(&entries[i].1);
        }
        i = i + 1;
    }
    None
}

/// `Value::get(key)`.
fn get<'a>(v: &'a TomlValue, key: &str) -> (res: Option<&'a TomlValue>)
    ensures
        res matches Some(r) ==> toml_get(*v, key@) == Some(*r),
        res is None ==> toml_get(*v, key@) is None,
{
    match v {
        TomlValue::Table(entries) => lookup(entries, key),
        _ => None,
    }
}

/// `Value::get(key).and_then(Value::as_str)`.
fn get_str<'a>(v: &'a TomlValue, key: &str) -> (res: Option<&'a String>)
    ensures
        res.deep_view() == toml_str(toml_get(*v, key@)),
{
    match get(v, key) {
        Some(TomlValue::String(s)) => Some(s),
        _ => None,
    }
}

fn dependency(alias: &String, value: &TomlValue) -> (r: (String, Option<String>))
    ensures
        r.deep_view() == dep_entry(alias@, *value),
{
    let name = match get_str(value, "package") {
        Some(p) => p.clone(),
        None => alias.clone(),
    };
    let version = match value {
        TomlValue::String(s) => parse_version_req(s.as_str()),
        TomlValue::Table(_) => match get_str(value, "version") {
            Some(v) => parse_version_req(v.as_str()),
            None => None,
        },
        TomlValue::Other => None,
    };
    (name, version)
}

fn push_section(out: &mut Vec<(String, Option<String>)>, manifest: &TomlValue, section: &str)
    ensures
        final(out).deep_view() == old(out).deep_view() + section_entries(*manifest, section@),
{
    match get(manifest, section) {
        Some(TomlValue::Table(entries)) => {
            let ghost base = out.deep_view();
            let mut i: usize = 0;
            while i < entries.len()
                invariant
                    i <= entries@.len(),
                    toml_get(*manifest, section@) == Some(TomlValue::Table(*entries)),
                    out.deep_view() == base + dep_entries(entries@.take(i as int)),
                decreases entries.len() - i,
            {
                let d = dependency(&entries[i].0, &entries[i].1);
                let ghost dv = d.deep_view();
                let ghost prev = out@;
                let ghost prevd = out.deep_view();
                out.push(d);
                assert(out.deep_view() =~= prevd.push(dv));
                assert(dv == dep_entry(entries@[i as int].0@, entries@[i as int].1));
                assert(dep_entries(entries@.take(i + 1)) =~= dep_entries(entries@.take(i as int)).push(
                    dep_entry(entries@[i as int].0@, entries@[i as int].1),
                ));
                assert(base + dep_entries(entries@.take(i + 1)) =~= (base + dep_entries(
                    entries@.take(i as int),
                )).push(dv));
                i = i + 1;
            }
            assert(entries@.take(entries@.len() as int) =~= entries@);
        },
        _ => {
            assert(out.deep_view() =~= old(out).deep_view() + section_entries(*manifest, section@));
        },
    }
}

/// The crates a manifest depends on, from both `[dependencies]` and
/// `[dev-dependencies]`, sorted by name, one per name (the first declaration
/// of a name wins). Renamed deps count under their `package` name.
pub fn cargo_deps_from_manifest(manifest: &TomlValue) -> (deps: Vec<CrateTarget>)
    ensures
        first_wins_sorted(manifest_entries(*manifest), targets_view(deps@)),
{
    let mut entries: Vec<(String, Option<String>)> = Vec::new();
    push_section(&mut entries, manifest, "dependencies");
    push_section(&mut entries, manifest, "dev-dependencies");
    assert(entries.deep_view() =~= manifest_entries(*manifest));
    let sorted = sort_first_wins(&entries);
    let mut deps: Vec<CrateTarget> = Vec::new();
    let mut i: usize = 0;
    while i < sorted.len()
        invariant
            i <= sorted@.len(),
            targets_view(deps@) =~= sorted.deep_view().take(i as int),
        decreases sorted.len() - i,
    {
        let (name, version) = (sorted[i].0.clone(), crate::order::clone_opt(&sorted[i].1));
        let ghost prev = deps@;
        let t = CrateTarget { name, version };
        let ghost tv = t.spec_view();
        deps.push(t);
        assert(targets_view(deps@) =~= targets_view(prev).push(tv));
        assert(sorted.deep_view()[i as int] == sorted@[i as int].deep_view());
        assert(targets_view(deps@) =~= sorted.deep_view().take(i + 1));
        i = i + 1;
    }
    assert(sorted.deep_view().take(sorted@.len() as int) =~= sorted.deep_view());
    deps
}

/// The crates a `Cargo.toml` text depends on (see
/// `cargo_deps_from_manifest`); the TOML parser's message where the text is
/// no TOML.
pub fn cargo_deps_from_text(text: &str) -> (res: Result<Vec<CrateTarget>, String>)
    ensures
        match res {
            Ok(deps) => toml_document(text@) matches Ok(m) && first_wins_sorted(
                manifest_entries(m),
                targets_view(deps@),
            ),
            Err(e) => toml_document(text@) == Err::<TomlValue, Seq<char>>(e@),
        },
{
    match parse_toml(text) {
        Ok(m) => Ok(cargo_deps_from_manifest(&m)),
        Err(e) => Err(e),
    }
}

} // verus!
