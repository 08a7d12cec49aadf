//! Package references declared in `.csproj` files and
//! `Directory.Packages.props`.
use vstd::prelude::*;

use crate::csharp::target::PackageTarget;
use crate::providers::{is_csproj, is_csproj_name};
use crate::order::{clone_opt, first_wins_sorted, sort_first_wins};
use crate::text::{
    in_class, is_digit, is_ws, lemma_leading_bounds, lemma_trailing_le, lemma_trailing_stop, trailing,
    chars_of, concat2, count_leading, count_trailing, ends_with, find, find_after, find_char,
    find_char_after, lemma_find_bounds, leading, slice_vec, string_of_range, trim, trim_bounds,
    trim_end, trim_start, vec_ends_with, CharClass,
};

verus! {

/// One entry of the current directory as the scan sees it: its path, its
/// file name, whether it is a directory, and the `(path, file name)` of each
/// entry inside it (read for directories only).
pub struct ListedEntry {
    pub path: String,
    pub name: String,
    pub is_dir: bool,
    pub children: Vec<(String, String)>,
}

/// The paths among `children` whose file name has the extension `csproj`.
pub open spec fn csproj_children(children: Seq<(String, String)>) -> Seq<Seq<char>>
    decreases children.len(),
{
    if children.len() == 0 {
        seq![]
    } else {
        csproj_children(children.drop_last()) + if is_csproj_name(children.last().1@) {
            seq![children.last().0@]
        } else {
            seq![]
        }
    }
}

/// The project files an entry contributes: itself where it is a `*.csproj`
/// file, else, for a directory, its `*.csproj` children.
pub open spec fn entry_projects(e: ListedEntry) -> Seq<Seq<char>> {
    if is_csproj_name(e.name@) {
        seq![e.path@]
    } else if e.is_dir {
        csproj_children(e.children@)
    } else {
        seq![]
    }
}

/// The project files of the entries, in listing order.
pub open spec fn listed_projects(entries: Seq<ListedEntry>) -> Seq<Seq<char>>
    decreases entries.len(),
{
    if entries.len() == 0 {
        seq![]
    } else {
        listed_projects(entries.drop_last()) + entry_projects(entries.last())
    }
}

/// The project files to read: `Directory.Packages.props` where the current
/// directory holds one, then every `*.csproj` in the current directory and
/// one level down, in listing order.
pub fn project_file_paths(props_exists: bool, entries: &Vec<ListedEntry>) -> (paths: Vec<String>)
    ensures
        paths.deep_view() == (if props_exists {
            seq!["Directory.Packages.props"@]
        } else {
            seq![]
        }) + listed_projects(entries@),
{
    let mut paths: Vec<String> = Vec::new();
    if props_exists {
        paths.push("Directory.Packages.props".to_owned());
    }
    let ghost head = paths.deep_view();
    assert(head =~= (if props_exists {
        seq!["Directory.Packages.props"@]
    } else {
        Seq::<Seq<char>>::empty()
    }));
    let mut i: usize = 0;
    while i < entries.len()
        invariant
            i <= entries@.len(),
            paths.deep_view() == head + listed_projects(entries@.take(i as int)),
        decreases entries.len() - i,
    {
        let e = &entries[i];
        let ghost before = paths.deep_view();
        if is_csproj(e.name.as_str()) {
            paths.push(e.path.clone());
            assert(paths.deep_view() =~= before + seq![e.path@]);
        } else if e.is_dir {
            let mut j: usize = 0;
            while j < e.children.len()
                invariant
                    j <= e.children@.len(),
                    paths.deep_view() == before + csproj_children(e.children@.take(j as int)),
                decreases e.children.len() - j,
            {
                let ghost mid = paths.deep_view();
                assert(e.children@.take(j + 1).drop_last() =~= e.children@.take(j as int));
                if is_csproj(e.children[j].1.as_str()) {
                    paths.push(e.children[j].0.clone());
                    assert(paths.deep_view() =~= mid.push(e.children@[j as int].0@));
                    assert(csproj_children(e.children@.take(j + 1)) =~= csproj_children(
                        e.children@.take(j as int),
                    ) + seq![e.children@[j as int].0@]);
                } else {
                    assert(csproj_children(e.children@.take(j + 1)) =~= csproj_children(
                        e.children@.take(j as int),
                    ) + Seq::<Seq<char>>::empty());
                }
                j = j + 1;
            }
            assert(e.children@.take(e.children@.len() as int) =~= e.children@);
        } else {
            assert(before + Seq::<Seq<char>>::empty() =~= before);
        }
        assert(entries@.take(i + 1).drop_last() =~= entries@.take(i as int));
        assert(entries@.take(i + 1).last() == entries@[i as int]);
        assert(paths.deep_view() =~= head + listed_projects(entries@.take(i + 1)));
        i = i + 1;
    }
    assert(entries@.take(entries@.len() as int) =~= entries@);
    paths
}

/// The value of `name="value"` in an attribute text: what follows the first
/// `name="` up to the next `"`.
pub open spec fn attr_value(attrs: Seq<char>, name: Seq<char>) -> Option<Seq<char>> {
    let key = name + "=\""@;
    match find(attrs, key) {
        None => None,
        Some(k) => {
            let rest = attrs.skip(k + key.len());
            match find_char(rest, '"') {
                None => None,
                Some(e) => Some(rest.take(e)),
            }
        },
    }
}

/// Returns the value of `Name="value"` from an attribute string.
pub fn extract_attr(attrs: &str, name: &str) -> (res: Option<String>)
    ensures
        res.deep_view() == attr_value(attrs@, name@),
{
    let v = chars_of(attrs);
    let key_s = concat2(name, "=\"");
    let key = chars_of(key_s.as_str());
    proof {
        reveal_strlit("=\"");
    }
    assert(v@.skip(0) =~= v@);
    match find_after(&v, &key, 0) {
        None => None,
        Some(k) => {
            let start = k + key.len();
            proof {
                lemma_find_bounds(v@, key@);
            }
            match find_char_after(&v, '"', start) {
                None => None,
                Some(e) => {
                    let r = string_of_range(&v, start, start + e);
                    assert(v@.skip(start as int).take(e as int) =~= r@);
                    Some(r)
                },
            }
        },
    }
}

/// The concrete version a NuGet range or float names: operators stripped
/// from the front of the trimmed spec, the text cut at the first whitespace,
/// `,`, `)`, `]` or `*`, trailing dots dropped; `None` where nothing is left.
/// `[1.0, 2.0)` → `1.0`, `1.0.*` → `1.0`, `^13.0.3` → `13.0.3`, `*` → `None`.
pub open spec fn nuget_version_spec(spec: Seq<char>) -> Option<Seq<char>> {
    let stripped = trim_start(trim(spec), CharClass::NotDigit);
    let v = trim_end(stripped.take(leading(stripped, CharClass::NotRangeSep) as int), CharClass::Dot);
    if stripped.len() == 0 || v.len() == 0 {
        None
    } else {
        Some(v)
    }
}

/// The version kept for a NuGet range or float is one version: it starts
/// with a digit, ends in something other than `.`, and holds no whitespace,
/// `,`, `)`, `]` or `*`, so `[1.0, 2.0)` keeps the lower bound only and
/// `1.0.*` its fixed part.
pub proof fn law_nuget_version_is_single(spec: Seq<char>)
    ensures
        nuget_version_spec(spec) matches Some(v) ==> {
            &&& v.len() > 0
            &&& is_digit(v[0])
            &&& v.last() != '.'
            &&& forall|i: int|
                0 <= i < v.len() ==> !is_ws(#[trigger] v[i]) && v[i] != ',' && v[i] != ')' && v[i]
                    != ']' && v[i] != '*'
        },
{
    let t = trim(spec);
    let stripped = trim_start(t, CharClass::NotDigit);
    lemma_leading_bounds(t, CharClass::NotDigit);
    lemma_leading_bounds(stripped, CharClass::NotRangeSep);
    let n = leading(stripped, CharClass::NotRangeSep);
    let head = stripped.take(n as int);
    let v = trim_end(head, CharClass::Dot);
    lemma_trailing_le(head, CharClass::Dot);
    lemma_trailing_stop(head, CharClass::Dot);
    if stripped.len() > 0 && v.len() > 0 {
        assert(stripped[0] == t[leading(t, CharClass::NotDigit) as int]);
        assert(v[0] == stripped[0]);
        assert(v.last() == head[head.len() - trailing(head, CharClass::Dot) - 1]);
        assert forall|i: int|
            0 <= i < v.len() implies !is_ws(#[trigger] v[i]) && v[i] != ',' && v[i] != ')' && v[i]
            != ']' && v[i] != '*' by {
            assert(v[i] == stripped[i]);
            assert(in_class(CharClass::NotRangeSep, stripped[i]));
        }
    }
}

/// Strips range/floating operators and returns the first concrete version segment.
/// `[1.0, 2.0)` → `1.0`, `1.0.*` → `1.0`, `^13.0.3` → `13.0.3`, `*` → `None`.
pub fn parse_version_spec(spec: &str) -> (res: Option<String>)
    ensures
        res.deep_view() == nuget_version_spec(spec@),
{
    let v = chars_of(spec);
    assert(v@.subrange(0, v@.len() as int) =~= v@);
    let (t0, t1) = trim_bounds(&v, 0, v.len());
    let a = t0 + count_leading(&v, t0, t1, CharClass::NotDigit);
    let ghost stripped = trim_start(trim(spec@), CharClass::NotDigit);
    assert(stripped =~= v@.subrange(a as int, t1 as int));
    if a == t1 {
        return None;
    }
    let n = count_leading(&v, a, t1, CharClass::NotRangeSep);
    assert(stripped.take(n as int) =~= v@.subrange(a as int, a + n));
    let d = count_trailing(&v, a, a + n, CharClass::Dot);
    if d == n {
        return None;
    }
    let r = string_of_range(&v, a, a + n - d);
    assert(r@ =~= trim_end(stripped.take(n as int), CharClass::Dot));
    Some(r)
}

/// `str::split(pat)` for a non-empty pattern: the pieces between the
/// occurrences of `pat`, leftmost first, the piece before the first
/// occurrence included.
pub open spec fn split_by(s: Seq<char>, pat: Seq<char>) -> Seq<Seq<char>>
    decreases s.len(),
{
    match find(s, pat) {
        None => seq![s],
        Some(k) => {
            if pat.len() == 0 {
                seq![s]
            } else {
                proof {
                    lemma_find_bounds(s, pat);
                }
                seq![s.take(k)] + split_by(s.skip(k + pat.len()), pat)
            }
        },
    }
}

/// The `(id, version)` one piece of the split contributes: its attributes
/// end at the first `>`; it counts where it has an `Include`.
pub open spec fn segment_entry(segment: Seq<char>) -> Option<(Seq<char>, Option<Seq<char>>)> {
    match find_char(segment, '>') {
        None => None,
        Some(end) => {
            let attrs = segment.take(end);
            match attr_value(attrs, "Include"@) {
                None => None,
                Some(id) => Some(
                    (
                        id,
                        match attr_value(attrs, "Version"@) {
                            Some(v) => nuget_version_spec(v),
                            None => None,
                        },
                    ),
                ),
            }
        },
    }
}

/// The entries of a list of pieces, in order.
pub open spec fn segment_entries(segments: Seq<Seq<char>>) -> Seq<(Seq<char>, Option<Seq<char>>)>
    decreases segments.len(),
{
    if segments.len() == 0 {
        seq![]
    } else {
        match segment_entry(segments[0]) {
            Some(e) => seq![e] + segment_entries(segments.drop_first()),
            None => segment_entries(segments.drop_first()),
        }
    }
}

/// `(id, version)` pairs for the elements named `tag` in `xml`: each
/// `<tag` opens one, whose attributes run to the next `>`; the text before
/// the first `<tag` belongs to no such element.
pub open spec fn package_entries(xml: Seq<char>, tag: Seq<char>) -> Seq<(Seq<char>, Option<Seq<char>>)> {
    segment_entries(split_by(xml, "<"@ + tag).drop_first())
}

fn segment_result(seg: &Vec<char>) -> (res: Option<(String, Option<String>)>)
    ensures
        res.deep_view() == segment_entry(seg@),
{
    assert(seg@.skip(0) =~= seg@);
    match find_char_after(seg, '>', 0) {
        None => None,
        Some(end) => {
            let attrs = string_of_range(seg, 0, end);
            assert(seg@.take(end as int) =~= attrs@);
            match extract_attr(attrs.as_str(), "Include") {
                None => None,
                Some(id) => {
                    let version = match extract_attr(attrs.as_str(), "Version") {
                        Some(v) => parse_version_spec(v.as_str()),
                        None => None,
                    };
                    Some((id, version))
                },
            }
        },
    }
}

/// Extracts (id, version) pairs from XML for the given element tag name;
/// only elements of that tag are reported. Handles both self-closing and
/// paired tags; attributes may be in any order.
pub fn extract_package_entries(xml: &str, tag: &str) -> (res: Vec<(String, Option<String>)>)
    ensures
        res.deep_view() == package_entries(xml@, tag@),
{
    let v = chars_of(xml);
    let prefix_s = concat2("<", tag);
    let prefix = chars_of(prefix_s.as_str());
    proof {
        reveal_strlit("<");
    }
    assert(prefix@.len() > 0);
    let mut out: Vec<(String, Option<String>)> = Vec::new();
    assert(v@.skip(0) =~= v@);
    let mut pos: usize = match find_after(&v, &prefix, 0) {
        None => {
            assert(split_by(v@, prefix@) == seq![v@]);
            assert(seq![v@].drop_first() =~= Seq::<Seq<char>>::empty());
            return out;
        },
        Some(k) => {
            let next = k + prefix.len();
            assert(v@.skip(k + prefix@.len()) =~= v@.skip(next as int));
            assert((seq![v@.take(k as int)] + split_by(v@.skip(next as int), prefix@)).drop_first()
                =~= split_by(v@.skip(next as int), prefix@));
            next
        },
    };
    loop
        invariant
            pos <= v@.len(),
            v@ == xml@,
            prefix@ == "<"@ + tag@,
            prefix@.len() > 0,
            package_entries(xml@, tag@) == out.deep_view() + segment_entries(
                split_by(v@.skip(pos as int), prefix@),
            ),
        decreases v@.len() - pos,
    {
        let ghost t = v@.skip(pos as int);
        let ghost prevd = out.deep_view();
        match find_after(&v, &prefix, pos) {
            None => {
                let seg = slice_vec(&v, pos, v.len());
                assert(t =~= seg@);
                assert(split_by(t, prefix@) == seq![t]);
                assert(segment_entries(seq![t]) == match segment_entry(t) {
                    Some(e) => seq![e] + segment_entries(seq![t].drop_first()),
                    None => segment_entries(seq![t].drop_first()),
                });
                assert(seq![t].drop_first() =~= Seq::<Seq<char>>::empty());
                match segment_result(&seg) {
                    Some(e) => {
                        out.push(e);
                    },
                    None => {},
                }
                assert(out.deep_view() =~= prevd + segment_entries(split_by(t, prefix@)));
                return out;
            },
            Some(k) => {
                let seg = slice_vec(&v, pos, pos + k);
                assert(t.take(k as int) =~= seg@);
                let next = pos + k + prefix.len();
                assert(t.skip(k + prefix@.len()) =~= v@.skip(next as int));
                let ghost rest = split_by(v@.skip(next as int), prefix@);
                assert(split_by(t, prefix@) == seq![seg@] + rest);
                assert((seq![seg@] + rest)[0] == seg@);
                assert((seq![seg@] + rest).drop_first() =~= rest);
                match segment_result(&seg) {
                    Some(e) => {
                        out.push(e);
                    },
                    None => {},
                }
                assert(prevd + segment_entries(seq![seg@] + rest) =~= out.deep_view()
                    + segment_entries(rest));
                pos = next;
            },
        }
    }
}

/// The file name `Directory.Packages.props`, which holds `PackageVersion`
/// elements; project files hold `PackageReference` elements.
pub open spec fn is_props_path(path: Seq<char>) -> bool {
    path == "Directory.Packages.props"@ || ends_with(path, "/Directory.Packages.props"@)
}

/// The element a project file declares its packages with.
pub open spec fn project_tag(path: Seq<char>) -> Seq<char> {
    if is_props_path(path) {
        "PackageVersion"@
    } else {
        "PackageReference"@
    }
}

/// All entries of a list of `(path, contents)` project files, in order.
pub open spec fn project_entries(files: Seq<(Seq<char>, Seq<char>)>) -> Seq<(Seq<char>, Option<Seq<char>>)>
    decreases files.len(),
{
    if files.len() == 0 {
        seq![]
    } else {
        project_entries(files.drop_last()) + package_entries(
            files.last().1,
            project_tag(files.last().0),
        )
    }
}

/// The views of a list of package targets.
pub open spec fn package_targets_view(ts: Seq<PackageTarget>) -> Seq<(Seq<char>, Option<Seq<char>>)> {
    ts.map_values(|t: PackageTarget| t.spec_view())
}

/// The packages that a set of project files reference, sorted by ID, one
/// per ID (the first file, and the first element in it, to name an ID wins).
/// Each file is given as its path and its contents.
pub fn project_deps_from_files(files: &Vec<(String, String)>) -> (deps: Vec<PackageTarget>)
    ensures
        first_wins_sorted(project_entries(files.deep_view()), package_targets_view(deps@)),
{
    let props = chars_of("Directory.Packages.props");
    let slash_props = chars_of("/Directory.Packages.props");
    let mut entries: Vec<(String, Option<String>)> = Vec::new();
    let mut i: usize = 0;
    while i < files.len()
        invariant
            i <= files@.len(),
            props@ == "Directory.Packages.props"@,
            slash_props@ == "/Directory.Packages.props"@,
            entries.deep_view() == project_entries(files.deep_view().take(i as int)),
        decreases files.len() - i,
    {
        let path = chars_of(files[i].0.as_str());
        let tag = if crate::text::chars_eq(&path, &props) || vec_ends_with(&path, &slash_props) {
            "PackageVersion"
        } else {
            "PackageReference"
        };
        assert(tag@ == project_tag(files@[i as int].0@));
        let mut found = extract_package_entries(files[i].1.as_str(), tag);
        let ghost prevd = entries.deep_view();
        let ghost foundd = found.deep_view();
        entries.append(&mut found);
        assert(entries.deep_view() =~= prevd + foundd);
        assert(files.deep_view().take(i + 1).drop_last() =~= files.deep_view().take(i as int));
        assert(files.deep_view().take(i + 1).last() == files.deep_view()[i as int]);
        i = i + 1;
    }
    assert(files.deep_view().take(files@.len() as int) =~= files.deep_view());
    let sorted = sort_first_wins(&entries);
    let mut deps: Vec<PackageTarget> = Vec::new();
    let mut j: usize = 0;
    while j < sorted.len()
        invariant
            j <= sorted@.len(),
            package_targets_view(deps@) =~= sorted.deep_view().take(j as int),
        decreases sorted.len() - j,
    {
        let ghost prev = deps@;
        let t = PackageTarget { name: sorted[j].0.clone(), version: clone_opt(&sorted[j].1) };
        let ghost tv = t.spec_view();
        deps.push(t);
        assert(package_targets_view(deps@) =~= package_targets_view(prev).push(tv));
        assert(sorted.deep_view()[j as int] == sorted@[j as int].deep_view());
        assert(package_targets_view(deps@) =~= sorted.deep_view().take(j + 1));
        j = j + 1;
    }
    assert(sorted.deep_view().take(sorted@.len() as int) =~= sorted.deep_view());
    deps
}

} // verus!
