//! The text of a skill's files: `SKILL.md`, `doc.skill` and the reference
//! pages.
use vstd::prelude::*;

use crate::skill::{SkillInfo, SkillPage};
use crate::text::{chars_of, find_after, find_char_after, push_range};
use crate::text::{
    collapse_whitespace, concat3, find, find_char, lemma_find_bounds, lemma_find_char_at, lemma_find_from_unique, occurs_at, starts_with, join, replace_all, replace_char, replace_char_str, replace_str,
    words, is_ws, single_spaced, lemma_collapsed_single_spaced,
};

verus! {

/// The frontmatter of `SKILL.md`: the skill name (the package name with `_`
/// turned into `-`), the description with its whitespace collapsed, the
/// license and author where they are not empty, and the version.
pub open spec fn frontmatter(
    name: Seq<char>,
    description: Seq<char>,
    license: Seq<char>,
    author: Seq<char>,
    version: Seq<char>,
) -> Seq<char> {
    "---\nname: "@ + replace_char(name, '_', '-') + "\ndescription: "@ + join(
        words(description),
        " "@,
    ) + (if license.len() == 0 {
        seq![]
    } else {
        "\nlicense: "@ + license
    }) + "\nmetadata:"@ + (if author.len() == 0 {
        seq![]
    } else {
        "\n  author: "@ + author
    }) + "\n  version: \""@ + version + "\"\n---\n\n"@
}

/// The description line of the frontmatter holds the description's
/// whitespace-separated words joined by single spaces, and ends there: it
/// holds no line break, tab or doubled space, however the description was
/// broken or indented.
pub proof fn law_description_line_collapsed(
    name: Seq<char>,
    description: Seq<char>,
    license: Seq<char>,
    author: Seq<char>,
    version: Seq<char>,
)
    ensures
        ({
            let head = "---\nname: "@ + replace_char(name, '_', '-') + "\ndescription: "@;
            let d = join(words(description), " "@);
            let f = frontmatter(name, description, license, author, version);
            &&& f.len() > head.len() + d.len()
            &&& f.take((head.len() + d.len()) as int) == head + d
            &&& f[(head.len() + d.len()) as int] == '\n'
            &&& single_spaced(d)
            &&& forall|i: int| 0 <= i < d.len() ==> #[trigger] d[i] != '\n' && d[i] != '\t'
        }),
{
    reveal_strlit("\nmetadata:");
    let head = "---\nname: "@ + replace_char(name, '_', '-') + "\ndescription: "@;
    let d = join(words(description), " "@);
    let lic: Seq<char> = if license.len() == 0 {
        seq![]
    } else {
        "\nlicense: "@ + license
    };
    let tail = lic + "\nmetadata:"@ + (if author.len() == 0 {
        seq![]
    } else {
        "\n  author: "@ + author
    }) + "\n  version: \""@ + version + "\"\n---\n\n"@;
    let f = frontmatter(name, description, license, author, version);
    assert(f =~= head + d + tail);
    if license.len() == 0 {
        assert(tail[0] == "\nmetadata:"@[0]);
    } else {
        reveal_strlit("\nlicense: ");
        assert(tail[0] == "\nlicense: "@[0]);
    }
    assert(f[(head.len() + d.len()) as int] == tail[0]);
    assert(f.take((head.len() + d.len()) as int) =~= head + d);
    lemma_collapsed_single_spaced(description);
    assert forall|i: int| 0 <= i < d.len() implies #[trigger] d[i] != '\n' && d[i] != '\t' by {
        if is_ws(d[i]) {
            assert(d[i] == ' ');
        }
    }
}

pub fn build_frontmatter(info: &SkillInfo) -> (res: String)
    ensures
        res@ == frontmatter(
            info.name@,
            info.description@,
            info.license@,
            info.author@,
            info.version@,
        ),
{
    let skill_name = replace_char_str(info.name.as_str(), '_', '-');
    let description = collapse_whitespace(info.description.as_str());
    let mut s = "---\nname: ".to_owned();
    s.append(skill_name.as_str());
    s.append("\ndescription: ");
    s.append(description.as_str());
    if !info.license.as_str().is_empty() {
        s.append("\nlicense: ");
        s.append(info.license.as_str());
    }
    s.append("\nmetadata:");
    if !info.author.as_str().is_empty() {
        s.append("\n  author: ");
        s.append(info.author.as_str());
    }
    s.append("\n  version: \"");
    s.append(info.version.as_str());
    s.append("\"\n---\n\n");
    proof {
        let ghost lic: Seq<char> = if info.license@.len() == 0 {
            seq![]
        } else {
            "\nlicense: "@ + info.license@
        };
        let ghost aut: Seq<char> = if info.author@.len() == 0 {
            seq![]
        } else {
            "\n  author: "@ + info.author@
        };
        assert(s@ =~= frontmatter(
            info.name@,
            info.description@,
            info.license@,
            info.author@,
            info.version@,
        ));
    }
    s
}

/// The link target `(slug.html` a page uses for a reference.
pub open spec fn html_link(slug: Seq<char>) -> Seq<char> {
    "("@ + slug + ".html"@
}

/// The link target `(references/slug.md` the skill uses instead.
pub open spec fn md_link(slug: Seq<char>) -> Seq<char> {
    "(references/"@ + slug + ".md"@
}

/// `markdown` with the links to each reference, taken in order, rewritten.
pub open spec fn ref_links(markdown: Seq<char>, refs: Seq<SkillPage>) -> Seq<char>
    decreases refs.len(),
{
    if refs.len() == 0 {
        markdown
    } else {
        let slug = refs.last().slug@;
        replace_all(ref_links(markdown, refs.drop_last()), html_link(slug), md_link(slug))
    }
}

/// What opens a link that climbs out of the crate's directory: a link
/// target starting with `../`.
pub open spec fn cross_marker() -> Seq<char> {
    "](../"@
}

/// A character of a crate name.
pub open spec fn is_crate_name_char(c: char) -> bool {
    ('a' <= c && c <= 'z') || ('A' <= c && c <= 'Z') || ('0' <= c && c <= '9') || c == '_' || c
        == '-'
}

/// A crate name: one or more letters, digits, `_` or `-`.
pub open spec fn is_crate_name(n: Seq<char>) -> bool {
    n.len() > 0 && forall|i: int| 0 <= i < n.len() ==> is_crate_name_char(#[trigger] n[i])
}

/// The last position of `c` in `s`.
pub open spec fn rfind_char(s: Seq<char>, c: char) -> Option<int>
    decreases s.len(),
{
    if s.len() == 0 {
        None
    } else if s.last() == c {
        Some(s.len() - 1)
    } else {
        rfind_char(s.drop_last(), c)
    }
}

/// The inline note that stands for a link to the crate `name`.
pub open spec fn use_skill(name: Seq<char>) -> Seq<char> {
    " (use skill `/"@ + name + "`)"@
}

/// Where a link to another crate ends, given the text `head` before a
/// `](../` and the text `r` after it: the last `[` of `head`, the first `)`
/// of `r`, and the first `/` of `r`, which comes before that `)` and
/// follows a crate name; `None` where there is no such link.
pub open spec fn inline_parts(head: Seq<char>, r: Seq<char>) -> Option<(int, int, int)> {
    match (rfind_char(head, '['), find_char(r, ')'), find_char(r, '/')) {
        (Some(b), Some(e), Some(d)) => if d < e && is_crate_name(r.take(d)) {
            Some((b, e, d))
        } else {
            None
        },
        _ => None,
    }
}

/// `s` with every link to another crate's docs, `[text](../crate/...)`,
/// written as `text (use skill `/crate`)`: the link text runs from the last
/// `[` before the target, and the target to the first `)`; a target whose
/// first path segment is no crate name stays as it was.
pub open spec fn cross_links(s: Seq<char>) -> Seq<char>
    decreases s.len(),
{
    match find(s, cross_marker()) {
        None => s,
        Some(k) => {
            proof {
                reveal_strlit("](../");
                lemma_find_bounds(s, cross_marker());
            }
            let r = s.skip(k + 5);
            match inline_parts(s.take(k), r) {
                Some((b, e, d)) => {
                    proof {
                        lemma_find_bounds(r, seq![')']);
                    }
                    s.take(b) + s.subrange(b + 1, k) + use_skill(r.take(d)) + cross_links(
                        r.skip(e + 1),
                    )
                },
                None => s.take(k + 5) + cross_links(r),
            }
        },
    }
}

/// The main page as `SKILL.md` holds it: links to other crates become
/// inline notes, then links to reference pages point at their Markdown files.
pub open spec fn rewrite_links(markdown: Seq<char>, refs: Seq<SkillPage>) -> Seq<char> {
    ref_links(cross_links(markdown), refs)
}

/// `x` opens with `(` and holds no other `(`.
pub open spec fn opens_with_paren_only(x: Seq<char>) -> bool {
    x.len() > 0 && x[0] == '(' && forall|i: int| 1 <= i < x.len() ==> x[i] != '('
}

/// `a` and `b` differ somewhere within the shorter of the two.
pub open spec fn differ_early(a: Seq<char>, b: Seq<char>) -> bool {
    exists|i: int| 0 <= i < a.len() && i < b.len() && a[i] != b[i]
}

/// Replacing `from` by `to` leaves no occurrence of `f`, where `f` is
/// `from` itself or does not occur to begin with, provided `f` and `to` each
/// hold a `(` only at their start and part ways before either ends.
proof fn lemma_replace_leaves_none(t: Seq<char>, f: Seq<char>, from: Seq<char>, to: Seq<char>)
    requires
        from.len() > 0,
        opens_with_paren_only(f),
        opens_with_paren_only(to),
        differ_early(f, to),
        f == from || forall|j: int| !#[trigger] occurs_at(t, f, j),
    ensures
        forall|j: int| !#[trigger] occurs_at(replace_all(t, from, to), f, j),
    decreases t.len(),
{
    lemma_find_bounds(t, from);
    match find(t, from) {
        None => {},
        Some(k) => {
            let src = t.skip(k + from.len());
            if f != from {
                assert forall|j: int| !#[trigger] occurs_at(src, f, j) by {
                    if occurs_at(src, f, j) {
                        assert(src.subrange(j, j + f.len()) =~= t.subrange(
                            j + k + from.len(),
                            j + k + from.len() + f.len(),
                        ));
                        assert(occurs_at(t, f, j + k + from.len()));
                    }
                }
            }
            lemma_replace_leaves_none(src, f, from, to);
            let rest = replace_all(src, from, to);
            let r = t.take(k) + to + rest;
            assert(replace_all(t, from, to) == r);
            assert forall|p: int| !#[trigger] occurs_at(r, f, p) by {
                if occurs_at(r, f, p) {
                    let w = r.subrange(p, p + f.len());
                    assert forall|i: int| 0 <= i < f.len() implies r[p + i] == f[i] by {
                        assert(w[i] == r[p + i]);
                    }
                    if p < k {
                        if p + f.len() <= k {
                            assert(t.subrange(p, p + f.len()) =~= w);
                            assert(occurs_at(t, f, p));
                        } else {
                            assert(r[k] == to[0]);
                            assert(f[k - p] == r[p + (k - p)]);
                        }
                    } else if p == k {
                        let i = choose|i: int| 0 <= i < f.len() && i < to.len() && f[i] != to[i];
                        assert(r[k + i] == to[i]);
                    } else if p < k + to.len() {
                        assert(r[p] == to[p - k]);
                        assert(f[0] == r[p + 0]);
                    } else {
                        let q = p - k - to.len();
                        assert(rest.subrange(q, q + f.len()) =~= w);
                        assert(occurs_at(rest, f, q));
                    }
                }
            }
        },
    }
}

/// A link to a reference page opens with its only `(`.
proof fn lemma_link_shapes(slug: Seq<char>)
    requires
        !slug.contains('('),
    ensures
        opens_with_paren_only(html_link(slug)),
        opens_with_paren_only(md_link(slug)),
{
    reveal_strlit("(");
    reveal_strlit(".html");
    reveal_strlit("(references/");
    reveal_strlit(".md");
    let h = html_link(slug);
    let m = md_link(slug);
    assert forall|i: int| 1 <= i < h.len() implies h[i] != '(' by {
        if i <= slug.len() {
            assert(h[i] == slug[i - 1]);
        }
    }
    assert forall|i: int| 1 <= i < m.len() implies m[i] != '(' by {
        if 12 <= i < 12 + slug.len() {
            assert(m[i] == slug[i - 12]);
        }
    }
}

/// The `.html` link of one reference and the rewritten link of another
/// part ways early, unless the first slug starts with `references/`.
proof fn lemma_links_differ(a: Seq<char>, b: Seq<char>)
    requires
        !starts_with(a, "references/"@),
    ensures
        differ_early(html_link(a), md_link(b)),
{
    reveal_strlit("(");
    reveal_strlit(".html");
    reveal_strlit("(references/");
    reveal_strlit(".md");
    reveal_strlit("references/");
    let h = html_link(a);
    let m = md_link(b);
    let r = "references/"@;
    assert(r.len() == 11);
    if a.len() >= 11 {
        assert(exists|i: int| 0 <= i < 11 && a[i] != r[i]) by {
            if forall|i: int| 0 <= i < 11 ==> a[i] == r[i] {
                assert(a.take(11) =~= r);
            }
        }
        let i = choose|i: int| 0 <= i < 11 && a[i] != r[i];
        assert(h[i + 1] == a[i]);
        assert(m[i + 1] == r[i]);
    } else {
        let i: int = a.len() as int + 1;
        assert(h[i] == '.');
        assert(m[i] == r[a.len() as int]);
    }
}

/// The reference rewrite leaves no `.html` link to any of the references.
proof fn lemma_ref_links_rewritten(markdown: Seq<char>, refs: Seq<SkillPage>)
    requires
        forall|i: int|
            0 <= i < refs.len() ==> !(#[trigger] refs[i]).slug@.contains('(') && !starts_with(
                refs[i].slug@,
                "references/"@,
            ),
    ensures
        forall|i: int, j: int|
            0 <= i < refs.len() ==> !#[trigger] occurs_at(
                ref_links(markdown, refs),
                html_link(refs[i].slug@),
                j,
            ),
    decreases refs.len(),
{
    if refs.len() > 0 {
        let init = refs.drop_last();
        assert forall|i: int| 0 <= i < init.len() implies !(#[trigger] init[i]).slug@.contains('(')
            && !starts_with(init[i].slug@, "references/"@) by {
            assert(init[i] == refs[i]);
        }
        lemma_ref_links_rewritten(markdown, init);
        let inner = ref_links(markdown, init);
        let last = refs.last().slug@;
        assert(refs[refs.len() - 1] == refs.last());
        lemma_link_shapes(last);
        reveal_strlit("(");
        assert(html_link(last).len() > 0);
        assert forall|i: int, j: int|
            0 <= i < refs.len() implies !#[trigger] occurs_at(
            ref_links(markdown, refs),
            html_link(refs[i].slug@),
            j,
        ) by {
            let slug = refs[i].slug@;
            lemma_link_shapes(slug);
            lemma_links_differ(slug, last);
            if i < refs.len() - 1 {
                assert(init[i] == refs[i]);
                assert forall|jj: int| !#[trigger] occurs_at(inner, html_link(slug), jj) by {
                    assert(!occurs_at(inner, html_link(init[i].slug@), jj));
                }
            }
            lemma_replace_leaves_none(inner, html_link(slug), html_link(last), md_link(last));
        }
    }
}

/// A page that links to none of the references keeps its text through the
/// reference rewrite.
proof fn lemma_unlinked_refs_unchanged(markdown: Seq<char>, refs: Seq<SkillPage>)
    requires
        forall|i: int, j: int|
            0 <= i < refs.len() ==> !#[trigger] occurs_at(markdown, html_link(refs[i].slug@), j),
    ensures
        ref_links(markdown, refs) == markdown,
    decreases refs.len(),
{
    if refs.len() > 0 {
        let slug = refs.last().slug@;
        assert forall|i: int, j: int|
            0 <= i < refs.drop_last().len() implies !#[trigger] occurs_at(
            markdown,
            html_link(refs.drop_last()[i].slug@),
            j,
        ) by {
            assert(refs.drop_last()[i] == refs[i]);
        }
        lemma_unlinked_refs_unchanged(markdown, refs.drop_last());
        assert(refs[refs.len() - 1] == refs.last());
        assert forall|j: int| 0 <= j implies !occurs_at(markdown, html_link(slug), j) by {
            assert(!occurs_at(markdown, html_link(refs[refs.len() - 1].slug@), j));
        }
        lemma_find_from_unique(markdown, html_link(slug), 0, None);
        reveal_strlit("(");
        assert(html_link(slug).len() > 0);
    }
}

/// Rewriting leaves no `.html` link to any of the references: every link to
/// a reference page becomes a link to its Markdown file. Slugs hold no `(`
/// and do not start with `references/` (a rewritten link could otherwise
/// read as the `.html` link of another slug).
pub proof fn law_reference_links_rewritten(markdown: Seq<char>, refs: Seq<SkillPage>)
    requires
        forall|i: int|
            0 <= i < refs.len() ==> !(#[trigger] refs[i]).slug@.contains('(') && !starts_with(
                refs[i].slug@,
                "references/"@,
            ),
    ensures
        forall|i: int, j: int|
            0 <= i < refs.len() ==> !#[trigger] occurs_at(
                rewrite_links(markdown, refs),
                html_link(refs[i].slug@),
                j,
            ),
{
    lemma_ref_links_rewritten(cross_links(markdown), refs);
}

/// A page that links to none of the references and to no other crate is
/// written unchanged.
pub proof fn law_unlinked_page_unchanged(markdown: Seq<char>, refs: Seq<SkillPage>)
    requires
        forall|j: int| !#[trigger] occurs_at(markdown, cross_marker(), j),
        forall|i: int, j: int|
            0 <= i < refs.len() ==> !#[trigger] occurs_at(markdown, html_link(refs[i].slug@), j),
    ensures
        rewrite_links(markdown, refs) == markdown,
{
    lemma_find_from_unique(markdown, cross_marker(), 0, None);
    lemma_unlinked_refs_unchanged(markdown, refs);
}

/// A link to another crate, `[text](../crate/page.html)` with nothing
/// before it, becomes `text (use skill `/crate`)` followed by the
/// rewritten rest of the page.
pub proof fn law_cross_crate_link_inlined(
    text: Seq<char>,
    name: Seq<char>,
    path: Seq<char>,
    rest: Seq<char>,
)
    requires
        !text.contains('['),
        !text.contains(']'),
        is_crate_name(name),
        !path.contains(')'),
    ensures
        cross_links("["@ + text + cross_marker() + name + "/"@ + path + ")"@ + rest) == text
            + use_skill(name) + cross_links(rest),
{
    reveal_strlit("[");
    reveal_strlit("](../");
    reveal_strlit("/");
    reveal_strlit(")");
    let s = "["@ + text + cross_marker() + name + "/"@ + path + ")"@ + rest;
    let m = cross_marker();
    let k: int = text.len() as int + 1;
    assert(s.subrange(k as int, k + 5) =~= m);
    assert forall|j: int| 0 <= j < k implies !#[trigger] occurs_at(s, m, j) by {
        if occurs_at(s, m, j) {
            assert(s.subrange(j, j + 5)[0] == s[j]);
            if j >= 1 {
                assert(text[j - 1] == ']');
            } else {
                assert(s[0] == '[');
            }
        }
    }
    lemma_find_from_unique(s, m, 0, Some(k as int));
    let head = s.take(k as int);
    assert(head[0] == '[');
    assert(rfind_char(head, '[') == Some(0int)) by {
        lemma_rfind_unique(head, '[', 0);
    }
    let r = s.skip(k + 5);
    assert(r =~= name + "/"@ + path + ")"@ + rest);
    let d = name.len() as int;
    let e: int = name.len() as int + 1 + path.len() as int;
    assert(r[d] == '/');
    assert(r[e] == ')');
    assert forall|j: int| 0 <= j < d implies r[j] != '/' by {
        assert(r[j] == name[j]);
        assert(is_crate_name_char(name[j]));
    }
    assert forall|j: int| 0 <= j < e implies r[j] != ')' by {
        if j < d {
            assert(r[j] == name[j]);
            assert(is_crate_name_char(name[j]));
        } else if j > d {
            assert(r[j] == path[j - d - 1]);
        }
    }
    lemma_find_char_at(r, '/', d);
    lemma_find_char_at(r, ')', e as int);
    assert(r.take(d) =~= name);
    assert(s.take(0) =~= Seq::<char>::empty());
    assert(s.subrange(1, k as int) =~= text);
    assert(r.skip(e + 1) =~= rest);
}

/// `rfind_char` finds the last place of a character.
proof fn lemma_rfind_unique(s: Seq<char>, c: char, b: int)
    requires
        0 <= b < s.len(),
        s[b] == c,
        forall|j: int| b < j < s.len() ==> s[j] != c,
    ensures
        rfind_char(s, c) == Some(b),
    decreases s.len(),
{
    if s.len() - 1 != b {
        assert(s.last() != c);
        assert forall|j: int| b < j < s.drop_last().len() implies s.drop_last()[j] != c by {
            assert(s.drop_last()[j] == s[j]);
        }
        lemma_rfind_unique(s.drop_last(), c, b);
    }
}

/// Replacing `from` by a link that opens with its only `(`, whose second
/// character is not `.` and whose last is not `]`, brings in no `](../`.
proof fn lemma_replace_no_marker(t: Seq<char>, from: Seq<char>, to: Seq<char>)
    requires
        from.len() > 0,
        opens_with_paren_only(to),
        to.len() >= 2,
        to[1] != '.',
        to[to.len() - 1] != ']',
        forall|j: int| !#[trigger] occurs_at(t, cross_marker(), j),
    ensures
        forall|j: int| !#[trigger] occurs_at(replace_all(t, from, to), cross_marker(), j),
    decreases t.len(),
{
    reveal_strlit("](../");
    let m = cross_marker();
    lemma_find_bounds(t, from);
    match find(t, from) {
        None => {},
        Some(k) => {
            let src = t.skip(k + from.len());
            assert forall|j: int| !#[trigger] occurs_at(src, m, j) by {
                if occurs_at(src, m, j) {
                    assert(src.subrange(j, j + 5) =~= t.subrange(
                        j + k + from.len(),
                        j + k + from.len() + 5,
                    ));
                    assert(occurs_at(t, m, j + k + from.len()));
                }
            }
            lemma_replace_no_marker(src, from, to);
            let rest = replace_all(src, from, to);
            let r = t.take(k) + to + rest;
            assert(replace_all(t, from, to) == r);
            assert forall|p: int| !#[trigger] occurs_at(r, m, p) by {
                if occurs_at(r, m, p) {
                    let w = r.subrange(p, p + 5);
                    assert forall|i: int| 0 <= i < 5 implies r[p + i] == m[i] by {
                        assert(w[i] == r[p + i]);
                    }
                    if p + 5 <= k {
                        assert(t.subrange(p, p + 5) =~= w);
                        assert(occurs_at(t, m, p));
                    } else if p + 1 < k {
                        assert(r[k] == to[0]);
                        assert(m[k - p] == r[p + (k - p)]);
                    } else if p + 1 == k {
                        assert(r[k + 1] == to[1]);
                        assert(m[2] == r[p + 2]);
                    } else if p < k + to.len() - 1 {
                        assert(r[p + 1] == to[p + 1 - k]);
                        assert(m[1] == r[p + 1]);
                    } else if p == k + to.len() - 1 {
                        assert(r[p] == to[to.len() - 1]);
                        assert(m[0] == r[p + 0]);
                    } else {
                        let q = p - k - to.len();
                        assert(rest.subrange(q, q + 5) =~= w);
                        assert(occurs_at(rest, m, q));
                    }
                }
            }
        },
    }
}

/// The reference rewrite brings in no `](../`.
proof fn lemma_ref_links_no_marker(markdown: Seq<char>, refs: Seq<SkillPage>)
    requires
        forall|j: int| !#[trigger] occurs_at(markdown, cross_marker(), j),
        forall|i: int| 0 <= i < refs.len() ==> !(#[trigger] refs[i]).slug@.contains('('),
    ensures
        forall|j: int| !#[trigger] occurs_at(ref_links(markdown, refs), cross_marker(), j),
    decreases refs.len(),
{
    if refs.len() > 0 {
        let init = refs.drop_last();
        assert forall|i: int| 0 <= i < init.len() implies !(#[trigger] init[i]).slug@.contains('(') by {
            assert(init[i] == refs[i]);
        }
        lemma_ref_links_no_marker(markdown, init);
        let last = refs.last().slug@;
        assert(refs[refs.len() - 1] == refs.last());
        lemma_link_shapes(last);
        reveal_strlit("(");
        reveal_strlit(".html");
        reveal_strlit("(references/");
        reveal_strlit(".md");
        let to = md_link(last);
        assert(to[1] == 'r');
        assert(to[to.len() - 1] == 'd');
        lemma_replace_no_marker(ref_links(markdown, init), html_link(last), to);
    }
}

/// Rewriting a page twice gives what rewriting it once gives, for a page
/// without links to other crates (`](../`) and slugs that hold no `(` and
/// do not start with `references/`. (With cross-crate links it can fail:
/// inlining a link can leave a `[` in front of a later `](../` that the first
/// pass kept, as in `[x[y](../b/c) ](../d/e)`.)
pub proof fn law_rewrite_idempotent(markdown: Seq<char>, refs: Seq<SkillPage>)
    requires
        forall|j: int| !#[trigger] occurs_at(markdown, cross_marker(), j),
        forall|i: int|
            0 <= i < refs.len() ==> !(#[trigger] refs[i]).slug@.contains('(') && !starts_with(
                refs[i].slug@,
                "references/"@,
            ),
    ensures
        rewrite_links(rewrite_links(markdown, refs), refs) == rewrite_links(markdown, refs),
{
    lemma_find_from_unique(markdown, cross_marker(), 0, None);
    assert(cross_links(markdown) == markdown);
    let y = ref_links(markdown, refs);
    assert forall|i: int| 0 <= i < refs.len() implies !(#[trigger] refs[i]).slug@.contains('(') by {}
    lemma_ref_links_no_marker(markdown, refs);
    lemma_find_from_unique(y, cross_marker(), 0, None);
    assert(cross_links(y) == y);
    lemma_ref_links_rewritten(markdown, refs);
    lemma_unlinked_refs_unchanged(y, refs);
}

/// The items section is empty exactly when the skill lists no categories.
pub proof fn law_items_section_empty(items: Seq<(String, Vec<(String, String)>)>)
    ensures
        (items_section(items).len() == 0) == (items.len() == 0),
{
    if items.len() > 0 {
        reveal_strlit("\n### Items\n");
        assert(("\n### Items\n"@ + category_blocks(items)).len() > 0);
    }
}

/// An occurrence stays an occurrence when text is added on either side.
proof fn lemma_occurs_within(a: Seq<char>, pat: Seq<char>, k: int, b: Seq<char>, c: Seq<char>)
    requires
        occurs_at(a, pat, k),
    ensures
        occurs_at(b + a + c, pat, k + b.len()),
{
    assert((b + a + c).subrange(k + b.len(), k + b.len() + pat.len()) =~= a.subrange(k, k + pat.len()));
}

/// An occurrence inside an occurrence.
proof fn lemma_occurs_nested(s: Seq<char>, mid: Seq<char>, pat: Seq<char>, k1: int, k2: int)
    requires
        occurs_at(s, mid, k1),
        occurs_at(mid, pat, k2),
    ensures
        occurs_at(s, pat, k1 + k2),
{
    assert(s.subrange(k1 + k2, k1 + k2 + pat.len()) =~= mid.subrange(k2, k2 + pat.len()));
}

proof fn lemma_item_line_in(entries: Seq<(String, String)>, e: int)
    requires
        0 <= e < entries.len(),
    ensures
        exists|k: int|
            occurs_at(
                item_lines(entries),
                "* ["@ + entries[e].0@ + "](references/"@ + entries[e].1@ + ".md)\n"@,
                k,
            ),
    decreases entries.len(),
{
    let line = "* ["@ + entries[e].0@ + "](references/"@ + entries[e].1@ + ".md)\n"@;
    let rest = entries.drop_last();
    let last = "* ["@ + entries.last().0@ + "](references/"@ + entries.last().1@ + ".md)\n"@;
    assert(item_lines(entries) == item_lines(rest) + last);
    if e == entries.len() - 1 {
        assert(occurs_at(line, line, 0)) by {
            assert(line.subrange(0, line.len() as int) =~= line);
        }
        lemma_occurs_within(line, line, 0, item_lines(rest), seq![]);
        assert(item_lines(rest) + line + seq![] =~= item_lines(entries));
    } else {
        assert(rest[e] == entries[e]);
        lemma_item_line_in(rest, e);
        let k = choose|k: int| occurs_at(item_lines(rest), line, k);
        lemma_occurs_within(item_lines(rest), line, k, seq![], last);
        assert(seq![] + item_lines(rest) + last =~= item_lines(entries));
    }
}

proof fn lemma_block_in(items: Seq<(String, Vec<(String, String)>)>, c: int)
    requires
        0 <= c < items.len(),
    ensures
        exists|k: int|
            occurs_at(
                category_blocks(items),
                "\n#### "@ + items[c].0@ + "\n\n"@ + item_lines(items[c].1@),
                k,
            ),
    decreases items.len(),
{
    let block = "\n#### "@ + items[c].0@ + "\n\n"@ + item_lines(items[c].1@);
    let rest = items.drop_last();
    let last = "\n#### "@ + items.last().0@ + "\n\n"@ + item_lines(items.last().1@);
    assert(category_blocks(items) =~= category_blocks(rest) + last);
    if c == items.len() - 1 {
        assert(occurs_at(block, block, 0)) by {
            assert(block.subrange(0, block.len() as int) =~= block);
        }
        lemma_occurs_within(block, block, 0, category_blocks(rest), seq![]);
        assert(category_blocks(rest) + block + seq![] =~= category_blocks(items));
    } else {
        assert(rest[c] == items[c]);
        lemma_block_in(rest, c);
        let k = choose|k: int| occurs_at(category_blocks(rest), block, k);
        lemma_occurs_within(category_blocks(rest), block, k, seq![], last);
        assert(seq![] + category_blocks(rest) + last =~= category_blocks(items));
    }
}

/// The items section lists every entry under its category: the heading
/// `#### category` followed directly by the category's lines, and among
/// them a line `* [name](references/slug.md)` for each entry, which links
/// to the reference page written for that slug.
pub proof fn law_items_listed(items: Seq<(String, Vec<(String, String)>)>, c: int, e: int)
    requires
        0 <= c < items.len(),
        0 <= e < items[c].1@.len(),
    ensures
        exists|k: int|
            occurs_at(items_section(items), "\n#### "@ + items[c].0@ + "\n\n* ["@, k),
        exists|k: int|
            occurs_at(
                items_section(items),
                "* ["@ + items[c].1@[e].0@ + "](references/"@ + items[c].1@[e].1@ + ".md)\n"@,
                k,
            ),
{
    let entries = items[c].1@;
    let block = "\n#### "@ + items[c].0@ + "\n\n"@ + item_lines(entries);
    let line = "* ["@ + entries[e].0@ + "](references/"@ + entries[e].1@ + ".md)\n"@;
    lemma_block_in(items, c);
    let k1 = choose|k: int| occurs_at(category_blocks(items), block, k);
    let head = "\n### Items\n"@;
    lemma_occurs_within(category_blocks(items), block, k1, head, seq![]);
    assert(head + category_blocks(items) + seq![] =~= items_section(items));
    let k2 = k1 + head.len();
    lemma_item_line_in(entries, e);
    let k3 = choose|k: int| occurs_at(item_lines(entries), line, k);
    let pre = "\n#### "@ + items[c].0@ + "\n\n"@;
    lemma_occurs_within(item_lines(entries), line, k3, pre, seq![]);
    assert(pre + item_lines(entries) + seq![] =~= block);
    lemma_occurs_nested(items_section(items), block, line, k2, k3 + pre.len());
    // the heading runs straight into the first entry line
    lemma_item_line_first(entries);
    let hp = "\n#### "@ + items[c].0@ + "\n\n* ["@;
    reveal_strlit("* [");
    reveal_strlit("\n\n");
    reveal_strlit("\n\n* [");
    assert("\n\n"@ + "* ["@ =~= "\n\n* ["@);
    assert(block.subrange(0, hp.len() as int) =~= hp);
    assert(occurs_at(block, hp, 0));
    lemma_occurs_nested(items_section(items), block, hp, k2, 0);
}

/// The lines of a non-empty category start with its first entry's line.
proof fn lemma_item_line_first(entries: Seq<(String, String)>)
    requires
        entries.len() > 0,
    ensures
        item_lines(entries).len() >= 3,
        item_lines(entries).take(3) == "* ["@,
    decreases entries.len(),
{
    reveal_strlit("* [");
    let rest = entries.drop_last();
    let last = "* ["@ + entries.last().0@ + "](references/"@ + entries.last().1@ + ".md)\n"@;
    assert(item_lines(entries) == item_lines(rest) + last);
    if entries.len() == 1 {
        assert(item_lines(rest) =~= Seq::<char>::empty());
        assert(item_lines(entries).take(3) =~= "* ["@);
    } else {
        lemma_item_line_first(rest);
        assert(item_lines(entries).take(3) =~= item_lines(rest).take(3));
    }
}

/// The last position of `c` in `v[from..to]`, counted from `from`.
fn last_char_in(v: &Vec<char>, from: usize, to: usize, c: char) -> (res: Option<usize>)
    requires
        from <= to <= v@.len(),
    ensures
        match res {
            Some(b) => from + b < to && rfind_char(v@.subrange(from as int, to as int), c) == Some(
                b as int,
            ),
            None => rfind_char(v@.subrange(from as int, to as int), c) is None,
        },
{
    let mut j = to;
    while j > from
        invariant
            from <= j <= to <= v@.len(),
            rfind_char(v@.subrange(from as int, to as int), c) == rfind_char(
                v@.subrange(from as int, j as int),
                c,
            ),
        decreases j - from,
    {
        let ghost sub = v@.subrange(from as int, j as int);
        assert(sub.last() == v@[j - 1]);
        assert(sub.drop_last() =~= v@.subrange(from as int, j - 1));
        if v[j - 1] == c {
            return Some(j - 1 - from);
        }
        j = j - 1;
    }
    None
}

/// Whether `v[from..to]` is a crate name.
fn crate_name_at(v: &Vec<char>, from: usize, to: usize) -> (b: bool)
    requires
        from <= to <= v@.len(),
    ensures
        b == is_crate_name(v@.subrange(from as int, to as int)),
{
    if from == to {
        return false;
    }
    let mut j = from;
    while j < to
        invariant
            from <= j <= to <= v@.len(),
            forall|i: int| from <= i < j ==> is_crate_name_char(#[trigger] v@[i]),
        decreases to - j,
    {
        let c = v[j];
        if !(('a' <= c && c <= 'z') || ('A' <= c && c <= 'Z') || ('0' <= c && c <= '9') || c == '_'
            || c == '-') {
            assert(v@.subrange(from as int, to as int)[j - from] == c);
            return false;
        }
        j = j + 1;
    }
    assert forall|i: int| 0 <= i < to - from implies is_crate_name_char(
        #[trigger] v@.subrange(from as int, to as int)[i],
    ) by {
        assert(v@.subrange(from as int, to as int)[i] == v@[from + i]);
    }
    true
}

/// The parts of a link to another crate whose `](../` starts at `at`,
/// looking back no further than `pos` (see `inline_parts`).
fn inline_link(v: &Vec<char>, pos: usize, at: usize) -> (res: Option<(usize, usize, usize)>)
    requires
        pos <= at,
        at + 5 <= v.len(),
    ensures
        match res {
            Some((b, e, d)) => {
                &&& inline_parts(v@.subrange(pos as int, at as int), v@.skip(at + 5)) == Some(
                    (b as int, e as int, d as int),
                )
                &&& pos + b < at
                &&& at + 5 + e < v@.len()
                &&& d < e
            },
            None => inline_parts(v@.subrange(pos as int, at as int), v@.skip(at + 5)) is None,
        },
{
    let after = at + 5;
    let b = last_char_in(v, pos, at, '[');
    let e = find_char_after(v, ')', after);
    let d = find_char_after(v, '/', after);
    let ghost r = v@.skip(after as int);
    match (b, e, d) {
        (Some(b), Some(e), Some(d)) => {
            if d < e {
                let ok = crate_name_at(v, after, after + d);
                assert(r.take(d as int) =~= v@.subrange(after as int, after + d));
                if ok {
                    Some((b, e, d))
                } else {
                    None
                }
            } else {
                None
            }
        },
        _ => None,
    }
}

/// Links to other crates written as inline notes (see `cross_links`).
pub fn cross_link_text(markdown: &str) -> (res: String)
    ensures
        res@ == cross_links(markdown@),
{
    let v = chars_of(markdown);
    let marker = chars_of("](../");
    proof {
        reveal_strlit("](../");
    }
    let mut out = String::new();
    let mut pos: usize = 0;
    assert(v@.skip(0) =~= v@);
    loop
        invariant
            pos <= v@.len(),
            v@ == markdown@,
            marker@ == cross_marker(),
            marker@.len() == 5,
            cross_links(v@) == out@ + cross_links(v@.skip(pos as int)),
        decreases v@.len() - pos,
    {
        let ghost t = v@.skip(pos as int);
        match find_after(&v, &marker, pos) {
            None => {
                push_range(&mut out, &v, pos, v.len());
                assert(t =~= v@.subrange(pos as int, v@.len() as int));
                return out;
            },
            Some(k) => {
                let at = pos + k;
                let after = at + 5;
                assert(t.take(k as int) =~= v@.subrange(pos as int, at as int));
                assert(t.skip(k + 5) =~= v@.skip(after as int));
                let ghost r = v@.skip(after as int);
                assert(find(t, cross_marker()) == Some(k as int));
                match inline_link(&v, pos, at) {
                    Some((b, e, d)) => {
                        assert(inline_parts(t.take(k as int), r) == Some((b as int, e as int, d as int)));
                        push_range(&mut out, &v, pos, pos + b);
                        assert(t.take(b as int) =~= v@.subrange(pos as int, pos + b));
                        push_range(&mut out, &v, pos + b + 1, at);
                        assert(t.subrange(b + 1, k as int) =~= v@.subrange(pos + b + 1, at as int));
                        out.append(" (use skill `/");
                        push_range(&mut out, &v, after, after + d);
                        assert(r.take(d as int) =~= v@.subrange(after as int, after + d));
                        out.append("`)");
                        assert(r.skip(e + 1) =~= v@.skip(after + e + 1));
                        pos = after + e + 1;
                    },
                    None => {
                        assert(inline_parts(t.take(k as int), r) is None);
                        push_range(&mut out, &v, pos, after);
                        assert(t.take(k + 5) =~= v@.subrange(pos as int, after as int));
                        pos = after;
                    },
                }
            },
        }
    }
}

/// Writes the main page as `SKILL.md` holds it: links to other crates become
/// `text (use skill `/crate`)`, and relative `slug.html` links to known
/// reference slugs become `references/slug.md`.
pub fn rewrite_reference_links(markdown: &str, references: &Vec<SkillPage>) -> (res: String)
    ensures
        res@ == rewrite_links(markdown@, references@),
{
    let mut result = cross_link_text(markdown);
    let mut i: usize = 0;
    proof {
        reveal_strlit("(");
        reveal_strlit(".html");
    }
    while i < references.len()
        invariant
            i <= references@.len(),
            result@ == ref_links(cross_links(markdown@), references@.take(i as int)),
        decreases references.len() - i,
    {
        proof {
            reveal_strlit("(");
            reveal_strlit(".html");
        }
        let slug = references[i].slug.as_str();
        let from = concat3("(", slug, ".html");
        let to = concat3("(references/", slug, ".md");
        result = replace_str(result.as_str(), from.as_str(), to.as_str());
        assert(references@.take(i + 1).drop_last() =~= references@.take(i as int));
        i = i + 1;
    }
    assert(references@.take(references@.len() as int) =~= references@);
    result
}

/// The links of one category: a `* [name](references/slug.md)` line each.
pub open spec fn item_lines(entries: Seq<(String, String)>) -> Seq<char>
    decreases entries.len(),
{
    if entries.len() == 0 {
        seq![]
    } else {
        item_lines(entries.drop_last()) + "* ["@ + entries.last().0@ + "](references/"@
            + entries.last().1@ + ".md)\n"@
    }
}

/// The categories, each under a `#### category` heading.
pub open spec fn category_blocks(items: Seq<(String, Vec<(String, String)>)>) -> Seq<char>
    decreases items.len(),
{
    if items.len() == 0 {
        seq![]
    } else {
        category_blocks(items.drop_last()) + "\n#### "@ + items.last().0@ + "\n\n"@ + item_lines(
            items.last().1@,
        )
    }
}

/// The `### Items` section, empty when there are no categories.
pub open spec fn items_section(items: Seq<(String, Vec<(String, String)>)>) -> Seq<char> {
    if items.len() == 0 {
        seq![]
    } else {
        "\n### Items\n"@ + category_blocks(items)
    }
}

pub fn build_items_section(items: &Vec<(String, Vec<(String, String)>)>) -> (res: String)
    ensures
        res@ == items_section(items@),
{
    if items.len() == 0 {
        return String::new();
    }
    let mut s = "\n### Items\n".to_owned();
    let mut i: usize = 0;
    while i < items.len()
        invariant
            i <= items@.len(),
            s@ == "\n### Items\n"@ + category_blocks(items@.take(i as int)),
        decreases items.len() - i,
    {
        let (category, entries) = (&items[i].0, &items[i].1);
        s.append("\n#### ");
        s.append(category.as_str());
        s.append("\n\n");
        let ghost before = s@;
        let mut j: usize = 0;
        while j < entries.len()
            invariant
                j <= entries@.len(),
                s@ == before + item_lines(entries@.take(j as int)),
            decreases entries.len() - j,
        {
            s.append("* [");
            s.append(entries[j].0.as_str());
            s.append("](references/");
            s.append(entries[j].1.as_str());
            s.append(".md)\n");
            assert(entries@.take(j + 1).drop_last() =~= entries@.take(j as int));
            j = j + 1;
        }
        assert(entries@.take(entries@.len() as int) =~= entries@);
        assert(items@.take(i + 1).drop_last() =~= items@.take(i as int));
        assert(items@.take(i + 1).last() == items@[i as int]);
        i = i + 1;
    }
    assert(items@.take(items@.len() as int) =~= items@);
    s
}

/// The files of a skill: the directory (named after the package), the
/// `SKILL.md` and `doc.skill` texts, and a `(file name, text)` pair for each
/// reference page, in reference order.
pub struct SkillFiles {
    pub dir_name: String,
    pub skill_md: String,
    pub doc_skill: String,
    pub references: Vec<(String, String)>,
}

/// `SKILL.md`: frontmatter, the main page with its reference links
/// rewritten, then the items section.
pub open spec fn skill_md_text(info: SkillInfo) -> Seq<char> {
    frontmatter(info.name@, info.description@, info.license@, info.author@, info.version@)
        + rewrite_links(info.page.markdown@, info.references@) + items_section(info.items@)
}

/// `doc.skill`: the package name and version, and the generator version.
pub open spec fn doc_skill_text(name: Seq<char>, version: Seq<char>) -> Seq<char> {
    "name = \""@ + name + "\"\nversion = \""@ + version + "\"\ngen = \"v1\"\n"@
}

/// What `write_skill` writes for `info`, without writing it: every reference
/// page goes to `references/<slug>.md` with its markdown as is.
pub fn skill_files(info: &SkillInfo) -> (files: SkillFiles)
    ensures
        files.dir_name@ == info.name@,
        files.skill_md@ == skill_md_text(*info),
        files.doc_skill@ == doc_skill_text(info.name@, info.version@),
        files.references@.len() == info.references@.len(),
        forall|i: int|
            0 <= i < info.references@.len() ==> (#[trigger] files.references@[i]).0@
                == info.references@[i].slug@ + ".md"@ && files.references@[i].1@
                == info.references@[i].markdown@,
{
    let frontmatter = build_frontmatter(info);
    let skill_markdown = rewrite_reference_links(info.page.markdown.as_str(), &info.references);
    let items_section = build_items_section(&info.items);
    let mut skill_md = frontmatter;
    skill_md.append(skill_markdown.as_str());
    skill_md.append(items_section.as_str());
    let mut doc_skill = "name = \"".to_owned();
    doc_skill.append(info.name.as_str());
    doc_skill.append("\"\nversion = \"");
    doc_skill.append(info.version.as_str());
    doc_skill.append("\"\ngen = \"v1\"\n");
    let mut references: Vec<(String, String)> = Vec::new();
    let mut i: usize = 0;
    while i < info.references.len()
        invariant
            i <= info.references@.len(),
            references@.len() == i,
            forall|k: int|
                0 <= k < i ==> (#[trigger] references@[k]).0@ == info.references@[k].slug@
                    + ".md"@ && references@[k].1@ == info.references@[k].markdown@,
        decreases info.references.len() - i,
    {
        let mut file = info.references[i].slug.clone();
        file.append(".md");
        references.push((file, info.references[i].markdown.clone()));
        i = i + 1;
    }
    SkillFiles { dir_name: info.name.clone(), skill_md, doc_skill, references }
}

} // verus!
