//! npm registry metadata and npmx.dev API docs.
use vstd::prelude::*;

use crate::error::FetchError;
use crate::html::{fragment_groups, html_to_markdown, htmd_markdown, select_fragment_groups, HtmlNode, NodeView};
use crate::json::{as_str, field, item, json_field, json_item, json_str, opt, str_or, JsonValue};
use crate::skill::{insert_reference, refs_insert, PageView, SkillInfo, SkillPage};
use crate::text::{
    chars_of, concat2, concat3, find_char, find_char_after, lemma_find_char_at, str_eq,
    string_of_range, trim, trimmed,
};
use crate::order::seq_less;
use crate::typescript::target::NpmTarget;

verus! {

// ---------------------------------------------------------------------------
// Registry metadata
// ---------------------------------------------------------------------------

/// The npm registry address of a package version (or dist-tag).
pub fn registry_url(name: &str, version_spec: &str) -> (url: String)
    ensures
        url@ == "https://registry.npmjs.org/"@ + name@ + "/"@ + version_spec@,
{
    let mut s = concat3("https://registry.npmjs.org/", name, "/");
    s.append(version_spec);
    s
}

/// The version a target asks the registry for: its own, else `latest`.
pub fn version_spec_of(target: &NpmTarget) -> (spec: String)
    ensures
        spec@ == match target.version.deep_view() {
            Some(v) => v,
            None => "latest"@,
        },
{
    match &target.version {
        Some(v) => v.clone(),
        None => "latest".to_owned(),
    }
}

/// The CDN address of a package version's README.
pub fn readme_url(name: &str, version: &str) -> (url: String)
    ensures
        url@ == "https://cdn.jsdelivr.net/npm/"@ + name@ + "@"@ + version@ + "/README.md"@,
{
    let mut s = concat3("https://cdn.jsdelivr.net/npm/", name, "@");
    s.append(version);
    s.append("/README.md");
    s
}

/// The npmx.dev address of a package version's API docs.
pub fn npmx_docs_url(name: &str, version: &str) -> (url: String)
    ensures
        url@ == "https://npmx.dev/api/registry/docs/"@ + name@ + "/v/"@ + version@,
{
    let mut s = concat3("https://npmx.dev/api/registry/docs/", name, "/v/");
    s.append(version);
    s
}

/// The first of the candidates that is a non-empty string, else `unknown`.
pub open spec fn first_author(candidates: Seq<Option<Seq<char>>>) -> Seq<char>
    decreases candidates.len(),
{
    if candidates.len() == 0 {
        "unknown"@
    } else {
        match candidates[0] {
            Some(s) => if s.len() > 0 {
                s
            } else {
                first_author(candidates.drop_first())
            },
            None => first_author(candidates.drop_first()),
        }
    }
}

/// `(version, description, license, author, readme)` of a registry answer:
/// the license is the `license` string or the `type` of a `license` object,
/// else `unknown`; the author is the first non-empty of `author.name`, an
/// `author` string and the first maintainer's name, else `unknown`. An
/// error where the answer has no version.
pub open spec fn npm_metadata_of(resp: JsonValue) -> Option<(Seq<char>, Seq<char>, Seq<char>, Seq<char>, Seq<char>)> {
    let r = Some(resp);
    match json_str(json_field(r, "version"@)) {
        None => None,
        Some(version) => Some(
            (
                version,
                match json_str(json_field(r, "description"@)) {
                    Some(d) => d,
                    None => seq![],
                },
                match json_str(json_field(r, "license"@)) {
                    Some(l) => l,
                    None => match json_str(json_field(json_field(r, "license"@), "type"@)) {
                        Some(l) => l,
                        None => "unknown"@,
                    },
                },
                first_author(
                    seq![
                        json_str(json_field(json_field(r, "author"@), "name"@)),
                        json_str(json_field(r, "author"@)),
                        json_str(json_field(json_item(json_field(r, "maintainers"@), 0), "name"@)),
                    ],
                ),
                match json_str(json_field(r, "readme"@)) {
                    Some(m) => m,
                    None => seq![],
                },
            ),
        ),
    }
}

/// Reads `(version, description, license, author, readme)` out of the npm
/// registry's answer for the package `name`.
pub fn npm_metadata(resp: &JsonValue, name: &str) -> (res: Result<(String, String, String, String, String), FetchError>)
    ensures
        match res {
            Ok((v, d, l, a, m)) => npm_metadata_of(*resp) == Some((v@, d@, l@, a@, m@)),
            Err(e) => npm_metadata_of(*resp) is None && match e {
                FetchError::MissingNpmVersion(n) => n@ == name@,
                _ => false,
            },
        },
{
    let r = Some(resp);
    let version = match as_str(field(r, "version")) {
        Some(v) => v.clone(),
        None => return Err(FetchError::MissingNpmVersion(name.to_owned())),
    };
    proof {
        reveal_strlit("");
    }
    let description = str_or(field(r, "description"), "");
    let license = match as_str(field(r, "license")) {
        Some(l) => l.clone(),
        None => str_or(field(field(r, "license"), "type"), "unknown"),
    };
    let candidates = [
        as_str(field(field(r, "author"), "name")),
        as_str(field(r, "author")),
        as_str(field(item(field(r, "maintainers"), 0), "name")),
    ];
    let mut author = "unknown".to_owned();
    let ghost cands = seq![
        json_str(json_field(json_field(Some(*resp), "author"@), "name"@)),
        json_str(json_field(Some(*resp), "author"@)),
        json_str(json_field(json_item(json_field(Some(*resp), "maintainers"@), 0), "name"@)),
    ];
    let mut i: usize = 3;
    while i > 0
        invariant
            i <= 3,
            cands.len() == 3,
            forall|k: int| 0 <= k < 3 ==> (#[trigger] candidates@[k]).deep_view() == cands[k],
            author@ == first_author(cands.skip(i as int)),
        decreases i,
    {
        i = i - 1;
        assert(cands.skip(i as int)[0] == cands[i as int]);
        assert(cands.skip(i as int).drop_first() =~= cands.skip(i + 1));
        match candidates[i] {
            Some(s) => {
                if !s.as_str().is_empty() {
                    author = s.clone();
                }
            },
            None => {},
        }
    }
    assert(cands.skip(0) =~= cands);
    let readme = str_or(field(r, "readme"), "");
    Ok((version, description, license, author, readme))
}

// ---------------------------------------------------------------------------
// npmx.dev API docs
// ---------------------------------------------------------------------------

/// What an npmx.dev article is, as `(id, signature, description)`.
pub type ArticleView = (Seq<char>, Option<Seq<char>>, Option<(Seq<char>, Seq<char>)>);

/// One `article[id]` of npmx.dev's API docs: its `id`, the text of its
/// signature, and the inner HTML and text of its description.
pub struct NpmxArticle {
    pub id: String,
    pub signature: Option<String>,
    pub description: Option<(String, String)>,
}

impl NpmxArticle {
    pub open spec fn spec_view(&self) -> ArticleView {
        (
            self.id@,
            self.signature.deep_view(),
            match self.description {
                Some((h, t)) => Some((h@, t@)),
                None => None,
            },
        )
    }
}

/// The selectors of an article's signature and description, in that order.
pub open spec fn article_parts() -> Seq<Seq<char>> {
    seq![".docs-signature"@, ".docs-description"@]
}

/// An article as read from its matches: its `id` (empty where it has none),
/// the text of its first signature, and the inner HTML and text of its first
/// description.
pub open spec fn article_of(g: (Option<Seq<char>>, Seq<Seq<NodeView>>)) -> ArticleView {
    (
        match g.0 {
            Some(i) => i,
            None => seq![],
        },
        if g.1.len() > 0 && g.1[0].len() > 0 {
            Some(g.1[0][0].2)
        } else {
            None
        },
        if g.1.len() > 1 && g.1[1].len() > 0 {
            Some((g.1[1][0].1, g.1[1][0].2))
        } else {
            None
        },
    )
}

/// The articles of an npmx.dev docs fragment, in document order: each
/// `article[id]` with its `.docs-signature` and `.docs-description`.
pub open spec fn npmx_articles(html: Seq<char>) -> Seq<ArticleView> {
    match fragment_groups(html, "article[id]"@, "id"@, article_parts()) {
        Some(gs) => gs.map_values(|g: (Option<Seq<char>>, Seq<Seq<NodeView>>)| article_of(g)),
        None => seq![],
    }
}

/// The first match's text, if there is one.
fn first_text(ns: &Vec<HtmlNode>) -> (t: Option<String>)
    ensures
        t.deep_view() == if ns.deep_view().len() > 0 {
            Some(ns.deep_view()[0].2)
        } else {
            None::<Seq<char>>
        },
{
    if ns.len() > 0 {
        assert(ns.deep_view()[0] == ns@[0].deep_view());
        Some(ns[0].text.clone())
    } else {
        None
    }
}

/// The first match's inner HTML and text, if there is one.
fn first_inner(ns: &Vec<HtmlNode>) -> (t: Option<(String, String)>)
    ensures
        match t {
            Some((h, x)) => ns.deep_view().len() > 0 && ns.deep_view()[0].1 == h@
                && ns.deep_view()[0].2 == x@,
            None => ns.deep_view().len() == 0,
        },
{
    if ns.len() > 0 {
        assert(ns.deep_view()[0] == ns@[0].deep_view());
        Some((ns[0].inner_html.clone(), ns[0].text.clone()))
    } else {
        None
    }
}

/// The articles of an npmx.dev docs fragment (see `npmx_articles`).
fn articles(html: &str) -> (res: Vec<NpmxArticle>)
    ensures
        res@.map_values(|a: NpmxArticle| a.spec_view()) == npmx_articles(html@),
{
    let mut parts: Vec<String> = Vec::new();
    parts.push(".docs-signature".to_owned());
    parts.push(".docs-description".to_owned());
    assert(parts.deep_view() =~= article_parts());
    let mut out: Vec<NpmxArticle> = Vec::new();
    match select_fragment_groups(html, "article[id]", "id", &parts) {
        Some(gs) => {
            let ghost gv = gs.deep_view();
            let mut i: usize = 0;
            while i < gs.len()
                invariant
                    i <= gs@.len(),
                    gv == gs.deep_view(),
                    out@.map_values(|a: NpmxArticle| a.spec_view()) == gv.take(i as int).map_values(
                        |g: (Option<Seq<char>>, Seq<Seq<NodeView>>)| article_of(g),
                    ),
                decreases gs.len() - i,
            {
                let g = &gs[i];
                assert(gv[i as int] == g.deep_view());
                assert(g.1.deep_view().len() == g.1@.len());
                let id = match &g.0 {
                    Some(x) => x.clone(),
                    None => String::new(),
                };
                let signature = if g.1.len() > 0 {
                    assert(g.1.deep_view()[0] == g.1@[0].deep_view());
                    first_text(&g.1[0])
                } else {
                    None
                };
                let description = if g.1.len() > 1 {
                    assert(g.1.deep_view()[1] == g.1@[1].deep_view());
                    first_inner(&g.1[1])
                } else {
                    None
                };
                let a = NpmxArticle { id, signature, description };
                assert(a.spec_view() == article_of(gv[i as int]));
                let ghost prev = out@.map_values(|a: NpmxArticle| a.spec_view());
                out.push(a);
                assert(out@.map_values(|a: NpmxArticle| a.spec_view()) =~= prev.push(a.spec_view()));
                assert(gv.take(i + 1).map_values(
                    |g: (Option<Seq<char>>, Seq<Seq<NodeView>>)| article_of(g),
                ) =~= gv.take(i as int).map_values(
                    |g: (Option<Seq<char>>, Seq<Seq<NodeView>>)| article_of(g),
                ).push(article_of(gv[i as int])));
                i = i + 1;
            }
            assert(gv.take(gv.len() as int) =~= gv);
        },
        None => {
            assert(out@.map_values(|a: NpmxArticle| a.spec_view()) =~= Seq::<ArticleView>::empty());
        },
    }
    out
}

/// The item kinds taken from npmx.dev, in display order: the article id
/// prefix of each, its slug prefix and its category.
pub open spec fn kind_info(kind: Seq<char>) -> Option<(int, Seq<char>)> {
    if kind == "function"@ {
        Some((0, "fn"@))
    } else if kind == "class"@ {
        Some((1, "class"@))
    } else if kind == "interface"@ {
        Some((2, "interface"@))
    } else if kind == "variable"@ {
        Some((3, "variable"@))
    } else {
        None
    }
}

/// The display category of a kind.
pub open spec fn category_name(k: int) -> Seq<char> {
    if k == 0 {
        "Functions"@
    } else if k == 1 {
        "Classes"@
    } else if k == 2 {
        "Interfaces"@
    } else {
        "Variables"@
    }
}

/// The markdown of an article: its trimmed signature in a TypeScript fence
/// where it has one, then its trimmed description (converted by `htmd`, or
/// its plain text where that fails).
pub open spec fn article_markdown(sig: Option<Seq<char>>, desc: Option<(Seq<char>, Seq<char>)>) -> Seq<char> {
    let signature = match sig {
        Some(s) => s,
        None => seq![],
    };
    let description = match desc {
        Some((h, t)) => match htmd_markdown(h) {
            Some(m) => m,
            None => t,
        },
        None => seq![],
    };
    (if signature.len() == 0 {
        seq![]
    } else {
        "```typescript\n"@ + trim(signature) + "\n```\n\n"@
    }) + (if description.len() == 0 {
        seq![]
    } else {
        trim(description) + "\n"@
    })
}

/// `(kind, name, slug, markdown)` of an article whose id is `<kind>-<name>`
/// with a known kind; `None` for any other article.
pub open spec fn article_entry(a: ArticleView) -> Option<(int, Seq<char>, Seq<char>, Seq<char>)> {
    match find_char(a.0, '-') {
        None => None,
        Some(d) => match kind_info(a.0.take(d)) {
            None => None,
            Some((k, prefix)) => Some(
                (k, a.0.skip(d + 1), prefix + "."@ + a.0.skip(d + 1), article_markdown(a.1, a.2)),
            ),
        },
    }
}

/// The reference pages of the articles, each stored under its slug (a later
/// article replaces an earlier one with the same slug).
pub open spec fn article_refs(arts: Seq<ArticleView>) -> Seq<PageView>
    decreases arts.len(),
{
    if arts.len() == 0 {
        seq![]
    } else {
        match article_entry(arts.last()) {
            Some((_, name, slug, md)) => refs_insert(article_refs(arts.drop_last()), (slug, name, md)),
            None => article_refs(arts.drop_last()),
        }
    }
}

/// The `(name, slug)` of the articles of kind `k`, in order.
pub open spec fn kind_entries(arts: Seq<ArticleView>, k: int) -> Seq<(Seq<char>, Seq<char>)>
    decreases arts.len(),
{
    if arts.len() == 0 {
        seq![]
    } else {
        match article_entry(arts.last()) {
            Some((kk, name, slug, _)) => if kk == k {
                kind_entries(arts.drop_last(), k).push((name, slug))
            } else {
                kind_entries(arts.drop_last(), k)
            },
            None => kind_entries(arts.drop_last(), k),
        }
    }
}

/// The item categories from kind `k` on, in display order, each with its
/// entries, categories without entries left out.
pub open spec fn article_items(arts: Seq<ArticleView>, k: int) -> Seq<(Seq<char>, Seq<(Seq<char>, Seq<char>)>)>
    decreases 4 - k,
{
    if k >= 4 {
        seq![]
    } else {
        (if kind_entries(arts, k).len() == 0 {
            seq![]
        } else {
            seq![(category_name(k), kind_entries(arts, k))]
        }) + article_items(arts, k + 1)
    }
}

/// The reference pages and items of an npmx.dev docs answer, both empty
/// where it carries no HTML.
pub open spec fn npmx_docs_of(resp: JsonValue) -> (Seq<PageView>, Seq<(Seq<char>, Seq<(Seq<char>, Seq<char>)>)>) {
    match json_str(json_field(Some(resp), "html"@)) {
        Some(h) => if h.len() == 0 {
            (seq![], seq![])
        } else {
            (article_refs(npmx_articles(h)), article_items(npmx_articles(h), 0))
        },
        None => (seq![], seq![]),
    }
}

/// The article id prefixes that name an item kind, in display order.
pub open spec fn npmx_kind_words() -> Seq<Seq<char>> {
    seq!["function"@, "class"@, "interface"@, "variable"@]
}

/// The slug prefix of each kind, in the same order.
pub open spec fn npmx_slug_words() -> Seq<Seq<char>> {
    seq!["fn"@, "class"@, "interface"@, "variable"@]
}

/// The category of each kind, in the same order.
pub open spec fn npmx_category_words() -> Seq<Seq<char>> {
    seq!["Functions"@, "Classes"@, "Interfaces"@, "Variables"@]
}

/// An article with id `<kind>-<name>` for one of the four kinds.
proof fn lemma_kind_article(a: ArticleView, j: int, n: Seq<char>)
    requires
        0 <= j < 4,
        a.0 == npmx_kind_words()[j] + "-"@ + n,
    ensures
        article_entry(a) == Some(
            (j, n, npmx_slug_words()[j] + "."@ + n, article_markdown(a.1, a.2)),
        ),
        category_name(j) == npmx_category_words()[j],
{
    reveal_strlit("function");
    reveal_strlit("class");
    reveal_strlit("interface");
    reveal_strlit("variable");
    reveal_strlit("fn");
    reveal_strlit("-");
    reveal_strlit("Functions");
    reveal_strlit("Classes");
    reveal_strlit("Interfaces");
    reveal_strlit("Variables");
    assert("function"@.len() == 8);
    assert("class"@.len() == 5);
    assert("interface"@.len() == 9);
    let kw = npmx_kind_words()[j];
    let d = kw.len() as int;
    assert(a.0[d] == '-');
    assert forall|i: int| 0 <= i < d implies a.0[i] != '-' by {
        assert(a.0[i] == kw[i]);
    }
    lemma_find_char_at(a.0, '-', d);
    assert(a.0.take(d) =~= kw);
    assert(a.0.skip(d + 1) =~= n);
    if j == 0 {
        assert(kw == "function"@);
        assert(kind_info(kw) == Some((0int, "fn"@)));
    } else if j == 1 {
        assert(kw == "class"@);
        assert(kw.len() != "function"@.len());
        assert(kind_info(kw) == Some((1int, "class"@)));
    } else if j == 2 {
        assert(kw == "interface"@);
        assert(kw.len() != "function"@.len());
        assert(kw.len() != "class"@.len());
        assert(kind_info(kw) == Some((2int, "interface"@)));
    } else {
        assert(kw == "variable"@);
        assert(kw[0] != "function"@[0]);
        assert(kw.len() != "class"@.len());
        assert(kw.len() != "interface"@.len());
        assert(kind_info(kw) == Some((3int, "variable"@)));
    }
}

/// A reference list keeps a page under every slug it had after another
/// page is stored, and holds the stored page's slug.
proof fn lemma_refs_insert_slugs(refs: Seq<PageView>, p: PageView)
    ensures
        exists|m: int| 0 <= m < refs_insert(refs, p).len() && #[trigger] refs_insert(refs, p)[m].0 == p.0,
        forall|i: int|
            0 <= i < refs.len() ==> exists|m: int|
                0 <= m < refs_insert(refs, p).len() && #[trigger] refs_insert(refs, p)[m].0
                    == #[trigger] refs[i].0,
    decreases refs.len(),
{
    let r = refs_insert(refs, p);
    if refs.len() == 0 {
        assert(r[0].0 == p.0);
    } else if refs[0].0 == p.0 {
        assert(r[0].0 == p.0);
        assert forall|i: int| 0 <= i < refs.len() implies exists|m: int|
            0 <= m < r.len() && #[trigger] r[m].0 == #[trigger] refs[i].0 by {
            assert(r[i].0 == refs[i].0);
        }
    } else if seq_less(p.0, refs[0].0) {
        assert(r[0].0 == p.0);
        assert forall|i: int| 0 <= i < refs.len() implies exists|m: int|
            0 <= m < r.len() && #[trigger] r[m].0 == #[trigger] refs[i].0 by {
            assert(r[i + 1].0 == refs[i].0);
        }
    } else {
        let t = refs.drop_first();
        lemma_refs_insert_slugs(t, p);
        let rt = refs_insert(t, p);
        assert(r == seq![refs[0]] + rt);
        let m0 = choose|m: int| 0 <= m < rt.len() && #[trigger] rt[m].0 == p.0;
        assert(r[m0 + 1].0 == p.0);
        assert forall|i: int| 0 <= i < refs.len() implies exists|m: int|
            0 <= m < r.len() && #[trigger] r[m].0 == #[trigger] refs[i].0 by {
            if i == 0 {
                assert(r[0].0 == refs[0].0);
            } else {
                assert(t[i - 1].0 == refs[i].0);
                let m1 = choose|m: int| 0 <= m < rt.len() && #[trigger] rt[m].0 == #[trigger] t[i - 1].0;
                assert(r[m1 + 1].0 == refs[i].0);
            }
        }
    }
}

/// Every article of a known kind has a reference page under its slug and an
/// entry among the articles of its kind.
proof fn lemma_article_kept(arts: Seq<ArticleView>, i: int, k: int, name: Seq<char>, slug: Seq<char>, md: Seq<char>)
    requires
        0 <= i < arts.len(),
        article_entry(arts[i]) == Some((k, name, slug, md)),
    ensures
        exists|m: int| 0 <= m < article_refs(arts).len() && #[trigger] article_refs(arts)[m].0 == slug,
        kind_entries(arts, k).contains((name, slug)),
    decreases arts.len(),
{
    let l = arts.drop_last();
    if i == arts.len() - 1 {
        assert(arts.last() == arts[i]);
        lemma_refs_insert_slugs(article_refs(l), (slug, name, md));
        let r = refs_insert(article_refs(l), (slug, name, md));
        assert(article_refs(arts) == r);
        let m0 = choose|m: int| 0 <= m < r.len() && #[trigger] r[m].0 == slug;
        assert(article_refs(arts)[m0].0 == slug);
        let ke = kind_entries(l, k).push((name, slug));
        assert(ke[ke.len() - 1] == (name, slug));
    } else {
        assert(l[i] == arts[i]);
        lemma_article_kept(l, i, k, name, slug, md);
        let m0 = choose|m: int| 0 <= m < article_refs(l).len() && #[trigger] article_refs(l)[m].0 == slug;
        match article_entry(arts.last()) {
            Some((kk, nn, ss, mm)) => {
                lemma_refs_insert_slugs(article_refs(l), (ss, nn, mm));
                assert(article_refs(l)[m0].0 == slug);
                let r = refs_insert(article_refs(l), (ss, nn, mm));
                assert(article_refs(arts) == r);
                let m1 = choose|m: int| 0 <= m < r.len() && #[trigger] r[m].0 == article_refs(l)[m0].0;
                assert(article_refs(arts)[m1].0 == slug);
                let ke = kind_entries(l, k);
                let e = choose|x: int| 0 <= x < ke.len() && ke[x] == (name, slug);
                if kk == k {
                    assert(ke.push((nn, ss))[e] == (name, slug));
                }
            },
            None => {
                assert(article_refs(arts) == article_refs(l));
                assert(article_refs(arts)[m0].0 == slug);
                assert(kind_entries(arts, k) == kind_entries(l, k));
            },
        }
    }
}

/// The item list from kind `j` on holds the category of each later kind
/// that has entries, with those entries.
proof fn lemma_items_hold(arts: Seq<ArticleView>, j: int, k: int)
    requires
        0 <= j <= k < 4,
        kind_entries(arts, k).len() > 0,
    ensures
        exists|m: int|
            0 <= m < article_items(arts, j).len() && #[trigger] article_items(arts, j)[m] == (
                category_name(k),
                kind_entries(arts, k),
            ),
    decreases k - j,
{
    let head: Seq<(Seq<char>, Seq<(Seq<char>, Seq<char>)>)> = if kind_entries(arts, j).len() == 0 {
        seq![]
    } else {
        seq![(category_name(j), kind_entries(arts, j))]
    };
    assert(article_items(arts, j) == head + article_items(arts, j + 1));
    if j == k {
        assert(article_items(arts, j)[0] == (category_name(k), kind_entries(arts, k)));
    } else {
        lemma_items_hold(arts, j + 1, k);
        let m0 = choose|m: int|
            0 <= m < article_items(arts, j + 1).len() && #[trigger] article_items(arts, j + 1)[m] == (
                category_name(k),
                kind_entries(arts, k),
            );
        assert(article_items(arts, j)[head.len() + m0] == article_items(arts, j + 1)[m0]);
    }
}

/// Each article whose id is `<kind>-<Name>` for one of the four kinds
/// (`function`, `class`, `interface`, `variable`) gets a reference page
/// under the slug `<prefix>.<Name>` (prefixes `fn`, `class`, `interface`,
/// `variable`), and an entry `(Name, <prefix>.<Name>)` under its category
/// (Functions, Classes, Interfaces, Variables) in the items.
pub proof fn law_npmx_article_listed(arts: Seq<ArticleView>, i: int, j: int, name: Seq<char>)
    requires
        0 <= i < arts.len(),
        0 <= j < 4,
        arts[i].0 == npmx_kind_words()[j] + "-"@ + name,
    ensures
        ({
            let slug = npmx_slug_words()[j] + "."@ + name;
            let items = article_items(arts, 0);
            &&& exists|m: int| 0 <= m < article_refs(arts).len() && #[trigger] article_refs(arts)[m].0 == slug
            &&& exists|m: int|
                0 <= m < items.len() && (#[trigger] items[m]).0 == npmx_category_words()[j]
                    && items[m].1.contains((name, slug))
        }),
{
    lemma_kind_article(arts[i], j, name);
    let slug = npmx_slug_words()[j] + "."@ + name;
    lemma_article_kept(arts, i, j, name, slug, article_markdown(arts[i].1, arts[i].2));
    lemma_items_hold(arts, 0, j);
}

/// A docs fragment that holds one article `<kind>-<Name>` gives exactly one
/// reference page, `<prefix>.<Name>` titled `Name` with the article's
/// markdown, and exactly one item category with that one entry; for an
/// `interface-Props` article: the page `interface.Props` and the items
/// `[("Interfaces", [("Props", "interface.Props")])]`.
pub proof fn law_npmx_single_article(a: ArticleView, j: int, name: Seq<char>)
    requires
        0 <= j < 4,
        a.0 == npmx_kind_words()[j] + "-"@ + name,
    ensures
        article_refs(seq![a]) == seq![
            (npmx_slug_words()[j] + "."@ + name, name, article_markdown(a.1, a.2)),
        ],
        article_items(seq![a], 0) == seq![
            (npmx_category_words()[j], seq![(name, npmx_slug_words()[j] + "."@ + name)]),
        ],
{
    lemma_kind_article(a, j, name);
    let arts = seq![a];
    let slug = npmx_slug_words()[j] + "."@ + name;
    assert(arts.last() == a);
    assert(arts.drop_last() =~= Seq::<ArticleView>::empty());
    assert(article_refs(arts.drop_last()) =~= Seq::<PageView>::empty());
    assert(article_refs(arts) =~= seq![(slug, name, article_markdown(a.1, a.2))]);
    assert forall|k: int| 0 <= k < 4 implies #[trigger] kind_entries(arts, k) == (if k == j {
        seq![(name, slug)]
    } else {
        Seq::<(Seq<char>, Seq<char>)>::empty()
    }) by {
        assert(kind_entries(arts.drop_last(), k) =~= Seq::<(Seq<char>, Seq<char>)>::empty());
        if k == j {
            assert(Seq::<(Seq<char>, Seq<char>)>::empty().push((name, slug)) =~= seq![(name, slug)]);
        }
    }
    let e: Seq<(Seq<char>, Seq<(Seq<char>, Seq<char>)>)> = seq![];
    let one = seq![(npmx_category_words()[j], seq![(name, slug)])];
    assert(article_items(arts, 4) =~= e);
    assert(kind_entries(arts, 3).len() == 0 || j == 3);
    if j == 3 {
        assert(article_items(arts, 3) =~= one);
    } else {
        assert(article_items(arts, 3) =~= e);
    }
    if j == 2 {
        assert(article_items(arts, 2) =~= one);
    } else if j < 2 {
        assert(article_items(arts, 2) =~= e);
    } else {
        assert(article_items(arts, 2) =~= one);
    }
    if j == 1 {
        assert(article_items(arts, 1) =~= one);
    } else if j < 1 {
        assert(article_items(arts, 1) =~= e);
    } else {
        assert(article_items(arts, 1) =~= one);
    }
    assert(article_items(arts, 0) =~= one);
}

fn kind_of(kind: &str) -> (res: Option<(usize, &'static str)>)
    ensures
        match res {
            Some((k, p)) => kind_info(kind@) == Some((k as int, p@)),
            None => kind_info(kind@) is None,
        },
{
    if str_eq(kind, "function") {
        Some((0, "fn"))
    } else if str_eq(kind, "class") {
        Some((1, "class"))
    } else if str_eq(kind, "interface") {
        Some((2, "interface"))
    } else if str_eq(kind, "variable") {
        Some((3, "variable"))
    } else {
        None
    }
}

fn category_of(k: usize) -> (c: &'static str)
    ensures
        c@ == category_name(k as int),
{
    if k == 0 {
        "Functions"
    } else if k == 1 {
        "Classes"
    } else if k == 2 {
        "Interfaces"
    } else {
        "Variables"
    }
}

fn article_markdown_of(a: &NpmxArticle) -> (md: String)
    ensures
        md@ == article_markdown(a.spec_view().1, a.spec_view().2),
{
    proof {
        reveal_strlit("");
    }
    let signature = match &a.signature {
        Some(s) => s.clone(),
        None => String::new(),
    };
    let description = match &a.description {
        Some((h, t)) => match html_to_markdown(h.as_str()) {
            Some(m) => m,
            None => t.clone(),
        },
        None => String::new(),
    };
    let mut markdown = String::new();
    if !signature.as_str().is_empty() {
        markdown.append("```typescript\n");
        let t = trimmed(signature.as_str());
        markdown.append(t.as_str());
        markdown.append("\n```\n\n");
    }
    if !description.as_str().is_empty() {
        let t = trimmed(description.as_str());
        markdown.append(t.as_str());
        markdown.append("\n");
    }
    markdown
}

/// `(kind, name, slug, markdown)` of an article, as `article_entry` has it.
fn article_entry_of(a: &NpmxArticle) -> (res: Option<(usize, String, String, String)>)
    ensures
        match res {
            Some((k, n, s, m)) => article_entry(a.spec_view()) == Some((k as int, n@, s@, m@)),
            None => article_entry(a.spec_view()) is None,
        },
{
    let id = chars_of(a.id.as_str());
    assert(id@.skip(0) =~= id@);
    let d = match find_char_after(&id, '-', 0) {
        Some(d) => d,
        None => return None,
    };
    let kind = string_of_range(&id, 0, d);
    assert(kind@ =~= id@.take(d as int));
    let (k, prefix) = match kind_of(kind.as_str()) {
        Some(x) => x,
        None => return None,
    };
    let name = string_of_range(&id, d + 1, id.len());
    assert(name@ =~= id@.skip(d + 1));
    let slug = concat3(prefix, ".", name.as_str());
    let markdown = article_markdown_of(a);
    Some((k, name, slug, markdown))
}

/// Pushes `x` on the bucket of kind `k`.
fn push_kind(
    b0: &mut Vec<(String, String)>,
    b1: &mut Vec<(String, String)>,
    b2: &mut Vec<(String, String)>,
    b3: &mut Vec<(String, String)>,
    k: usize,
    x: (String, String),
)
    requires
        k < 4,
    ensures
        final(b0).deep_view() == if k == 0 {
            old(b0).deep_view().push(x.deep_view())
        } else {
            old(b0).deep_view()
        },
        final(b1).deep_view() == if k == 1 {
            old(b1).deep_view().push(x.deep_view())
        } else {
            old(b1).deep_view()
        },
        final(b2).deep_view() == if k == 2 {
            old(b2).deep_view().push(x.deep_view())
        } else {
            old(b2).deep_view()
        },
        final(b3).deep_view() == if k == 3 {
            old(b3).deep_view().push(x.deep_view())
        } else {
            old(b3).deep_view()
        },
{
    let ghost xv = x.deep_view();
    if k == 0 {
        b0.push(x);
        assert(b0.deep_view() =~= old(b0).deep_view().push(xv));
    } else if k == 1 {
        b1.push(x);
        assert(b1.deep_view() =~= old(b1).deep_view().push(xv));
    } else if k == 2 {
        b2.push(x);
        assert(b2.deep_view() =~= old(b2).deep_view().push(xv));
    } else {
        b3.push(x);
        assert(b3.deep_view() =~= old(b3).deep_view().push(xv));
    }
}

/// The reference pages and items of npmx.dev's docs answer (best effort: an
/// answer without HTML gives neither).
#[verifier::rlimit(30)]
pub fn npmx_docs(resp: &JsonValue) -> (res: (Vec<SkillPage>, Vec<(String, Vec<(String, String)>)>))
    ensures
        (res.0.deep_view(), res.1.deep_view()) == npmx_docs_of(*resp),
{
    let html = str_or(field(Some(resp), "html"), "");
    proof {
        reveal_strlit("");
    }
    if html.as_str().is_empty() {
        let refs: Vec<SkillPage> = Vec::new();
        let items: Vec<(String, Vec<(String, String)>)> = Vec::new();
        assert(refs.deep_view() =~= Seq::<PageView>::empty());
        assert(items.deep_view() =~= Seq::<(Seq<char>, Seq<(Seq<char>, Seq<char>)>)>::empty());
        return (refs, items);
    }
    let arts = articles(html.as_str());
    let ghost av = arts@.map_values(|a: NpmxArticle| a.spec_view());
    let mut refs: Vec<SkillPage> = Vec::new();
    let mut b0: Vec<(String, String)> = Vec::new();
    let mut b1: Vec<(String, String)> = Vec::new();
    let mut b2: Vec<(String, String)> = Vec::new();
    let mut b3: Vec<(String, String)> = Vec::new();
    let mut i: usize = 0;
    while i < arts.len()
        invariant
            i <= arts@.len(),
            av == arts@.map_values(|a: NpmxArticle| a.spec_view()),
            refs.deep_view() == article_refs(av.take(i as int)),
            b0.deep_view() == kind_entries(av.take(i as int), 0),
            b1.deep_view() == kind_entries(av.take(i as int), 1),
            b2.deep_view() == kind_entries(av.take(i as int), 2),
            b3.deep_view() == kind_entries(av.take(i as int), 3),
        decreases arts.len() - i,
    {
        assert(av.take(i + 1).drop_last() =~= av.take(i as int));
        assert(av.take(i + 1).last() == arts@[i as int].spec_view());
        match article_entry_of(&arts[i]) {
            Some((k, name, slug, markdown)) => {
                insert_reference(
                    &mut refs,
                    SkillPage { slug: slug.clone(), title: name.clone(), markdown },
                );
                push_kind(&mut b0, &mut b1, &mut b2, &mut b3, k, (name, slug));
            },
            None => {},
        }
        i = i + 1;
    }
    assert(av.take(arts@.len() as int) =~= av);
    let mut items: Vec<(String, Vec<(String, String)>)> = Vec::new();
    let ghost e = seq![b0.deep_view(), b1.deep_view(), b2.deep_view(), b3.deep_view()];
    let ghost blocks = Seq::new(
        4,
        |k: int|
            if e[k].len() == 0 {
                Seq::<(Seq<char>, Seq<(Seq<char>, Seq<char>)>)>::empty()
            } else {
                seq![(category_name(k), e[k])]
            },
    );
    proof {
        assert forall|k: int| 0 <= k < 4 implies e[k] == kind_entries(av, k) by {}
        assert(article_items(av, 4) =~= Seq::<(Seq<char>, Seq<(Seq<char>, Seq<char>)>)>::empty());
        assert(article_items(av, 3) =~= blocks[3]);
        assert(article_items(av, 2) =~= blocks[2] + blocks[3]);
        assert(article_items(av, 1) =~= blocks[1] + blocks[2] + blocks[3]);
        assert(article_items(av, 0) =~= blocks[0] + blocks[1] + blocks[2] + blocks[3]);
    }
    if b0.len() > 0 {
        let ghost prev = items.deep_view();
        items.push((category_of(0).to_owned(), b0));
        assert(items.deep_view() =~= prev + blocks[0]);
    }
    assert(items.deep_view() =~= blocks[0]);
    if b1.len() > 0 {
        let ghost prev = items.deep_view();
        items.push((category_of(1).to_owned(), b1));
        assert(items.deep_view() =~= prev + blocks[1]);
    }
    assert(items.deep_view() =~= blocks[0] + blocks[1]);
    if b2.len() > 0 {
        let ghost prev = items.deep_view();
        items.push((category_of(2).to_owned(), b2));
        assert(items.deep_view() =~= prev + blocks[2]);
    }
    assert(items.deep_view() =~= blocks[0] + blocks[1] + blocks[2]);
    if b3.len() > 0 {
        let ghost prev = items.deep_view();
        items.push((category_of(3).to_owned(), b3));
        assert(items.deep_view() =~= prev + blocks[3]);
    }
    assert(items.deep_view() =~= blocks[0] + blocks[1] + blocks[2] + blocks[3]);
    (refs, items)
}

/// The skill of an npm package: the README from the CDN where it could be
/// fetched, else the registry's; the reference pages and items of npmx.dev's
/// docs where they could be fetched, else none.
pub fn npm_skill_info(
    target: &NpmTarget,
    metadata: (String, String, String, String, String),
    cdn_readme: Option<String>,
    docs: Option<(Vec<SkillPage>, Vec<(String, Vec<(String, String)>)>)>,
) -> (info: SkillInfo)
    ensures
        info.name@ == target.name@,
        info.version == metadata.0,
        info.description == metadata.1,
        info.license == metadata.2,
        info.author == metadata.3,
        info.page.slug@ == "index"@,
        info.page.title@.len() == 0,
        info.page.markdown == match cdn_readme {
            Some(r) => r,
            None => metadata.4,
        },
        match docs {
            Some((r, it)) => info.references == r && info.items == it,
            None => info.references@.len() == 0 && info.items@.len() == 0,
        },
{
    let (version, description, license, author, registry_readme) = metadata;
    let readme = match cdn_readme {
        Some(r) => r,
        None => registry_readme,
    };
    let (references, items) = match docs {
        Some(d) => d,
        None => (Vec::new(), Vec::new()),
    };
    SkillInfo {
        name: target.name.clone(),
        version,
        description,
        license,
        author,
        page: SkillPage { slug: "index".to_owned(), title: String::new(), markdown: readme },
        references,
        items,
    }
}

} // verus!
