//! What the library takes from HTML pages and URLs, through `scraper`,
//! `htmd` and `url` (as `reqwest` re-exports it). Each function parses its
//! input and hands back plain strings; the contracts name what comes back.
//! Which elements are read is the caller's choice: the selectors are
//! arguments.
use vstd::prelude::*;

verus! {

/// An element that a selector matched: its outer HTML (`ElementRef::html`),
/// its inner HTML (`ElementRef::inner_html`) and its text
/// (`ElementRef::text`, concatenated).
pub struct HtmlNode {
    pub outer_html: String,
    pub inner_html: String,
    pub text: String,
}

/// A matched element as `(outer HTML, inner HTML, text)`.
pub type NodeView = (Seq<char>, Seq<char>, Seq<char>);

impl DeepView for HtmlNode {
    type V = NodeView;

    open spec fn deep_view(&self) -> NodeView {
        (self.outer_html@, self.inner_html@, self.text@)
    }
}

/// The elements of a document (parsed by `scraper::Html::parse_document`)
/// that match `selector`, in document order; `None` where the selector does
/// not parse. Attributes are written out in document order (scraper's
/// `deterministic` feature, which Cargo.toml turns on), so the HTML depends
/// on the input alone.
pub uninterp spec fn document_matches(html: Seq<char>, selector: Seq<char>) -> Option<Seq<NodeView>>;

/// For each element of a document matching `selector`, in document order,
/// its attribute `attr` (if it has one); `None` where the selector does not
/// parse.
pub uninterp spec fn document_match_attrs(html: Seq<char>, selector: Seq<char>, attr: Seq<char>) -> Option<Seq<Option<Seq<char>>>>;

/// For each element of a fragment (parsed by `scraper::Html::parse_fragment`)
/// matching `outer`, in document order: its attribute `attr` (if it has
/// one), and for each selector of `inners`, the elements inside it that
/// match, in document order; `None` where a selector does not parse.
pub uninterp spec fn fragment_groups(
    html: Seq<char>,
    outer: Seq<char>,
    attr: Seq<char>,
    inners: Seq<Seq<char>>,
) -> Option<Seq<(Option<Seq<char>>, Seq<Seq<NodeView>>)>>;

/// What `htmd::convert` makes of an HTML text; `None` where it fails.
pub uninterp spec fn htmd_markdown(html: Seq<char>) -> Option<Seq<char>>;

/// `href` resolved against the URL `base`, serialised; `None` where `base`
/// is no URL or `href` does not resolve against it.
pub uninterp spec fn url_joined(base: Seq<char>, href: Seq<char>) -> Option<Seq<char>>;

/// The last `/`-separated segment of a URL's path; `None` where `url` is no
/// URL or has no path segments.
pub uninterp spec fn url_last_path_segment(url: Seq<char>) -> Option<Seq<char>>;

/// Parses `selector` with `scraper::Selector::parse` and `html` with
/// `scraper::Html::parse_document`, and returns each match's outer HTML,
/// inner HTML and text.
#[verifier::external_body]
pub(crate) fn select_document(html: &str, selector: &str) -> (res: Option<Vec<HtmlNode>>)
    ensures
        res.deep_view() == document_matches(html@, selector@),
{
    let sel = scraper::Selector::parse(selector).ok()?;
    let doc = scraper::Html::parse_document(html);
    Some(doc.select(&sel).map(|e| HtmlNode { outer_html: e.html(), inner_html: e.inner_html(), text: e.text().collect() }).collect())
}

/// Parses `selector` and `html` as `select_document` does, and returns the
/// attribute `attr` of each match (`Element::attr`).
#[verifier::external_body]
pub(crate) fn select_document_attr(html: &str, selector: &str, attr: &str) -> (res: Option<Vec<Option<String>>>)
    ensures
        res.deep_view() == document_match_attrs(html@, selector@, attr@),
{
    let sel = scraper::Selector::parse(selector).ok()?;
    let doc = scraper::Html::parse_document(html);
    Some(doc.select(&sel).map(|e| e.value().attr(attr).map(|a| a.to_owned())).collect())
}

/// Parses the selectors with `scraper::Selector::parse` and `html` with
/// `scraper::Html::parse_fragment`; for each match of `outer` returns its
/// attribute `attr` and, per inner selector, `ElementRef::select` of it.
#[verifier::external_body]
pub(crate) fn select_fragment_groups(html: &str, outer: &str, attr: &str, inners: &Vec<String>) -> (res: Option<Vec<(Option<String>, Vec<Vec<HtmlNode>>)>>)
    ensures
        res.deep_view() == fragment_groups(html@, outer@, attr@, inners.deep_view()),
{
    let out = scraper::Selector::parse(outer).ok()?;
    let ins = inners.iter().map(|s| scraper::Selector::parse(s).ok()).collect::<Option<Vec<_>>>()?;
    let doc = scraper::Html::parse_fragment(html);
    Some(doc.select(&out).map(|o| (o.value().attr(attr).map(|a| a.to_owned()), ins.iter().map(|s| o.select(s).map(|e| HtmlNode { outer_html: e.html(), inner_html: e.inner_html(), text: e.text().collect() }).collect()).collect())).collect())
}

/// Calls `htmd::convert`; its error becomes `None`.
#[verifier::external_body]
pub(crate) fn html_to_markdown(html: &str) -> (res: Option<String>)
    ensures
        res.deep_view() == htmd_markdown(html@),
{
    htmd::convert(html).ok()
}

/// Parses `base` with `Url::parse` and resolves `href` with `Url::join`,
/// returning `Url::as_str` of the result. (A URL's serialisation parses back
/// to the same URL, so this resolves against the URL `base` was printed from.)
#[verifier::external_body]
pub(crate) fn url_join(base: &str, href: &str) -> (res: Option<String>)
    ensures
        res.deep_view() == url_joined(base@, href@),
{
    let url = reqwest::Url::parse(base).ok()?;
    url.join(href).ok().map(|u| u.as_str().to_owned())
}

/// Parses `url` with `Url::parse` and returns the last item of `Url::path_segments`.
#[verifier::external_body]
pub(crate) fn url_last_segment(url: &str) -> (res: Option<String>)
    ensures
        res.deep_view() == url_last_path_segment(url@),
{
    let url = reqwest::Url::parse(url).ok()?;
    url.path_segments()?.next_back().map(|s| s.to_owned())
}

} // verus!
