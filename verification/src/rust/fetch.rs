//! Turning docs.rs pages into skill markdown.
use vstd::prelude::*;

use crate::crate_target::CrateTarget;
use crate::error::FetchError;
use crate::html::{
    document_match_attrs, document_matches, html_to_markdown, htmd_markdown, select_document,
    select_document_attr, url_join, url_joined, url_last_path_segment, url_last_segment, HtmlNode,
    NodeView,
};
use crate::json::{as_str, field, item, json_array, json_field, json_item, json_str, opt, str_or, JsonValue};
use crate::skill::{SkillInfo, SkillPage};
use crate::text::{
    concat2, concat3, ends_with, join, join_strings, replace_char, replace_char_str,
    str_ends_with, str_eq, str_starts_with, strip_suffix, strip_suffix_str,
    chars_of, count_leading, find, find_after, find_char, find_char_after, leading,
    lemma_find_bounds, lemma_find_char_at, lemma_find_char_none, lines, matches_at, occurs_at, next_line, push_all, push_char, push_range, slice_vec,
    starts_with, starts_with_at, strip_cr, trim_start, CharClass, lemma_leading_bounds, lemma_leading_char,
    in_class, is_digit, lemma_find_from_unique,
};

verus! {

// ---------------------------------------------------------------------------
// Section anchors
// ---------------------------------------------------------------------------

/// The `[§](#` that opens a section anchor link on docs.rs headings.
pub open spec fn anchor_marker() -> Seq<char> {
    "[\u{a7}](#"@
}

/// What follows an anchor marker once the anchor target is skipped: the
/// text after the first `)`, or all of it where there is none.
pub open spec fn after_anchor(r: Seq<char>) -> Seq<char> {
    match find_char(r, ')') {
        Some(e) => r.skip(e + 1),
        None => r,
    }
}

/// `s` with every `[§](#anchor)` link removed.
pub open spec fn strip_anchors(s: Seq<char>) -> Seq<char>
    decreases s.len(),
{
    match find(s, anchor_marker()) {
        None => s,
        Some(k) => {
            proof {
                reveal_strlit("[\u{a7}](#");
                lemma_find_bounds(s, anchor_marker());
                lemma_find_bounds(s.skip(k + anchor_marker().len()), seq![')']);
            }
            s.take(k) + strip_anchors(after_anchor(s.skip(k + anchor_marker().len())))
        },
    }
}

/// Text without `[` holds no section anchor and is left as it is.
pub proof fn law_anchor_free_kept(x: Seq<char>)
    requires
        !x.contains('['),
    ensures
        strip_anchors(x) == x,
{
    reveal_strlit("[\u{a7}](#");
    assert forall|j: int| 0 <= j implies !#[trigger] occurs_at(x, anchor_marker(), j) by {
        if occurs_at(x, anchor_marker(), j) {
            assert(x.subrange(j, j + 5)[0] == x[j]);
        }
    }
    lemma_find_from_unique(x, anchor_marker(), 0, None);
}

/// A section anchor `[§](#target)` is removed whole, up to and with its
/// closing `)`: the text before it stays, and what follows is stripped in
/// turn. `## Parser[§](#parser)` becomes `## Parser`.
pub proof fn law_anchor_link_removed(x: Seq<char>, target: Seq<char>, y: Seq<char>)
    requires
        !x.contains('['),
        !target.contains(')'),
    ensures
        strip_anchors(x + "[\u{a7}](#"@ + target + ")"@ + y) == x + strip_anchors(y),
{
    reveal_strlit("[\u{a7}](#");
    reveal_strlit(")");
    let m = anchor_marker();
    let s = x + m + target + ")"@ + y;
    let k = x.len() as int;
    assert(s.subrange(k, k + 5) =~= m);
    assert forall|j: int| 0 <= j < k implies !#[trigger] occurs_at(s, m, j) by {
        if occurs_at(s, m, j) {
            assert(s.subrange(j, j + 5)[0] == s[j]);
            assert(s[j] == x[j]);
        }
    }
    lemma_find_from_unique(s, m, 0, Some(k));
    let r = s.skip(k + 5);
    assert(r =~= target + ")"@ + y);
    let t = target.len() as int;
    assert(r[t] == ')');
    assert forall|j: int| 0 <= j < t implies r[j] != ')' by {
        assert(r[j] == target[j]);
    }
    lemma_find_char_at(r, ')', t);
    assert(r.skip(t + 1) =~= y);
    assert(s.take(k) =~= x);
}

/// Inside a code block a line that is no fence loses its leading digits
/// (the line numbers of scraped examples) and nothing else, and the block
/// stays open; a fence line closes the block and is written as it is.
pub proof fn law_code_line_numbers_dropped(l: Seq<char>, rest: Seq<Seq<char>>)
    ensures
        !starts_with(l, "```"@) ==> exists|n: int|
            #![trigger l.skip(n)]
            0 <= n <= l.len() && (forall|i: int| 0 <= i < n ==> is_digit(#[trigger] l[i])) && (n
                == l.len() || !is_digit(l[n])) && post_lines(seq![l] + rest, true) == l.skip(n)
                + seq!['\n'] + post_lines(rest, true),
        starts_with(l, "```"@) ==> post_lines(seq![l] + rest, true) == l + seq!['\n']
            + post_lines(rest, false),
{
    let ls = seq![l] + rest;
    assert(ls[0] == l);
    assert(ls.drop_first() =~= rest);
    lemma_leading_bounds(l, CharClass::Digit);
    let n = leading(l, CharClass::Digit) as int;
    assert(forall|i: int| 0 <= i < n ==> in_class(CharClass::Digit, #[trigger] l[i]));
    if !starts_with(l, "```"@) {
        assert(post_lines(ls, true) == l.skip(n) + seq!['\n'] + post_lines(rest, true));
        assert(n == l.len() || !in_class(CharClass::Digit, l[n]));
        assert(0 <= n <= l.len() && (forall|i: int| 0 <= i < n ==> is_digit(#[trigger] l[i])) && (n
            == l.len() || !is_digit(l[n])) && post_lines(seq![l] + rest, true) == l.skip(n)
            + seq!['\n'] + post_lines(rest, true));
    }
}

/// Removes `[§](#anchor)` section-link patterns docs.rs injects into headings.
pub fn strip_anchor_links(line: &str) -> (res: String)
    ensures
        res@ == strip_anchors(line@),
{
    let v = chars_of(line);
    anchors_stripped(&v)
}

/// `strip_anchors` of the characters in `v`.
fn anchors_stripped(v: &Vec<char>) -> (res: String)
    ensures
        res@ == strip_anchors(v@),
{
    let marker = chars_of("[\u{a7}](#");
    proof {
        reveal_strlit("[\u{a7}](#");
        assert(marker@.len() == 5);
    }
    let mut out = String::new();
    let mut pos: usize = 0;
    assert(v@.skip(0) =~= v@);
    loop
        invariant
            pos <= v@.len(),
            marker@ == anchor_marker(),
            marker@.len() == 5,
            strip_anchors(v@) == out@ + strip_anchors(v@.skip(pos as int)),
        decreases v@.len() - pos,
    {
        match find_after(v, &marker, pos) {
            None => {
                push_range(&mut out, v, pos, v.len());
                assert(v@.skip(pos as int) =~= v@.subrange(pos as int, v@.len() as int));
                return out;
            },
            Some(k) => {
                let ghost t = v@.skip(pos as int);
                push_range(&mut out, v, pos, pos + k);
                let after = pos + k + marker.len();
                assert(t.skip(k + marker@.len()) =~= v@.skip(after as int));
                assert(t.take(k as int) =~= v@.subrange(pos as int, pos + k));
                match find_char_after(v, ')', after) {
                    Some(e) => {
                        assert(v@.skip(after as int).skip(e + 1) =~= v@.skip(after + e + 1));
                        pos = after + e + 1;
                    },
                    None => {
                        pos = after;
                    },
                }
            },
        }
    }
}


// ---------------------------------------------------------------------------
// Tags inside code blocks
// ---------------------------------------------------------------------------

/// Tags kept by `strip_tags`: `<code ...>` and `</code>`, judged by what
/// stands between `<` and `>`.
pub open spec fn keeps_tag(inner: Seq<char>) -> bool {
    starts_with(inner, "code"@) || inner == "/code"@
}

/// `s` with every complete tag removed except `<code...>` and `</code>`;
/// text, and a `<` never closed by `>`, stay.
pub open spec fn strip_tags(s: Seq<char>) -> Seq<char>
    decreases s.len(),
{
    match find_char(s, '<') {
        None => s,
        Some(a) => {
            let r = s.skip(a);
            match find_char(r, '>') {
                None => s,
                Some(e) => {
                    proof {
                        lemma_find_bounds(s, seq!['<']);
                        lemma_find_bounds(r, seq!['>']);
                    }
                    s.take(a) + (if keeps_tag(r.subrange(1, e)) {
                        r.take(e + 1)
                    } else {
                        seq![]
                    }) + strip_tags(r.skip(e + 1))
                },
            }
        },
    }
}

/// Text without `<` ahead of the rest passes through the stripper as it is.
proof fn lemma_strip_text_prefix(x: Seq<char>, y: Seq<char>)
    requires
        !x.contains('<'),
    ensures
        strip_tags(x + y) == x + strip_tags(y),
{
    let s = x + y;
    lemma_find_bounds(y, seq!['<']);
    match find_char(y, '<') {
        None => {
            assert(!s.contains('<')) by {
                if s.contains('<') {
                    let i = choose|i: int| 0 <= i < s.len() && s[i] == '<';
                    if i < x.len() {
                        assert(x[i] == '<');
                    } else {
                        assert(s[i] == y[i - x.len()]);
                        assert(y.subrange(i - x.len(), i - x.len() + 1) =~= seq!['<']);
                        assert(occurs_at(y, seq!['<'], i - x.len()));
                    }
                }
            }
            lemma_find_char_none(s, '<');
        },
        Some(a) => {
            let k = x.len() + a;
            assert(y.subrange(a, a + 1)[0] == y[a]);
            assert forall|j: int| 0 <= j < k implies s[j] != '<' by {
                if j < x.len() {
                    assert(s[j] == x[j]);
                } else {
                    assert(s[j] == y[j - x.len()]);
                    if y[j - x.len()] == '<' {
                        assert(y.subrange(j - x.len(), j - x.len() + 1) =~= seq!['<']);
                        assert(occurs_at(y, seq!['<'], j - x.len()));
                    }
                }
            }
            lemma_find_char_at(s, '<', k);
            assert(s.skip(k) =~= y.skip(a));
            assert(s.take(k) =~= x + y.take(a));
        },
    }
}

/// A kept tag ahead of the rest passes through the stripper as it is.
proof fn lemma_strip_kept_tag_prefix(t: Seq<char>, y: Seq<char>)
    requires
        t.len() >= 2,
        t[0] == '<',
        t[t.len() - 1] == '>',
        forall|i: int| 0 <= i < t.len() - 1 ==> t[i] != '>',
        keeps_tag(t.subrange(1, t.len() - 1)),
    ensures
        strip_tags(t + y) == t + strip_tags(y),
{
    let s = t + y;
    lemma_find_char_at(s, '<', 0);
    assert(s.skip(0) =~= s);
    assert forall|j: int| 0 <= j < t.len() - 1 implies s[j] != '>' by {
        assert(s[j] == t[j]);
    }
    lemma_find_char_at(s, '>', t.len() - 1);
    assert(s.subrange(1, t.len() - 1) =~= t.subrange(1, t.len() - 1));
    assert(s.take(0) =~= Seq::<char>::empty());
    assert(s.take(t.len() as int) =~= t);
    assert(s.skip(t.len() as int) =~= y);
}

/// Stripping tags a second time changes nothing: what the first pass keeps
/// is text and `<code>` tags, which a second pass keeps again.
pub proof fn law_strip_tags_idempotent(s: Seq<char>)
    ensures
        strip_tags(strip_tags(s)) == strip_tags(s),
    decreases s.len(),
{
    lemma_find_bounds(s, seq!['<']);
    match find_char(s, '<') {
        None => {},
        Some(a) => {
            let r = s.skip(a);
            lemma_find_bounds(r, seq!['>']);
            match find_char(r, '>') {
                None => {},
                Some(e) => {
                    let x = s.take(a);
                    assert(!x.contains('<')) by {
                        if x.contains('<') {
                            let i = choose|i: int| 0 <= i < x.len() && x[i] == '<';
                            assert(s.subrange(i, i + 1) =~= seq!['<']);
                            assert(occurs_at(s, seq!['<'], i));
                        }
                    }
                    assert(s.subrange(a, a + 1)[0] == s[a]);
                    assert(r[0] == '<');
                    assert(r.subrange(e, e + 1)[0] == r[e]);
                    assert(e >= 1);
                    let z = r.skip(e + 1);
                    law_strip_tags_idempotent(z);
                    let sz = strip_tags(z);
                    if keeps_tag(r.subrange(1, e)) {
                        let t = r.take(e + 1);
                        assert(strip_tags(s) == x + t + sz);
                        assert(x + t + sz =~= x + (t + sz));
                        lemma_strip_text_prefix(x, t + sz);
                        assert forall|i: int| 0 <= i < t.len() - 1 implies t[i] != '>' by {
                            if r[i] == '>' {
                                assert(r.subrange(i, i + 1) =~= seq!['>']);
                                assert(occurs_at(r, seq!['>'], i));
                            }
                        }
                        assert(t.subrange(1, t.len() - 1) =~= r.subrange(1, e));
                        lemma_strip_kept_tag_prefix(t, sz);
                    } else {
                        assert(strip_tags(s) == x + Seq::<char>::empty() + sz);
                        assert(x + Seq::<char>::empty() + sz =~= x + sz);
                        lemma_strip_text_prefix(x, sz);
                    }
                },
            }
        },
    }
}

/// Text without `<` comes out of the stripper unchanged, newlines and all.
pub proof fn law_strip_tags_plain_text(s: Seq<char>)
    requires
        !s.contains('<'),
    ensures
        strip_tags(s) == s,
{
    lemma_find_char_none(s, '<');
}

/// `keeps_tag` of `v[from..to]`.
fn tag_is_kept(v: &Vec<char>, from: usize, to: usize) -> (b: bool)
    requires
        from <= to <= v@.len(),
    ensures
        b == keeps_tag(v@.subrange(from as int, to as int)),
{
    let inner = slice_vec(v, from, to);
    let code = chars_of("code");
    let close = chars_of("/code");
    proof {
        reveal_strlit("code");
        reveal_strlit("/code");
    }
    let a = starts_with_at(&inner, 0, &code);
    assert(inner@.skip(0) =~= inner@);
    let b = inner.len() == close.len() && matches_at(&inner, 0, &close);
    assert(b == (inner@ == close@)) by {
        if inner@.len() == close@.len() {
            assert(inner@.subrange(0, close@.len() as int) =~= inner@);
        }
    }
    a || b
}

/// Appends `strip_tags(v[from..])` to `out`.
fn push_stripped_tags(out: &mut String, v: &Vec<char>, from: usize)
    requires
        from <= v@.len(),
    ensures
        final(out)@ == old(out)@ + strip_tags(v@.skip(from as int)),
{
    let mut pos = from;
    loop
        invariant
            from <= pos <= v@.len(),
            old(out)@ + strip_tags(v@.skip(from as int)) == out@ + strip_tags(
                v@.skip(pos as int),
            ),
        decreases v@.len() - pos,
    {
        let ghost t = v@.skip(pos as int);
        match find_char_after(v, '<', pos) {
            None => {
                push_range(out, v, pos, v.len());
                assert(t =~= v@.subrange(pos as int, v@.len() as int));
                return ;
            },
            Some(a) => {
                let start = pos + a;
                assert(t.skip(a as int) =~= v@.skip(start as int));
                match find_char_after(v, '>', start) {
                    None => {
                        push_range(out, v, pos, v.len());
                        assert(t =~= v@.subrange(pos as int, v@.len() as int));
                        return ;
                    },
                    Some(e) => {
                        let ghost r = v@.skip(start as int);
                        assert(e >= 1) by {
                            assert(r[0] == '<');
                        }
                        push_range(out, v, pos, start);
                        assert(t.take(a as int) =~= v@.subrange(pos as int, start as int));
                        assert(r.subrange(1, e as int) =~= v@.subrange(start + 1, start + e));
                        if tag_is_kept(v, start + 1, start + e) {
                            push_range(out, v, start, start + e + 1);
                            assert(r.take(e + 1) =~= v@.subrange(start as int, start + e + 1));
                        }
                        assert(r.skip(e + 1) =~= v@.skip(start + e + 1));
                        pos = start + e + 1;
                    },
                }
            },
        }
    }
}

/// Strips inline tags (like `<span>`) from HTML, preserving structural tags
/// (`<code>`, `</code>`) and all text content (including `\n`).
/// htmd needs `<code>` inside `<pre>` to produce fenced code blocks.
pub fn strip_inline_tags(html: &str) -> (res: String)
    ensures
        res@ == strip_tags(html@),
{
    let v = chars_of(html);
    let mut out = String::new();
    push_stripped_tags(&mut out, &v, 0);
    assert(v@.skip(0) =~= v@);
    out
}


// ---------------------------------------------------------------------------
// `<pre>` blocks
// ---------------------------------------------------------------------------

/// `s` with the inside of every `<pre ...>...</pre>` block passed through
/// `strip_tags`, the opening tag kept as it was; `None` where a block's first
/// `>` comes after its `</pre>` starts, on which the rewrite cannot slice
/// the block.
pub open spec fn pre_blocks(s: Seq<char>) -> Option<Seq<char>>
    decreases s.len(),
{
    match find(s, "<pre"@) {
        None => Some(s),
        Some(p) => {
            let r = s.skip(p);
            match (find_char(r, '>'), find(r, "</pre>"@)) {
                (Some(o), Some(c)) => {
                    if c < o + 1 {
                        None
                    } else {
                        proof {
                            reveal_strlit("<pre");
                            reveal_strlit("</pre>");
                            lemma_find_bounds(s, "<pre"@);
                            lemma_find_bounds(r, "</pre>"@);
                        }
                        match pre_blocks(r.skip(c + 6)) {
                            None => None,
                            Some(t) => Some(
                                s.take(p) + r.take(o + 1) + strip_tags(r.subrange(o + 1, c))
                                    + "</pre>"@ + t,
                            ),
                        }
                    }
                },
                _ => Some(s),
            }
        },
    }
}

/// Replaces each `<pre>...</pre>` block with a tag-stripped version so that
/// `\n` text nodes between syntax-highlighting spans are preserved after
/// htmd conversion (htmd loses them when spans are adjacent with no space).
pub fn preprocess_pre_blocks(html: &str) -> (res: String)
    requires
        pre_blocks(html@) is Some,
    ensures
        res@ == pre_blocks(html@)->0,
{
    match try_preprocess_pre_blocks(html) {
        Some(res) => res,
        None => String::new(),
    }
}

/// `preprocess_pre_blocks` where it can slice every block, `None` where a
/// block's first `>` comes after its `</pre>` starts.
#[verifier::spinoff_prover]
#[verifier::rlimit(30)]
pub fn try_preprocess_pre_blocks(html: &str) -> (res: Option<String>)
    ensures
        match res {
            Some(r) => pre_blocks(html@) == Some(r@),
            None => pre_blocks(html@) is None,
        },
{
    let v = chars_of(html);
    let open = chars_of("<pre");
    let close = chars_of("</pre>");
    proof {
        reveal_strlit("<pre");
        reveal_strlit("</pre>");
    }
    let mut out = String::new();
    let mut pos: usize = 0;
    assert(v@.skip(0) =~= v@);
    loop
        invariant
            pos <= v@.len(),
            v@ == html@,
            open@ == "<pre"@,
            close@ == "</pre>"@,
            close@.len() == 6,
            pre_blocks(html@) == match pre_blocks(v@.skip(pos as int)) {
                Some(rest) => Some(out@ + rest),
                None => None,
            },
        decreases v@.len() - pos,
    {
        let ghost t = v@.skip(pos as int);
        match find_after(&v, &open, pos) {
            None => {
                push_range(&mut out, &v, pos, v.len());
                assert(t =~= v@.subrange(pos as int, v@.len() as int));
                return Some(out);
            },
            Some(p) => {
                let start = pos + p;
                let ghost r = v@.skip(start as int);
                assert(t.skip(p as int) =~= r);
                assert(t.take(p as int) =~= v@.subrange(pos as int, start as int));
                let o = find_char_after(&v, '>', start);
                let c = find_after(&v, &close, start);
                match (o, c) {
                    (Some(o), Some(c)) => {
                        if c < o + 1 {
                            return None;
                        }
                        push_range(&mut out, &v, pos, start);
                        push_range(&mut out, &v, start, start + o + 1);
                        assert(r.take(o + 1) =~= v@.subrange(start as int, start + o + 1));
                        let inner = slice_vec(&v, start + o + 1, start + c);
                        assert(r.subrange(o + 1, c as int) =~= inner@);
                        push_stripped_tags(&mut out, &inner, 0);
                        assert(inner@.skip(0) =~= inner@);
                        push_all(&mut out, &close);
                        assert(r.skip(c + 6) =~= v@.skip(start + c + 6));
                        pos = start + c + 6;
                    },
                    _ => {
                        push_range(&mut out, &v, pos, v.len());
                        assert(t =~= v@.subrange(pos as int, v@.len() as int));
                        return Some(out);
                    },
                }
            },
        }
    }
}


// ---------------------------------------------------------------------------
// Markdown post-processing
// ---------------------------------------------------------------------------

/// One line of the post-processing pass: the text written for `line` and
/// whether a code fence is open after it, given whether one was open before.
pub open spec fn fence_step(line: Seq<char>, in_fence: bool) -> (Seq<char>, bool) {
    if starts_with(line, "```"@) {
        if in_fence {
            (line, false)
        } else if trim_start(line, CharClass::Backtick).len() == 0 {
            ("```rust"@, true)
        } else {
            (line, true)
        }
    } else if in_fence {
        (trim_start(line, CharClass::Digit), true)
    } else if starts_with(line, "#"@) {
        (strip_anchors(line), false)
    } else {
        (line, false)
    }
}

/// The pass over `ls`, each written line followed by `\n`.
pub open spec fn post_lines(ls: Seq<Seq<char>>, in_fence: bool) -> Seq<char>
    decreases ls.len(),
{
    if ls.len() == 0 {
        seq![]
    } else {
        let (o, f) = fence_step(ls[0], in_fence);
        o + seq!['\n'] + post_lines(ls.drop_first(), f)
    }
}

/// What `postprocess_markdown` makes of `md`.
pub open spec fn postprocess(md: Seq<char>) -> Seq<char> {
    post_lines(lines(md), false)
}

/// The lines of a text that starts with a line `line` (holding no line
/// break and not ending in a carriage return) are `line`, then the lines of
/// the rest.
proof fn lemma_first_line(line: Seq<char>, rest: Seq<char>)
    requires
        !line.contains('\n'),
        line.len() == 0 || line.last() != '\r',
    ensures
        lines(line + seq!['\n'] + rest) == seq![line] + lines(rest),
{
    let s = line + seq!['\n'] + rest;
    assert forall|j: int| 0 <= j < line.len() implies s[j] != '\n' by {
        assert(s[j] == line[j]);
    }
    lemma_find_char_at(s, '\n', line.len() as int);
    assert(s.take(line.len() as int) =~= line);
    assert(s.skip(line.len() as int + 1) =~= rest);
}

/// Splitting into lines after a line break: the lines of `p + x` are those
/// of `p`, then those of `x`, where `p` is empty or ends with `\n`.
proof fn lemma_lines_append(p: Seq<char>, x: Seq<char>)
    requires
        p.len() == 0 || p.last() == '\n',
    ensures
        lines(p + x) == lines(p) + lines(x),
    decreases p.len(),
{
    if p.len() == 0 {
        assert(p + x =~= x);
        assert(lines(p) =~= Seq::<Seq<char>>::empty());
        assert(lines(p) + lines(x) =~= lines(x));
    } else {
        let s = p + x;
        lemma_find_bounds(p, seq!['\n']);
        if find_char(p, '\n') is None {
            assert(p.subrange(p.len() - 1, p.len() as int) =~= seq!['\n']);
            assert(occurs_at(p, seq!['\n'], p.len() - 1));
        }
        let k = find_char(p, '\n')->0;
        assert(p.subrange(k, k + 1)[0] == p[k]);
        assert forall|j: int| 0 <= j < k implies s[j] != '\n' by {
            assert(s[j] == p[j]);
            if p[j] == '\n' {
                assert(p.subrange(j, j + 1) =~= seq!['\n']);
                assert(occurs_at(p, seq!['\n'], j));
            }
        }
        lemma_find_char_at(s, '\n', k);
        assert(s.take(k) =~= p.take(k));
        let q = p.skip(k + 1);
        assert(s.skip(k + 1) =~= q + x);
        lemma_lines_append(q, x);
        assert(lines(p) == seq![strip_cr(p.take(k))] + lines(q));
        assert(lines(s) =~= lines(p) + lines(x));
    }
}

/// Lines that open no fence pass through outside a fence, and leave it
/// closed.
proof fn lemma_post_lines_append(a: Seq<Seq<char>>, b: Seq<Seq<char>>)
    requires
        forall|i: int| 0 <= i < a.len() ==> !starts_with(#[trigger] a[i], "```"@),
    ensures
        post_lines(a + b, false) == post_lines(a, false) + post_lines(b, false),
    decreases a.len(),
{
    if a.len() == 0 {
        assert(a + b =~= b);
        assert(post_lines(a, false) =~= Seq::<char>::empty());
        assert(post_lines(a, false) + post_lines(b, false) =~= post_lines(b, false));
    } else {
        let t = a.drop_first();
        assert forall|i: int| 0 <= i < t.len() implies !starts_with(#[trigger] t[i], "```"@) by {
            assert(t[i] == a[i + 1]);
        }
        lemma_post_lines_append(t, b);
        assert((a + b)[0] == a[0]);
        assert((a + b).drop_first() =~= t + b);
        assert(!starts_with(a[0], "```"@));
    }
}

/// A text whose lines open no fence.
pub open spec fn opens_no_fence(p: Seq<char>) -> bool {
    forall|i: int| 0 <= i < lines(p).len() ==> !starts_with(#[trigger] lines(p)[i], "```"@)
}

/// Where a fence line stands after prose (lines that open no fence, ending
/// with a line break, or nothing), the pass writes the prose, then the fence
/// line `fence_out`, then the rest inside the block.
proof fn lemma_fence_after_prose(p: Seq<char>, line: Seq<char>, rest: Seq<char>, fence_out: Seq<char>)
    requires
        p.len() == 0 || p.last() == '\n',
        opens_no_fence(p),
        starts_with(line, "```"@),
        !line.contains('\n'),
        line.last() != '\r',
        fence_step(line, false) == (fence_out, true),
    ensures
        postprocess(p + (line + seq!['\n'] + rest)) == postprocess(p) + fence_out + seq!['\n']
            + post_lines(lines(rest), true),
{
    let x = line + seq!['\n'] + rest;
    lemma_lines_append(p, x);
    lemma_first_line(line, rest);
    let ls = seq![line] + lines(rest);
    assert(ls[0] == line);
    assert(ls.drop_first() =~= lines(rest));
    lemma_post_lines_append(lines(p), ls);
    assert(post_lines(ls, false) == fence_out + seq!['\n'] + post_lines(lines(rest), true));
}

/// A fence that opens a block outside code and names a language
/// (```` ``` ```` followed by anything but backticks, like ```` ```toml ````)
/// is written as it is; only a bare fence is tagged `rust`. Outside code
/// means: what comes before is prose that opens no fence.
pub proof fn law_fence_language_kept(p: Seq<char>, line: Seq<char>, rest: Seq<char>)
    requires
        p.len() == 0 || p.last() == '\n',
        opens_no_fence(p),
        starts_with(line, "```"@),
        exists|k: int| 0 <= k < line.len() && line[k] != '`',
        !line.contains('\n'),
        line.last() != '\r',
    ensures
        postprocess(p + (line + seq!['\n'] + rest)) == postprocess(p) + line + seq!['\n']
            + post_lines(lines(rest), true),
{
    lemma_leading_bounds(line, CharClass::Backtick);
    let k = choose|k: int| 0 <= k < line.len() && line[k] != '`';
    assert(leading(line, CharClass::Backtick) <= k);
    assert(trim_start(line, CharClass::Backtick).len() > 0);
    lemma_fence_after_prose(p, line, rest, line);
}

/// A bare fence (backticks only, at least three) that opens a block outside
/// code is written as ```` ```rust ````.
pub proof fn law_bare_fence_is_rust(p: Seq<char>, line: Seq<char>, rest: Seq<char>)
    requires
        p.len() == 0 || p.last() == '\n',
        opens_no_fence(p),
        line.len() >= 3,
        forall|k: int| 0 <= k < line.len() ==> line[k] == '`',
    ensures
        postprocess(p + (line + seq!['\n'] + rest)) == postprocess(p) + "```rust\n"@ + post_lines(
            lines(rest),
            true,
        ),
{
    reveal_strlit("```");
    reveal_strlit("```rust");
    reveal_strlit("```rust\n");
    assert(line.take(3) =~= "```"@);
    assert(!line.contains('\n'));
    lemma_leading_char(line, CharClass::Backtick, line.len() as int);
    assert(trim_start(line, CharClass::Backtick).len() == 0);
    lemma_fence_after_prose(p, line, rest, "```rust"@);
    assert("```rust"@ + seq!['\n'] =~= "```rust\n"@);
    assert(postprocess(p) + "```rust"@ + seq!['\n'] =~= postprocess(p) + "```rust\n"@);
}

/// A line outside code fences as the pass writes it: a heading loses its
/// section anchors, any other line stays.
pub open spec fn unfenced_lines(ls: Seq<Seq<char>>) -> Seq<char>
    decreases ls.len(),
{
    if ls.len() == 0 {
        seq![]
    } else {
        (if starts_with(ls[0], "#"@) {
            strip_anchors(ls[0])
        } else {
            ls[0]
        }) + seq!['\n'] + unfenced_lines(ls.drop_first())
    }
}

proof fn lemma_unfenced(ls: Seq<Seq<char>>)
    requires
        forall|i: int| 0 <= i < ls.len() ==> !starts_with(#[trigger] ls[i], "```"@),
    ensures
        post_lines(ls, false) == unfenced_lines(ls),
    decreases ls.len(),
{
    if ls.len() > 0 {
        let t = ls.drop_first();
        assert forall|i: int| 0 <= i < t.len() implies !starts_with(#[trigger] t[i], "```"@) by {
            assert(t[i] == ls[i + 1]);
        }
        assert(!starts_with(ls[0], "```"@));
        lemma_unfenced(t);
    }
}

/// Markdown without code fences keeps every line but headings, which only
/// lose their section anchors; each line ends with a newline.
pub proof fn law_unfenced_markdown_kept(md: Seq<char>)
    requires
        forall|i: int| 0 <= i < lines(md).len() ==> !starts_with(#[trigger] lines(md)[i], "```"@),
    ensures
        postprocess(md) == unfenced_lines(lines(md)),
{
    lemma_unfenced(lines(md));
}

/// Post-processes converted markdown:
/// - Bare opening fences (```) default to ```rust
/// - Strips leading line numbers from scraped-example code blocks
/// - Strips `[§](#anchor)` links from heading lines
pub fn postprocess_markdown(markdown: &str) -> (res: String)
    ensures
        res@ == postprocess(markdown@),
{
    let v = chars_of(markdown);
    let ticks = chars_of("```");
    let hash = chars_of("#");
    let rust_fence = "```rust";
    proof {
        reveal_strlit("```");
        reveal_strlit("#");
        reveal_strlit("```rust");
    }
    let mut out = String::new();
    let mut in_fence = false;
    let mut pos: usize = 0;
    assert(v@.skip(0) =~= v@);
    while pos < v.len()
        invariant
            pos <= v@.len(),
            v@ == markdown@,
            ticks@ == "```"@,
            hash@ == "#"@,
            rust_fence@ == "```rust"@,
            postprocess(markdown@) == out@ + post_lines(lines(v@.skip(pos as int)), in_fence),
        decreases v@.len() - pos,
    {
        let (a, b, next) = next_line(&v, pos);
        let line = slice_vec(&v, a, b);
        let ghost ls = lines(v@.skip(pos as int));
        assert(ls[0] == line@);
        assert(ls.drop_first() =~= lines(v@.skip(next as int)));
        assert(line@.skip(0) =~= line@);
        assert(line@.subrange(0, line@.len() as int) =~= line@);
        if starts_with_at(&line, 0, &ticks) {
            if in_fence {
                push_all(&mut out, &line);
                in_fence = false;
            } else {
                let n = count_leading(&line, 0, line.len(), CharClass::Backtick);
                if n == line.len() {
                    out.append(rust_fence);
                } else {
                    push_all(&mut out, &line);
                }
                in_fence = true;
            }
        } else if in_fence {
            let n = count_leading(&line, 0, line.len(), CharClass::Digit);
            push_range(&mut out, &line, n, line.len());
        } else if starts_with_at(&line, 0, &hash) {
            let stripped = anchors_stripped(&line);
            out.append(stripped.as_str());
        } else {
            push_all(&mut out, &line);
        }
        push_char(&mut out, '\n');
        pos = next;
    }
    assert(v@.skip(pos as int) =~= Seq::<char>::empty());
    out
}


// ---------------------------------------------------------------------------
// crates.io metadata
// ---------------------------------------------------------------------------

/// A published version `num` matches `spec` exactly or as a prefix ending at
/// a dot ("4.5" matches "4.5.40").
pub open spec fn version_match(num: Seq<char>, spec: Seq<char>) -> bool {
    num == spec || starts_with(num, spec + "."@)
}

/// Matches exact version or prefix (e.g. "4.5" matches "4.5.40").
pub fn version_matches(num: &str, spec: &str) -> (b: bool)
    ensures
        b == version_match(num@, spec@),
{
    if str_eq(num, spec) {
        return true;
    }
    let prefix = concat2(spec, ".");
    str_starts_with(num, prefix.as_str())
}

/// The first entry of a crate's `versions` whose `num` matches `version`.
pub open spec fn matching_version(vs: Seq<JsonValue>, version: Seq<char>) -> Option<JsonValue>
    decreases vs.len(),
{
    if vs.len() == 0 {
        None
    } else {
        match json_str(json_field(Some(vs[0]), "num"@)) {
            Some(n) => if version_match(n, version) {
                Some(vs[0])
            } else {
                matching_version(vs.drop_first(), version)
            },
            None => matching_version(vs.drop_first(), version),
        }
    }
}

/// `(version, description, license)` of a crates.io crate answer: the
/// requested version, else the newest; the description, empty where absent;
/// the license of the first listed version that matches, else `unknown`.
/// An error where the answer has no newest version.
pub open spec fn crate_metadata_of(resp: JsonValue, name: Seq<char>, requested: Option<Seq<char>>) -> Result<
    (Seq<char>, Seq<char>, Seq<char>),
    Seq<char>,
> {
    let krate = json_field(Some(resp), "crate"@);
    match json_str(json_field(krate, "newest_version"@)) {
        None => Err(name),
        Some(newest) => {
            let version = match requested {
                Some(v) => v,
                None => newest,
            };
            let description = match json_str(json_field(krate, "description"@)) {
                Some(d) => d,
                None => seq![],
            };
            let license = match json_array(json_field(Some(resp), "versions"@)) {
                Some(vs) => match matching_version(vs, version) {
                    Some(v) => match json_str(json_field(Some(v), "license"@)) {
                        Some(l) => l,
                        None => "unknown"@,
                    },
                    None => "unknown"@,
                },
                None => "unknown"@,
            };
            Ok((version, description, license))
        },
    }
}

fn find_matching_version<'a>(vs: &'a Vec<JsonValue>, version: &str) -> (res: Option<&'a JsonValue>)
    ensures
        opt(res) == matching_version(vs@, version@),
{
    let mut i: usize = 0;
    assert(vs@.skip(0) =~= vs@);
    while i < vs.len()
        invariant
            i <= vs@.len(),
            matching_version(vs@, version@) == matching_version(vs@.skip(i as int), version@),
        decreases vs.len() - i,
    {
        assert(vs@.skip(i as int)[0] == vs@[i as int]);
        assert(vs@.skip(i as int).drop_first() =~= vs@.skip(i + 1));
        match as_str(field(Some(&vs[i]), "num")) {
            Some(n) => {
                if version_matches(n.as_str(), version) {
                    return Some(&vs[i]);
                }
            },
            None => {},
        }
        i = i + 1;
    }
    None
}

/// Reads `(version, description, license)` out of crates.io's answer for the
/// crate `target` names.
pub fn crate_metadata(resp: &JsonValue, target: &CrateTarget) -> (res: Result<(String, String, String), FetchError>)
    ensures
        match res {
            Ok((v, d, l)) => crate_metadata_of(*resp, target.name@, target.version.deep_view())
                == Ok::<(Seq<char>, Seq<char>, Seq<char>), Seq<char>>((v@, d@, l@)),
            Err(e) => crate_metadata_of(*resp, target.name@, target.version.deep_view()) is Err
                && e == FetchError::MissingNewestVersion(target.name),
        },
{
    let krate = field(Some(resp), "crate");
    let description = str_or(field(krate, "description"), "");
    proof {
        reveal_strlit("");
    }
    let newest = match as_str(field(krate, "newest_version")) {
        Some(n) => n.clone(),
        None => return Err(FetchError::MissingNewestVersion(target.name.clone())),
    };
    let version = match &target.version {
        Some(v) => v.clone(),
        None => newest,
    };
    let license = match field(Some(resp), "versions") {
        Some(JsonValue::Array(vs)) => match find_matching_version(vs, version.as_str()) {
            Some(v) => str_or(field(Some(v), "license"), "unknown"),
            None => "unknown".to_owned(),
        },
        _ => "unknown".to_owned(),
    };
    proof {
        let ghost k = json_field(Some(*resp), "crate"@);
        assert(description@ == match json_str(json_field(k, "description"@)) {
            Some(d) => d,
            None => seq![],
        });
        assert(json_str(json_field(k, "newest_version"@)) is Some);
        let ghost spec_version = match target.version.deep_view() {
            Some(v) => v,
            None => json_str(json_field(k, "newest_version"@))->0,
        };
        assert(version@ == spec_version);
        assert(license@ == match json_array(json_field(Some(*resp), "versions"@)) {
            Some(vs) => match matching_version(vs, spec_version) {
                Some(v) => match json_str(json_field(Some(v), "license"@)) {
                    Some(l) => l,
                    None => "unknown"@,
                },
                None => "unknown"@,
            },
            None => "unknown"@,
        });
    }
    Ok((version, description, license))
}

/// The login of the first owner listed in crates.io's `owners` answer, else `unknown`.
pub open spec fn crate_author_of(resp: JsonValue) -> Seq<char> {
    match json_str(json_field(json_item(json_field(Some(resp), "users"@), 0), "login"@)) {
        Some(l) => l,
        None => "unknown"@,
    }
}

pub fn crate_author(resp: &JsonValue) -> (author: String)
    ensures
        author@ == crate_author_of(*resp),
{
    str_or(field(item(field(Some(resp), "users"), 0), "login"), "unknown")
}

/// crates.io's API address for a crate.
pub fn crate_api_url(name: &str) -> (url: String)
    ensures
        url@ == "https://crates.io/api/v1/crates/"@ + name@,
{
    concat2("https://crates.io/api/v1/crates/", name)
}

/// crates.io's API address for a crate's owners.
pub fn crate_owners_url(name: &str) -> (url: String)
    ensures
        url@ == "https://crates.io/api/v1/crates/"@ + name@ + "/owners"@,
{
    concat3("https://crates.io/api/v1/crates/", name, "/owners")
}

// ---------------------------------------------------------------------------
// docs.rs pages
// ---------------------------------------------------------------------------

/// The docs.rs address of a crate version's main page; the module path is
/// the crate name with `-` turned into `_`.
pub open spec fn docs_index(name: Seq<char>, version: Seq<char>) -> Seq<char> {
    "https://docs.rs/"@ + name + "/"@ + version + "/"@ + replace_char(name, '-', '_')
        + "/index.html"@
}

pub fn docs_index_url(name: &str, version: &str) -> (url: String)
    ensures
        url@ == docs_index(name@, version@),
{
    let module = replace_char_str(name, '-', '_');
    let mut s = concat3("https://docs.rs/", name, "/");
    s.append(version);
    s.append("/");
    s.append(module.as_str());
    s.append("/index.html");
    s
}

/// The directory of a page's URL (the page URL joined with `./`), against
/// which same-crate links are recognised.
pub fn crate_base_url(page_url: &str) -> (base: Option<String>)
    ensures
        base.deep_view() == url_joined(page_url@, "./"@),
{
    url_join(page_url, "./")
}

/// The slug of a reference page: the last segment of its URL's path without
/// `.html`, or `unknown`.
pub open spec fn slug_of(link: Seq<char>) -> Seq<char> {
    match url_last_path_segment(link) {
        Some(seg) => match strip_suffix(seg, ".html"@) {
            Some(s) => s,
            None => "unknown"@,
        },
        None => "unknown"@,
    }
}

pub fn reference_slug(link: &str) -> (slug: String)
    ensures
        slug@ == slug_of(link@),
{
    match url_last_segment(link) {
        Some(seg) => match strip_suffix_str(seg.as_str(), ".html") {
            Some(s) => s,
            None => "unknown".to_owned(),
        },
        None => "unknown".to_owned(),
    }
}

/// The links a page's doc blocks make to other pages of the same crate:
/// each `href` resolved against the page URL, kept where it starts with
/// the crate's base URL and ends in `.html`, each kept once, in order.
pub open spec fn page_links(page_url: Seq<char>, crate_base: Seq<char>, hrefs: Seq<Seq<char>>) -> Seq<Seq<char>>
    decreases hrefs.len(),
{
    if hrefs.len() == 0 {
        seq![]
    } else {
        let prev = page_links(page_url, crate_base, hrefs.drop_last());
        match url_joined(page_url, hrefs.last()) {
            Some(r) => if starts_with(r, crate_base) && ends_with(r, ".html"@) && !prev.contains(r) {
                prev.push(r)
            } else {
                prev
            },
            None => prev,
        }
    }
}

/// The page title: the text of the first `title` element, empty where there
/// is none.
pub open spec fn title_of(html: Seq<char>) -> Seq<char> {
    match document_matches(html, "title"@) {
        Some(ns) => if ns.len() > 0 {
            ns[0].2
        } else {
            seq![]
        },
        None => seq![],
    }
}

/// The outer HTML of each doc block of the page's main content: the
/// description sections, not the sidebar or item lists.
pub open spec fn docblocks_of(html: Seq<char>) -> Seq<Seq<char>> {
    match document_matches(html, "#main-content .docblock"@) {
        Some(ns) => ns.map_values(|n: NodeView| n.0),
        None => seq![],
    }
}

/// The `href` of each link inside the doc blocks, in order.
pub open spec fn hrefs_of(html: Seq<char>) -> Seq<Seq<char>> {
    match document_match_attrs(html, "#main-content .docblock a[href]"@, "href"@) {
        Some(hs) => hs.map_values(
            |h: Option<Seq<char>>|
                match h {
                    Some(x) => x,
                    None => seq![],
                },
        ),
        None => seq![],
    }
}

/// The page title (see `title_of`).
fn page_title(html: &str) -> (t: String)
    ensures
        t@ == title_of(html@),
{
    match select_document(html, "title") {
        Some(ns) => if ns.len() > 0 {
            assert(ns.deep_view()[0] == ns@[0].deep_view());
            ns[0].text.clone()
        } else {
            String::new()
        },
        None => String::new(),
    }
}

/// The doc blocks' outer HTML (see `docblocks_of`).
fn page_docblocks(html: &str) -> (blocks: Vec<String>)
    ensures
        blocks.deep_view() == docblocks_of(html@),
{
    let mut blocks: Vec<String> = Vec::new();
    match select_document(html, "#main-content .docblock") {
        Some(ns) => {
            let ghost nv = ns.deep_view();
            let mut i: usize = 0;
            while i < ns.len()
                invariant
                    i <= ns@.len(),
                    nv == ns.deep_view(),
                    blocks.deep_view() == nv.take(i as int).map_values(|n: NodeView| n.0),
                decreases ns.len() - i,
            {
                assert(nv[i as int] == ns@[i as int].deep_view());
                blocks.push(ns[i].outer_html.clone());
                assert(nv.take(i + 1).map_values(|n: NodeView| n.0) =~= nv.take(i as int).map_values(
                    |n: NodeView| n.0,
                ).push(nv[i as int].0));
                i = i + 1;
            }
            assert(nv.take(nv.len() as int) =~= nv);
        },
        None => {},
    }
    blocks
}

/// The doc blocks' link targets (see `hrefs_of`).
fn page_hrefs(html: &str) -> (hrefs: Vec<String>)
    ensures
        hrefs.deep_view() == hrefs_of(html@),
{
    let mut hrefs: Vec<String> = Vec::new();
    match select_document_attr(html, "#main-content .docblock a[href]", "href") {
        Some(hs) => {
            let ghost hv = hs.deep_view();
            let mut i: usize = 0;
            while i < hs.len()
                invariant
                    i <= hs@.len(),
                    hv == hs.deep_view(),
                    hrefs.deep_view() == hv.take(i as int).map_values(
                        |h: Option<Seq<char>>|
                            match h {
                                Some(x) => x,
                                None => seq![],
                            },
                    ),
                decreases hs.len() - i,
            {
                assert(hv[i as int] == hs@[i as int].deep_view());
                let h = match &hs[i] {
                    Some(x) => x.clone(),
                    None => String::new(),
                };
                hrefs.push(h);
                assert(hv.take(i + 1).map_values(
                    |h: Option<Seq<char>>|
                        match h {
                            Some(x) => x,
                            None => seq![],
                        },
                ) =~= hv.take(i as int).map_values(
                    |h: Option<Seq<char>>|
                        match h {
                            Some(x) => x,
                            None => seq![],
                        },
                ).push(h@));
                i = i + 1;
            }
            assert(hv.take(hv.len() as int) =~= hv);
        },
        None => {},
    }
    hrefs
}

/// A page's title, its markdown, and its same-crate links; an error where
/// a `<pre>` block's opening tag runs past its end, or `htmd` fails.
pub open spec fn page_of(html: Seq<char>, page_url: Seq<char>, crate_base: Seq<char>) -> Result<
    (Seq<char>, Seq<char>, Seq<Seq<char>>),
    FetchError,
> {
    match pre_blocks(join(docblocks_of(html), "
"@)) {
        None => Err(FetchError::MalformedPreBlock),
        Some(content) => match htmd_markdown(content) {
            None => Err(FetchError::Conversion),
            Some(md) => Ok(
                (
                    title_of(html),
                    postprocess(md),
                    page_links(page_url, crate_base, hrefs_of(html)),
                ),
            ),
        },
    }
}

fn contains_str(v: &Vec<String>, s: &str) -> (b: bool)
    ensures
        b == v.deep_view().contains(s@),
{
    let mut i: usize = 0;
    while i < v.len()
        invariant
            i <= v@.len(),
            forall|k: int| 0 <= k < i ==> v.deep_view()[k] != s@,
        decreases v.len() - i,
    {
        if str_eq(v[i].as_str(), s) {
            assert(v.deep_view()[i as int] == s@);
            return true;
        }
        i = i + 1;
    }
    false
}

/// Extracts a docs.rs page: its title, the markdown of its doc blocks, and
/// the links to other pages of the crate (`crate_base` is the crate's base URL).
pub fn extract_page(html: &str, page_url: &str, crate_base: &str) -> (res: Result<(String, String, Vec<String>), FetchError>)
    ensures
        match res {
            Ok((t, m, l)) => page_of(html@, page_url@, crate_base@) == Ok::<
                (Seq<char>, Seq<char>, Seq<Seq<char>>),
                FetchError,
            >((t@, m@, l.deep_view())),
            Err(e) => page_of(html@, page_url@, crate_base@) == Err::<
                (Seq<char>, Seq<char>, Seq<Seq<char>>),
                FetchError,
            >(e),
        },
{
    let title = page_title(html);
    let blocks = page_docblocks(html);
    let content_html = join_strings(&blocks, "\n");
    let content_html = match try_preprocess_pre_blocks(content_html.as_str()) {
        Some(c) => c,
        None => return Err(FetchError::MalformedPreBlock),
    };
    let markdown = match html_to_markdown(content_html.as_str()) {
        Some(m) => m,
        None => return Err(FetchError::Conversion),
    };
    let markdown = postprocess_markdown(markdown.as_str());
    let hrefs = page_hrefs(html);
    let mut links: Vec<String> = Vec::new();
    let mut i: usize = 0;
    while i < hrefs.len()
        invariant
            i <= hrefs@.len(),
            links.deep_view() == page_links(page_url@, crate_base@, hrefs.deep_view().take(i as int)),
        decreases hrefs.len() - i,
    {
        let ghost prev = links.deep_view();
        assert(hrefs.deep_view().take(i + 1).drop_last() =~= hrefs.deep_view().take(i as int));
        assert(hrefs.deep_view().take(i + 1).last() == hrefs@[i as int]@);
        if let Some(resolved) = url_join(page_url, hrefs[i].as_str()) {
            if str_starts_with(resolved.as_str(), crate_base) && str_ends_with(
                resolved.as_str(),
                ".html",
            ) && !contains_str(&links, resolved.as_str()) {
                links.push(resolved);
                assert(links.deep_view() =~= prev.push(resolved@));
            }
        }
        i = i + 1;
    }
    assert(hrefs.deep_view().take(hrefs@.len() as int) =~= hrefs.deep_view());
    Ok((title, markdown, links))
}

/// A reference page fetched from `link` (ending up at `page_url`): its slug
/// comes from the link, its title and markdown from the page.
pub fn reference_page(link: &str, html: &str, page_url: &str, crate_base: &str) -> (res: Result<SkillPage, FetchError>)
    ensures
        match res {
            Ok(p) => {
                &&& p.slug@ == slug_of(link@)
                &&& page_of(html@, page_url@, crate_base@) matches Ok((t, m, _))
                &&& p.title@ == t
                &&& p.markdown@ == m
            },
            Err(e) => page_of(html@, page_url@, crate_base@) == Err::<
                (Seq<char>, Seq<char>, Seq<Seq<char>>),
                FetchError,
            >(e),
        },
{
    let slug = reference_slug(link);
    match extract_page(html, page_url, crate_base) {
        Ok((title, markdown, _)) => Ok(SkillPage { slug, title, markdown }),
        Err(e) => Err(e),
    }
}

/// The skill of a crate: its name, the metadata and author from crates.io,
/// the main page and the reference pages from docs.rs; docs.rs pages give
/// no item list.
pub fn crate_skill_info(
    target: &CrateTarget,
    metadata: (String, String, String),
    author: String,
    page: SkillPage,
    references: Vec<SkillPage>,
) -> (info: SkillInfo)
    ensures
        info.name@ == target.name@,
        info.version == metadata.0,
        info.description == metadata.1,
        info.license == metadata.2,
        info.author == author,
        info.page == page,
        info.references == references,
        info.items@.len() == 0,
{
    let (version, description, license) = metadata;
    SkillInfo {
        name: target.name.clone(),
        version,
        description,
        license,
        author,
        page,
        references,
        items: Vec::new(),
    }
}

} // verus!
