use doc2skill::rust::fetch::{
    postprocess_markdown, preprocess_pre_blocks, strip_anchor_links, strip_inline_tags,
};

#[test]
fn strip_inline_tags_keeps_code_element_and_newlines() {
    assert_eq!(
        strip_inline_tags("<code class=\"language-rust\"><span>foo</span>\n<span>bar</span></code>"),
        "<code class=\"language-rust\">foo\nbar</code>"
    );
}

#[test]
fn preprocess_pre_blocks_keeps_code_element() {
    let input = "<p>text</p><pre class=\"rust\"><code class=\"rust\"><span>/// Comment</span>\n<span>#[derive(Debug)]</span></code></pre><p>after</p>";
    let result = preprocess_pre_blocks(input);
    assert!(
        result.contains("<pre class=\"rust\"><code class=\"rust\">/// Comment\n#[derive(Debug)]</code></pre>"),
        "got: {result}"
    );
    assert!(result.contains("<p>text</p>"));
    assert!(result.contains("<p>after</p>"));
}

#[test]
fn preprocess_pre_blocks_preserves_opening_tag_class() {
    let input = "<pre class=\"language-console\"><code class=\"language-console\"><span>$ cargo add clap</span></code></pre>";
    let result = preprocess_pre_blocks(input);
    assert_eq!(
        result,
        "<pre class=\"language-console\"><code class=\"language-console\">$ cargo add clap</code></pre>",
        "got: {result}"
    );
}

#[test]
fn strip_anchor_links_removes_section_anchors() {
    assert_eq!(
        strip_anchor_links("### [\u{00a7}](#aspirations)Aspirations"),
        "### Aspirations"
    );
}

#[test]
fn strip_anchor_links_leaves_plain_headings_unchanged() {
    assert_eq!(strip_anchor_links("### Normal Heading"), "### Normal Heading");
}

#[test]
fn postprocess_strips_heading_anchors() {
    let input = "### [\u{00a7}](#example)Example\n\nsome text\n";
    let result = postprocess_markdown(input);
    assert_eq!(result, "### Example\n\nsome text\n");
}

#[test]
fn postprocess_preserves_code_fence_language() {
    let input = "```rust\nfn main() {}\n```\n";
    let result = postprocess_markdown(input);
    assert_eq!(result, "```rust\nfn main() {}\n```\n");
}

#[test]
fn postprocess_defaults_bare_fence_to_rust() {
    let input = "```\nfn main() {}\n```\n";
    let result = postprocess_markdown(input);
    assert_eq!(result, "```rust\nfn main() {}\n```\n");
}

#[test]
fn unfenced_markdown_keeps_its_lines() {
    assert_eq!(
        postprocess_markdown("# Title[\u{00a7}](#title)\n\n12 apples\nplain"),
        "# Title\n\n12 apples\nplain\n"
    );
    assert_eq!(postprocess_markdown(""), "");
}

#[test]
fn fenced_lines_lose_leading_numbers() {
    assert_eq!(
        postprocess_markdown("```\n1 let a = 1;\n22let b = 2;\n```\n# [\u{00a7}](#x)X"),
        "```rust\n let a = 1;\nlet b = 2;\n```\n# X\n"
    );
}

#[test]
fn stripping_tags_twice_is_stripping_once() {
    for html in [
        "<code class=\"x\"><span>a</span>\n<b>c</b></code>",
        "<<x>y> <code<z>> tail <open",
        "plain text\nwith lines > arrows",
        "<c<x>ode>",
    ] {
        let once = strip_inline_tags(html);
        assert_eq!(strip_inline_tags(&once), once);
    }
    assert_eq!(strip_inline_tags("plain text\nwith lines > arrows"), "plain text\nwith lines > arrows");
}
