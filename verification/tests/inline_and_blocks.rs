use markdown_compiler::block::{parse_block, Block, BlockKind, Heading};
use markdown_compiler::body::parse_body;
use markdown_compiler::html::escape_html;
use markdown_compiler::inline::{parse_inline, Inline};
use markdown_compiler::text::{lines, trim};

fn text(s: &str) -> Inline {
    Inline::Text(s.to_string())
}

fn owned(lines: &[&str]) -> Vec<String> {
    lines.iter().map(|l| l.to_string()).collect()
}

#[test]
fn escape_replaces_markup_characters() {
    assert_eq!(escape_html("a<b>&\"'c"), "a&lt;b&gt;&amp;&quot;&#39;c");
    assert_eq!(escape_html("&amp;"), "&amp;amp;");
}

#[test]
fn escape_keeps_plain_text() {
    assert_eq!(escape_html("plain text, 100%"), "plain text, 100%");
    assert_eq!(escape_html(""), "");
}

#[test]
fn escaped_text_has_no_markup() {
    let out = escape_html("<script>alert('x')</script> \"q\"");
    assert!(!out.contains('<') && !out.contains('>') && !out.contains('"') && !out.contains('\''));
}

#[test]
fn inline_emphasis_as_in_the_docs() {
    let got = parse_inline("a very *simple* **post**\n");
    assert_eq!(
        got,
        vec![
            text("a very "),
            Inline::Italic("simple".to_string()),
            text(" "),
            Inline::Bold("post".to_string()),
            text("\n"),
        ]
    );
}

#[test]
fn inline_code_strike_link_and_image() {
    let got = parse_inline("`x` ~y~ [docs](https://doc.rust-lang.org/book/) ![demo](posts.gif)");
    assert_eq!(
        got,
        vec![
            Inline::Code("x".to_string()),
            text(" "),
            Inline::Strikethrough("y".to_string()),
            text(" "),
            Inline::Link { text: "docs".to_string(), url: "https://doc.rust-lang.org/book/".to_string() },
            text(" "),
            Inline::Image { url: "posts.gif".to_string(), alt: "demo".to_string() },
        ]
    );
}

#[test]
fn plain_text_is_one_element() {
    assert_eq!(parse_inline("just words! and (parens)"), vec![text("just words! and (parens)")]);
    assert_eq!(parse_inline(""), Vec::<Inline>::new());
}

fn written_back(items: &[Inline]) -> String {
    let mut out = String::new();
    for item in items {
        match item {
            Inline::Text(t) => out.push_str(t),
            Inline::Italic(t) => out.push_str(&format!("*{t}*")),
            Inline::Bold(t) => out.push_str(&format!("**{t}**")),
            Inline::Code(t) => out.push_str(&format!("`{t}`")),
            Inline::Strikethrough(t) => out.push_str(&format!("~{t}~")),
            Inline::Link { text, url } => out.push_str(&format!("[{text}]({url})")),
            Inline::Image { url, alt } => out.push_str(&format!("![{alt}]({url})")),
        }
    }
    out
}

#[test]
fn parsed_elements_write_back_to_the_text() {
    for s in [
        "a *b* **c** ~d~ `e`",
        "**a*",
        "2 * 3 = 6 and ~x",
        "caf\u{e9} `*not bold*` **x** y!",
        "",
    ] {
        assert_eq!(written_back(&parse_inline(s)), s);
    }
}

#[test]
fn unclosed_delimiters_stay_text() {
    assert_eq!(parse_inline("2 * 3 = 6"), vec![text("2 * 3 = 6")]);
    assert_eq!(parse_inline("**a*"), vec![text("*"), Inline::Italic("a".to_string())]);
}

#[test]
fn brackets_without_target_become_text() {
    assert_eq!(parse_inline("[x] y"), vec![text("x"), text(" y")]);
    // the `(` is not closed: the bracketed text is dropped
    assert_eq!(parse_inline("[x](y"), vec![text("(y")]);
    // an image without target keeps the text that follows it
    assert_eq!(parse_inline("![x]yz"), vec![text("x"), text("yz")]);
}

#[test]
fn text_after_an_image_is_kept() {
    assert_eq!(
        parse_inline("![demo](posts.gif)\n"),
        vec![Inline::Image { url: "posts.gif".to_string(), alt: "demo".to_string() }, text("\n")]
    );
    assert_eq!(
        parse_inline("![x](a.png)\u{e9}t\u{e9}"),
        vec![Inline::Image { url: "a.png".to_string(), alt: "x".to_string() }, text("\u{e9}t\u{e9}")]
    );
    assert_eq!(parse_inline("![x]\u{e9}"), vec![text("x"), text("\u{e9}")]);
    assert_eq!(
        parse_inline("[x](a)\u{e9}"),
        vec![Inline::Link { text: "x".to_string(), url: "a".to_string() }, text("\u{e9}")]
    );
}

#[test]
fn inline_html() {
    assert_eq!(text("a<b").to_html(), "a&lt;b");
    assert_eq!(Inline::Italic("i".to_string()).to_html(), "<em>i</em>");
    assert_eq!(Inline::Bold("b".to_string()).to_html(), "<strong>b</strong>");
    assert_eq!(Inline::Code("c<".to_string()).to_html(), "<code>c&lt;</code>");
    assert_eq!(Inline::Strikethrough("s".to_string()).to_html(), "<del>s</del>");
    assert_eq!(
        Inline::Link { text: "t&".to_string(), url: "u?a=1&b=2".to_string() }.to_html(),
        "<a href=\"u?a=1&b=2\">t&amp;</a>"
    );
    assert_eq!(
        Inline::Image { url: "p.gif".to_string(), alt: "\"a\"".to_string() }.to_html(),
        "<img src=\"static/p.gif\" alt=\"&quot;a&quot;\" >"
    );
}

#[test]
fn heading_levels() {
    assert_eq!(Heading::H1.level(), 1);
    assert_eq!(Heading::H4.level(), 4);
    assert_eq!(Heading::H6.level(), 6);
}

#[test]
fn block_kinds_compare_by_variant() {
    assert!(BlockKind::Heading(Heading::H1) == BlockKind::Heading(Heading::H3));
    assert!(BlockKind::Paragraph == BlockKind::Paragraph);
    assert!(BlockKind::Paragraph != BlockKind::NoBlock);
    assert!(BlockKind::UnorderedList != BlockKind::Orderedlist);
}

#[test]
fn parse_block_by_kind() {
    assert_eq!(parse_block(&BlockKind::CodeBlock, " x\n".to_string()), Block::CodeBlock(" x\n".to_string()));
    assert_eq!(
        parse_block(&BlockKind::UnorderedList, "a\n*b*\n".to_string()),
        Block::UnorderedList { content: vec![text("a"), text("*b*")] }
    );
    assert_eq!(
        parse_block(&BlockKind::Orderedlist, "one\r\ntwo".to_string()),
        Block::OrderedList { content: vec![text("one"), text("two")] }
    );
    assert_eq!(
        parse_block(&BlockKind::BlockQuote, "*q*\n".to_string()),
        Block::BlockQuote(vec![Inline::Italic("q".to_string()), text("\n")])
    );
    assert_eq!(parse_block(&BlockKind::NoBlock, "ignored".to_string()), Block::NoBlock);
    assert_eq!(
        parse_block(&BlockKind::Paragraph, "![a]\u{e9}".to_string()),
        Block::Paragraph(vec![text("a"), text("\u{e9}")])
    );
}

#[test]
fn block_html() {
    let h = Block::Heading { level: Heading::H2, content: vec![text("is\n")] };
    assert_eq!(h.to_html(), "<h2>is\n</h2>");
    let l = Block::UnorderedList { content: vec![text("a"), text("b")] };
    assert_eq!(l.to_html(), "<ul><li>a</li><li>b</li></ul>");
    let o = Block::OrderedList { content: vec![text("a")] };
    assert_eq!(o.to_html(), "<ol><li>a</li></ol>");
    let q = Block::BlockQuote(vec![text("q")]);
    assert_eq!(q.to_html(), "<blockquote>q</blockquote>");
    let p = Block::Paragraph(vec![text("x "), Inline::Bold("y".to_string())]);
    assert_eq!(p.to_html(), "<p>x <strong>y</strong></p>");
    let c = Block::CodeBlock("\n  if a < b {}\n".to_string());
    assert_eq!(c.to_html(), "<pre><code>if a &lt; b {}</code></pre>");
    assert_eq!(Block::NoBlock.to_html(), "#DEBUG");
}

#[test]
fn body_as_in_the_docs() {
    let body = parse_body(&owned(&["# this", "", "## is", "", "a very *simple* **post**"]));
    assert_eq!(
        body,
        vec![
            Block::Heading { level: Heading::H1, content: vec![text("this\n")] },
            Block::Heading { level: Heading::H2, content: vec![text("is\n")] },
            Block::Paragraph(vec![
                text("a very "),
                Inline::Italic("simple".to_string()),
                text(" "),
                Inline::Bold("post".to_string()),
                text("\n"),
            ]),
        ]
    );
}

#[test]
fn consecutive_headings_share_a_block() {
    let body = parse_body(&owned(&["# a", "### b"]));
    assert_eq!(body, vec![Block::Heading { level: Heading::H1, content: vec![text("a\nb\n")] }]);
}

#[test]
fn paragraph_lines_join_and_blank_lines_split() {
    let body = parse_body(&owned(&["  one ", "two", "", "", "three"]));
    assert_eq!(
        body,
        vec![Block::Paragraph(vec![text("one\ntwo\n")]), Block::Paragraph(vec![text("three\n")])]
    );
}

#[test]
fn code_fences_keep_their_lines() {
    let body = parse_body(&owned(&["```rust", "  let x = *y*;", "# not a heading", "~~~", "after"]));
    assert_eq!(
        body,
        vec![
            Block::CodeBlock("\nlet x = *y*;\n# not a heading\n".to_string()),
            Block::Paragraph(vec![text("after\n")]),
        ]
    );
}

#[test]
fn lists_and_quotes() {
    let body = parse_body(&owned(&["- a", "* b", "+ c", "1. one", "22)   two", "> q", "3x"]));
    assert_eq!(
        body,
        vec![
            Block::UnorderedList { content: vec![text("a"), text("b"), text("c")] },
            Block::OrderedList { content: vec![text("one"), text("two")] },
            Block::BlockQuote(vec![text("q\n")]),
            Block::Paragraph(vec![text("3x\n")]),
        ]
    );
}

#[test]
fn heading_markers_need_a_space() {
    let body = parse_body(&owned(&["#x", "####### seven"]));
    assert_eq!(body, vec![Block::Paragraph(vec![text("#x\n####### seven\n")])]);
}

#[test]
fn empty_body_has_no_blocks() {
    assert_eq!(parse_body(&owned(&[])), Vec::<Block>::new());
    assert_eq!(parse_body(&owned(&["", "   "])), Vec::<Block>::new());
}

#[test]
fn body_with_an_image_before_accented_text() {
    assert_eq!(
        parse_body(&owned(&["text ![i](p.png)\u{e0} la"])),
        vec![Block::Paragraph(vec![
            text("text "),
            Inline::Image { url: "p.png".to_string(), alt: "i".to_string() },
            text("\u{e0} la\n"),
        ])]
    );
}

#[test]
fn lines_and_trim_follow_std() {
    assert_eq!(lines("a\nb\r\nc\r"), vec!["a", "b", "c\r"]);
    assert_eq!(lines("a\n\n"), vec!["a", ""]);
    assert_eq!(lines(""), Vec::<String>::new());
    assert_eq!(trim("\u{3000} a b\t\n"), "a b");
}
