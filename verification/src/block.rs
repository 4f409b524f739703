//! Block elements: headings, paragraphs, code blocks, lists and quotes.

use vstd::prelude::*;
use vstd::std_specs::cmp::PartialEqSpecImpl;
use crate::text::{decimal, push_decimal, lines, lines_spec, trim, trim_spec};
use crate::html::{escape_html, escape_spec};
use crate::inline::{
    Inline, InlineModel, inline_html, inline_models, inlines_html, parse_inline_spec,
    push_inlines_html, parse_inline,
};

verus! {

/// The six heading levels.
#[derive(Clone, Copy, PartialEq, Eq, Structural, Debug)]
pub enum Heading {
    H1,
    H2,
    H3,
    H4,
    H5,
    H6,
}

/// The number of a heading level.
pub open spec fn heading_level(h: Heading) -> nat {
    match h {
        Heading::H1 => 1,
        Heading::H2 => 2,
        Heading::H3 => 3,
        Heading::H4 => 4,
        Heading::H5 => 5,
        Heading::H6 => 6,
    }
}

impl Heading {
    /// The number of this level, from 1 to 6.
    pub fn level(&self) -> (r: u8)
        ensures
            r == heading_level(*self),
            1 <= r <= 6,
    {
        match self {
            Heading::H1 => 1,
            Heading::H2 => 2,
            Heading::H3 => 3,
            Heading::H4 => 4,
            Heading::H5 => 5,
            Heading::H6 => 6,
        }
    }
}

/// The kind of block that the parser is in while it reads lines.
#[derive(Clone, Copy, Debug)]
pub enum BlockKind {
    Heading(Heading),
    Paragraph,
    CodeBlock,
    UnorderedList,
    Orderedlist,
    BlockQuote,
    NoBlock,
}

/// Two kinds are the same when their variants are: the levels of two
/// headings are not compared.
pub open spec fn same_kind(a: BlockKind, b: BlockKind) -> bool {
    match (a, b) {
        (BlockKind::Heading(_), BlockKind::Heading(_)) => true,
        (BlockKind::Paragraph, BlockKind::Paragraph) => true,
        (BlockKind::CodeBlock, BlockKind::CodeBlock) => true,
        (BlockKind::UnorderedList, BlockKind::UnorderedList) => true,
        (BlockKind::Orderedlist, BlockKind::Orderedlist) => true,
        (BlockKind::BlockQuote, BlockKind::BlockQuote) => true,
        (BlockKind::NoBlock, BlockKind::NoBlock) => true,
        _ => false,
    }
}

impl PartialEq for BlockKind {
    fn eq(&self, other: &Self) -> (r: bool) {
        match (self, other) {
            (BlockKind::Heading(_), BlockKind::Heading(_)) => true,
            (BlockKind::Paragraph, BlockKind::Paragraph) => true,
            (BlockKind::CodeBlock, BlockKind::CodeBlock) => true,
            (BlockKind::UnorderedList, BlockKind::UnorderedList) => true,
            (BlockKind::Orderedlist, BlockKind::Orderedlist) => true,
            (BlockKind::BlockQuote, BlockKind::BlockQuote) => true,
            (BlockKind::NoBlock, BlockKind::NoBlock) => true,
            _ => false,
        }
    }
}

impl PartialEqSpecImpl for BlockKind {
    open spec fn obeys_eq_spec() -> bool {
        true
    }

    open spec fn eq_spec(&self, other: &BlockKind) -> bool {
        same_kind(*self, *other)
    }
}

/// Comparing kinds by variant is an equivalence.
pub proof fn law_same_kind_is_equivalence(a: BlockKind, b: BlockKind, c: BlockKind)
    ensures
        same_kind(a, a),
        same_kind(a, b) == same_kind(b, a),
        same_kind(a, b) && same_kind(b, c) ==> same_kind(a, c),
{
}

/// The six heading levels have six distinct numbers, one to six: no two
/// levels are written with the same tag, and every tag from `h1` to `h6` is
/// one level's.
pub proof fn law_heading_levels_distinct(a: Heading, b: Heading, n: nat)
    ensures
        1 <= heading_level(a) <= 6,
        heading_level(a) == heading_level(b) ==> a == b,
        1 <= n <= 6 ==> exists|h: Heading| heading_level(h) == n,
{
    if 1 <= n <= 6 {
        assert(heading_level(Heading::H1) == 1 && heading_level(Heading::H2) == 2);
        assert(heading_level(Heading::H3) == 3 && heading_level(Heading::H4) == 4);
        assert(heading_level(Heading::H5) == 5 && heading_level(Heading::H6) == 6);
    }
}

/// A block of a post.
#[derive(Debug, PartialEq, Eq)]
pub enum Block {
    Heading { level: Heading, content: Vec<Inline> },
    Paragraph(Vec<Inline>),
    CodeBlock(String),
    UnorderedList { content: Vec<Inline> },
    OrderedList { content: Vec<Inline> },
    BlockQuote(Vec<Inline>),
    NoBlock,
}

/// The mathematical form of a [`Block`].
pub enum BlockModel {
    Heading { level: Heading, content: Seq<InlineModel> },
    Paragraph(Seq<InlineModel>),
    CodeBlock(Seq<char>),
    UnorderedList { content: Seq<InlineModel> },
    OrderedList { content: Seq<InlineModel> },
    BlockQuote(Seq<InlineModel>),
    NoBlock,
}

impl View for Block {
    type V = BlockModel;

    open spec fn view(&self) -> BlockModel {
        match self {
            Block::Heading { level, content } => BlockModel::Heading {
                level: *level,
                content: inline_models(content@),
            },
            Block::Paragraph(c) => BlockModel::Paragraph(inline_models(c@)),
            Block::CodeBlock(s) => BlockModel::CodeBlock(s@),
            Block::UnorderedList { content } => BlockModel::UnorderedList {
                content: inline_models(content@),
            },
            Block::OrderedList { content } => BlockModel::OrderedList {
                content: inline_models(content@),
            },
            Block::BlockQuote(c) => BlockModel::BlockQuote(inline_models(c@)),
            Block::NoBlock => BlockModel::NoBlock,
        }
    }
}

/// The models of a sequence of blocks.
pub open spec fn block_models(v: Seq<Block>) -> Seq<BlockModel> {
    v.map_values(|b: Block| b@)
}

/// Each line of `c` as a plain text item.
pub open spec fn line_items(c: Seq<char>) -> Seq<InlineModel> {
    lines_spec(c).map_values(|l: Seq<char>| InlineModel::Text(l))
}

/// The block that `content`, gathered under `kind`, becomes.
pub open spec fn parse_block_spec(kind: BlockKind, content: Seq<char>) -> BlockModel {
    match kind {
        BlockKind::CodeBlock => BlockModel::CodeBlock(content),
        BlockKind::BlockQuote => BlockModel::BlockQuote(parse_inline_spec(content)),
        BlockKind::Heading(h) => BlockModel::Heading { level: h, content: parse_inline_spec(content) },
        BlockKind::UnorderedList => BlockModel::UnorderedList { content: line_items(content) },
        BlockKind::Orderedlist => BlockModel::OrderedList { content: line_items(content) },
        BlockKind::Paragraph => BlockModel::Paragraph(parse_inline_spec(content)),
        BlockKind::NoBlock => BlockModel::NoBlock,
    }
}

/// Each line of `s` as a plain text item.
fn text_lines(s: &str) -> (r: Vec<Inline>)
    ensures
        inline_models(r@) == line_items(s@),
{
    let ls = lines(s);
    let mut out: Vec<Inline> = Vec::new();
    let mut i: usize = 0;
    while i < ls.len()
        invariant
            i <= ls@.len(),
            ls@.map_values(|l: String| l@) == lines_spec(s@),
            inline_models(out@) == line_items(s@).take(i as int),
        decreases ls@.len() - i,
    {
        let ghost before = out@;
        let l = ls[i].clone();
        out.push(Inline::Text(l));
        proof {
            assert(ls@.map_values(|l: String| l@)[i as int] == ls@[i as int]@);
            assert(lines_spec(s@).len() == ls@.len());
            assert(line_items(s@)[i as int] == InlineModel::Text(ls@[i as int]@));
            assert(line_items(s@).take(i + 1) == line_items(s@).take(i as int).push(
                line_items(s@)[i as int],
            ));
            assert(out@ == before.push(out@.last()));
            assert(inline_models(out@) == inline_models(before).push(out@.last()@));
        }
        i = i + 1;
    }
    assert(line_items(s@).take(ls@.len() as int) == line_items(s@));
    out
}

/// Turns the content gathered under `current_block` into a block: inline
/// elements are parsed in headings, paragraphs and quotes, each line is an
/// item in lists, and code is kept as it is.
pub fn parse_block(current_block: &BlockKind, current_block_content: String) -> (r: Block)
    ensures
        r@ == parse_block_spec(*current_block, current_block_content@),
{
    match current_block {
        BlockKind::CodeBlock => Block::CodeBlock(current_block_content),
        BlockKind::BlockQuote => Block::BlockQuote(parse_inline(current_block_content.as_str())),
        BlockKind::Heading(h) => Block::Heading {
            level: *h,
            content: parse_inline(current_block_content.as_str()),
        },
        BlockKind::UnorderedList => Block::UnorderedList {
            content: text_lines(current_block_content.as_str()),
        },
        BlockKind::Orderedlist => Block::OrderedList {
            content: text_lines(current_block_content.as_str()),
        },
        BlockKind::Paragraph => Block::Paragraph(parse_inline(current_block_content.as_str())),
        BlockKind::NoBlock => Block::NoBlock,
    }
}

/// The list items of `ms`, each one wrapped in `<li>`.
pub open spec fn list_items_html(ms: Seq<InlineModel>) -> Seq<char>
    decreases ms.len(),
{
    if ms.len() == 0 {
        seq![]
    } else {
        list_items_html(ms.drop_last()) + "<li>"@ + inline_html(ms.last()) + "</li>"@
    }
}

/// The HTML of a block.
pub open spec fn block_html(b: BlockModel) -> Seq<char> {
    match b {
        BlockModel::Heading { level, content } => "<h"@ + decimal(heading_level(level)) + ">"@
            + inlines_html(content) + "</h"@ + decimal(heading_level(level)) + ">"@,
        BlockModel::OrderedList { content } => "<ol>"@ + list_items_html(content) + "</ol>"@,
        BlockModel::UnorderedList { content } => "<ul>"@ + list_items_html(content) + "</ul>"@,
        BlockModel::BlockQuote(content) => "<blockquote>"@ + inlines_html(content)
            + "</blockquote>"@,
        BlockModel::Paragraph(content) => "<p>"@ + inlines_html(content) + "</p>"@,
        BlockModel::CodeBlock(content) => "<pre><code>"@ + escape_spec(trim_spec(content))
            + "</code></pre>"@,
        BlockModel::NoBlock => "#DEBUG"@,
    }
}

/// The HTML of a sequence of blocks, one after the other.
pub open spec fn blocks_html(bs: Seq<BlockModel>) -> Seq<char>
    decreases bs.len(),
{
    if bs.len() == 0 {
        seq![]
    } else {
        blocks_html(bs.drop_last()) + block_html(bs.last())
    }
}

fn push_list_items(out: &mut String, v: &Vec<Inline>)
    ensures
        final(out)@ == old(out)@ + list_items_html(inline_models(v@)),
{
    let mut i: usize = 0;
    while i < v.len()
        invariant
            i <= v@.len(),
            out@ == old(out)@ + list_items_html(inline_models(v@.take(i as int))),
        decreases v@.len() - i,
    {
        out.append("<li>");
        let h = v[i].to_html();
        out.append(h.as_str());
        out.append("</li>");
        assert(inline_models(v@.take(i + 1)).drop_last() == inline_models(v@.take(i as int)));
        i = i + 1;
    }
    assert(v@.take(v@.len() as int) == v@);
}

impl Block {
    /// The HTML of this block.
    pub fn to_html(&self) -> (r: String)
        ensures
            r@ == block_html(self@),
    {
        let mut out = String::new();
        match self {
            Block::Heading { level, content } => {
                let l = level.level();
                out.append("<h");
                push_decimal(&mut out, l as usize);
                out.append(">");
                push_inlines_html(&mut out, content);
                out.append("</h");
                push_decimal(&mut out, l as usize);
                out.append(">");
            },
            Block::OrderedList { content } => {
                out.append("<ol>");
                push_list_items(&mut out, content);
                out.append("</ol>");
            },
            Block::UnorderedList { content } => {
                out.append("<ul>");
                push_list_items(&mut out, content);
                out.append("</ul>");
            },
            Block::BlockQuote(content) => {
                out.append("<blockquote>");
                push_inlines_html(&mut out, content);
                out.append("</blockquote>");
            },
            Block::Paragraph(content) => {
                out.append("<p>");
                push_inlines_html(&mut out, content);
                out.append("</p>");
            },
            Block::CodeBlock(content) => {
                out.append("<pre><code>");
                let t = trim(content.as_str());
                out.append(escape_html(t.as_str()).as_str());
                out.append("</code></pre>");
            },
            Block::NoBlock => {
                out.append("#DEBUG");
            },
        }
        out
    }
}

/// Appends the HTML of each block of `v` to `out`, one after the other.
pub fn push_blocks_html(out: &mut String, v: &Vec<Block>)
    ensures
        final(out)@ == old(out)@ + blocks_html(block_models(v@)),
{
    let mut i: usize = 0;
    while i < v.len()
        invariant
            i <= v@.len(),
            out@ == old(out)@ + blocks_html(block_models(v@.take(i as int))),
        decreases v@.len() - i,
    {
        let h = v[i].to_html();
        out.append(h.as_str());
        assert(block_models(v@.take(i + 1)).drop_last() == block_models(v@.take(i as int)));
        i = i + 1;
    }
    assert(v@.take(v@.len() as int) == v@);
}

} // verus!
