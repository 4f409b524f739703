//! The body of a post: lines are sorted into blocks.
//!
//! Each line, trimmed, is classified by its first characters. A line that
//! starts a block of another kind closes the block being gathered; a line of
//! the same kind adds to it.

use vstd::prelude::*;
use crate::text::{
    chars_of, decimal, occurs_at, occurs_at_exec, push_range, string_of_range, trim_bounds,
    trim_spec, trim_start_spec,
};
use crate::block::{
    Block, BlockKind, BlockModel, Heading, block_html, block_models, heading_level,
    parse_block_spec, same_kind, parse_block,
};
use crate::inline::{inlines_html, parse_inline_spec};

verus! {

pub open spec fn is_ascii_digit(c: char) -> bool {
    '0' <= c && c <= '9'
}

/// The number of ASCII digits that `l` starts with.
pub open spec fn leading_digits(l: Seq<char>) -> nat
    decreases l.len(),
{
    if l.len() > 0 && is_ascii_digit(l[0]) {
        1 + leading_digits(l.drop_first())
    } else {
        0
    }
}

/// Whether `l` starts with digits followed by `.` or `)`.
pub open spec fn ordered_marker(l: Seq<char>) -> bool {
    let d = leading_digits(l);
    d > 0 && d < l.len() && (l[d as int] == '.' || l[d as int] == ')')
}

pub open spec fn starts_with(l: Seq<char>, p: Seq<char>) -> bool {
    occurs_at(l, 0, p)
}

/// How a trimmed line is read: the kind of block it belongs to, the text it
/// adds to that block, and whether a code fence is open after it.
pub open spec fn classify(l: Seq<char>, is_code: bool) -> (BlockKind, Seq<char>, bool) {
    if starts_with(l, seq!['`', '`', '`']) || starts_with(l, seq!['~', '~', '~']) {
        if !is_code {
            (BlockKind::CodeBlock, seq![], true)
        } else {
            (BlockKind::NoBlock, seq![], false)
        }
    } else if is_code {
        (BlockKind::CodeBlock, l, is_code)
    } else if starts_with(l, seq!['#', '#', '#', '#', '#', '#', ' ']) {
        (BlockKind::Heading(Heading::H6), l.skip(7), is_code)
    } else if starts_with(l, seq!['#', '#', '#', '#', '#', ' ']) {
        (BlockKind::Heading(Heading::H5), l.skip(6), is_code)
    } else if starts_with(l, seq!['#', '#', '#', '#', ' ']) {
        (BlockKind::Heading(Heading::H4), l.skip(5), is_code)
    } else if starts_with(l, seq!['#', '#', '#', ' ']) {
        (BlockKind::Heading(Heading::H3), l.skip(4), is_code)
    } else if starts_with(l, seq!['#', '#', ' ']) {
        (BlockKind::Heading(Heading::H2), l.skip(3), is_code)
    } else if starts_with(l, seq!['#', ' ']) {
        (BlockKind::Heading(Heading::H1), l.skip(2), is_code)
    } else if starts_with(l, seq!['>', ' ']) {
        (BlockKind::BlockQuote, l.skip(2), is_code)
    } else if starts_with(l, seq!['-', ' ']) || starts_with(l, seq!['*', ' ']) || starts_with(
        l,
        seq!['+', ' '],
    ) {
        (BlockKind::UnorderedList, l.skip(2), is_code)
    } else if ordered_marker(l) {
        (BlockKind::Orderedlist, trim_start_spec(l.skip(leading_digits(l) as int + 1)), is_code)
    } else if l.len() == 0 {
        (BlockKind::NoBlock, seq![], is_code)
    } else {
        (BlockKind::Paragraph, l, is_code)
    }
}

/// `k` copies of `#`.
pub open spec fn hashes(k: nat) -> Seq<char> {
    Seq::new(k, |i: int| '#')
}

/// A line of `k` `#` and a space starts with the marker of `m` `#` and a space
/// exactly when `m` is `k`.
proof fn lemma_heading_marker(k: nat, t: Seq<char>, m: nat)
    requires
        1 <= k,
        1 <= m,
    ensures
        starts_with(hashes(k) + seq![' '] + t, hashes(m) + seq![' ']) == (m == k),
{
    let l = hashes(k) + seq![' '] + t;
    let p = hashes(m) + seq![' '];
    assert(l[k as int] == ' ');
    if m == k {
        assert(l.subrange(0, p.len() as int) =~= p);
    } else if m < k {
        assert(p[m as int] == ' ');
        assert(l[m as int] == '#');
        if p.len() <= l.len() {
            assert(l.subrange(0, p.len() as int)[m as int] == l[m as int]);
        }
    } else {
        assert(p[k as int] == '#');
        if p.len() <= l.len() {
            assert(l.subrange(0, p.len() as int)[k as int] == l[k as int]);
        }
    }
}

/// Outside a code block, a line of `k` `#` (one to six), a space and text `t`
/// opens a heading whose level is `k`, and the heading's text is `t`. Whatever
/// text the heading gathers, it is written between `<hk>` and `</hk>`.
pub proof fn law_heading_marker_sets_level(k: nat, t: Seq<char>)
    requires
        1 <= k <= 6,
    ensures
        ({
            let (kind, text, code) = classify(hashes(k) + seq![' '] + t, false);
            &&& kind matches BlockKind::Heading(h) && heading_level(h) == k
            &&& forall|c: Seq<char>|
                #![trigger parse_block_spec(kind, c)]
                block_html(parse_block_spec(kind, c)) == "<h"@ + decimal(k) + ">"@ + inlines_html(
                    parse_inline_spec(c),
                ) + "</h"@ + decimal(k) + ">"@
            &&& text == t
            &&& !code
        }),
{
    let l = hashes(k) + seq![' '] + t;
    assert(seq!['#', ' '] =~= hashes(1) + seq![' ']);
    assert(seq!['#', '#', ' '] =~= hashes(2) + seq![' ']);
    assert(seq!['#', '#', '#', ' '] =~= hashes(3) + seq![' ']);
    assert(seq!['#', '#', '#', '#', ' '] =~= hashes(4) + seq![' ']);
    assert(seq!['#', '#', '#', '#', '#', ' '] =~= hashes(5) + seq![' ']);
    assert(seq!['#', '#', '#', '#', '#', '#', ' '] =~= hashes(6) + seq![' ']);
    lemma_heading_marker(k, t, 1);
    lemma_heading_marker(k, t, 2);
    lemma_heading_marker(k, t, 3);
    lemma_heading_marker(k, t, 4);
    lemma_heading_marker(k, t, 5);
    lemma_heading_marker(k, t, 6);
    assert(l[0] == '#');
    if starts_with(l, seq!['`', '`', '`']) {
        assert(l.subrange(0, 3)[0] == l[0]);
    }
    if starts_with(l, seq!['~', '~', '~']) {
        assert(l.subrange(0, 3)[0] == l[0]);
    }
    assert(l.skip(k + 1int) =~= t);
}

/// Where the parser stands between two lines.
pub struct BodyState {
    pub kind: BlockKind,
    pub content: Seq<char>,
    pub is_code: bool,
    pub body: Seq<BlockModel>,
}

pub open spec fn initial_state() -> BodyState {
    BodyState { kind: BlockKind::NoBlock, content: seq![], is_code: false, body: seq![] }
}

/// The state after one more line.
pub open spec fn step(st: BodyState, line: Seq<char>) -> BodyState {
    let (nk, nl, code) = classify(trim_spec(line), st.is_code);
    if same_kind(nk, st.kind) && st.kind is NoBlock {
        BodyState { is_code: code, ..st }
    } else if !same_kind(nk, st.kind) {
        let b = parse_block_spec(st.kind, st.content);
        BodyState {
            kind: nk,
            content: nl.push('\n'),
            is_code: code,
            body: if b is NoBlock {
                st.body
            } else {
                st.body.push(b)
            },
        }
    } else {
        BodyState { content: st.content + nl.push('\n'), is_code: code, ..st }
    }
}

/// The state after all of `lines`.
pub open spec fn run_lines(lines: Seq<Seq<char>>) -> BodyState
    decreases lines.len(),
{
    if lines.len() == 0 {
        initial_state()
    } else {
        step(run_lines(lines.drop_last()), lines.last())
    }
}

/// The blocks of a body made of `lines`.
pub open spec fn parse_body_spec(lines: Seq<Seq<char>>) -> Seq<BlockModel> {
    let st = run_lines(lines);
    if st.kind is NoBlock {
        st.body
    } else {
        st.body.push(parse_block_spec(st.kind, st.content))
    }
}

fn starts_with_exec(v: &Vec<char>, lo: usize, p: &[char]) -> (b: bool)
    requires
        lo <= v@.len(),
    ensures
        b == starts_with(v@.subrange(lo as int, v@.len() as int), p@),
{
    let b = occurs_at_exec(v, lo, p);
    proof {
        let l = v@.subrange(lo as int, v@.len() as int);
        if lo + p@.len() <= v@.len() {
            assert(l.subrange(0, p@.len() as int) == v@.subrange(lo as int, lo + p@.len()));
        }
    }
    b
}

/// The number of ASCII digits at the start of `v[lo..]`.
fn leading_digits_exec(v: &Vec<char>, lo: usize) -> (d: usize)
    requires
        lo <= v@.len(),
    ensures
        d == leading_digits(v@.subrange(lo as int, v@.len() as int)),
        lo + d <= v@.len(),
{
    let mut i = lo;
    while i < v.len() && '0' <= v[i] && v[i] <= '9'
        invariant
            lo <= i <= v@.len(),
            leading_digits(v@.subrange(lo as int, v@.len() as int)) == (i - lo) + leading_digits(
                v@.subrange(i as int, v@.len() as int),
            ),
        decreases v@.len() - i,
    {
        assert(v@.subrange(i as int, v@.len() as int).drop_first() == v@.subrange(
            i + 1,
            v@.len() as int,
        ));
        i = i + 1;
    }
    i - lo
}

/// Reads the line `v[lo..]`, already trimmed.
fn classify_exec(v: &Vec<char>, lo: usize, is_code: bool) -> (r: (BlockKind, String, bool))
    requires
        lo <= v@.len(),
    ensures
        ({
            let c = classify(v@.subrange(lo as int, v@.len() as int), is_code);
            r.0 == c.0 && r.1@ == c.1 && r.2 == c.2
        }),
{
    let ghost l = v@.subrange(lo as int, v@.len() as int);
    let n = v.len();
    let fence1 = ['`', '`', '`'];
    let fence2 = ['~', '~', '~'];
    let h6 = ['#', '#', '#', '#', '#', '#', ' '];
    let h5 = ['#', '#', '#', '#', '#', ' '];
    let h4 = ['#', '#', '#', '#', ' '];
    let h3 = ['#', '#', '#', ' '];
    let h2 = ['#', '#', ' '];
    let h1 = ['#', ' '];
    let quote = ['>', ' '];
    let dash = ['-', ' '];
    let star = ['*', ' '];
    let plus = ['+', ' '];
    assert(fence1@ == seq!['`', '`', '`']);
    assert(fence2@ == seq!['~', '~', '~']);
    assert(h6@ == seq!['#', '#', '#', '#', '#', '#', ' ']);
    assert(h5@ == seq!['#', '#', '#', '#', '#', ' ']);
    assert(h4@ == seq!['#', '#', '#', '#', ' ']);
    assert(h3@ == seq!['#', '#', '#', ' ']);
    assert(h2@ == seq!['#', '#', ' ']);
    assert(h1@ == seq!['#', ' ']);
    assert(quote@ == seq!['>', ' ']);
    assert(dash@ == seq!['-', ' ']);
    assert(star@ == seq!['*', ' ']);
    assert(plus@ == seq!['+', ' ']);
    proof {
        assert forall|k: int| 0 <= k <= l.len() implies #[trigger] l.skip(k) == v@.subrange(
            lo + k,
            n as int,
        ) by {}
    }
    if starts_with_exec(v, lo, &fence1) || starts_with_exec(v, lo, &fence2) {
        if !is_code {
            (BlockKind::CodeBlock, String::new(), true)
        } else {
            (BlockKind::NoBlock, String::new(), false)
        }
    } else if is_code {
        (BlockKind::CodeBlock, string_of_range(v, lo, n), is_code)
    } else if starts_with_exec(v, lo, &h6) {
        (BlockKind::Heading(Heading::H6), string_of_range(v, lo + 7, n), is_code)
    } else if starts_with_exec(v, lo, &h5) {
        (BlockKind::Heading(Heading::H5), string_of_range(v, lo + 6, n), is_code)
    } else if starts_with_exec(v, lo, &h4) {
        (BlockKind::Heading(Heading::H4), string_of_range(v, lo + 5, n), is_code)
    } else if starts_with_exec(v, lo, &h3) {
        (BlockKind::Heading(Heading::H3), string_of_range(v, lo + 4, n), is_code)
    } else if starts_with_exec(v, lo, &h2) {
        (BlockKind::Heading(Heading::H2), string_of_range(v, lo + 3, n), is_code)
    } else if starts_with_exec(v, lo, &h1) {
        (BlockKind::Heading(Heading::H1), string_of_range(v, lo + 2, n), is_code)
    } else if starts_with_exec(v, lo, &quote) {
        (BlockKind::BlockQuote, string_of_range(v, lo + 2, n), is_code)
    } else if starts_with_exec(v, lo, &dash) || starts_with_exec(v, lo, &star) || starts_with_exec(
        v,
        lo,
        &plus,
    ) {
        (BlockKind::UnorderedList, string_of_range(v, lo + 2, n), is_code)
    } else {
        let d = leading_digits_exec(v, lo);
        if d > 0 && lo + d < n && (v[lo + d] == '.' || v[lo + d] == ')') {
            let (a, _b) = trim_bounds(v, lo + d + 1);
            proof {
                assert(l.skip(d + 1) == v@.subrange(lo + d + 1, n as int));
            }
            (BlockKind::Orderedlist, string_of_range(v, a, n), is_code)
        } else if lo == n {
            (BlockKind::NoBlock, String::new(), is_code)
        } else {
            (BlockKind::Paragraph, string_of_range(v, lo, n), is_code)
        }
    }
}

/// No block in `bs` is the empty one.
pub open spec fn no_empty_blocks(bs: Seq<BlockModel>) -> bool {
    forall|i: int| 0 <= i < bs.len() ==> !(#[trigger] bs[i] is NoBlock)
}

proof fn lemma_run_lines_no_empty_blocks(lines: Seq<Seq<char>>)
    ensures
        no_empty_blocks(run_lines(lines).body),
    decreases lines.len(),
{
    if lines.len() > 0 {
        lemma_run_lines_no_empty_blocks(lines.drop_last());
        let st = run_lines(lines.drop_last());
        let st2 = step(st, lines.last());
        assert forall|i: int| 0 <= i < st2.body.len() implies !(#[trigger] st2.body[i] is NoBlock) by {
            if i < st.body.len() {
                assert(st2.body[i] == st.body[i]);
            }
        }
    }
}

/// The blocks of a body are never the empty block: the lines outside any
/// block yield nothing.
pub proof fn law_body_has_no_empty_blocks(lines: Seq<Seq<char>>)
    ensures
        no_empty_blocks(parse_body_spec(lines)),
{
    lemma_run_lines_no_empty_blocks(lines);
    let st = run_lines(lines);
    if !(st.kind is NoBlock) {
        let bs = st.body.push(parse_block_spec(st.kind, st.content));
        assert forall|i: int| 0 <= i < bs.len() implies !(#[trigger] bs[i] is NoBlock) by {
            if i < st.body.len() {
                assert(bs[i] == st.body[i]);
            }
        }
    }
}

/// The views of a sequence of lines.
pub open spec fn line_views(lines: Seq<String>) -> Seq<Seq<char>> {
    lines.map_values(|l: String| l@)
}

/// Sorts the lines of a post's body into blocks, as they follow the front
/// matter.
pub fn parse_body(lines: &[String]) -> (r: Vec<Block>)
    ensures
        parse_body_spec(line_views(lines@)) == block_models(r@),
{
    let mut body: Vec<Block> = Vec::new();
    let mut current_block = BlockKind::NoBlock;
    let mut current_block_content = String::new();
    let mut is_code = false;
    let mut i: usize = 0;
    assert(line_views(lines@).take(0) == Seq::<Seq<char>>::empty());
    assert(block_models(body@) == Seq::<BlockModel>::empty());
    assert(current_block_content@ == Seq::<char>::empty());
    while i < lines.len()
        invariant
            i <= lines@.len(),
            run_lines(line_views(lines@).take(i as int)) == (BodyState {
                kind: current_block,
                content: current_block_content@,
                is_code,
                body: block_models(body@),
            }),
        decreases lines@.len() - i,
    {
        let ghost prefix = line_views(lines@).take(i as int);
        let ghost st = BodyState {
            kind: current_block,
            content: current_block_content@,
            is_code,
            body: block_models(body@),
        };
        assert(line_views(lines@).take(i + 1).drop_last() == prefix);
        assert(line_views(lines@).take(i + 1).last() == lines@[i as int]@);
        let v = chars_of(lines[i].as_str());
        let (a, b) = trim_bounds(&v, 0);
        assert(v@.subrange(0, v@.len() as int) == v@);
        let mut t: Vec<char> = Vec::new();
        let mut k = a;
        while k < b
            invariant
                a <= k <= b <= v@.len(),
                t@ == v@.subrange(a as int, k as int),
            decreases b - k,
        {
            t.push(v[k]);
            k = k + 1;
            assert(t@ == v@.subrange(a as int, k as int));
        }
        assert(t@.subrange(0, t@.len() as int) == t@);
        assert(t@ == trim_spec(lines@[i as int]@));
        let (new_block, new_line, code) = classify_exec(&t, 0, is_code);
        is_code = code;
        let ghost nl = new_line@;
        if new_block == current_block && current_block == BlockKind::NoBlock {
            i = i + 1;
            continue;
        }
        if new_block != current_block {
            let mut content = String::new();
            std::mem::swap(&mut content, &mut current_block_content);
            let block = parse_block(&current_block, content);
            let ghost before = body@;
            match block {
                Block::NoBlock => {},
                _ => {
                    body.push(block);
                    assert(block_models(body@) == block_models(before).push(body@.last()@));
                },
            }
            current_block = new_block;
        }
        current_block_content.append(new_line.as_str());
        current_block_content.push('\n');
        assert(current_block_content@ == st.content + nl.push('\n') || current_block_content@
            == nl.push('\n'));
        i = i + 1;
    }
    assert(line_views(lines@).take(lines@.len() as int) == line_views(lines@));
    if current_block != BlockKind::NoBlock {
        let block = parse_block(&current_block, current_block_content);
        let ghost before = body@;
        body.push(block);
        assert(block_models(body@) == block_models(before).push(body@.last()@));
    }
    body
}

} // verus!
