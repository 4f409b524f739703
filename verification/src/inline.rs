//! Inline elements: their parser and their HTML form.
//!
//! The parser works on characters. Every delimiter it looks for is ASCII, so a
//! position counted in characters stands for the same place as the position in
//! bytes that `str` slicing works with.

use vstd::prelude::*;
use crate::text::{
    chars_of, find_from, find_from_exec, lemma_find_from_bounds, occurs_at, occurs_at_exec,
    string_of_range,
};
use crate::html::{escape_html, escape_spec};

verus! {

/// An inline element of a block.
#[derive(Debug, PartialEq, Eq)]
pub enum Inline {
    Text(String),
    Italic(String),
    Bold(String),
    Code(String),
    Link { text: String, url: String },
    Image { url: String, alt: String },
    Strikethrough(String),
}

/// The mathematical form of an [`Inline`]: the same variant, with each string
/// taken as its characters.
pub enum InlineModel {
    Text(Seq<char>),
    Italic(Seq<char>),
    Bold(Seq<char>),
    Code(Seq<char>),
    Link { text: Seq<char>, url: Seq<char> },
    Image { url: Seq<char>, alt: Seq<char> },
    Strikethrough(Seq<char>),
}

impl View for Inline {
    type V = InlineModel;

    open spec fn view(&self) -> InlineModel {
        match self {
            Inline::Text(s) => InlineModel::Text(s@),
            Inline::Italic(s) => InlineModel::Italic(s@),
            Inline::Bold(s) => InlineModel::Bold(s@),
            Inline::Code(s) => InlineModel::Code(s@),
            Inline::Link { text, url } => InlineModel::Link { text: text@, url: url@ },
            Inline::Image { url, alt } => InlineModel::Image { url: url@, alt: alt@ },
            Inline::Strikethrough(s) => InlineModel::Strikethrough(s@),
        }
    }
}

/// The models of a sequence of inline elements.
pub open spec fn inline_models(v: Seq<Inline>) -> Seq<InlineModel> {
    v.map_values(|x: Inline| x@)
}

/// The opening delimiters, in the order in which the parser tries them.
pub enum Delim {
    Bold,
    Italic,
    Strike,
    Code,
    Image,
    Link,
}

pub open spec fn open_seq(d: Delim) -> Seq<char> {
    match d {
        Delim::Bold => seq!['*', '*'],
        Delim::Italic => seq!['*'],
        Delim::Strike => seq!['~'],
        Delim::Code => seq!['`'],
        Delim::Image => seq!['!', '['],
        Delim::Link => seq!['['],
    }
}

pub open spec fn close_seq(d: Delim) -> Seq<char> {
    match d {
        Delim::Bold => seq!['*', '*'],
        Delim::Italic => seq!['*'],
        Delim::Strike => seq!['~'],
        Delim::Code => seq!['`'],
        Delim::Image => seq![']'],
        Delim::Link => seq![']'],
    }
}

/// The delimiter that opens at position `i`, if any: `**` before `*`, `![`
/// before `[`.
pub open spec fn delim_at(s: Seq<char>, i: int) -> Option<Delim> {
    if occurs_at(s, i, seq!['*', '*']) {
        Some(Delim::Bold)
    } else if occurs_at(s, i, seq!['*']) {
        Some(Delim::Italic)
    } else if occurs_at(s, i, seq!['~']) {
        Some(Delim::Strike)
    } else if occurs_at(s, i, seq!['`']) {
        Some(Delim::Code)
    } else if occurs_at(s, i, seq!['!', '[']) {
        Some(Delim::Image)
    } else if occurs_at(s, i, seq!['[']) {
        Some(Delim::Link)
    } else {
        None
    }
}

/// The position of the `)` that closes the target of a link or an image whose
/// `]` stands at `ce`, when a `(` follows that `]`.
pub open spec fn target_end(s: Seq<char>, ce: int) -> Option<int> {
    if ce + 1 < s.len() && s[ce + 1] == '(' {
        find_from(s, ce + 2, seq![')'])
    } else {
        None
    }
}

/// Whether the `]` at `ce` is followed by `(`.
pub open spec fn has_target(s: Seq<char>, ce: int) -> bool {
    ce + 1 < s.len() && s[ce + 1] == '('
}

/// The elements that a delimited span yields, and the position where scanning
/// resumes after it. `cs` is where its content starts and `ce` where its
/// closing delimiter stands.
pub open spec fn token(s: Seq<char>, d: Delim, cs: int, ce: int) -> (Seq<InlineModel>, int) {
    let content = s.subrange(cs, ce);
    match d {
        Delim::Bold => (seq![InlineModel::Bold(content)], ce + 2),
        Delim::Italic => (seq![InlineModel::Italic(content)], ce + 1),
        Delim::Strike => (seq![InlineModel::Strikethrough(content)], ce + 1),
        Delim::Code => (seq![InlineModel::Code(content)], ce + 1),
        Delim::Link => if !has_target(s, ce) {
            (seq![InlineModel::Text(content)], ce + 1)
        } else {
            match target_end(s, ce) {
                Some(ue) => (
                    seq![InlineModel::Link { text: content, url: s.subrange(ce + 2, ue) }],
                    ue + 1,
                ),
                None => (seq![], ce + 1),
            }
        },
        Delim::Image => if !has_target(s, ce) {
            (seq![InlineModel::Text(content)], ce + 1)
        } else {
            match target_end(s, ce) {
                Some(ue) => (
                    seq![InlineModel::Image { url: s.subrange(ce + 2, ue), alt: content }],
                    ue + 1,
                ),
                None => (seq![], ce + 1),
            }
        },
    }
}

/// The plain text from `t` to the end, if there is any.
pub open spec fn trailing_text(s: Seq<char>, t: int) -> Seq<InlineModel> {
    if t < s.len() {
        seq![InlineModel::Text(s.subrange(t, s.len() as int))]
    } else {
        seq![]
    }
}

/// The plain text between `t` and `i`, if there is any.
pub open spec fn pending_text(s: Seq<char>, t: int, i: int) -> Seq<InlineModel> {
    if t < i {
        seq![InlineModel::Text(s.subrange(t, i))]
    } else {
        seq![]
    }
}

/// The inline elements of `s[i..]`, where plain text has been pending since
/// `t`.
pub open spec fn scan(s: Seq<char>, i: int, t: int) -> Seq<InlineModel>
    decreases s.len() + 1 - i,
    when 0 <= t <= i
{
    if i >= s.len() {
        trailing_text(s, t)
    } else {
        match delim_at(s, i) {
            None => scan(s, i + 1, t),
            Some(d) => {
                let cs = i + open_seq(d).len();
                match find_from(s, cs, close_seq(d)) {
                    None => scan(s, i + 1, t),
                    Some(ce) => {
                        proof {
                            lemma_find_from_bounds(s, cs, close_seq(d));
                            lemma_token_next(s, d, cs, ce);
                        }
                        let (items, next) = token(s, d, cs, ce);
                        pending_text(s, t, i) + items + scan(s, next, next)
                    },
                }
            },
        }
    }
}

/// The inline elements of `s`.
pub open spec fn parse_inline_spec(s: Seq<char>) -> Seq<InlineModel> {
    scan(s, 0, 0)
}

/// A delimited span ends after it started, and no later than the end.
pub proof fn lemma_token_next(s: Seq<char>, d: Delim, cs: int, ce: int)
    requires
        0 <= cs <= ce,
        occurs_at(s, ce, close_seq(d)),
    ensures
        ce < token(s, d, cs, ce).1 <= s.len(),
{
    if d is Link || d is Image {
        if has_target(s, ce) {
            lemma_find_from_bounds(s, ce + 2, seq![')']);
        }
    }
}

pub fn delim_at_exec(v: &Vec<char>, i: usize) -> (r: Option<Delim>)
    ensures
        r == delim_at(v@, i as int),
{
    let bold = ['*', '*'];
    let star = ['*'];
    let tilde = ['~'];
    let tick = ['`'];
    let bang = ['!', '['];
    let bracket = ['['];
    assert(bold@ == seq!['*', '*']);
    assert(star@ == seq!['*']);
    assert(tilde@ == seq!['~']);
    assert(tick@ == seq!['`']);
    assert(bang@ == seq!['!', '[']);
    assert(bracket@ == seq!['[']);
    if occurs_at_exec(v, i, &bold) {
        Some(Delim::Bold)
    } else if occurs_at_exec(v, i, &star) {
        Some(Delim::Italic)
    } else if occurs_at_exec(v, i, &tilde) {
        Some(Delim::Strike)
    } else if occurs_at_exec(v, i, &tick) {
        Some(Delim::Code)
    } else if occurs_at_exec(v, i, &bang) {
        Some(Delim::Image)
    } else if occurs_at_exec(v, i, &bracket) {
        Some(Delim::Link)
    } else {
        None
    }
}

/// The closing delimiter of `d`.
pub fn close_of(d: &Delim) -> (r: Vec<char>)
    ensures
        r@ == close_seq(*d),
{
    let mut r: Vec<char> = Vec::new();
    match d {
        Delim::Bold => {
            r.push('*');
            r.push('*');
        },
        Delim::Italic => r.push('*'),
        Delim::Strike => r.push('~'),
        Delim::Code => r.push('`'),
        Delim::Image => r.push(']'),
        Delim::Link => r.push(']'),
    }
    r
}

/// Appends to `result` the elements of the span that `d` opens, whose content
/// starts at `cs` and whose closing delimiter stands at `ce`. Returns where the
/// scan resumes.
fn push_token(v: &Vec<char>, d: &Delim, cs: usize, ce: usize, result: &mut Vec<Inline>) -> (r: usize)
    requires
        cs <= ce,
        occurs_at(v@, ce as int, close_seq(*d)),
    ensures
        inline_models(final(result)@) == inline_models(old(result)@) + token(
            v@,
            *d,
            cs as int,
            ce as int,
        ).0,
        r == token(v@, *d, cs as int, ce as int).1,
        ce < r <= v@.len(),
{
    proof {
        lemma_token_next(v@, *d, cs as int, ce as int);
    }
    let n = v.len();
    let ghost before = result@;
    let content = string_of_range(v, cs, ce);
    match d {
        Delim::Bold => {
            result.push(Inline::Bold(content));
            assert(inline_models(result@) == inline_models(before).push(result@.last()@));
            ce + 2
        },
        Delim::Italic => {
            result.push(Inline::Italic(content));
            assert(inline_models(result@) == inline_models(before).push(result@.last()@));
            ce + 1
        },
        Delim::Strike => {
            result.push(Inline::Strikethrough(content));
            assert(inline_models(result@) == inline_models(before).push(result@.last()@));
            ce + 1
        },
        Delim::Code => {
            result.push(Inline::Code(content));
            assert(inline_models(result@) == inline_models(before).push(result@.last()@));
            ce + 1
        },
        Delim::Link | Delim::Image => {
            let is_image = match d {
                Delim::Image => true,
                _ => false,
            };
            let paren = [')'];
            assert(paren@ == seq![')']);
            let end: usize = if !(ce + 1 < n && v[ce + 1] == '(') {
                result.push(Inline::Text(content));
                assert(inline_models(result@) == inline_models(before).push(result@.last()@));
                ce
            } else {
                match find_from_exec(v, ce + 2, &paren) {
                    Some(ue) => {
                        proof {
                            lemma_find_from_bounds(v@, ce + 2, seq![')']);
                        }
                        let url = string_of_range(v, ce + 2, ue);
                        if is_image {
                            result.push(Inline::Image { url, alt: content });
                        } else {
                            result.push(Inline::Link { text: content, url });
                        }
                        assert(inline_models(result@) == inline_models(before).push(
                            result@.last()@,
                        ));
                        ue
                    },
                    None => {
                        assert(inline_models(result@) == inline_models(before) + seq![]);
                        ce
                    },
                }
            };
            end + 1
        },
    }
}

/// The scan's step over a closed span: what it yields before resuming after it.
proof fn lemma_scan_token(s: Seq<char>, i: int, t: int, d: Delim, ce: int)
    requires
        0 <= t <= i < s.len(),
        delim_at(s, i) == Some(d),
        find_from(s, i + open_seq(d).len(), close_seq(d)) == Some(ce),
    ensures
        ({
            let tok = token(s, d, i + open_seq(d).len(), ce);
            scan(s, i, t) == pending_text(s, t, i) + tok.0 + scan(s, tok.1, tok.1)
        }),
{
    reveal(scan);
    lemma_find_from_bounds(s, i + open_seq(d).len(), close_seq(d));
    lemma_token_next(s, d, i + open_seq(d).len(), ce);
}

/// Where no span opens at `i`, or the one that opens is never closed, the
/// character at `i` is plain text.
proof fn lemma_scan_plain(s: Seq<char>, i: int, t: int)
    requires
        0 <= t <= i < s.len(),
        match delim_at(s, i) {
            None => true,
            Some(d) => find_from(s, i + open_seq(d).len(), close_seq(d)) is None,
        },
    ensures
        scan(s, i, t) == scan(s, i + 1, t),
{
    reveal(scan);
}

/// At the end only the pending plain text is left.
proof fn lemma_scan_end(s: Seq<char>, i: int, t: int)
    requires
        0 <= t <= i,
        s.len() <= i,
    ensures
        scan(s, i, t) == trailing_text(s, t),
{
    reveal(scan);
}

/// Whether `s` holds none of the characters that open a span: `*`, `~`,
/// `` ` `` and `[`.
pub open spec fn is_plain(s: Seq<char>) -> bool {
    forall|i: int| 0 <= i < s.len() ==> #[trigger] s[i] != '*' && s[i] != '~' && s[i] != '`' && s[i] != '['
}

proof fn lemma_scan_of_plain(s: Seq<char>, i: int)
    requires
        is_plain(s),
        0 <= i <= s.len(),
    ensures
        scan(s, i, 0) == trailing_text(s, 0),
    decreases s.len() - i,
{
    if i == s.len() {
        lemma_scan_end(s, i, 0);
    } else {
        let c = s[i];
        assert forall|p: Seq<char>| p.len() > 0 && occurs_at(s, i, p) implies p[0] == c by {
            assert(s.subrange(i, i + p.len())[0] == s[i]);
        }
        assert(seq!['*', '*'][0] == '*' && seq!['*'][0] == '*' && seq!['~'][0] == '~');
        assert(seq!['`'][0] == '`' && seq!['!', '['][1] == '[' && seq!['['][0] == '[');
        if occurs_at(s, i, seq!['!', '[']) {
            assert(s.subrange(i, i + 2)[1] == s[i + 1]);
        }
        assert(delim_at(s, i) is None);
        lemma_scan_plain(s, i, 0);
        lemma_scan_of_plain(s, i + 1);
    }
}

/// Text that opens no span is a single element of plain text.
pub proof fn law_plain_text_is_one_element(s: Seq<char>)
    requires
        s.len() > 0,
        is_plain(s),
    ensures
        parse_inline_spec(s) == seq![InlineModel::Text(s)],
{
    lemma_scan_of_plain(s, 0);
    assert(s.subrange(0, s.len() as int) == s);
}

/// The markup that an element is written with: its content between the
/// delimiters that mark it.
pub open spec fn inline_source(m: InlineModel) -> Seq<char> {
    match m {
        InlineModel::Text(t) => t,
        InlineModel::Italic(t) => seq!['*'] + t + seq!['*'],
        InlineModel::Bold(t) => seq!['*', '*'] + t + seq!['*', '*'],
        InlineModel::Code(t) => seq!['`'] + t + seq!['`'],
        InlineModel::Strikethrough(t) => seq!['~'] + t + seq!['~'],
        InlineModel::Link { text, url } => seq!['['] + text + seq![']', '('] + url + seq![')'],
        InlineModel::Image { url, alt } => seq!['!', '['] + alt + seq![']', '('] + url + seq![
            ')',
        ],
    }
}

/// The markup of a sequence of elements, one after the other.
pub open spec fn inlines_source(ms: Seq<InlineModel>) -> Seq<char>
    decreases ms.len(),
{
    if ms.len() == 0 {
        seq![]
    } else {
        inlines_source(ms.drop_last()) + inline_source(ms.last())
    }
}

proof fn lemma_inlines_source_concat(a: Seq<InlineModel>, b: Seq<InlineModel>)
    ensures
        inlines_source(a + b) == inlines_source(a) + inlines_source(b),
    decreases b.len(),
{
    if b.len() == 0 {
        assert(a + b == a);
        assert(inlines_source(a) + seq![] == inlines_source(a));
    } else {
        lemma_inlines_source_concat(a, b.drop_last());
        assert((a + b).drop_last() == a + b.drop_last());
        assert((a + b).last() == b.last());
    }
}

proof fn lemma_inlines_source_one(m: InlineModel)
    ensures
        inlines_source(seq![m]) == inline_source(m),
{
    assert(seq![m].drop_last() == Seq::<InlineModel>::empty());
    assert(inlines_source(Seq::<InlineModel>::empty()) == Seq::<char>::empty());
    assert(Seq::<char>::empty() + inline_source(m) == inline_source(m));
}

/// A span opened by `open` at `i` and closed by `close` at `ce` covers its
/// delimiters and its content.
proof fn lemma_span_chars(s: Seq<char>, i: int, ce: int, open: Seq<char>, close: Seq<char>)
    requires
        occurs_at(s, i, open),
        i + open.len() <= ce,
        occurs_at(s, ce, close),
    ensures
        s.subrange(i, ce + close.len()) == open + s.subrange(i + open.len(), ce) + close,
{
    assert(s.subrange(i, i + open.len()) == open);
    assert(s.subrange(ce, ce + close.len()) == close);
    assert(s.subrange(i, ce + close.len()) =~= open + s.subrange(i + open.len(), ce) + close);
}

/// Scanning `s` from `i`, with plain text pending since `t`, writes back to
/// `s[t..]` when `s` holds no `[`.
proof fn lemma_scan_source(s: Seq<char>, i: int, t: int)
    requires
        !s.contains('['),
        0 <= t <= i <= s.len(),
    ensures
        inlines_source(scan(s, i, t)) == s.subrange(t, s.len() as int),
    decreases s.len() - i,
{
    if i == s.len() {
        lemma_scan_end(s, i, t);
        if t < s.len() {
            lemma_inlines_source_one(InlineModel::Text(s.subrange(t, s.len() as int)));
        } else {
            assert(s.subrange(t, s.len() as int) == Seq::<char>::empty());
        }
    } else {
        let plain = match delim_at(s, i) {
            None => true,
            Some(d) => find_from(s, i + open_seq(d).len(), close_seq(d)) is None,
        };
        if plain {
            lemma_scan_plain(s, i, t);
            lemma_scan_source(s, i + 1, t);
        } else {
            let d = delim_at(s, i).unwrap();
            let cs = i + open_seq(d).len();
            let ce = find_from(s, cs, close_seq(d)).unwrap();
            lemma_find_from_bounds(s, cs, close_seq(d));
            lemma_scan_token(s, i, t, d, ce);
            // No span that needs a `[` can open here.
            if d is Link {
                assert(s.subrange(i, i + 1)[0] == s[i]);
                assert(s.contains('['));
            }
            if d is Image {
                assert(s.subrange(i, i + 2)[1] == s[i + 1]);
                assert(s.contains('['));
            }
            let tok = token(s, d, cs, ce);
            let content = s.subrange(cs, ce);
            assert(occurs_at(s, i, open_seq(d)));
            lemma_span_chars(s, i, ce, open_seq(d), close_seq(d));
            assert(tok.1 == ce + close_seq(d).len());
            assert(inline_source(tok.0[0]) == open_seq(d) + content + close_seq(d));
            assert(tok.0 == seq![tok.0[0]]);
            lemma_inlines_source_one(tok.0[0]);
            lemma_scan_source(s, tok.1, tok.1);
            lemma_inlines_source_concat(pending_text(s, t, i), tok.0);
            lemma_inlines_source_concat(pending_text(s, t, i) + tok.0, scan(s, tok.1, tok.1));
            if t < i {
                lemma_inlines_source_one(InlineModel::Text(s.subrange(t, i)));
            }
            assert(inlines_source(pending_text(s, t, i)) == s.subrange(t, i));
            assert(s.subrange(t, s.len() as int) =~= s.subrange(t, i) + s.subrange(i, tok.1)
                + s.subrange(tok.1, s.len() as int));
        }
    }
}

/// Where the text holds no `[` (so no link or image), writing each parsed
/// element back with its delimiters gives the text again: no character is
/// lost or repeated.
pub proof fn law_inline_round_trip(s: Seq<char>)
    requires
        !s.contains('['),
    ensures
        inlines_source(parse_inline_spec(s)) == s,
{
    lemma_scan_source(s, 0, 0);
    assert(s.subrange(0, s.len() as int) == s);
}

/// Parses the inline elements of `s`: emphasis, strong emphasis, strikethrough,
/// code spans, links and images, and the plain text between them.
pub fn parse_inline(s: &str) -> (r: Vec<Inline>)
    ensures
        parse_inline_spec(s@) == inline_models(r@),
{
    let v = chars_of(s);
    let n = v.len();
    let mut result: Vec<Inline> = Vec::new();
    let mut i: usize = 0;
    let mut text_start: usize = 0;
    assert(inline_models(result@) == Seq::<InlineModel>::empty());
    while i < n
        invariant
            n == v@.len(),
            v@ == s@,
            text_start <= i <= n,
            parse_inline_spec(v@) == inline_models(result@) + scan(
                v@,
                i as int,
                text_start as int,
            ),
        decreases n - i,
    {
        let mut advanced = false;
        match delim_at_exec(&v, i) {
            None => {},
            Some(d) => {
                let open_len: usize = match d {
                    Delim::Bold => 2,
                    Delim::Image => 2,
                    _ => 1,
                };
                assert(open_len == open_seq(d).len());
                assert(occurs_at(v@, i as int, open_seq(d)));
                let close = close_of(&d);
                let cs = i + open_len;
                match find_from_exec(&v, cs, close.as_slice()) {
                    None => {},
                    Some(ce) => {
                        proof {
                            lemma_find_from_bounds(v@, cs as int, close_seq(d));
                            lemma_scan_token(v@, i as int, text_start as int, d, ce as int);
                        }
                        let ghost before = inline_models(result@);
                        if text_start < i {
                            result.push(Inline::Text(string_of_range(&v, text_start, i)));
                        }
                        assert(inline_models(result@) == before + pending_text(
                            v@,
                            text_start as int,
                            i as int,
                        ));
                        let ghost tok = token(v@, d, cs as int, ce as int);
                        let next = push_token(&v, &d, cs, ce, &mut result);
                        assert(before + pending_text(v@, text_start as int, i as int) + tok.0
                            == inline_models(result@));
                        i = next;
                        text_start = next;
                        advanced = true;
                    },
                }
            },
        }
        if !advanced {
            proof {
                lemma_scan_plain(v@, i as int, text_start as int);
            }
            i = i + 1;
        }
    }
    proof {
        lemma_scan_end(v@, i as int, text_start as int);
    }
    let ghost before = inline_models(result@);
    if text_start < n {
        result.push(Inline::Text(string_of_range(&v, text_start, n)));
    }
    assert(inline_models(result@) == before + trailing_text(v@, text_start as int));
    result
}

} // verus!

verus! {

/// The HTML of one inline element. Link and image targets are written as
/// they are; all other text is escaped.
pub open spec fn inline_html(m: InlineModel) -> Seq<char> {
    match m {
        InlineModel::Text(s) => escape_spec(s),
        InlineModel::Italic(s) => "<em>"@ + escape_spec(s) + "</em>"@,
        InlineModel::Bold(s) => "<strong>"@ + escape_spec(s) + "</strong>"@,
        InlineModel::Code(s) => "<code>"@ + escape_spec(s) + "</code>"@,
        InlineModel::Link { text, url } => "<a href=\""@ + url + "\">"@ + escape_spec(text)
            + "</a>"@,
        InlineModel::Image { url, alt } => "<img src=\"static/"@ + url + "\" alt=\""@
            + escape_spec(alt) + "\" >"@,
        InlineModel::Strikethrough(s) => "<del>"@ + escape_spec(s) + "</del>"@,
    }
}

/// The HTML of a sequence of inline elements, one after the other.
pub open spec fn inlines_html(ms: Seq<InlineModel>) -> Seq<char>
    decreases ms.len(),
{
    if ms.len() == 0 {
        seq![]
    } else {
        inlines_html(ms.drop_last()) + inline_html(ms.last())
    }
}

impl Inline {
    /// The HTML of this element.
    pub fn to_html(&self) -> (r: String)
        ensures
            r@ == inline_html(self@),
    {
        let mut out = String::new();
        match self {
            Inline::Text(s) => {
                out.append(escape_html(s.as_str()).as_str());
            },
            Inline::Italic(s) => {
                out.append("<em>");
                out.append(escape_html(s.as_str()).as_str());
                out.append("</em>");
            },
            Inline::Bold(s) => {
                out.append("<strong>");
                out.append(escape_html(s.as_str()).as_str());
                out.append("</strong>");
            },
            Inline::Code(s) => {
                out.append("<code>");
                out.append(escape_html(s.as_str()).as_str());
                out.append("</code>");
            },
            Inline::Link { text, url } => {
                out.append("<a href=\"");
                out.append(url.as_str());
                out.append("\">");
                out.append(escape_html(text.as_str()).as_str());
                out.append("</a>");
            },
            Inline::Image { url, alt } => {
                out.append("<img src=\"static/");
                out.append(url.as_str());
                out.append("\" alt=\"");
                out.append(escape_html(alt.as_str()).as_str());
                out.append("\" >");
            },
            Inline::Strikethrough(s) => {
                out.append("<del>");
                out.append(escape_html(s.as_str()).as_str());
                out.append("</del>");
            },
        }
        out
    }
}

/// Appends the HTML of each element of `v` to `out`, one after the other.
pub fn push_inlines_html(out: &mut String, v: &Vec<Inline>)
    ensures
        final(out)@ == old(out)@ + inlines_html(inline_models(v@)),
{
    let mut i: usize = 0;
    while i < v.len()
        invariant
            i <= v@.len(),
            out@ == old(out)@ + inlines_html(inline_models(v@.take(i as int))),
        decreases v@.len() - i,
    {
        let h = v[i].to_html();
        out.append(h.as_str());
        assert(inline_models(v@.take(i + 1)).drop_last() == inline_models(v@.take(i as int)));
        i = i + 1;
    }
    assert(v@.take(v@.len() as int) == v@);
}

} // verus!
