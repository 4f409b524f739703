//! Posts: front matter, metadata, the post itself and the order of the index.

use vstd::prelude::*;
use crate::text::{chars_of, trim_bounds, trim_spec};
use crate::date::{PostDate, date_le};
use crate::block::{Block, block_models};
use crate::body::{line_views, parse_body, parse_body_spec};
use crate::names::{NameRegistry, hands_out};
use crate::slug::{slugify, slug_spec};

verus! {

/// The metadata that the front matter of a post holds.
#[derive(Debug, PartialEq, Eq)]
pub struct PostMetadata {
    pub title: String,
    pub date: PostDate,
    pub description: String,
    pub tags: Vec<String>,
    pub draft: bool,
}

/// A compiled post: the name of its page, its metadata and its blocks.
#[derive(Debug, PartialEq, Eq)]
pub struct Post {
    pub file_name: String,
    pub metadata: PostMetadata,
    pub body: Vec<Block>,
}

/// The date of a post, as the index orders it.
pub open spec fn post_date(p: Post) -> (int, int, int) {
    p.metadata.date@
}

// ----- front matter -----

/// Why a file is no post.
#[derive(Debug, Clone, Copy, PartialEq, Eq, Structural)]
pub enum FrontMatterError {
    /// The file has no line at all.
    EmptyFile,
    /// The first line is not `---`.
    MissingOpening,
}

impl FrontMatterError {
    /// The message for this error.
    pub fn message(&self) -> (r: &'static str)
        ensures
            *self == FrontMatterError::EmptyFile ==> r@ == "Empty file"@,
            *self == FrontMatterError::MissingOpening ==> r@ == "Post must start with `---`"@,
    {
        match self {
            FrontMatterError::EmptyFile => "Empty file",
            FrontMatterError::MissingOpening => "Post must start with `---`",
        }
    }
}

/// The YAML text of the front matter, and the index of the first line of the
/// body.
pub struct FrontMatter {
    pub header: String,
    pub body_start: usize,
}

/// A line that, trimmed, is `---`.
pub open spec fn is_delimiter(line: Seq<char>) -> bool {
    trim_spec(line) == seq!['-', '-', '-']
}

/// The index of the first delimiter line from `i` on, or the number of lines
/// if there is none.
pub open spec fn next_delimiter(lines: Seq<Seq<char>>, i: int) -> int
    decreases lines.len() - i,
{
    if i >= lines.len() {
        lines.len() as int
    } else if is_delimiter(lines[i]) {
        i
    } else {
        next_delimiter(lines, i + 1)
    }
}

/// The lines from `lo` up to `hi`, each followed by `\n`.
pub open spec fn joined_lines(lines: Seq<Seq<char>>, lo: int, hi: int) -> Seq<char>
    decreases hi - lo,
{
    if hi <= lo {
        seq![]
    } else {
        joined_lines(lines, lo, hi - 1) + lines[hi - 1].push('\n')
    }
}

/// What reading the front matter of `lines` gives: the error, or the header
/// and where the body starts.
pub open spec fn front_matter_spec(lines: Seq<Seq<char>>) -> Result<(Seq<char>, int), FrontMatterError> {
    if lines.len() == 0 {
        Err(FrontMatterError::EmptyFile)
    } else if !is_delimiter(lines[0]) {
        Err(FrontMatterError::MissingOpening)
    } else {
        let k = next_delimiter(lines, 1);
        Ok((joined_lines(lines, 1, k), if k < lines.len() { k + 1 } else { k }))
    }
}

fn is_delimiter_exec(line: &String) -> (r: bool)
    ensures
        r == is_delimiter(line@),
{
    let v = chars_of(line.as_str());
    let (a, b) = trim_bounds(&v, 0);
    assert(v@.subrange(0, v@.len() as int) == v@);
    if b - a != 3 {
        assert(seq!['-', '-', '-'].len() == 3);
        return false;
    }
    let r = v[a] == '-' && v[a + 1] == '-' && v[a + 2] == '-';
    proof {
        let t = v@.subrange(a as int, b as int);
        assert(t[0] == v@[a as int] && t[1] == v@[a + 1] && t[2] == v@[a + 2]);
        if r {
            assert(t == seq!['-', '-', '-']);
        }
    }
    r
}

/// Splits a post's lines into its YAML front matter, between the first line
/// `---` and the next one, and its body. A post must open with `---`; where
/// the front matter is never closed, it runs to the end and the body is empty.
pub fn split_front_matter(lines: &[String]) -> (r: Result<FrontMatter, FrontMatterError>)
    ensures
        match (r, front_matter_spec(line_views(lines@))) {
            (Ok(fm), Ok((h, start))) => fm.header@ == h && fm.body_start as int == start,
            (Err(e), Err(f)) => e == f,
            _ => false,
        },
{
    let ghost ls = line_views(lines@);
    if lines.len() == 0 {
        return Err(FrontMatterError::EmptyFile);
    }
    assert(ls[0] == lines@[0]@);
    if !is_delimiter_exec(&lines[0]) {
        return Err(FrontMatterError::MissingOpening);
    }
    let mut header = String::new();
    let mut i: usize = 1;
    while i < lines.len()
        invariant
            1 <= i <= lines@.len(),
            ls == line_views(lines@),
            is_delimiter(ls[0]),
            next_delimiter(ls, 1) == next_delimiter(ls, i as int),
            header@ == joined_lines(ls, 1, i as int),
        decreases lines@.len() - i,
    {
        assert(ls[i as int] == lines@[i as int]@);
        if is_delimiter_exec(&lines[i]) {
            assert(next_delimiter(ls, i as int) == i as int);
            return Ok(FrontMatter { header, body_start: i + 1 });
        }
        header.append(lines[i].as_str());
        header.push('\n');
        i = i + 1;
    }
    Ok(FrontMatter { header, body_start: i })
}

// ----- the index order -----

/// The posts of `s` on the day `d`, in their order in `s`.
pub open spec fn posts_on(s: Seq<Post>, d: (int, int, int)) -> Seq<Post> {
    s.filter(|p: Post| post_date(p) == d)
}

/// The posts are in order of date, earliest first.
pub open spec fn sorted_by_date(s: Seq<Post>) -> bool {
    forall|i: int, j: int| 0 <= i < j < s.len() ==> date_le(post_date(s[i]), post_date(s[j]))
}

proof fn lemma_posts_on_single(p: Post, d: (int, int, int))
    ensures
        posts_on(seq![p], d) == if post_date(p) == d {
            seq![p]
        } else {
            seq![]
        },
{
    reveal_with_fuel(Seq::filter, 2);
    assert(seq![p].drop_last() == Seq::<Post>::empty());
}

proof fn lemma_posts_on_none(s: Seq<Post>, d: (int, int, int))
    requires
        forall|i: int| 0 <= i < s.len() ==> post_date(s[i]) != d,
    ensures
        posts_on(s, d) == Seq::<Post>::empty(),
    decreases s.len(),
{
    reveal_with_fuel(Seq::filter, 1);
    if s.len() > 0 {
        lemma_posts_on_none(s.drop_last(), d);
    }
}

/// Inserting `p` behind all posts no later than it and before all later
/// ones adds it at the end of the posts of its day and leaves the others.
proof fn lemma_posts_on_insert(out: Seq<Post>, j: int, p: Post, d: (int, int, int))
    requires
        0 <= j <= out.len(),
        forall|i: int| 0 <= i < j ==> date_le(post_date(out[i]), post_date(p)),
        forall|i: int| j <= i < out.len() ==> !date_le(post_date(out[i]), post_date(p)),
    ensures
        posts_on(out.insert(j, p), d) == posts_on(out, d) + posts_on(seq![p], d),
{
    let a = out.subrange(0, j);
    let b = out.subrange(j, out.len() as int);
    assert(out == a + b);
    assert(out.insert(j, p) == a + seq![p] + b);
    Seq::filter_distributes_over_add(a, b, |q: Post| post_date(q) == d);
    Seq::filter_distributes_over_add(a + seq![p], b, |q: Post| post_date(q) == d);
    Seq::filter_distributes_over_add(a, seq![p], |q: Post| post_date(q) == d);
    lemma_posts_on_single(p, d);
    if post_date(p) == d {
        assert forall|i: int| 0 <= i < b.len() implies post_date(b[i]) != d by {
            assert(b[i] == out[j + i]);
        }
        lemma_posts_on_none(b, d);
        assert(posts_on(out, d) == posts_on(a, d));
    }
}

/// Sorts posts by date, earliest first; posts of the same day keep their order.
pub fn sort_posts_by_date(posts: &mut Vec<Post>)
    ensures
        sorted_by_date(final(posts)@),
        forall|d: (int, int, int)| #[trigger] posts_on(final(posts)@, d) == posts_on(old(posts)@, d),
{
    let mut rest: Vec<Post> = Vec::new();
    std::mem::swap(posts, &mut rest);
    let ghost orig = rest@;
    assert forall|d: (int, int, int)| #[trigger] posts_on(orig, d) == posts_on(posts@, d) + posts_on(
        rest@,
        d,
    ) by {
        lemma_posts_on_none(posts@, d);
        assert(posts@ + rest@ == rest@);
    }
    while rest.len() > 0
        invariant
            sorted_by_date(posts@),
            forall|d: (int, int, int)| #[trigger] posts_on(orig, d) == posts_on(posts@, d) + posts_on(
                rest@,
                d,
            ),
            orig == old(posts)@,
        decreases rest@.len(),
    {
        let ghost before_rest = rest@;
        let ghost before_out = posts@;
        let p = rest.remove(0);
        assert(before_rest == seq![p] + rest@);
        let mut j = posts.len();
        while j > 0 && !posts[j - 1].metadata.date.no_later_than(&p.metadata.date)
            invariant
                j <= posts@.len(),
                posts@ == before_out,
                forall|i: int| j <= i < posts@.len() ==> !date_le(post_date(posts@[i]), post_date(p)),
            decreases j,
        {
            j = j - 1;
        }
        proof {
            assert forall|i: int| 0 <= i < j implies date_le(post_date(posts@[i]), post_date(p)) by {
                if j > 0 {
                    assert(date_le(post_date(posts@[j - 1]), post_date(p)));
                    assert(date_le(post_date(posts@[i]), post_date(posts@[j - 1])));
                }
            }
            assert forall|d: (int, int, int)| #[trigger] posts_on(before_out.insert(j as int, p), d)
                == posts_on(before_out, d) + posts_on(seq![p], d) by {
                lemma_posts_on_insert(before_out, j as int, p, d);
            }
            assert forall|d: (int, int, int)| #[trigger] posts_on(before_rest, d) == posts_on(
                seq![p],
                d,
            ) + posts_on(rest@, d) by {
                Seq::filter_distributes_over_add(seq![p], rest@, |q: Post| post_date(q) == d);
            }
        }
        posts.insert(j, p);
        proof {
            assert forall|a: int, b: int| 0 <= a < b < posts@.len() implies date_le(
                post_date(posts@[a]),
                post_date(posts@[b]),
            ) by {
                let pj = post_date(p);
                if b < j {
                    assert(posts@[a] == before_out[a] && posts@[b] == before_out[b]);
                } else if b == j {
                    assert(posts@[a] == before_out[a]);
                } else if a == j {
                    assert(posts@[b] == before_out[b - 1]);
                    assert(!date_le(post_date(before_out[b - 1]), pj));
                } else if a < j {
                    assert(posts@[a] == before_out[a] && posts@[b] == before_out[b - 1]);
                } else {
                    assert(posts@[a] == before_out[a - 1] && posts@[b] == before_out[b - 1]);
                }
            }
            assert forall|d: (int, int, int)| #[trigger] posts_on(orig, d) == posts_on(posts@, d)
                + posts_on(rest@, d) by {
                assert(posts_on(orig, d) == posts_on(before_out, d) + posts_on(before_rest, d));
            }
        }
    }
    proof {
        assert forall|d: (int, int, int)| #[trigger] posts_on(posts@, d) == posts_on(orig, d) by {
            assert(rest@ == Seq::<Post>::empty());
            lemma_posts_on_none(rest@, d);
            assert(posts_on(orig, d) == posts_on(posts@, d) + Seq::<Post>::empty());
        }
    }
}

// ----- one post -----

/// What becomes of one post.
pub enum PostOutcome {
    /// The post is a draft and is not served.
    Draft,
    /// The post, ready to be written.
    Ready(Post),
}

/// Turns a post's metadata and the lines of its body into a post: drafts are
/// left out, the body is parsed into blocks, and the page gets a name from
/// the slug of the title that no other page has.
pub fn build_post(metadata: PostMetadata, body_lines: &[String], names: &mut NameRegistry) -> (r:
    PostOutcome)
    requires
        old(names).wf(),
    ensures
        final(names).wf(),
        metadata.draft ==> r is Draft && final(names).model() == old(names).model(),
        !metadata.draft ==> r is Ready,
        r matches PostOutcome::Ready(p) ==> {
            &&& !metadata.draft
            &&& parse_body_spec(line_views(body_lines@)) == block_models(p.body@)
            &&& p.metadata == metadata
            &&& hands_out(
                old(names).model(),
                final(names).model(),
                slug_spec(metadata.title@),
                p.file_name@,
            )
        },
{
    if metadata.draft {
        return PostOutcome::Draft;
    }
    let body = parse_body(body_lines);
    let slug = slugify(metadata.title.as_str());
    let file_name = names.unique_name(slug.as_str());
    PostOutcome::Ready(Post { file_name, metadata, body })
}

} // verus!
