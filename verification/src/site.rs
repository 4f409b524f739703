//! Pages: templates with `{{name}}` placeholders, a post's page and the index.

use vstd::prelude::*;
use crate::text::{chars_of, occurs_at, occurs_at_exec};
use crate::html::{escape_html, escape_spec};
use crate::date::date_text;
use crate::block::{block_models, blocks_html, push_blocks_html};
use crate::post::Post;

verus! {

/// `s` with each occurrence of `pat`, found from left to right without
/// overlap, replaced by `rep`, as `str::replace` does for a pattern that is not
/// empty.
pub open spec fn replace_all(s: Seq<char>, pat: Seq<char>, rep: Seq<char>) -> Seq<char>
    decreases s.len(),
{
    if s.len() == 0 {
        seq![]
    } else if pat.len() > 0 && occurs_at(s, 0, pat) {
        rep + replace_all(s.skip(pat.len() as int), pat, rep)
    } else {
        seq![s[0]] + replace_all(s.drop_first(), pat, rep)
    }
}

/// The placeholder for `key`: `{{key}}`.
pub open spec fn placeholder(key: Seq<char>) -> Seq<char> {
    seq!['{', '{'] + key + seq!['}', '}']
}

/// `template` with the placeholder of each field replaced by its value, one
/// field after the other.
pub open spec fn render_spec(template: Seq<char>, fields: Seq<(Seq<char>, Seq<char>)>) -> Seq<char>
    decreases fields.len(),
{
    if fields.len() == 0 {
        template
    } else {
        replace_all(
            render_spec(template, fields.drop_last()),
            placeholder(fields.last().0),
            fields.last().1,
        )
    }
}

/// The keys and values of `fields`, as characters.
pub open spec fn field_views(fields: Seq<(&str, &str)>) -> Seq<(Seq<char>, Seq<char>)> {
    fields.map_values(|f: (&str, &str)| (f.0@, f.1@))
}

/// Replaces each occurrence of `pat` in `s` by `rep`.
fn replace_all_exec(s: &Vec<char>, pat: &Vec<char>, rep: &str) -> (r: String)
    requires
        pat@.len() > 0,
    ensures
        r@ == replace_all(s@, pat@, rep@),
{
    let n = s.len();
    let mut out = String::new();
    let mut i: usize = 0;
    assert(s@.skip(0) == s@);
    while i < n
        invariant
            n == s@.len(),
            i <= n,
            pat@.len() > 0,
            replace_all(s@, pat@, rep@) == out@ + replace_all(s@.skip(i as int), pat@, rep@),
        decreases n - i,
    {
        let ghost rest = s@.skip(i as int);
        if occurs_at_exec(s, i, pat.as_slice()) {
            proof {
                assert(rest.subrange(0, pat@.len() as int) == s@.subrange(
                    i as int,
                    i + pat@.len(),
                ));
                assert(rest.skip(pat@.len() as int) == s@.skip(i + pat@.len()));
            }
            out.append(rep);
            i = i + pat.len();
        } else {
            proof {
                if pat@.len() <= rest.len() {
                    assert(rest.subrange(0, pat@.len() as int) == s@.subrange(
                        i as int,
                        i + pat@.len(),
                    ));
                }
                assert(rest.drop_first() == s@.skip(i + 1));
                assert(rest[0] == s@[i as int]);
            }
            out.push(s[i]);
            i = i + 1;
        }
    }
    assert(s@.skip(n as int) == Seq::<char>::empty());
    out
}

/// Substitutes every `{{key}}` in `template` with the value of `key`, field
/// by field.
pub fn render(template: &str, fields: &[(&str, &str)]) -> (r: String)
    ensures
        r@ == render_spec(template@, field_views(fields@)),
{
    let mut out = String::from_str(template);
    let mut i: usize = 0;
    while i < fields.len()
        invariant
            i <= fields@.len(),
            out@ == render_spec(template@, field_views(fields@).take(i as int)),
        decreases fields@.len() - i,
    {
        let (key, value) = fields[i];
        let mut pat: Vec<char> = Vec::new();
        pat.push('{');
        pat.push('{');
        let kv = chars_of(key);
        let mut k: usize = 0;
        while k < kv.len()
            invariant
                k <= kv@.len(),
                pat@ == seq!['{', '{'] + kv@.take(k as int),
            decreases kv@.len() - k,
        {
            pat.push(kv[k]);
            k = k + 1;
            assert(pat@ == seq!['{', '{'] + kv@.take(k as int));
        }
        pat.push('}');
        pat.push('}');
        assert(kv@.take(kv@.len() as int) == kv@);
        assert(pat@ == placeholder(key@));
        let cur = chars_of(out.as_str());
        out = replace_all_exec(&cur, &pat, value);
        proof {
            let fv = field_views(fields@);
            assert(fv.take(i + 1).drop_last() == fv.take(i as int));
            assert(fv[i as int] == (key@, value@));
        }
        i = i + 1;
    }
    assert(field_views(fields@).take(fields@.len() as int) == field_views(fields@));
    out
}

/// Where the template holds no occurrence of the placeholder, replacing it
/// leaves the template as it is.
pub proof fn law_replace_without_placeholder(s: Seq<char>, pat: Seq<char>, rep: Seq<char>)
    requires
        pat.len() > 0,
        forall|i: int| !occurs_at(s, i, pat),
    ensures
        replace_all(s, pat, rep) == s,
    decreases s.len(),
{
    if s.len() > 0 {
        assert forall|i: int| !occurs_at(s.drop_first(), i, pat) by {
            if occurs_at(s.drop_first(), i, pat) {
                assert(s.drop_first().subrange(i, i + pat.len()) == s.subrange(i + 1, i + 1 + pat.len()));
                assert(occurs_at(s, i + 1, pat));
            }
        }
        law_replace_without_placeholder(s.drop_first(), pat, rep);
        assert(seq![s[0]] + s.drop_first() == s);
    }
}

/// The page of a post: the head template with its title, and the body
/// template with its title, date, top bar and blocks.
pub open spec fn post_page_spec(head: Seq<char>, body: Seq<char>, topbar: Seq<char>, post: Post) -> Seq<char> {
    let title = escape_spec(post.metadata.title@);
    let date = date_text(post.metadata.date@.0, post.metadata.date@.1, post.metadata.date@.2);
    let content = blocks_html(block_models(post.body@));
    "<!DOCTYPE html><html>"@ + render_spec(head, seq![("title"@, title)]) + render_spec(
        body,
        seq![("title"@, title), ("date"@, date), ("topbar"@, topbar), ("body"@, content)],
    ) + "</html>"@
}

/// The page of `post`, from the templates of the head and of a post's body
/// and the top bar.
pub fn post_page(head: &str, body: &str, topbar: &str, post: &Post) -> (r: String)
    ensures
        r@ == post_page_spec(head@, body@, topbar@, *post),
{
    let mut content = String::new();
    push_blocks_html(&mut content, &post.body);
    let title = escape_html(post.metadata.title.as_str());
    let date = post.metadata.date.to_text();
    let head_fields = [("title", title.as_str())];
    let body_fields = [
        ("title", title.as_str()),
        ("date", date.as_str()),
        ("topbar", topbar),
        ("body", content.as_str()),
    ];
    let h = render(head, &head_fields);
    let b = render(body, &body_fields);
    assert(field_views(head_fields@) == seq![("title"@, title@)]);
    assert(field_views(body_fields@) == seq![
        ("title"@, title@),
        ("date"@, date@),
        ("topbar"@, topbar@),
        ("body"@, content@),
    ]);
    let mut page = String::new();
    page.append("<!DOCTYPE html><html>");
    page.append(h.as_str());
    page.append(b.as_str());
    page.append("</html>");
    page
}

/// The items of `items` with `sep` between each two.
pub open spec fn join_spec(items: Seq<Seq<char>>, sep: Seq<char>) -> Seq<char>
    decreases items.len(),
{
    if items.len() == 0 {
        seq![]
    } else if items.len() == 1 {
        items[0]
    } else {
        join_spec(items.drop_last(), sep) + sep + items.last()
    }
}

/// Joining puts `sep` between every two neighbours: no items give nothing, one
/// item gives itself, and the join of two non-empty lists one after the
/// other is the join of the first, `sep`, and the join of the second.
pub proof fn law_join_between_neighbours(
    a: Seq<Seq<char>>,
    b: Seq<Seq<char>>,
    x: Seq<char>,
    sep: Seq<char>,
)
    ensures
        join_spec(Seq::<Seq<char>>::empty(), sep) == Seq::<char>::empty(),
        join_spec(seq![x], sep) == x,
        a.len() > 0 && b.len() > 0 ==> join_spec(a + b, sep) == join_spec(a, sep) + sep
            + join_spec(b, sep),
    decreases b.len(),
{
    if a.len() > 0 && b.len() > 0 {
        assert((a + b).drop_last() =~= a + b.drop_last());
        assert((a + b).last() == b.last());
        if b.len() == 1 {
            assert(a + b.drop_last() =~= a);
            assert(b[0] == b.last());
        } else {
            law_join_between_neighbours(a, b.drop_last(), x, sep);
            assert(join_spec(a + b, sep) =~= join_spec(a, sep) + sep + join_spec(b, sep));
        }
    }
}

/// The button of one tag.
pub open spec fn tag_button(tag: Seq<char>) -> Seq<char> {
    "<button class=\"tag\" type=\"button\" data-tag=\""@ + escape_spec(tag) + "\">"@ + escape_spec(
        tag,
    ) + "</button>"@
}

/// The views of a sequence of strings.
pub open spec fn string_views(v: Seq<String>) -> Seq<Seq<char>> {
    v.map_values(|s: String| s@)
}

/// The buttons of the tags, separated by a dot.
pub open spec fn tag_buttons(tags: Seq<Seq<char>>) -> Seq<char> {
    join_spec(tags.map_values(|t: Seq<char>| tag_button(t)), "<span class=\"sep\">\u{b7}</span>"@)
}

/// The entry of one post in the index.
pub open spec fn index_entry_spec(post: Post) -> Seq<char> {
    let title = escape_spec(post.metadata.title@);
    let date = date_text(post.metadata.date@.0, post.metadata.date@.1, post.metadata.date@.2);
    let desc = post.metadata.description@;
    let tags = string_views(post.metadata.tags@);
    let description = if desc.len() == 0 {
        seq![]
    } else {
        "<span class=\"post-desc\">"@ + escape_spec(desc) + "</span>"@
    };
    let buttons = tag_buttons(tags);
    let meta = if buttons.len() == 0 {
        seq![]
    } else {
        "<div class=\"post-meta\">"@ + buttons + "</div>"@
    };
    "<li class=\"post-item\" data-name=\""@ + title + "\" data-date=\""@ + date
        + "\" data-tags=\""@ + escape_spec(join_spec(tags, seq![','])) + "\" data-desc=\""@
        + escape_spec(desc) + "\">\n    <time class=\"post-date\" datetime=\""@ + date + "\">"@
        + date + "</time>\n    <a class=\"post-link\" href=\""@ + post.file_name@
        + "\">\n        <h2 class=\"post-title\">"@ + title + "</h2>\n        "@ + description
        + "\n    </a>\n    "@ + meta + "\n</li>\n"@
}

/// Appends the strings of `items` to `out`, with `sep` between each two.
fn push_joined(out: &mut String, items: &Vec<String>, sep: &str)
    ensures
        final(out)@ == old(out)@ + join_spec(string_views(items@), sep@),
{
    let ghost vs = string_views(items@);
    let mut i: usize = 0;
    assert(vs.take(0) == Seq::<Seq<char>>::empty());
    while i < items.len()
        invariant
            i <= items@.len(),
            vs == string_views(items@),
            out@ == old(out)@ + join_spec(vs.take(i as int), sep@),
        decreases items@.len() - i,
    {
        if i > 0 {
            out.append(sep);
        }
        out.append(items[i].as_str());
        proof {
            assert(vs.take(i + 1).drop_last() == vs.take(i as int));
            assert(vs[i as int] == items@[i as int]@);
            if i == 0 {
                assert(vs.take(1)[0] == vs[0]);
            }
        }
        i = i + 1;
    }
    assert(vs.take(items@.len() as int) == vs);
}

/// The buttons of the tags, separated by a dot.
fn push_tag_buttons(out: &mut String, tags: &Vec<String>)
    ensures
        final(out)@ == old(out)@ + tag_buttons(string_views(tags@)),
{
    let mut buttons: Vec<String> = Vec::new();
    let mut i: usize = 0;
    let ghost ts = string_views(tags@);
    while i < tags.len()
        invariant
            i <= tags@.len(),
            ts == string_views(tags@),
            string_views(buttons@) == ts.take(i as int).map_values(|t: Seq<char>| tag_button(t)),
        decreases tags@.len() - i,
    {
        let e = escape_html(tags[i].as_str());
        let mut b = String::new();
        b.append("<button class=\"tag\" type=\"button\" data-tag=\"");
        b.append(e.as_str());
        b.append("\">");
        b.append(e.as_str());
        b.append("</button>");
        let ghost before = buttons@;
        assert(b@ == tag_button(tags@[i as int]@));
        buttons.push(b);
        proof {
            assert(ts[i as int] == tags@[i as int]@);
            assert(string_views(buttons@) == string_views(before).push(b@));
            assert(ts.take(i + 1) == ts.take(i as int).push(ts[i as int]));
            assert(string_views(buttons@) == ts.take(i + 1).map_values(
                |t: Seq<char>| tag_button(t),
            ));
        }
        i = i + 1;
    }
    assert(ts.take(tags@.len() as int) == ts);
    push_joined(out, &buttons, "<span class=\"sep\">\u{b7}</span>");
}

/// The entry of `post` in the index: its date, title, link, description and
/// tags.
pub fn index_entry(post: &Post) -> (r: String)
    ensures
        r@ == index_entry_spec(*post),
{
    let title = escape_html(post.metadata.title.as_str());
    let date = post.metadata.date.to_text();
    let description = if post.metadata.description.as_str().is_empty() {
        String::new()
    } else {
        let mut d = String::new();
        d.append("<span class=\"post-desc\">");
        d.append(escape_html(post.metadata.description.as_str()).as_str());
        d.append("</span>");
        d
    };
    let mut tags = String::new();
    push_tag_buttons(&mut tags, &post.metadata.tags);
    let meta = if tags.as_str().is_empty() {
        String::new()
    } else {
        let mut m = String::new();
        m.append("<div class=\"post-meta\">");
        m.append(tags.as_str());
        m.append("</div>");
        m
    };
    let mut joined = String::new();
    push_joined(&mut joined, &post.metadata.tags, ",");
    proof {
        reveal_strlit(",");
        assert(","@ == seq![',']);
    }
    let tag_attr = escape_html(joined.as_str());
    let desc_attr = escape_html(post.metadata.description.as_str());
    let mut out = String::new();
    out.append("<li class=\"post-item\" data-name=\"");
    out.append(title.as_str());
    out.append("\" data-date=\"");
    out.append(date.as_str());
    out.append("\" data-tags=\"");
    out.append(tag_attr.as_str());
    out.append("\" data-desc=\"");
    out.append(desc_attr.as_str());
    out.append("\">\n    <time class=\"post-date\" datetime=\"");
    out.append(date.as_str());
    out.append("\">");
    out.append(date.as_str());
    out.append("</time>\n    <a class=\"post-link\" href=\"");
    out.append(post.file_name.as_str());
    out.append("\">\n        <h2 class=\"post-title\">");
    out.append(title.as_str());
    out.append("</h2>\n        ");
    out.append(description.as_str());
    out.append("\n    </a>\n    ");
    out.append(meta.as_str());
    out.append("\n</li>\n");
    out
}

/// The entries of the posts, one after the other.
pub open spec fn index_entries(posts: Seq<Post>) -> Seq<char>
    decreases posts.len(),
{
    if posts.len() == 0 {
        seq![]
    } else {
        index_entries(posts.drop_last()) + index_entry_spec(posts.last())
    }
}

/// The index page: the head template titled `index`, and the index template
/// with the top bar and the list of posts.
pub open spec fn index_page_spec(head: Seq<char>, body: Seq<char>, topbar: Seq<char>, posts: Seq<Post>) -> Seq<char> {
    "<!DOCTYPE html><html>"@ + render_spec(head, seq![("title"@, "index"@)]) + render_spec(
        body,
        seq![("topbar"@, topbar), ("post-list"@, index_entries(posts))],
    ) + "</html>"@
}

/// The index page of `posts`, in their order, from the templates of the head
/// and of the index and the top bar.
pub fn index_page(head: &str, body: &str, topbar: &str, posts: &[Post]) -> (r: String)
    ensures
        r@ == index_page_spec(head@, body@, topbar@, posts@),
{
    let mut content = String::new();
    let mut i: usize = 0;
    while i < posts.len()
        invariant
            i <= posts@.len(),
            content@ == index_entries(posts@.take(i as int)),
        decreases posts@.len() - i,
    {
        let e = index_entry(&posts[i]);
        content.append(e.as_str());
        assert(posts@.take(i + 1).drop_last() == posts@.take(i as int));
        i = i + 1;
    }
    assert(posts@.take(posts@.len() as int) == posts@);
    let head_fields = [("title", "index")];
    let body_fields = [("topbar", topbar), ("post-list", content.as_str())];
    let h = render(head, &head_fields);
    let b = render(body, &body_fields);
    assert(field_views(head_fields@) == seq![("title"@, "index"@)]);
    assert(field_views(body_fields@) == seq![("topbar"@, topbar@), ("post-list"@, content@)]);
    let mut page = String::new();
    page.append("<!DOCTYPE html><html>");
    page.append(h.as_str());
    page.append(b.as_str());
    page.append("</html>");
    page
}

} // verus!
