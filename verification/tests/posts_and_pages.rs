use std::cmp::Ordering;

use markdown_compiler::block::{Block, Heading};
use markdown_compiler::date::PostDate;
use markdown_compiler::inline::Inline;
use markdown_compiler::names::NameRegistry;
use markdown_compiler::post::{
    build_post, sort_posts_by_date, split_front_matter, FrontMatterError, Post, PostMetadata,
    PostOutcome,
};
use markdown_compiler::site::{index_entry, index_page, post_page, render};
use markdown_compiler::slug::slugify;

fn owned(lines: &[&str]) -> Vec<String> {
    lines.iter().map(|l| l.to_string()).collect()
}

fn date(y: i32, m: u32, d: u32) -> PostDate {
    PostDate::from_ymd(y, m, d).unwrap()
}

fn meta(title: &str, d: PostDate) -> PostMetadata {
    PostMetadata {
        title: title.to_string(),
        date: d,
        description: String::new(),
        tags: Vec::new(),
        draft: false,
    }
}

fn post(name: &str, title: &str, d: PostDate) -> Post {
    Post { file_name: name.to_string(), metadata: meta(title, d), body: Vec::new() }
}

#[test]
fn slugs() {
    assert_eq!(slugify(".md to .html compiler"), "md-to-html-compiler");
    assert_eq!(slugify("Hello, World!"), "hello-world");
    assert_eq!(slugify("Caf\u{e9} au lait"), "cafe-au-lait");
    assert_eq!(slugify("--Stra\u{df}e  \u{c6}ON \u{153}uvre--"), "strasse-on-oeuvre");
    assert_eq!(slugify("!!!"), "");
    assert_eq!(slugify("Ni\u{f1}o \u{e6}ther"), "nino-aether");
}

#[test]
fn slugs_have_only_lower_case_letters_digits_and_single_dashes() {
    let s = slugify("  A -- b __ C9 ?? \u{e0}  ");
    assert_eq!(s, "a-b-c9-a");
    assert!(!s.starts_with('-') && !s.ends_with('-') && !s.contains("--"));
}

fn joined(a: &str, b: &str) -> String {
    [slugify(a), slugify(b)].into_iter().filter(|t| !t.is_empty()).collect::<Vec<_>>().join("-")
}

#[test]
fn slug_of_words_joined_by_a_space() {
    for (a, b) in [("Hello", "World"), ("!!", "Rust 2024"), ("Caf\u{e9}", ""), ("a--", "--b")] {
        assert_eq!(slugify(&format!("{a} {b}")), joined(a, b));
    }
    assert_eq!(slugify("Hello World"), "hello-world");
}

#[test]
fn slug_ignores_ascii_case() {
    for s in ["ABC d", "Hello, World!", "\u{c6}ON MiXeD 42"] {
        assert_eq!(slugify(s), slugify(&s.to_ascii_lowercase()));
    }
    assert_eq!(slugify("ABC d"), "abc-d");
}

#[test]
fn slug_takes_no_more_bytes_than_its_text() {
    for s in ["Stra\u{df}e", "\u{153}uvre", "\u{e6}ther caf\u{e9}", "a - b", "\u{1f600} smile", "x"] {
        assert!(slugify(s).len() <= s.len());
    }
    assert_eq!(slugify("Stra\u{df}e").len(), "Stra\u{df}e".len());
    assert_eq!(slugify("\u{153}uvre"), "oeuvre");
    assert_eq!("\u{153}uvre".len(), 6);
}

#[test]
fn unique_names_count_up() {
    let mut names = NameRegistry::new();
    assert_eq!(names.unique_name("post"), "post.html");
    assert_eq!(names.unique_name("post"), "post-1.html");
    assert_eq!(names.unique_name("post-1"), "post-1-1.html");
    assert_eq!(names.unique_name("post"), "post-2.html");
    assert_eq!(names.unique_name("other"), "other.html");
    assert_eq!(names.unique_name("post-1"), "post-1-2.html");
}

#[test]
fn unique_names_skip_names_taken_by_other_bases() {
    let mut names = NameRegistry::new();
    assert_eq!(names.unique_name("a-1"), "a-1.html");
    assert_eq!(names.unique_name("a"), "a.html");
    assert_eq!(names.unique_name("a"), "a-2.html");
    assert_eq!(names.unique_name("a"), "a-3.html");
}

#[test]
fn front_matter_is_split_off() {
    let lines = owned(&["---", "title: T", "date: 2026-07-23", " --- ", "body", "more"]);
    let fm = split_front_matter(&lines).unwrap();
    assert_eq!(fm.header, "title: T\ndate: 2026-07-23\n");
    assert_eq!(fm.body_start, 4);
}

#[test]
fn unclosed_front_matter_takes_everything() {
    let lines = owned(&["  ---", "title: T", "x"]);
    let fm = split_front_matter(&lines).unwrap();
    assert_eq!(fm.header, "title: T\nx\n");
    assert_eq!(fm.body_start, 3);
}

#[test]
fn front_matter_errors() {
    assert_eq!(split_front_matter(&owned(&[])).err(), Some(FrontMatterError::EmptyFile));
    assert_eq!(
        split_front_matter(&owned(&["title: T", "---"])).err(),
        Some(FrontMatterError::MissingOpening)
    );
    assert_eq!(FrontMatterError::EmptyFile.message(), "Empty file");
    assert_eq!(FrontMatterError::MissingOpening.message(), "Post must start with `---`");
}

#[test]
fn dates_are_validated() {
    assert!(PostDate::from_ymd(2026, 2, 29).is_none());
    assert!(PostDate::from_ymd(2024, 2, 29).is_some());
    assert!(PostDate::from_ymd(1900, 2, 29).is_none());
    assert!(PostDate::from_ymd(2000, 2, 29).is_some());
    assert!(PostDate::from_ymd(2026, 4, 31).is_none());
    assert!(PostDate::from_ymd(2026, 13, 1).is_none());
    assert!(PostDate::from_ymd(2026, 1, 0).is_none());
    assert!(PostDate::from_ymd(262142, 12, 31).is_some());
    assert!(PostDate::from_ymd(262143, 1, 1).is_none());
    assert!(PostDate::from_ymd(-262143, 1, 1).is_some());
    assert!(PostDate::from_ymd(-262144, 1, 1).is_none());
    let d = date(2026, 7, 23);
    assert_eq!((d.year(), d.month(), d.day()), (2026, 7, 23));
}

#[test]
fn dates_as_text() {
    assert_eq!(date(2026, 7, 23).to_text(), "2026-07-23");
    assert_eq!(date(7, 1, 2).to_text(), "0007-01-02");
    assert_eq!(date(-5, 12, 31).to_text(), "-0005-12-31");
    assert_eq!(date(12345, 3, 4).to_text(), "+12345-03-04");
    assert_eq!(date(-262143, 1, 1).to_text(), "-262143-01-01");
}

#[test]
fn dates_are_ordered() {
    let a = date(2026, 7, 23);
    let b = date(2026, 7, 24);
    let c = date(2025, 12, 31);
    assert!(a.no_later_than(&b) && !b.no_later_than(&a));
    assert!(c.no_later_than(&a) && a.no_later_than(&a));
    assert!(a.same_day(&date(2026, 7, 23)) && !a.same_day(&b));
}

#[test]
fn posts_compare_later_first() {
    let old = post("a.html", "A", date(2020, 1, 1));
    let new = post("b.html", "B", date(2021, 1, 1));
    assert_eq!(new.cmp(&old), Ordering::Less);
    assert_eq!(old.cmp(&new), Ordering::Greater);
    assert_eq!(old.cmp(&post("c.html", "C", date(2020, 1, 1))), Ordering::Equal);
    assert_eq!(new.partial_cmp(&old), Some(Ordering::Less));
}

#[test]
fn index_order_is_by_date_and_stable() {
    let mut posts = vec![
        post("c.html", "C", date(2026, 3, 1)),
        post("a.html", "A", date(2025, 1, 1)),
        post("d.html", "D", date(2026, 3, 1)),
        post("b.html", "B", date(2025, 6, 1)),
        post("e.html", "E", date(2025, 1, 1)),
    ];
    sort_posts_by_date(&mut posts);
    let names: Vec<&str> = posts.iter().map(|p| p.file_name.as_str()).collect();
    assert_eq!(names, vec!["a.html", "e.html", "b.html", "c.html", "d.html"]);
}

#[test]
fn render_substitutes_every_placeholder() {
    assert_eq!(render("<t>{{title}}</t>{{title}}", &[("title", "x")]), "<t>x</t>x");
    assert_eq!(render("{{a}}{{b}}", &[("a", "{{b}}"), ("b", "B")]), "BB");
    assert_eq!(render("{{ a }} {a}", &[("a", "A")]), "{{ a }} {a}");
    assert_eq!(render("keep", &[]), "keep");
}

#[test]
fn post_page_fills_both_templates() {
    let mut p = post("t.html", "T & co", date(2026, 7, 23));
    p.body = vec![Block::Heading { level: Heading::H1, content: vec![Inline::Text("Hi".to_string())] }];
    let page = post_page("<head>{{title}}</head>", "<body>{{topbar}}{{date}}{{title}}{{body}}</body>", "[bar]", &p);
    assert_eq!(
        page,
        "<!DOCTYPE html><html><head>T &amp; co</head><body>[bar]2026-07-23T &amp; co<h1>Hi</h1></body></html>"
    );
}

#[test]
fn index_entry_as_the_index_writes_it() {
    let mut p = post("my-post.html", "My <post>", date(2026, 7, 27));
    p.metadata.description = "A \"short\" line".to_string();
    p.metadata.tags = vec!["rust".to_string(), "web dev".to_string()];
    let expected = format!(
        r#"<li class="post-item" data-name="{name}" data-date="{date}" data-tags="{tag_attr}" data-desc="{desc_attr}">
    <time class="post-date" datetime="{date}">{date}</time>
    <a class="post-link" href="{href}">
        <h2 class="post-title">{title}</h2>
        {description}
    </a>
    {meta}
</li>
"#,
        name = "My &lt;post&gt;",
        href = "my-post.html",
        title = "My &lt;post&gt;",
        date = "2026-07-27",
        description = r#"<span class="post-desc">A &quot;short&quot; line</span>"#,
        desc_attr = "A &quot;short&quot; line",
        tag_attr = "rust,web dev",
        meta = r#"<div class="post-meta"><button class="tag" type="button" data-tag="rust">rust</button><span class="sep">·</span><button class="tag" type="button" data-tag="web dev">web dev</button></div>"#,
    );
    assert_eq!(index_entry(&p), expected);
}

#[test]
fn index_entry_without_description_or_tags() {
    let p = post("x.html", "X", date(2026, 1, 2));
    let e = index_entry(&p);
    assert!(e.contains("        \n    </a>\n    \n</li>\n"));
    assert!(e.contains("data-tags=\"\" data-desc=\"\""));
}

#[test]
fn index_page_lists_posts_in_order() {
    let posts = vec![post("a.html", "A", date(2025, 1, 1)), post("b.html", "B", date(2026, 1, 1))];
    let page = index_page("<h>{{title}}</h>", "{{topbar}}<ul>{{post-list}}</ul>", "T", &posts);
    let expected = format!(
        "<!DOCTYPE html><html><h>index</h>T<ul>{}{}</ul></html>",
        index_entry(&posts[0]),
        index_entry(&posts[1])
    );
    assert_eq!(page, expected);
}

#[test]
fn drafts_are_skipped() {
    let mut names = NameRegistry::new();
    let mut m = meta("Draft", date(2026, 1, 1));
    m.draft = true;
    assert!(matches!(build_post(m, &owned(&["![x]\u{e9}"]), &mut names), PostOutcome::Draft));
    assert_eq!(names.unique_name("draft"), "draft.html");
}

#[test]
fn posts_with_images_before_accented_text_are_ready() {
    let mut names = NameRegistry::new();
    let m = meta("Images", date(2026, 1, 1));
    match build_post(m, &owned(&["![x](a.gif)\u{e9}"]), &mut names) {
        PostOutcome::Ready(p) => {
            assert_eq!(p.file_name, "images.html");
            assert_eq!(
                p.body,
                vec![Block::Paragraph(vec![
                    Inline::Image { url: "a.gif".to_string(), alt: "x".to_string() },
                    Inline::Text("\u{e9}\n".to_string()),
                ])]
            );
        },
        _ => panic!("the post should be ready"),
    }
}

#[test]
fn posts_get_unique_names_from_their_titles() {
    let mut names = NameRegistry::new();
    let first = build_post(meta("Hello World", date(2026, 1, 1)), &owned(&["hi"]), &mut names);
    let second = build_post(meta("hello, world", date(2026, 1, 2)), &owned(&[]), &mut names);
    match (first, second) {
        (PostOutcome::Ready(a), PostOutcome::Ready(b)) => {
            assert_eq!(a.file_name, "hello-world.html");
            assert_eq!(b.file_name, "hello-world-1.html");
            assert_eq!(a.body, vec![Block::Paragraph(vec![Inline::Text("hi\n".to_string())])]);
            assert!(b.body.is_empty());
        },
        _ => panic!("both posts should be ready"),
    }
}
