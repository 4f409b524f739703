# markdown-compiler

A small markdown to static HTML compiler, written in Verus. The library in
`src/` holds the whole compiler, each function with a contract that Verus
proves; the program in `app/` reads `posts/*.md`, writes the pages into
`dist/` and copies `static/` next to them.

- `text`: characters of strings, trimming, line splitting, decimal numerals.
- `html`: escaping of text for HTML.
- `inline`: inline elements (emphasis, code, strikethrough, links, images).
- `block`: blocks, their parsing by kind and their HTML.
- `body`: the line-by-line parser that sorts a post's body into blocks.
- `date`: the date of a post, its text (through `chrono`) and its order.
- `slug`, `names`: page names from titles, never handed out twice.
- `post`: front matter, posts, drafts, and the order of the index.
- `order`: posts compared by date, the latest first.
- `site`: template substitution, the page of a post and the index page.
