//! Slugs: file names made from titles.

use vstd::prelude::*;
use crate::text::chars_of;

verus! {

/// What a letter with a diacritic, or a ligature, is written as in a slug.
pub open spec fn fold_letter(c: char) -> Option<Seq<char>> {
    let u = c as u32;
    if 0xe0 <= u <= 0xe5 {
        Some(seq!['a'])
    } else if 0xe8 <= u <= 0xeb {
        Some(seq!['e'])
    } else if 0xec <= u <= 0xef {
        Some(seq!['i'])
    } else if (0xf2 <= u <= 0xf6) || u == 0xf8 {
        Some(seq!['o'])
    } else if 0xf9 <= u <= 0xfc {
        Some(seq!['u'])
    } else if u == 0xe7 {
        Some(seq!['c'])
    } else if u == 0xf1 {
        Some(seq!['n'])
    } else if u == 0xdf {
        Some(seq!['s', 's'])
    } else if u == 0xe6 {
        Some(seq!['a', 'e'])
    } else if u == 0x153 {
        Some(seq!['o', 'e'])
    } else {
        None
    }
}

pub open spec fn is_ascii_alphanumeric(c: char) -> bool {
    ('0' <= c && c <= '9') || ('a' <= c && c <= 'z') || ('A' <= c && c <= 'Z')
}

pub open spec fn to_ascii_lowercase(c: char) -> char {
    if 'A' <= c && c <= 'Z' {
        ((c as u32) + 32) as char
    } else {
        c
    }
}

/// `out` with `txt` added, behind a `-` when a separator is pending and
/// `out` is not empty.
pub open spec fn slug_push(out: Seq<char>, txt: Seq<char>, pending: bool) -> Seq<char> {
    (if pending && out.len() > 0 {
        out.push('-')
    } else {
        out
    }) + txt
}

/// The slug so far and whether a separator is pending, after one more
/// character `c`.
pub open spec fn slug_step(st: (Seq<char>, bool), c: char) -> (Seq<char>, bool) {
    let (out, pending) = st;
    match fold_letter(c) {
        Some(r) => (slug_push(out, r, pending), false),
        None => if is_ascii_alphanumeric(c) {
            (slug_push(out, seq![to_ascii_lowercase(c)], pending), false)
        } else {
            (out, true)
        },
    }
}

/// The state after the characters of `s`, from the state `st`.
pub open spec fn slug_from(st: (Seq<char>, bool), s: Seq<char>) -> (Seq<char>, bool)
    decreases s.len(),
{
    if s.len() == 0 {
        st
    } else {
        slug_step(slug_from(st, s.drop_last()), s.last())
    }
}

/// The slug of `s` so far, and whether a separator is pending.
pub open spec fn slug_state(s: Seq<char>) -> (Seq<char>, bool) {
    slug_from((seq![], false), s)
}

/// The slug of `s`: letters and digits kept, in lower case, letters with
/// diacritics folded to plain ones, and every run of other characters
/// between them turned into a single `-`.
pub open spec fn slug_spec(s: Seq<char>) -> Seq<char> {
    slug_state(s).0
}

/// A character that a slug may hold.
pub open spec fn is_slug_char(c: char) -> bool {
    ('0' <= c && c <= '9') || ('a' <= c && c <= 'z') || c == '-'
}

/// A slug: lower-case letters, digits and single dashes between them.
pub open spec fn is_slug(s: Seq<char>) -> bool {
    &&& forall|i: int| 0 <= i < s.len() ==> is_slug_char(#[trigger] s[i])
    &&& s.len() > 0 ==> s[0] != '-' && s.last() != '-'
    &&& forall|i: int| 0 <= i < s.len() - 1 ==> !(#[trigger] s[i] == '-' && s[i + 1] == '-')
}

proof fn lemma_slug_push(out: Seq<char>, txt: Seq<char>, pending: bool)
    requires
        is_slug(out),
        txt.len() > 0,
        forall|i: int| 0 <= i < txt.len() ==> is_slug_char(#[trigger] txt[i]) && txt[i] != '-',
    ensures
        is_slug(slug_push(out, txt, pending)),
{
    let pre = if pending && out.len() > 0 {
        out.push('-')
    } else {
        out
    };
    let r = pre + txt;
    assert forall|i: int| 0 <= i < r.len() implies is_slug_char(#[trigger] r[i]) by {
        if i < pre.len() {
            assert(r[i] == pre[i]);
            if i < out.len() {
                assert(pre[i] == out[i]);
            }
        } else {
            assert(r[i] == txt[i - pre.len()]);
        }
    }
    assert forall|i: int| 0 <= i < r.len() - 1 implies !(#[trigger] r[i] == '-' && r[i + 1] == '-') by {
        if i + 1 < pre.len() {
            assert(r[i] == pre[i] && r[i + 1] == pre[i + 1]);
            if i + 1 < out.len() {
                assert(pre[i] == out[i] && pre[i + 1] == out[i + 1]);
            } else {
                assert(pre[i] == out[i]);
                assert(out[i] == out.last());
            }
        } else if i + 1 == pre.len() {
            assert(r[i + 1] == txt[0]);
        } else {
            assert(r[i + 1] == txt[i + 1 - pre.len()]);
        }
    }
    if r.len() > 0 {
        if pre.len() > 0 {
            assert(r[0] == pre[0]);
            assert(pre[0] == out[0]);
        } else {
            assert(r[0] == txt[0]);
        }
        assert(r.last() == txt.last());
    }
}

proof fn lemma_slug_state(s: Seq<char>)
    ensures
        is_slug(slug_state(s).0),
    decreases s.len(),
{
    if s.len() > 0 {
        lemma_slug_state(s.drop_last());
        assert(slug_state(s) == slug_step(slug_state(s.drop_last()), s.last()));
        let (out, pending) = slug_state(s.drop_last());
        let c = s.last();
        match fold_letter(c) {
            Some(r) => {
                lemma_slug_push(out, r, pending);
            },
            None => if is_ascii_alphanumeric(c) {
                let l = to_ascii_lowercase(c);
                assert(is_slug_char(l) && l != '-');
                lemma_slug_push(out, seq![l], pending);
            },
        }
    }
}

/// The slug of `s`, for use as a file name.
pub fn slugify(s: &str) -> (r: String)
    ensures
        r@ == slug_spec(s@),
        is_slug(r@),
{
    let v = chars_of(s);
    let mut out = String::new();
    let mut pending_dash = false;
    let mut i: usize = 0;
    while i < v.len()
        invariant
            i <= v@.len(),
            v@ == s@,
            (out@, pending_dash) == slug_state(v@.take(i as int)),
        decreases v@.len() - i,
    {
        let c = v[i];
        let u = c as u32;
        let repl: Option<&str> = if 0xe0 <= u && u <= 0xe5 {
            Some("a")
        } else if 0xe8 <= u && u <= 0xeb {
            Some("e")
        } else if 0xec <= u && u <= 0xef {
            Some("i")
        } else if (0xf2 <= u && u <= 0xf6) || u == 0xf8 {
            Some("o")
        } else if 0xf9 <= u && u <= 0xfc {
            Some("u")
        } else if u == 0xe7 {
            Some("c")
        } else if u == 0xf1 {
            Some("n")
        } else if u == 0xdf {
            Some("ss")
        } else if u == 0xe6 {
            Some("ae")
        } else if u == 0x153 {
            Some("oe")
        } else {
            None
        };
        proof {
            reveal_strlit("a");
            reveal_strlit("e");
            reveal_strlit("i");
            reveal_strlit("o");
            reveal_strlit("u");
            reveal_strlit("c");
            reveal_strlit("n");
            reveal_strlit("ss");
            reveal_strlit("ae");
            reveal_strlit("oe");
            assert(v@.take(i + 1).drop_last() == v@.take(i as int));
        }
        match repl {
            Some(r) => {
                assert(fold_letter(c) == Some(r@));
                if pending_dash && !out.as_str().is_empty() {
                    out.push('-');
                }
                pending_dash = false;
                out.append(r);
            },
            None => {
                if ('0' <= c && c <= '9') || ('a' <= c && c <= 'z') || ('A' <= c && c <= 'Z') {
                    let lower = if 'A' <= c && c <= 'Z' {
                        ((u + 32) as u8) as char
                    } else {
                        c
                    };
                    assert(lower == to_ascii_lowercase(c));
                    if pending_dash && !out.as_str().is_empty() {
                        out.push('-');
                    }
                    pending_dash = false;
                    out.push(lower);
                } else {
                    pending_dash = true;
                }
            },
        }
        i = i + 1;
    }
    assert(v@.take(v@.len() as int) == v@);
    proof {
        lemma_slug_state(v@);
    }
    out
}

/// Reading `a` and then `r` is reading `a + r`.
proof fn lemma_slug_from_concat(st: (Seq<char>, bool), a: Seq<char>, r: Seq<char>)
    ensures
        slug_from(st, a + r) == slug_from(slug_from(st, a), r),
    decreases r.len(),
{
    if r.len() == 0 {
        assert(a + r == a);
    } else {
        assert((a + r).drop_last() == a + r.drop_last());
        assert((a + r).last() == r.last());
        lemma_slug_from_concat(st, a, r.drop_last());
    }
}

/// Two slugs joined by `-`, where both are not empty.
pub open spec fn join_slugs(a: Seq<char>, b: Seq<char>) -> Seq<char> {
    if b.len() == 0 {
        a
    } else if a.len() == 0 {
        b
    } else {
        a + seq!['-'] + b
    }
}

/// Reading `r` after a pending separator: the slug of `r` is joined to what
/// was there before.
proof fn lemma_slug_after_separator(o: Seq<char>, r: Seq<char>)
    ensures
        ({
            let (x, q) = slug_from((o, true), r);
            let (y, q2) = slug_state(r);
            &&& x == join_slugs(o, y)
            &&& y.len() == 0 ==> q
            &&& y.len() > 0 ==> q == q2
        }),
    decreases r.len(),
{
    if r.len() > 0 {
        lemma_slug_after_separator(o, r.drop_last());
        let (x, q) = slug_from((o, true), r.drop_last());
        let (y, q2) = slug_state(r.drop_last());
        let c = r.last();
        assert(slug_state(r) == slug_step(slug_state(r.drop_last()), c));
        match fold_letter(c) {
            Some(t) => {
                assert(t.len() > 0);
                if y.len() > 0 {
                    assert(join_slugs(o, y) + (if q { seq!['-'] } else { seq![] }) + t == join_slugs(o, slug_push(y, t, q2)));
                } else {
                    assert(slug_push(y, t, q2) == t);
                }
            },
            None => if is_ascii_alphanumeric(c) {
                let t = seq![to_ascii_lowercase(c)];
                if y.len() > 0 {
                    assert(join_slugs(o, y) + (if q { seq!['-'] } else { seq![] }) + t == join_slugs(o, slug_push(y, t, q2)));
                } else {
                    assert(slug_push(y, t, q2) == t);
                }
            },
        }
    }
}

/// The slug of two words joined by a space is the slugs of the two joined
/// by `-`, leaving out one that is empty.
pub proof fn law_slug_of_words(a: Seq<char>, b: Seq<char>)
    ensures
        slug_spec(a + seq![' '] + b) == join_slugs(slug_spec(a), slug_spec(b)),
{
    let init = (Seq::<char>::empty(), false);
    lemma_slug_from_concat(init, a + seq![' '], b);
    lemma_slug_from_concat(init, a, seq![' ']);
    assert(seq![' '].drop_last() == Seq::<char>::empty());
    assert(fold_letter(' ') is None);
    assert(!is_ascii_alphanumeric(' '));
    let sa = slug_state(a);
    assert(slug_from(sa, seq![' ']) == slug_step(slug_from(sa, Seq::<char>::empty()), ' '));
    assert(slug_from(sa, seq![' ']) == (sa.0, true));
    assert(slug_state(a + seq![' ']) == (sa.0, true));
    lemma_slug_after_separator(sa.0, b);
    assert(slug_state(a + seq![' '] + b) == slug_from((sa.0, true), b));
}

/// `s` with its ASCII upper-case letters in lower case.
pub open spec fn ascii_lowercase(s: Seq<char>) -> Seq<char> {
    s.map_values(|c: char| to_ascii_lowercase(c))
}

proof fn lemma_slug_step_lowercase(st: (Seq<char>, bool), c: char)
    ensures
        slug_step(st, c) == slug_step(st, to_ascii_lowercase(c)),
{
    if 'A' <= c && c <= 'Z' {
        let l = to_ascii_lowercase(c);
        assert('a' <= l && l <= 'z');
        assert(to_ascii_lowercase(l) == l);
        assert(fold_letter(c) is None);
        assert(fold_letter(l) is None);
    }
}

proof fn lemma_slug_from_lowercase(st: (Seq<char>, bool), s: Seq<char>)
    ensures
        slug_from(st, s) == slug_from(st, ascii_lowercase(s)),
    decreases s.len(),
{
    if s.len() > 0 {
        lemma_slug_from_lowercase(st, s.drop_last());
        assert(ascii_lowercase(s).drop_last() == ascii_lowercase(s.drop_last()));
        assert(ascii_lowercase(s).last() == to_ascii_lowercase(s.last()));
        lemma_slug_step_lowercase(slug_from(st, s.drop_last()), s.last());
    }
}

/// The slug does not depend on the case of ASCII letters.
pub proof fn law_slug_ignores_ascii_case(s: Seq<char>)
    ensures
        slug_spec(s) == slug_spec(ascii_lowercase(s)),
{
    lemma_slug_from_lowercase((Seq::<char>::empty(), false), s);
}

/// Plain lower-case letters, read after the state `st`, are added to the slug
/// as they are.
proof fn lemma_slug_from_plain_letters(st: (Seq<char>, bool), r: Seq<char>)
    requires
        1 <= r.len() <= 2,
        forall|i: int| 0 <= i < r.len() ==> 'a' <= #[trigger] r[i] && r[i] <= 'z',
    ensures
        slug_from(st, r) == (slug_push(st.0, r, st.1), false),
{
    let x = r[0];
    assert(fold_letter(x) is None);
    assert(to_ascii_lowercase(x) == x);
    assert(seq![x].drop_last() =~= Seq::<char>::empty());
    assert(slug_from(st, Seq::<char>::empty()) == st);
    assert(seq![x].last() == x);
    let once = slug_from(st, seq![x]);
    assert(once == slug_step(st, x));
    assert(once == (slug_push(st.0, seq![x], st.1), false));
    if r.len() == 1 {
        assert(seq![x] =~= r);
    } else {
        let y = r[1];
        assert(fold_letter(y) is None);
        assert(to_ascii_lowercase(y) == y);
        assert(r.drop_last() =~= seq![x]);
        assert(r.last() == y);
        assert(slug_push(once.0, seq![y], false) =~= slug_push(st.0, r, st.1));
    }
}

/// Writing a letter with a diacritic, or a ligature, in plain letters leaves
/// the slug unchanged, wherever it stands: `\u{e0}`..`\u{e5}` as `a`,
/// `\u{e8}`..`\u{eb}` as `e`, `\u{ec}`..`\u{ef}` as `i`, `\u{f2}`..`\u{f6}`
/// and `\u{f8}` as `o`, `\u{f9}`..`\u{fc}` as `u`, `\u{e7}` as `c`,
/// `\u{f1}` as `n`, `\u{df}` as `ss`, `\u{e6}` as `ae` and `\u{153}` as `oe`.
pub proof fn law_slug_spells_out_accents(p: Seq<char>, c: char, r: Seq<char>, q: Seq<char>)
    requires
        ({
            ||| '\u{e0}' <= c <= '\u{e5}' && r == seq!['a']
            ||| '\u{e8}' <= c <= '\u{eb}' && r == seq!['e']
            ||| '\u{ec}' <= c <= '\u{ef}' && r == seq!['i']
            ||| ('\u{f2}' <= c <= '\u{f6}' || c == '\u{f8}') && r == seq!['o']
            ||| '\u{f9}' <= c <= '\u{fc}' && r == seq!['u']
            ||| c == '\u{e7}' && r == seq!['c']
            ||| c == '\u{f1}' && r == seq!['n']
            ||| c == '\u{df}' && r == seq!['s', 's']
            ||| c == '\u{e6}' && r == seq!['a', 'e']
            ||| c == '\u{153}' && r == seq!['o', 'e']
        }),
    ensures
        slug_spec(p + seq![c] + q) == slug_spec(p + r + q),
{
    let init = (Seq::<char>::empty(), false);
    let st = slug_from(init, p);
    lemma_slug_from_concat(init, p + seq![c], q);
    lemma_slug_from_concat(init, p, seq![c]);
    lemma_slug_from_concat(init, p + r, q);
    lemma_slug_from_concat(init, p, r);
    assert(seq![c].drop_last() =~= Seq::<char>::empty());
    assert(slug_from(st, Seq::<char>::empty()) == st);
    assert(seq![c].last() == c);
    assert(slug_from(st, seq![c]) == slug_step(st, c));
    assert(fold_letter(c) == Some(r));
    lemma_slug_from_plain_letters(st, r);
}

/// The number of bytes that UTF-8 takes for `c`.
pub open spec fn char_utf8_len(c: char) -> nat {
    let u = c as u32;
    if u < 0x80 {
        1
    } else if u < 0x800 {
        2
    } else if u < 0x10000 {
        3
    } else {
        4
    }
}

/// The number of bytes that UTF-8 takes for `s`.
pub open spec fn utf8_len(s: Seq<char>) -> nat
    decreases s.len(),
{
    if s.len() == 0 {
        0
    } else {
        utf8_len(s.drop_last()) + char_utf8_len(s.last())
    }
}

proof fn lemma_utf8_len_concat(a: Seq<char>, b: Seq<char>)
    ensures
        utf8_len(a + b) == utf8_len(a) + utf8_len(b),
    decreases b.len(),
{
    if b.len() == 0 {
        assert(a + b == a);
    } else {
        lemma_utf8_len_concat(a, b.drop_last());
        assert((a + b).drop_last() == a + b.drop_last());
        assert((a + b).last() == b.last());
    }
}

/// The bytes of a slug state: what is written, and the `-` that a pending
/// separator will add if more follows.
spec fn slug_cost(st: (Seq<char>, bool)) -> nat {
    utf8_len(st.0) + if st.1 && st.0.len() > 0 {
        1nat
    } else {
        0nat
    }
}

proof fn lemma_slug_step_cost(st: (Seq<char>, bool), c: char)
    ensures
        slug_cost(slug_step(st, c)) <= slug_cost(st) + char_utf8_len(c),
{
    let (out, pending) = st;
    let pre = if pending && out.len() > 0 {
        out.push('-')
    } else {
        out
    };
    if pending && out.len() > 0 {
        assert(out.push('-').drop_last() == out);
        assert(char_utf8_len('-') == 1);
    }
    assert(utf8_len(pre) == slug_cost(st));
    match fold_letter(c) {
        Some(r) => {
            lemma_utf8_len_concat(pre, r);
            assert(slug_push(out, r, pending) == pre + r);
            assert(slug_step(st, c) == (pre + r, false));
            assert(char_utf8_len(c) == 2);
            reveal_with_fuel(utf8_len, 3);
            assert(utf8_len(r) <= 2) by {
                if r.len() == 2 {
                    assert(r.drop_last().drop_last() == Seq::<char>::empty());
                    assert(char_utf8_len(r[0]) == 1 && char_utf8_len(r[1]) == 1);
                } else {
                    assert(r.drop_last() == Seq::<char>::empty());
                    assert(char_utf8_len(r[0]) == 1);
                }
            }
            assert(slug_cost(slug_step(st, c)) == utf8_len(pre) + utf8_len(r));
        },
        None => if is_ascii_alphanumeric(c) {
            let l = to_ascii_lowercase(c);
            lemma_utf8_len_concat(pre, seq![l]);
            assert(slug_step(st, c) == (pre + seq![l], false));
            assert(seq![l].drop_last() == Seq::<char>::empty());
            assert(char_utf8_len(l) == 1);
            assert(char_utf8_len(c) == 1);
            assert(utf8_len(seq![l]) == 1) by {
                reveal_with_fuel(utf8_len, 2);
            }
            assert(slug_cost(slug_step(st, c)) == utf8_len(pre) + 1);
        } else {
            assert(slug_step(st, c) == (out, true));
            assert(char_utf8_len(c) >= 1);
            assert(slug_cost(slug_step(st, c)) <= utf8_len(out) + 1);
        },
    }
}

proof fn lemma_slug_from_cost(st: (Seq<char>, bool), s: Seq<char>)
    ensures
        slug_cost(slug_from(st, s)) <= slug_cost(st) + utf8_len(s),
    decreases s.len(),
{
    if s.len() > 0 {
        lemma_slug_from_cost(st, s.drop_last());
        lemma_slug_step_cost(slug_from(st, s.drop_last()), s.last());
    }
}

/// A slug never takes more bytes than the text it was made from.
pub proof fn law_slug_no_longer_in_bytes(s: Seq<char>)
    ensures
        utf8_len(slug_spec(s)) <= utf8_len(s),
{
    lemma_slug_from_cost((Seq::<char>::empty(), false), s);
}

} // verus!
