//! Splitting of `### Labels` and `### Dependencies` section bodies into items.
//!
//! Each body line loses a leading list marker (`- ` / `* ` / `+ `) and a checkbox (`[ ] ` /
//! `[x] ` / `[X] `); a line holding a comma splits on commas, any other line splits on
//! whitespace with a `type:` token kept together with the token after it. A bulleted dependency
//! line is one reference as a whole (title-based references).
use vstd::prelude::*;

use crate::error::strings_view;
use crate::text::{
    chars_eq, chars_of, contains_char, copy_range, has_char, lines, push_all, split_char, split_lines,
    split_on_char, split_words, starts_with, starts_with_at, starts_with_str, string_of, trim,
    trim_start, trimmed, trimmed_start, words,
};

verus! {

/// Whether `t` is a bare list marker (`-`, `*` or `+`, surrounding whitespace ignored).
pub open spec fn is_marker_only(t: Seq<char>) -> bool {
    let x = trim(t);
    x == "-"@ || x == "*"@ || x == "+"@
}

/// `s` without its leading whitespace and then one checkbox prefix.
pub open spec fn strip_checkbox(s: Seq<char>) -> Seq<char> {
    let t = trim_start(s);
    if starts_with(t, "[ ] "@) {
        t.skip("[ ] "@.len() as int)
    } else if starts_with(t, "[x] "@) {
        t.skip("[x] "@.len() as int)
    } else if starts_with(t, "[X] "@) {
        t.skip("[X] "@.len() as int)
    } else {
        t
    }
}

/// `s` without its leading whitespace, one list marker and then a checkbox prefix.
pub open spec fn strip_list_prefix(s: Seq<char>) -> Seq<char> {
    let t = trim_start(s);
    if starts_with(t, "- "@) {
        strip_checkbox(t.skip("- "@.len() as int))
    } else if starts_with(t, "* "@) {
        strip_checkbox(t.skip("* "@.len() as int))
    } else if starts_with(t, "+ "@) {
        strip_checkbox(t.skip("+ "@.len() as int))
    } else {
        strip_checkbox(t)
    }
}

/// Whether `s` is a bulleted line (a list marker after its indentation).
pub open spec fn is_bulleted(s: Seq<char>) -> bool {
    let t = trim_start(s);
    starts_with(t, "- "@) || starts_with(t, "* "@) || starts_with(t, "+ "@)
}

/// The trimmed pieces that are neither empty nor a bare marker, in order.
pub open spec fn clean_pieces(ps: Seq<Seq<char>>) -> Seq<Seq<char>>
    decreases ps.len(),
{
    if ps.len() == 0 {
        seq![]
    } else {
        let prev = clean_pieces(ps.drop_last());
        let x = trim(ps.last());
        if x.len() > 0 && !is_marker_only(x) {
            prev.push(x)
        } else {
            prev
        }
    }
}

/// The tokens that are neither empty nor a bare marker, in order.
pub open spec fn keep_tokens(ts: Seq<Seq<char>>) -> Seq<Seq<char>>
    decreases ts.len(),
{
    if ts.len() == 0 {
        seq![]
    } else {
        let prev = keep_tokens(ts.drop_last());
        let t = ts.last();
        if t.len() > 0 && !is_marker_only(t) {
            prev.push(t)
        } else {
            prev
        }
    }
}

/// Whether a token opens a `type:` pair: it ends with `:` and is not `:` itself.
pub open spec fn opens_pair(t: Seq<char>) -> bool {
    t.len() > 0 && t.last() == ':' && t != ":"@
}

/// The items produced from `ts` so far and the `type:` token still waiting for its value.
pub open spec fn pair_fold(ts: Seq<Seq<char>>) -> (Seq<Seq<char>>, Option<Seq<char>>)
    decreases ts.len(),
{
    if ts.len() == 0 {
        (seq![], None)
    } else {
        let (items, pending) = pair_fold(ts.drop_last());
        let t = ts.last();
        match pending {
            Some(p) => (items.push(p + seq![' '] + t), None),
            None => if opens_pair(t) {
                (items, Some(t))
            } else {
                (items.push(t), None)
            },
        }
    }
}

/// The whitespace-separated items of `line`, a `type:` token joined to the token after it by
/// one space (a trailing `type:` token stays alone).
pub open spec fn colon_pairs(line: Seq<char>) -> Seq<Seq<char>> {
    let (items, pending) = pair_fold(keep_tokens(words(line)));
    match pending {
        Some(p) => items.push(p),
        None => items,
    }
}

/// The items of one body line of a `### Labels` (`deps == false`) or `### Dependencies`
/// (`deps == true`) section.
pub open spec fn line_items(raw: Seq<char>, deps: bool) -> Seq<Seq<char>> {
    let line = trim(strip_list_prefix(raw));
    if line.len() == 0 || is_marker_only(line) {
        seq![]
    } else if deps && is_bulleted(raw) {
        seq![line]
    } else if has_char(line, ',') {
        clean_pieces(split_char(line, ','))
    } else {
        colon_pairs(line)
    }
}

/// The items of all the lines in `ls`, in order.
pub open spec fn items_of_lines(ls: Seq<Seq<char>>, deps: bool) -> Seq<Seq<char>>
    decreases ls.len(),
{
    if ls.len() == 0 {
        seq![]
    } else {
        items_of_lines(ls.drop_last(), deps) + line_items(ls.last(), deps)
    }
}

/// The labels of a `### Labels` body.
pub open spec fn split_list(content: Seq<char>) -> Seq<Seq<char>> {
    items_of_lines(lines(content), false)
}

/// The references of a `### Dependencies` body.
pub open spec fn split_dependencies(content: Seq<char>) -> Seq<Seq<char>> {
    items_of_lines(lines(content), true)
}

/// A checkbox prefix: `[`, the mark (a space, `x` or `X`), `]` and a space.
pub open spec fn checkbox(mark: char) -> Seq<char> {
    seq!['[', mark, ']', ' ']
}

/// Whether `mark` is a checkbox mark: unchecked (a space) or checked (`x` or `X`).
pub open spec fn is_checkbox_mark(mark: char) -> bool {
    mark == ' ' || mark == 'x' || mark == 'X'
}

/// Checked and unchecked checkboxes are removed alike: the text after any checkbox prefix is
/// all that is left of it.
pub proof fn lemma_checkbox_removed(mark: char, t: Seq<char>)
    requires
        is_checkbox_mark(mark),
    ensures
        strip_checkbox(checkbox(mark) + t) == t,
{
    reveal_strlit("[ ] ");
    reveal_strlit("[x] ");
    reveal_strlit("[X] ");
    let s = checkbox(mark) + t;
    assert(s[0] == '[');
    assert(trim_start(s) == s);
    assert(s.subrange(0, 4) =~= checkbox(mark));
    assert(s.skip(4) =~= t);
    if mark == ' ' {
        assert(checkbox(mark) =~= "[ ] "@);
    } else if mark == 'x' {
        assert(s.subrange(0, 4) != "[ ] "@) by {
            assert(s.subrange(0, 4)[1] != "[ ] "@[1]);
        }
        assert(checkbox(mark) =~= "[x] "@);
    } else {
        assert(s.subrange(0, 4) != "[ ] "@) by {
            assert(s.subrange(0, 4)[1] != "[ ] "@[1]);
        }
        assert(s.subrange(0, 4) != "[x] "@) by {
            assert(s.subrange(0, 4)[1] != "[x] "@[1]);
        }
        assert(checkbox(mark) =~= "[X] "@);
    }
}

/// A list marker: `-`, `*` or `+`, then a space.
pub open spec fn list_marker(m: char) -> Seq<char> {
    seq![m, ' ']
}

/// A text that neither starts with whitespace nor with `[`.
pub open spec fn plain_start(t: Seq<char>) -> bool {
    t.len() > 0 && !crate::text::is_white_space(t[0]) && t[0] != '['
}

/// A bulleted body line of a `### Labels` or `### Dependencies` section gives the same items
/// whether its reference is written after a checked checkbox (`[x] `, `[X] `), an unchecked one
/// (`[ ] `), or no checkbox at all.
pub proof fn lemma_checkbox_lines_alike(m: char, mark: char, t: Seq<char>, deps: bool)
    requires
        m == '-' || m == '*' || m == '+',
        is_checkbox_mark(mark),
    ensures
        line_items(list_marker(m) + checkbox(mark) + t, deps) == line_items(
            list_marker(m) + checkbox(' ') + t,
            deps,
        ),
        plain_start(t) ==> line_items(list_marker(m) + checkbox(mark) + t, deps) == line_items(
            list_marker(m) + t,
            deps,
        ),
{
    reveal_strlit("- ");
    reveal_strlit("* ");
    reveal_strlit("+ ");
    reveal_strlit("[ ] ");
    reveal_strlit("[x] ");
    reveal_strlit("[X] ");
    let a = list_marker(m) + checkbox(mark) + t;
    let b = list_marker(m) + checkbox(' ') + t;
    let c = list_marker(m) + t;
    lemma_marker_stripped(m, checkbox(mark) + t);
    lemma_marker_stripped(m, checkbox(' ') + t);
    assert(a =~= list_marker(m) + (checkbox(mark) + t));
    assert(b =~= list_marker(m) + (checkbox(' ') + t));
    lemma_checkbox_removed(mark, t);
    lemma_checkbox_removed(' ', t);
    assert(strip_list_prefix(a) == strip_list_prefix(b));
    if plain_start(t) {
        lemma_marker_stripped(m, t);
        assert(trim_start(t) == t);
        assert(!starts_with(t, "[ ] "@) && !starts_with(t, "[x] "@) && !starts_with(t, "[X] "@)) by {
            if t.len() >= 4 {
                assert(t.subrange(0, 4)[0] == t[0]);
            }
        }
        assert(strip_checkbox(t) == t);
        assert(strip_list_prefix(c) == strip_list_prefix(a));
    }
}

proof fn lemma_trim_end_keeps_first(s: Seq<char>)
    requires
        s.len() > 0,
        !crate::text::is_white_space(s[0]),
    ensures
        crate::text::trim_end(s).len() > 0,
    decreases s.len(),
{
    if crate::text::is_white_space(s.last()) {
        assert(s.len() > 1);
        assert(s.drop_last()[0] == s[0]);
        lemma_trim_end_keeps_first(s.drop_last());
    }
}

/// A list marker does not change what a `### Labels` line holds; a bulleted `### Dependencies`
/// line is one reference, the whole text after its marker, trimmed.
pub proof fn lemma_list_marker_lines(m: char, t: Seq<char>)
    requires
        m == '-' || m == '*' || m == '+',
        plain_start(t),
        !is_bulleted(t),
        !is_marker_only(trim(t)),
    ensures
        line_items(list_marker(m) + t, false) == line_items(t, false),
        line_items(list_marker(m) + t, true) == seq![trim(t)],
{
    reveal_strlit("- ");
    reveal_strlit("* ");
    reveal_strlit("+ ");
    reveal_strlit("[ ] ");
    reveal_strlit("[x] ");
    reveal_strlit("[X] ");
    lemma_marker_stripped(m, t);
    assert(trim_start(t) == t);
    assert(!starts_with(t, "[ ] "@) && !starts_with(t, "[x] "@) && !starts_with(t, "[X] "@)) by {
        if t.len() >= 4 {
            assert(t.subrange(0, 4)[0] == t[0]);
        }
    }
    assert(strip_checkbox(t) == t);
    assert(strip_list_prefix(t) == t);
    assert(trim(t).len() > 0) by {
        assert(trim_start(t) == t);
        lemma_trim_end_keeps_first(t);
    }
}

/// After a list marker, what is left of the line is the rest with its checkbox removed; the line
/// is bulleted.
proof fn lemma_marker_stripped(m: char, rest: Seq<char>)
    requires
        m == '-' || m == '*' || m == '+',
    ensures
        strip_list_prefix(list_marker(m) + rest) == strip_checkbox(rest),
        is_bulleted(list_marker(m) + rest),
{
    reveal_strlit("- ");
    reveal_strlit("* ");
    reveal_strlit("+ ");
    let s = list_marker(m) + rest;
    assert(s[0] == m);
    assert(trim_start(s) == s);
    assert(s.subrange(0, 2) =~= list_marker(m));
    assert(s.skip(2) =~= rest);
    if m == '-' {
        assert(list_marker(m) =~= "- "@);
    } else if m == '*' {
        assert(s.subrange(0, 2) != "- "@) by {
            assert(s.subrange(0, 2)[0] != "- "@[0]);
        }
        assert(list_marker(m) =~= "* "@);
    } else {
        assert(s.subrange(0, 2) != "- "@) by {
            assert(s.subrange(0, 2)[0] != "- "@[0]);
        }
        assert(s.subrange(0, 2) != "* "@) by {
            assert(s.subrange(0, 2)[0] != "* "@[0]);
        }
        assert(list_marker(m) =~= "+ "@);
    }
}

/// Whether `t` is a bare list marker.
pub fn is_marker_only_token(t: &Vec<char>) -> (r: bool)
    ensures
        r == is_marker_only(t@),
{
    let x = trimmed(t);
    let a = chars_of("-");
    let b = chars_of("*");
    let c = chars_of("+");
    chars_eq(&x, &a) || chars_eq(&x, &b) || chars_eq(&x, &c)
}

/// `v[k..]` as a new vector.
fn skip_of(v: &Vec<char>, k: usize) -> (r: Vec<char>)
    requires
        k <= v@.len(),
    ensures
        r@ == v@.skip(k as int),
{
    let r = copy_range(v, k, v.len());
    assert(r@ =~= v@.skip(k as int));
    r
}

/// `s` without its leading whitespace and one checkbox prefix.
pub fn strip_markdown_checkbox_prefix(s: &Vec<char>) -> (r: Vec<char>)
    ensures
        r@ == strip_checkbox(s@),
{
    let t = trimmed_start(s);
    let p1 = chars_of("[ ] ");
    let p2 = chars_of("[x] ");
    let p3 = chars_of("[X] ");
    assert(t@.subrange(0, t@.len() as int) =~= t@);
    if starts_with_at(&t, 0, &p1) {
        skip_of(&t, p1.len())
    } else if starts_with_at(&t, 0, &p2) {
        skip_of(&t, p2.len())
    } else if starts_with_at(&t, 0, &p3) {
        skip_of(&t, p3.len())
    } else {
        t
    }
}

/// `s` without its leading whitespace, one list marker and a checkbox prefix.
pub fn strip_markdown_list_prefix(s: &Vec<char>) -> (r: Vec<char>)
    ensures
        r@ == strip_list_prefix(s@),
{
    let t = trimmed_start(s);
    let p1 = chars_of("- ");
    let p2 = chars_of("* ");
    let p3 = chars_of("+ ");
    assert(t@.subrange(0, t@.len() as int) =~= t@);
    if starts_with_at(&t, 0, &p1) {
        let rest = skip_of(&t, p1.len());
        strip_markdown_checkbox_prefix(&rest)
    } else if starts_with_at(&t, 0, &p2) {
        let rest = skip_of(&t, p2.len());
        strip_markdown_checkbox_prefix(&rest)
    } else if starts_with_at(&t, 0, &p3) {
        let rest = skip_of(&t, p3.len());
        strip_markdown_checkbox_prefix(&rest)
    } else {
        strip_markdown_checkbox_prefix(&t)
    }
}

/// Whether `s` is a bulleted line.
fn bulleted(s: &Vec<char>) -> (r: bool)
    ensures
        r == is_bulleted(s@),
{
    let t = trimmed_start(s);
    starts_with_str(&t, "- ") || starts_with_str(&t, "* ") || starts_with_str(&t, "+ ")
}

/// Push `x` as a `String` onto `out`.
fn push_item(out: &mut Vec<String>, x: &Vec<char>)
    ensures
        strings_view(*final(out)) == strings_view(*old(out)).push(x@),
{
    let ghost prev = out@;
    out.push(string_of(x));
    assert(strings_view(*out) =~= strings_view(*old(out)).push(x@));
}

/// Append the cleaned comma pieces of `line` to `out`.
fn push_comma_items(line: &Vec<char>, out: &mut Vec<String>)
    ensures
        strings_view(*final(out)) == strings_view(*old(out)) + clean_pieces(
            split_char(line@, ','),
        ),
{
    let pieces = split_on_char(line, ',');
    let ghost ps = split_char(line@, ',');
    assert(pieces@.map_values(|p: Vec<char>| p@) =~= ps);
    let mut i: usize = 0;
    while i < pieces.len()
        invariant
            0 <= i <= pieces@.len(),
            pieces@.len() == ps.len(),
            forall|j: int| 0 <= j < pieces@.len() ==> #[trigger] pieces@[j]@ == ps[j],
            strings_view(*out) == strings_view(*old(out)) + clean_pieces(
                ps.subrange(0, i as int),
            ),
        decreases pieces@.len() - i,
    {
        assert(ps.subrange(0, i + 1).drop_last() =~= ps.subrange(0, i as int));
        let x = trimmed(&pieces[i]);
        if x.len() > 0 && !is_marker_only_token(&x) {
            push_item(out, &x);
            assert(strings_view(*out) =~= strings_view(*old(out)) + clean_pieces(
                ps.subrange(0, i + 1),
            ));
        }
        i = i + 1;
    }
    assert(ps.subrange(0, ps.len() as int) =~= ps);
}

/// Append the `type:`-pairing items of `line` to `out`.
fn push_colon_pairs(line: &Vec<char>, out: &mut Vec<String>)
    ensures
        strings_view(*final(out)) == strings_view(*old(out)) + colon_pairs(line@),
{
    let ws = split_words(line);
    let ghost wv = words(line@);
    let mut pending: Option<Vec<char>> = None;
    let mut kept: usize = 0;
    let ghost mut ks: Seq<Seq<char>> = seq![];
    let mut i: usize = 0;
    while i < ws.len()
        invariant
            0 <= i <= ws@.len(),
            ws@.len() == wv.len(),
            forall|j: int| 0 <= j < ws@.len() ==> #[trigger] ws@[j]@ == wv[j],
            ks == keep_tokens(wv.subrange(0, i as int)),
            strings_view(*out) == strings_view(*old(out)) + pair_fold(ks).0,
            pair_fold(ks).1 == (match pending {
                Some(p) => Some(p@),
                None => None::<Seq<char>>,
            }),
        decreases ws@.len() - i,
    {
        assert(wv.subrange(0, i + 1).drop_last() =~= wv.subrange(0, i as int));
        let t = &ws[i];
        if t.len() > 0 && !is_marker_only_token(t) {
            let ghost old_ks = ks;
            proof {
                ks = ks.push(t@);
                assert(ks.drop_last() =~= old_ks);
            }
            match pending {
                Some(p) => {
                    let mut joined = p;
                    joined.push(' ');
                    push_all(&mut joined, t);
                    assert(joined@ =~= p@ + seq![' '] + t@);
                    push_item(out, &joined);
                    assert(strings_view(*out) =~= strings_view(*old(out)) + pair_fold(ks).0);
                    pending = None;
                },
                None => {
                    let colon = t[t.len() - 1] == ':';
                    let single = chars_of(":");
                    let is_colon = chars_eq(t, &single);
                    if colon && !is_colon {
                        pending = Some(copy_range(t, 0, t.len()));
                        assert(t@.subrange(0, t@.len() as int) =~= t@);
                    } else {
                        let c = copy_range(t, 0, t.len());
                        assert(t@.subrange(0, t@.len() as int) =~= t@);
                        push_item(out, &c);
                        assert(strings_view(*out) =~= strings_view(*old(out)) + pair_fold(
                            ks,
                        ).0);
                    }
                },
            }
        }
        i = i + 1;
    }
    assert(wv.subrange(0, wv.len() as int) =~= wv);
    match pending {
        Some(p) => {
            push_item(out, &p);
            assert(strings_view(*out) =~= strings_view(*old(out)) + colon_pairs(line@));
        },
        None => {},
    }
}

/// The whitespace-separated items of `line`, bare list markers dropped, with a token
/// that ends in `:` (other than `:` alone) joined by one space to the token after it.
pub fn split_whitespace_items_preserving_colon_pairs(line: &Vec<char>) -> (r: Vec<String>)
    ensures
        strings_view(r) == colon_pairs(line@),
{
    let mut out: Vec<String> = Vec::new();
    assert(strings_view(out) =~= Seq::<Seq<char>>::empty());
    push_colon_pairs(line, &mut out);
    assert(strings_view(out) =~= colon_pairs(line@));
    out
}

/// Append the items of one body line to `out`.
fn push_line_items(raw: &Vec<char>, deps: bool, out: &mut Vec<String>)
    ensures
        strings_view(*final(out)) == strings_view(*old(out)) + line_items(raw@, deps),
{
    let stripped = strip_markdown_list_prefix(raw);
    let line = trimmed(&stripped);
    if line.len() == 0 || is_marker_only_token(&line) {
        assert(strings_view(*out) =~= strings_view(*old(out)) + line_items(raw@, deps));
    } else if deps && bulleted(raw) {
        push_item(out, &line);
        assert(strings_view(*out) =~= strings_view(*old(out)) + line_items(raw@, deps));
    } else if contains_char(&line, ',') {
        push_comma_items(&line, out);
    } else {
        push_colon_pairs(&line, out);
    }
}

/// The items of a section body, line by line.
fn split_content(content: &Vec<char>, deps: bool) -> (r: Vec<String>)
    ensures
        strings_view(r) == items_of_lines(lines(content@), deps),
{
    let ls = split_lines(content);
    let ghost lv = lines(content@);
    let mut out: Vec<String> = Vec::new();
    let mut i: usize = 0;
    assert(strings_view(out) =~= Seq::<Seq<char>>::empty());
    while i < ls.len()
        invariant
            0 <= i <= ls@.len(),
            ls@.len() == lv.len(),
            forall|j: int| 0 <= j < ls@.len() ==> #[trigger] ls@[j]@ == lv[j],
            strings_view(out) == items_of_lines(lv.subrange(0, i as int), deps),
        decreases ls@.len() - i,
    {
        assert(lv.subrange(0, i + 1).drop_last() =~= lv.subrange(0, i as int));
        push_line_items(&ls[i], deps, &mut out);
        i = i + 1;
    }
    assert(lv.subrange(0, lv.len() as int) =~= lv);
    out
}

/// The labels of a `### Labels` body: comma- or whitespace-separated items, list markers and
/// checkboxes stripped.
pub fn split_list_content(content: &Vec<char>) -> (r: Vec<String>)
    ensures
        strings_view(r) == split_list(content@),
{
    split_content(content, false)
}

/// The references of a `### Dependencies` body: a bulleted line is one reference as a whole,
/// any other line splits as a label line does.
pub fn split_dependency_content(content: &Vec<char>) -> (r: Vec<String>)
    ensures
        strings_view(r) == split_dependencies(content@),
{
    split_content(content, true)
}

} // verus!
