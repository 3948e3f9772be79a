//! Character-level text primitives shared by every parser and renderer of the crate.
//!
//! Text is handled as a sequence of `char`s (the view of a `String`/`&str`). Each executable
//! helper is tied to a spec function that says what it computes: whitespace trimming as `str::trim`
//! does it (the Unicode `White_Space` property), `str::lines`, splitting on a character,
//! `split_whitespace`, ASCII case-insensitive equality, decimal rendering of integers and the
//! lexicographic order in which `String`s compare.
use vstd::prelude::*;

verus! {

// ------------------------------------------------------------------------------------------
// Whitespace and trimming
// ------------------------------------------------------------------------------------------

/// The Unicode `White_Space` property, which is what `char::is_whitespace` (and so `str::trim`
/// and `str::split_whitespace`) tests.
pub open spec fn is_white_space(c: char) -> bool {
    ||| ('\u{9}' <= c && c <= '\u{d}')
    ||| c == '\u{20}'
    ||| c == '\u{85}'
    ||| c == '\u{a0}'
    ||| c == '\u{1680}'
    ||| ('\u{2000}' <= c && c <= '\u{200a}')
    ||| c == '\u{2028}'
    ||| c == '\u{2029}'
    ||| c == '\u{202f}'
    ||| c == '\u{205f}'
    ||| c == '\u{3000}'
}

/// Whether `c` is whitespace.
pub fn is_ws(c: char) -> (b: bool)
    ensures
        b == is_white_space(c),
{
    ('\u{9}' <= c && c <= '\u{d}') || c == '\u{20}' || c == '\u{85}' || c == '\u{a0}' || c
        == '\u{1680}' || ('\u{2000}' <= c && c <= '\u{200a}') || c == '\u{2028}' || c
        == '\u{2029}' || c == '\u{202f}' || c == '\u{205f}' || c == '\u{3000}'
}

/// `s` without its leading whitespace.
pub open spec fn trim_start(s: Seq<char>) -> Seq<char>
    decreases s.len(),
{
    if s.len() > 0 && is_white_space(s[0]) {
        trim_start(s.drop_first())
    } else {
        s
    }
}

/// `s` without its trailing whitespace.
pub open spec fn trim_end(s: Seq<char>) -> Seq<char>
    decreases s.len(),
{
    if s.len() > 0 && is_white_space(s.last()) {
        trim_end(s.drop_last())
    } else {
        s
    }
}

/// `s` without leading and trailing whitespace (`str::trim`).
pub open spec fn trim(s: Seq<char>) -> Seq<char> {
    trim_end(trim_start(s))
}

/// `s` without its leading `c` characters (`str::trim_start_matches(c)`).
pub open spec fn trim_start_char(s: Seq<char>, c: char) -> Seq<char>
    decreases s.len(),
{
    if s.len() > 0 && s[0] == c {
        trim_start_char(s.drop_first(), c)
    } else {
        s
    }
}

/// The index in `v` where `v[lo..hi]` stops having leading whitespace.
pub fn trim_start_index(v: &Vec<char>, lo: usize, hi: usize) -> (k: usize)
    requires
        lo <= hi <= v@.len(),
    ensures
        lo <= k <= hi,
        v@.subrange(k as int, hi as int) == trim_start(v@.subrange(lo as int, hi as int)),
{
    let mut k: usize = lo;
    while k < hi && is_ws(v[k])
        invariant
            lo <= k <= hi <= v@.len(),
            trim_start(v@.subrange(lo as int, hi as int)) == trim_start(
                v@.subrange(k as int, hi as int),
            ),
        decreases hi - k,
    {
        assert(v@.subrange(k as int, hi as int).drop_first() =~= v@.subrange(
            k + 1,
            hi as int,
        ));
        k = k + 1;
    }
    k
}

/// The index in `v` where `v[lo..hi]` stops having trailing whitespace.
pub fn trim_end_index(v: &Vec<char>, lo: usize, hi: usize) -> (k: usize)
    requires
        lo <= hi <= v@.len(),
    ensures
        lo <= k <= hi,
        v@.subrange(lo as int, k as int) == trim_end(v@.subrange(lo as int, hi as int)),
{
    let mut k: usize = hi;
    while k > lo && is_ws(v[k - 1])
        invariant
            lo <= k <= hi <= v@.len(),
            trim_end(v@.subrange(lo as int, hi as int)) == trim_end(
                v@.subrange(lo as int, k as int),
            ),
        decreases k - lo,
    {
        assert(v@.subrange(lo as int, k as int).drop_last() =~= v@.subrange(
            lo as int,
            k - 1,
        ));
        k = k - 1;
    }
    k
}

/// The bounds of `trim(v[lo..hi])` inside `v`.
pub fn trim_range(v: &Vec<char>, lo: usize, hi: usize) -> (r: (usize, usize))
    requires
        lo <= hi <= v@.len(),
    ensures
        lo <= r.0 <= r.1 <= hi,
        v@.subrange(r.0 as int, r.1 as int) == trim(v@.subrange(lo as int, hi as int)),
{
    let a = trim_start_index(v, lo, hi);
    let b = trim_end_index(v, a, hi);
    (a, b)
}

/// A copy of `v[lo..hi]`.
pub fn copy_range(v: &Vec<char>, lo: usize, hi: usize) -> (r: Vec<char>)
    requires
        lo <= hi <= v@.len(),
    ensures
        r@ == v@.subrange(lo as int, hi as int),
{
    let mut r: Vec<char> = Vec::new();
    let mut i: usize = lo;
    while i < hi
        invariant
            lo <= i <= hi <= v@.len(),
            r@ == v@.subrange(lo as int, i as int),
        decreases hi - i,
    {
        r.push(v[i]);
        i = i + 1;
        assert(r@ =~= v@.subrange(lo as int, i as int));
    }
    r
}

/// `trim(v)` as a new vector.
pub fn trimmed(v: &Vec<char>) -> (r: Vec<char>)
    ensures
        r@ == trim(v@),
{
    let (a, b) = trim_range(v, 0, v.len());
    assert(v@.subrange(0, v@.len() as int) =~= v@);
    copy_range(v, a, b)
}

/// `trim_start(v)` as a new vector.
pub fn trimmed_start(v: &Vec<char>) -> (r: Vec<char>)
    ensures
        r@ == trim_start(v@),
{
    let a = trim_start_index(v, 0, v.len());
    assert(v@.subrange(0, v@.len() as int) =~= v@);
    copy_range(v, a, v.len())
}

/// Whether `trim(v)` is empty, i.e. `v` is blank.
pub fn is_blank(v: &Vec<char>) -> (b: bool)
    ensures
        b == (trim(v@).len() == 0),
{
    let (a, b) = trim_range(v, 0, v.len());
    assert(v@.subrange(0, v@.len() as int) =~= v@);
    a == b
}

// ------------------------------------------------------------------------------------------
// Conversions between `str`/`String` and `Vec<char>`
// ------------------------------------------------------------------------------------------

/// The characters of `s`.
pub fn chars_of(s: &str) -> (v: Vec<char>)
    ensures
        v@ == s@,
{
    let mut v: Vec<char> = Vec::new();
    for c in it: s.chars()
        invariant
            v@ == it.seq().take(it.index() as int),
            it.seq() == s@,
    {
        v.push(c);
    }
    v
}

/// The `String` made of the characters of `v`.
///
/// Trusted: calls `FromIterator<&char> for String` (`collect`), which by its documentation
/// appends each character in turn, so the result holds exactly the characters of `v` in order.
#[verifier::external_body]
pub(crate) fn string_of(v: &Vec<char>) -> (s: String)
    ensures
        s@ == v@,
{
    v.iter().collect()
}

/// Append the characters of `s` to `out`.
pub fn push_str(out: &mut Vec<char>, s: &str)
    ensures
        final(out)@ == old(out)@ + s@,
{
    let c = chars_of(s);
    push_all(out, &c);
}

/// Append all of `v` to `out`.
pub fn push_all(out: &mut Vec<char>, v: &Vec<char>)
    ensures
        final(out)@ == old(out)@ + v@,
{
    let mut i: usize = 0;
    while i < v.len()
        invariant
            0 <= i <= v@.len(),
            out@ == old(out)@ + v@.subrange(0, i as int),
        decreases v@.len() - i,
    {
        out.push(v[i]);
        i = i + 1;
        assert(out@ =~= old(out)@ + v@.subrange(0, i as int));
    }
    assert(v@.subrange(0, v@.len() as int) =~= v@);
}

/// Whether two character vectors are equal.
pub fn chars_eq(a: &Vec<char>, b: &Vec<char>) -> (r: bool)
    ensures
        r == (a@ == b@),
{
    if a.len() != b.len() {
        return false;
    }
    let mut i: usize = 0;
    while i < a.len()
        invariant
            a@.len() == b@.len(),
            0 <= i <= a@.len(),
            forall|j: int| 0 <= j < i ==> a@[j] == b@[j],
        decreases a@.len() - i,
    {
        if a[i] != b[i] {
            return false;
        }
        i = i + 1;
    }
    assert(a@ =~= b@);
    true
}

// ------------------------------------------------------------------------------------------
// Prefixes, searching
// ------------------------------------------------------------------------------------------

/// Whether `s` starts with `p`.
pub open spec fn starts_with(s: Seq<char>, p: Seq<char>) -> bool {
    p.len() <= s.len() && s.subrange(0, p.len() as int) == p
}

/// Whether `v[from..]` starts with `p`.
pub fn starts_with_at(v: &Vec<char>, from: usize, p: &Vec<char>) -> (r: bool)
    requires
        from <= v@.len(),
    ensures
        r == starts_with(v@.subrange(from as int, v@.len() as int), p@),
{
    if p.len() > v.len() - from {
        return false;
    }
    let vl = v.len();
    let mut i: usize = 0;
    while i < p.len()
        invariant
            vl == v@.len(),
            from + p@.len() <= v@.len(),
            0 <= i <= p@.len(),
            forall|j: int| 0 <= j < i ==> v@[from + j] == p@[j],
        decreases p@.len() - i,
    {
        if v[from + i] != p[i] {
            assert(v@.subrange(from as int, v@.len() as int).subrange(0, p@.len() as int)[i as int]
                != p@[i as int]);
            return false;
        }
        i = i + 1;
    }
    assert(v@.subrange(from as int, v@.len() as int).subrange(0, p@.len() as int) =~= p@);
    true
}

/// Whether `v` starts with the characters of `p`.
pub fn starts_with_str(v: &Vec<char>, p: &str) -> (r: bool)
    ensures
        r == starts_with(v@, p@),
{
    let pc = chars_of(p);
    assert(v@.subrange(0, v@.len() as int) =~= v@);
    starts_with_at(v, 0, &pc)
}

/// The first position at or after `from` where `p` occurs in `s`.
pub open spec fn find_from(s: Seq<char>, p: Seq<char>, from: int) -> Option<int>
    decreases s.len() + 1 - from,
{
    if from < 0 || from + p.len() > s.len() {
        None
    } else if s.subrange(from, s.len() as int).subrange(0, p.len() as int) == p {
        Some(from)
    } else {
        find_from(s, p, from + 1)
    }
}

/// The first position at or after `from` where `p` occurs in `v`.
pub fn find_sub(v: &Vec<char>, p: &Vec<char>, from: usize) -> (r: Option<usize>)
    requires
        from <= v@.len(),
    ensures
        match r {
            Some(i) => find_from(v@, p@, from as int) == Some(i as int) && from <= i && i + p@.len()
                <= v@.len(),
            None => find_from(v@, p@, from as int) is None,
        },
    decreases v@.len() + 1 - from,
{
    if p.len() > v.len() - from {
        return None;
    }
    if p.len() == 0 {
        assert(v@.subrange(from as int, v@.len() as int).subrange(0, 0) =~= p@);
        return Some(from);
    }
    if starts_with_at(v, from, p) {
        return Some(from);
    }
    find_sub(v, p, from + 1)
}

/// The strings of `ss` joined by `sep`.
pub open spec fn join(ss: Seq<Seq<char>>, sep: Seq<char>) -> Seq<char>
    decreases ss.len(),
{
    if ss.len() == 0 {
        seq![]
    } else if ss.len() == 1 {
        ss[0]
    } else {
        join(ss.drop_last(), sep) + sep + ss.last()
    }
}

/// Append the strings of `v` joined by `sep` to `out`.
pub fn push_joined(out: &mut Vec<char>, v: &Vec<String>, sep: &str)
    ensures
        final(out)@ == old(out)@ + join(v@.map_values(|s: String| s@), sep@),
{
    let ghost ss = v@.map_values(|s: String| s@);
    let mut i: usize = 0;
    while i < v.len()
        invariant
            0 <= i <= v@.len(),
            ss == v@.map_values(|s: String| s@),
            out@ == old(out)@ + join(ss.take(i as int), sep@),
        decreases v@.len() - i,
    {
        if i > 0 {
            push_str(out, sep);
        }
        push_str(out, v[i].as_str());
        proof {
            let t = ss.take(i + 1);
            assert(t.drop_last() =~= ss.take(i as int));
            if i == 0 {
                assert(join(t, sep@) == t[0]);
            }
        }
        i = i + 1;
    }
    assert(ss.take(v@.len() as int) =~= ss);
}

/// Whether `c` occurs in `s`.
pub open spec fn has_char(s: Seq<char>, c: char) -> bool {
    exists|i: int| 0 <= i < s.len() && s[i] == c
}

/// Whether `c` occurs in `v`.
pub fn contains_char(v: &Vec<char>, c: char) -> (r: bool)
    ensures
        r == has_char(v@, c),
{
    let mut i: usize = 0;
    while i < v.len()
        invariant
            0 <= i <= v@.len(),
            forall|j: int| 0 <= j < i ==> v@[j] != c,
        decreases v@.len() - i,
    {
        if v[i] == c {
            return true;
        }
        i = i + 1;
    }
    false
}

/// The index of the first `c` in `s`, or `s.len()` when there is none.
pub open spec fn index_of(s: Seq<char>, c: char) -> int
    decreases s.len(),
{
    if s.len() == 0 {
        0
    } else if s[0] == c {
        0
    } else {
        1 + index_of(s.drop_first(), c)
    }
}

/// `index_of` is the first occurrence.
pub proof fn lemma_index_of(s: Seq<char>, c: char, k: int)
    requires
        0 <= k <= s.len(),
        forall|j: int| 0 <= j < k ==> s[j] != c,
        k == s.len() || s[k] == c,
    ensures
        index_of(s, c) == k,
    decreases s.len(),
{
    if s.len() > 0 && s[0] != c {
        lemma_index_of(s.drop_first(), c, k - 1);
    }
}

// ------------------------------------------------------------------------------------------
// Lines
// ------------------------------------------------------------------------------------------

/// `s` without one trailing carriage return.
pub open spec fn strip_cr(s: Seq<char>) -> Seq<char> {
    if s.len() > 0 && s.last() == '\r' {
        s.drop_last()
    } else {
        s
    }
}

/// The lines of `s`, as `str::lines` yields them: split after each `\n`, drop that `\n` and
/// then one `\r` before it; a final line without a terminator is kept as it is, and an empty
/// final piece yields no line.
pub open spec fn lines(s: Seq<char>) -> Seq<Seq<char>>
    decreases s.len(),
{
    if s.len() == 0 {
        seq![]
    } else {
        let k = index_of(s, '\n');
        if k >= s.len() {
            seq![s]
        } else if 0 <= k {
            seq![strip_cr(s.subrange(0, k))] + lines(s.subrange(k + 1, s.len() as int))
        } else {
            seq![]
        }
    }
}

proof fn lemma_index_of_bounds(s: Seq<char>, c: char)
    ensures
        0 <= index_of(s, c) <= s.len(),
    decreases s.len(),
{
    if s.len() > 0 && s[0] != c {
        lemma_index_of_bounds(s.drop_first(), c);
    }
}

/// The lines of `v`.
pub fn split_lines(v: &Vec<char>) -> (r: Vec<Vec<char>>)
    ensures
        r@.len() == lines(v@).len(),
        forall|i: int| 0 <= i < r@.len() ==> #[trigger] r@[i]@ == lines(v@)[i],
{
    let ghost s = v@;
    let mut out: Vec<Vec<char>> = Vec::new();
    let mut start: usize = 0;
    let mut i: usize = 0;
    assert(s.subrange(0, s.len() as int) =~= s);
    assert(out@.map_values(|l: Vec<char>| l@) =~= Seq::<Seq<char>>::empty());
    while i < v.len()
        invariant
            s == v@,
            0 <= start <= i <= v@.len(),
            forall|j: int| start <= j < i ==> v@[j] != '\n',
            lines(s) == out@.map_values(|l: Vec<char>| l@) + lines(
                s.subrange(start as int, s.len() as int),
            ),
        decreases v@.len() - i,
    {
        if v[i] == '\n' {
            let ghost t = s.subrange(start as int, s.len() as int);
            proof {
                lemma_index_of(t, '\n', i - start);
                assert(t.subrange(0, i - start) =~= s.subrange(start as int, i as int));
                assert(t.subrange(i - start + 1, t.len() as int) =~= s.subrange(
                    i + 1,
                    s.len() as int,
                ));
            }
            let mut end: usize = i;
            if end > start && v[end - 1] == '\r' {
                end = end - 1;
            }
            let line = copy_range(v, start, end);
            assert(line@ == strip_cr(s.subrange(start as int, i as int))) by {
                if i > start && s[i - 1] == '\r' {
                    assert(s.subrange(start as int, i as int).drop_last() =~= s.subrange(
                        start as int,
                        i - 1,
                    ));
                }
            }
            let ghost prev = out@;
            out.push(line);
            assert(out@.map_values(|l: Vec<char>| l@) =~= prev.map_values(|l: Vec<char>| l@)
                + seq![line@]);
            start = i + 1;
        }
        i = i + 1;
    }
    let ghost t = s.subrange(start as int, s.len() as int);
    if start < v.len() {
        proof {
            lemma_index_of(t, '\n', t.len() as int);
        }
        let line = copy_range(v, start, v.len());
        let ghost prev = out@;
        out.push(line);
        assert(out@.map_values(|l: Vec<char>| l@) =~= prev.map_values(|l: Vec<char>| l@)
            + seq![line@]);
    } else {
        assert(t.len() == 0);
        assert(out@.map_values(|l: Vec<char>| l@) =~= lines(s));
    }
    assert(out@.map_values(|l: Vec<char>| l@) =~= lines(s));
    proof {
        assert forall|k: int| 0 <= k < out@.len() implies #[trigger] out@[k]@ == lines(v@)[k] by {
            assert(out@.map_values(|l: Vec<char>| l@)[k] == out@[k]@);
        }
    }
    out
}

// ------------------------------------------------------------------------------------------
// Splitting
// ------------------------------------------------------------------------------------------

/// The pieces of `s` between occurrences of `c`, empty pieces included (`str::split(c)`).
pub open spec fn split_char(s: Seq<char>, c: char) -> Seq<Seq<char>>
    decreases s.len(),
{
    let k = index_of(s, c);
    if 0 <= k < s.len() {
        seq![s.subrange(0, k)] + split_char(s.subrange(k + 1, s.len() as int), c)
    } else {
        seq![s]
    }
}

/// The pieces of `v` between occurrences of `c`.
pub fn split_on_char(v: &Vec<char>, c: char) -> (r: Vec<Vec<char>>)
    ensures
        r@.len() == split_char(v@, c).len(),
        forall|i: int| 0 <= i < r@.len() ==> #[trigger] r@[i]@ == split_char(v@, c)[i],
{
    let ghost s = v@;
    let mut out: Vec<Vec<char>> = Vec::new();
    let mut start: usize = 0;
    let mut i: usize = 0;
    assert(s.subrange(0, s.len() as int) =~= s);
    assert(out@.map_values(|l: Vec<char>| l@) =~= Seq::<Seq<char>>::empty());
    while i < v.len()
        invariant
            s == v@,
            0 <= start <= i <= v@.len(),
            forall|j: int| start <= j < i ==> v@[j] != c,
            split_char(s, c) == out@.map_values(|l: Vec<char>| l@) + split_char(
                s.subrange(start as int, s.len() as int),
                c,
            ),
        decreases v@.len() - i,
    {
        if v[i] == c {
            let ghost t = s.subrange(start as int, s.len() as int);
            proof {
                lemma_index_of(t, c, i - start);
                assert(t.subrange(0, i - start) =~= s.subrange(start as int, i as int));
                assert(t.subrange(i - start + 1, t.len() as int) =~= s.subrange(
                    i + 1,
                    s.len() as int,
                ));
            }
            let piece = copy_range(v, start, i);
            let ghost prev = out@;
            out.push(piece);
            assert(out@.map_values(|l: Vec<char>| l@) =~= prev.map_values(|l: Vec<char>| l@)
                + seq![piece@]);
            start = i + 1;
        }
        i = i + 1;
    }
    let ghost t = s.subrange(start as int, s.len() as int);
    proof {
        lemma_index_of(t, c, t.len() as int);
    }
    let piece = copy_range(v, start, v.len());
    let ghost prev = out@;
    out.push(piece);
    assert(out@.map_values(|l: Vec<char>| l@) =~= prev.map_values(|l: Vec<char>| l@) + seq![
        piece@,
    ]);
    assert(out@.map_values(|l: Vec<char>| l@) =~= split_char(s, c));
    proof {
        assert forall|k: int| 0 <= k < out@.len() implies #[trigger] out@[k]@ == split_char(
            v@,
            c,
        )[k] by {
            assert(out@.map_values(|l: Vec<char>| l@)[k] == out@[k]@);
        }
    }
    out
}

/// The index of the first whitespace character of `s`, or `s.len()`.
pub open spec fn ws_index(s: Seq<char>) -> nat
    decreases s.len(),
{
    if s.len() == 0 {
        0
    } else if is_white_space(s[0]) {
        0
    } else {
        1 + ws_index(s.drop_first())
    }
}

/// The whitespace-separated words of `s` (`str::split_whitespace`).
pub open spec fn words(s: Seq<char>) -> Seq<Seq<char>>
    decreases s.len(),
{
    if s.len() == 0 {
        seq![]
    } else if is_white_space(s[0]) {
        words(s.drop_first())
    } else {
        let k = 1 + ws_index(s.drop_first());
        if k <= s.len() {
            seq![s.subrange(0, k as int)] + words(s.subrange(k as int, s.len() as int))
        } else {
            seq![s]
        }
    }
}

proof fn lemma_ws_index(s: Seq<char>, k: int)
    requires
        0 <= k <= s.len(),
        forall|j: int| 0 <= j < k ==> !is_white_space(s[j]),
        k == s.len() || is_white_space(s[k]),
    ensures
        ws_index(s) == k,
    decreases s.len(),
{
    if s.len() > 0 && !is_white_space(s[0]) {
        lemma_ws_index(s.drop_first(), k - 1);
    }
}

/// The whitespace-separated words of `v`.
pub fn split_words(v: &Vec<char>) -> (r: Vec<Vec<char>>)
    ensures
        r@.len() == words(v@).len(),
        forall|i: int| 0 <= i < r@.len() ==> #[trigger] r@[i]@ == words(v@)[i],
{
    let ghost s = v@;
    let mut out: Vec<Vec<char>> = Vec::new();
    let mut i: usize = 0;
    assert(s.subrange(0, s.len() as int) =~= s);
    assert(out@.map_values(|l: Vec<char>| l@) =~= Seq::<Seq<char>>::empty());
    while i < v.len()
        invariant
            s == v@,
            0 <= i <= v@.len(),
            words(s) == out@.map_values(|l: Vec<char>| l@) + words(
                s.subrange(i as int, s.len() as int),
            ),
        decreases v@.len() - i,
    {
        let ghost t = s.subrange(i as int, s.len() as int);
        if is_ws(v[i]) {
            assert(t.drop_first() =~= s.subrange(i + 1, s.len() as int));
            i = i + 1;
        } else {
            let mut j: usize = i + 1;
            while j < v.len() && !is_ws(v[j])
                invariant
                    s == v@,
                    i < j <= v@.len(),
                    forall|m: int| i <= m < j ==> !is_white_space(v@[m]),
                decreases v@.len() - j,
            {
                j = j + 1;
            }
            proof {
                lemma_ws_index(t.drop_first(), j - i - 1);
                assert(t.subrange(0, j - i) =~= s.subrange(i as int, j as int));
                assert(t.subrange(j - i, t.len() as int) =~= s.subrange(j as int, s.len() as int));
            }
            let w = copy_range(v, i, j);
            let ghost prev = out@;
            out.push(w);
            assert(out@.map_values(|l: Vec<char>| l@) =~= prev.map_values(|l: Vec<char>| l@)
                + seq![w@]);
            i = j;
        }
    }
    assert(s.subrange(i as int, s.len() as int) =~= Seq::<char>::empty());
    assert(out@.map_values(|l: Vec<char>| l@) =~= words(s));
    proof {
        assert forall|k: int| 0 <= k < out@.len() implies #[trigger] out@[k]@ == words(v@)[k] by {
            assert(out@.map_values(|l: Vec<char>| l@)[k] == out@[k]@);
        }
    }
    out
}

// ------------------------------------------------------------------------------------------
// Lexicographic order
// ------------------------------------------------------------------------------------------

/// The order in which `String`s compare: lexicographic over the characters, compared by code
/// point (which is the order of their UTF-8 bytes).
pub open spec fn str_lt(a: Seq<char>, b: Seq<char>) -> bool
    decreases a.len(),
{
    if a.len() == 0 {
        b.len() > 0
    } else if b.len() == 0 {
        false
    } else if a[0] != b[0] {
        a[0] < b[0]
    } else {
        str_lt(a.drop_first(), b.drop_first())
    }
}

/// No string is below itself.
pub proof fn lemma_str_lt_irreflexive(a: Seq<char>)
    ensures
        !str_lt(a, a),
    decreases a.len(),
{
    if a.len() > 0 {
        lemma_str_lt_irreflexive(a.drop_first());
    }
}

/// The order is transitive.
pub proof fn lemma_str_lt_transitive(a: Seq<char>, b: Seq<char>, c: Seq<char>)
    requires
        str_lt(a, b),
        str_lt(b, c),
    ensures
        str_lt(a, c),
    decreases a.len(),
{
    if a.len() > 0 && b.len() > 0 && c.len() > 0 && a[0] == b[0] && b[0] == c[0] {
        lemma_str_lt_transitive(a.drop_first(), b.drop_first(), c.drop_first());
    }
}

/// Two different strings are ordered one way or the other, and never both ways.
pub proof fn lemma_str_lt_total(a: Seq<char>, b: Seq<char>)
    ensures
        a != b ==> (str_lt(a, b) || str_lt(b, a)),
        !(str_lt(a, b) && str_lt(b, a)),
    decreases a.len(),
{
    if a.len() > 0 && b.len() > 0 && a[0] == b[0] {
        lemma_str_lt_total(a.drop_first(), b.drop_first());
        if a.drop_first() == b.drop_first() {
            assert(a =~= seq![a[0]] + a.drop_first());
            assert(b =~= seq![b[0]] + b.drop_first());
        }
    } else if a.len() == 0 && b.len() == 0 {
        assert(a =~= b);
    }
}

/// Whether `a` sorts before `b`.
pub fn chars_less(a: &Vec<char>, b: &Vec<char>) -> (r: bool)
    ensures
        r == str_lt(a@, b@),
{
    let mut i: usize = 0;
    assert(a@.skip(0) =~= a@);
    assert(b@.skip(0) =~= b@);
    while i < a.len() && i < b.len() && a[i] == b[i]
        invariant
            0 <= i <= a@.len(),
            i <= b@.len(),
            str_lt(a@, b@) == str_lt(a@.skip(i as int), b@.skip(i as int)),
        decreases a@.len() - i,
    {
        assert(a@.skip(i as int).drop_first() =~= a@.skip(i + 1));
        assert(b@.skip(i as int).drop_first() =~= b@.skip(i + 1));
        i = i + 1;
    }
    if i == a.len() {
        i < b.len()
    } else if i == b.len() {
        false
    } else {
        a[i] < b[i]
    }
}

// ------------------------------------------------------------------------------------------
// Decimal rendering
// ------------------------------------------------------------------------------------------

/// The ASCII digit for `d < 10`.
pub open spec fn digit_char(d: nat) -> char {
    if d == 0 {
        '0'
    } else if d == 1 {
        '1'
    } else if d == 2 {
        '2'
    } else if d == 3 {
        '3'
    } else if d == 4 {
        '4'
    } else if d == 5 {
        '5'
    } else if d == 6 {
        '6'
    } else if d == 7 {
        '7'
    } else if d == 8 {
        '8'
    } else {
        '9'
    }
}

/// The decimal rendering of `n`, as `Display` writes an unsigned integer.
pub open spec fn decimal(n: nat) -> Seq<char>
    decreases n,
{
    if n < 10 {
        seq![digit_char(n)]
    } else {
        decimal(n / 10).push(digit_char(n % 10))
    }
}

fn digit(d: u64) -> (c: char)
    requires
        d < 10,
    ensures
        c == digit_char(d as nat),
{
    if d == 0 {
        '0'
    } else if d == 1 {
        '1'
    } else if d == 2 {
        '2'
    } else if d == 3 {
        '3'
    } else if d == 4 {
        '4'
    } else if d == 5 {
        '5'
    } else if d == 6 {
        '6'
    } else if d == 7 {
        '7'
    } else if d == 8 {
        '8'
    } else {
        '9'
    }
}

/// Append the decimal rendering of `n` to `out`.
pub fn push_decimal(out: &mut Vec<char>, n: u64)
    ensures
        final(out)@ == old(out)@ + decimal(n as nat),
    decreases n,
{
    if n >= 10 {
        push_decimal(out, n / 10);
    }
    out.push(digit(n % 10));
    assert(final(out)@ =~= old(out)@ + decimal(n as nat));
}

// ------------------------------------------------------------------------------------------
// ASCII case-insensitive comparison
// ------------------------------------------------------------------------------------------

/// `c` with an ASCII upper-case letter mapped to its lower-case form.
pub open spec fn ascii_lower(c: char) -> char {
    if 'A' <= c && c <= 'Z' {
        ((c as u32) + 32) as char
    } else {
        c
    }
}

/// Equality up to ASCII case (`str::eq_ignore_ascii_case`).
pub open spec fn eq_ignore_ascii_case(a: Seq<char>, b: Seq<char>) -> bool {
    a.len() == b.len() && forall|i: int| 0 <= i < a.len() ==> ascii_lower(a[i]) == ascii_lower(b[i])
}

fn lower(c: char) -> (r: char)
    ensures
        r == ascii_lower(c),
{
    if 'A' <= c && c <= 'Z' {
        let b: u8 = (c as u32) as u8;
        ((b + 32) as char)
    } else {
        c
    }
}

/// Whether `a` and `b` are equal up to ASCII case.
pub fn chars_eq_ignore_ascii_case(a: &Vec<char>, b: &Vec<char>) -> (r: bool)
    ensures
        r == eq_ignore_ascii_case(a@, b@),
{
    if a.len() != b.len() {
        return false;
    }
    let mut i: usize = 0;
    while i < a.len()
        invariant
            a@.len() == b@.len(),
            0 <= i <= a@.len(),
            forall|j: int| 0 <= j < i ==> ascii_lower(a@[j]) == ascii_lower(b@[j]),
        decreases a@.len() - i,
    {
        if lower(a[i]) != lower(b[i]) {
            return false;
        }
        i = i + 1;
    }
    true
}

} // verus!
