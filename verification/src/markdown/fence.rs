//! Fenced code blocks: the lines that open and close them.
//!
//! A delimiter line has at most 3 spaces of indentation, then a run of at least 3 backticks or
//! tildes, then an optional info string. A backtick fence may not carry a backtick in its info
//! string; a fence is closed by a run of the same marker, at least as long, with no info string.
use vstd::prelude::*;

use crate::text::{
    copy_range, has_char, contains_char, trim, trim_range, trim_start_char,
};

verus! {

/// An open fenced code block.
#[derive(Debug, Clone, Copy, PartialEq, Eq, Structural)]
pub struct OpenFence {
    /// The delimiter character: a backtick or a tilde.
    pub marker: char,
    /// The delimiter run length of the opening line.
    pub run_len: usize,
    /// The 1-based line the fence opened on.
    pub line_no: usize,
}

/// The number of leading `m` characters of `s`.
pub open spec fn run_length(s: Seq<char>, m: char) -> nat
    decreases s.len(),
{
    if s.len() > 0 && s[0] == m {
        1 + run_length(s.drop_first(), m)
    } else {
        0
    }
}

/// A delimiter line as `(marker, run length, trimmed info string)`, or `None`.
pub open spec fn fence_delimiter_of(line: Seq<char>) -> Option<(char, nat, Seq<char>)> {
    let rest = trim_start_char(line, ' ');
    if line.len() - rest.len() > 3 {
        None
    } else if rest.len() == 0 {
        None
    } else if rest[0] != '`' && rest[0] != '~' {
        None
    } else {
        let n = run_length(rest, rest[0]);
        if n < 3 {
            None
        } else {
            Some((rest[0], n, trim(rest.skip(n as int))))
        }
    }
}

/// The fence a line opens, as `(marker, run length)`, or `None`.
pub open spec fn fence_opener_of(line: Seq<char>) -> Option<(char, nat)> {
    match fence_delimiter_of(line) {
        Some((m, n, info)) => if m == '`' && has_char(info, '`') {
            None
        } else {
            Some((m, n))
        },
        None => None,
    }
}

/// Whether `line` closes the fence opened with `marker` and `run_len`.
pub open spec fn closes_fence_of(line: Seq<char>, marker: char, run_len: nat) -> bool {
    match fence_delimiter_of(line) {
        Some((m, n, info)) => m == marker && n >= run_len && info.len() == 0,
        None => false,
    }
}

proof fn lemma_trim_start_char(s: Seq<char>, c: char, k: int)
    requires
        0 <= k <= s.len(),
        forall|j: int| 0 <= j < k ==> s[j] == c,
        k == s.len() || s[k] != c,
    ensures
        trim_start_char(s, c) == s.skip(k),
    decreases s.len(),
{
    if s.len() > 0 && s[0] == c {
        lemma_trim_start_char(s.drop_first(), c, k - 1);
        assert(s.drop_first().skip(k - 1) =~= s.skip(k));
    } else {
        assert(s.skip(0) =~= s);
    }
}

proof fn lemma_run_length(s: Seq<char>, m: char, k: int)
    requires
        0 <= k <= s.len(),
        forall|j: int| 0 <= j < k ==> s[j] == m,
        k == s.len() || s[k] != m,
    ensures
        run_length(s, m) == k,
    decreases s.len(),
{
    if s.len() > 0 && s[0] == m {
        lemma_run_length(s.drop_first(), m, k - 1);
    }
}

/// Classify `line` as a fence delimiter: `(marker, run length, info string)`.
pub fn fence_delimiter(line: &Vec<char>) -> (r: Option<(char, usize, Vec<char>)>)
    ensures
        match r {
            Some((m, n, info)) => fence_delimiter_of(line@) == Some((m, n as nat, info@)),
            None => fence_delimiter_of(line@) is None,
        },
{
    let mut k: usize = 0;
    while k < line.len() && line[k] == ' '
        invariant
            0 <= k <= line@.len(),
            forall|j: int| 0 <= j < k ==> line@[j] == ' ',
        decreases line@.len() - k,
    {
        k = k + 1;
    }
    proof {
        lemma_trim_start_char(line@, ' ', k as int);
    }
    let ghost rest = line@.skip(k as int);
    if k > 3 {
        return None;
    }
    if k == line.len() {
        return None;
    }
    let m = line[k];
    if m != '`' && m != '~' {
        return None;
    }
    let mut e: usize = k;
    while e < line.len() && line[e] == m
        invariant
            k <= e <= line@.len(),
            forall|j: int| k <= j < e ==> line@[j] == m,
        decreases line@.len() - e,
    {
        e = e + 1;
    }
    proof {
        lemma_run_length(rest, m, e - k);
    }
    let n = e - k;
    if n < 3 {
        return None;
    }
    let (a, b) = trim_range(line, e, line.len());
    let info = copy_range(line, a, b);
    assert(rest.skip(n as int) =~= line@.subrange(e as int, line@.len() as int));
    Some((m, n, info))
}

/// The fence `line` opens, as `(marker, run length)`.
pub fn fence_opener(line: &Vec<char>) -> (r: Option<(char, usize)>)
    ensures
        match r {
            Some((m, n)) => fence_opener_of(line@) == Some((m, n as nat)),
            None => fence_opener_of(line@) is None,
        },
{
    match fence_delimiter(line) {
        Some((m, n, info)) => {
            if m == '`' && contains_char(&info, '`') {
                None
            } else {
                Some((m, n))
            }
        },
        None => None,
    }
}

/// Whether `line` closes `open`.
pub fn closes_fence(line: &Vec<char>, open: OpenFence) -> (r: bool)
    ensures
        r == closes_fence_of(line@, open.marker, open.run_len as nat),
{
    match fence_delimiter(line) {
        Some((m, n, info)) => m == open.marker && n >= open.run_len && info.len() == 0,
        None => false,
    }
}

} // verus!
