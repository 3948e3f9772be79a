//! The single pass over the lines of a bulk-markdown document.
//!
//! The pass is a state machine: [`step_line`] says what one line does to the parse state, and
//! [`parse_document`] is the whole document's result. [`parse_bulk_markdown`] computes it.
use vstd::prelude::*;

use crate::error::{ErrorView, StructuredError};
use crate::markdown::fence::{closes_fence, closes_fence_of, fence_opener, fence_opener_of, OpenFence};
use crate::markdown::parser::{
    apply_section, apply_section_to_issue, issues_view, lines_view, new_issue,
    no_issues_error, section_before_issue_error, section_result, unterminated_fence_error,
    IssueView, ParsedIssue, Section,
};
use crate::text::{
    chars_of, copy_range, is_blank, lines, split_lines, starts_with, string_of, trim, trimmed,
};

verus! {

/// The parse state between two lines.
pub struct ParseState {
    /// The issues completed so far.
    pub issues: Seq<IssueView>,
    /// The issue being read, once a `## ` title was seen.
    pub current: Option<IssueView>,
    /// The section being read.
    pub section: Section,
    /// The body lines of that section so far.
    pub lines: Seq<Seq<char>>,
    /// Whether the implicit description line was already taken.
    pub captured: bool,
    /// The open fenced code block, if any.
    pub fence: Option<OpenFence>,
}

/// The state before the first line.
pub open spec fn initial_state() -> ParseState {
    ParseState {
        issues: seq![],
        current: None,
        section: Section::BeforeH3,
        lines: seq![],
        captured: false,
        fence: None,
    }
}

/// The state after a content line: inside an issue it joins the section body (before the first
/// `### `, only the first non-blank line is kept); outside any issue it is dropped.
pub open spec fn collect_line(st: ParseState, line: Seq<char>) -> ParseState {
    if st.current is None {
        st
    } else if st.section == Section::BeforeH3 {
        if !st.captured && trim(line).len() > 0 {
            ParseState { lines: st.lines.push(line), captured: true, ..st }
        } else {
            st
        }
    } else {
        ParseState { lines: st.lines.push(line), ..st }
    }
}

/// The completed issues once the current one is closed.
pub open spec fn closed_issues(st: ParseState) -> Seq<IssueView> {
    match st.current {
        Some(i) => st.issues.push(apply_section(i, st.section, st.lines)),
        None => st.issues,
    }
}

/// What line number `n` (1-based) does to the state `st`.
pub open spec fn step_line(st: ParseState, line: Seq<char>, n: nat) -> Result<ParseState, ErrorView> {
    match st.fence {
        Some(f) => {
            let g = if closes_fence_of(line, f.marker, f.run_len as nat) {
                None
            } else {
                Some(f)
            };
            Ok(collect_line(ParseState { fence: g, ..st }, line))
        },
        None => match fence_opener_of(line) {
            Some((m, r)) => Ok(
                collect_line(
                    ParseState {
                        fence: Some(OpenFence { marker: m, run_len: r as usize, line_no: n as usize }),
                        ..st
                    },
                    line,
                ),
            ),
            None => if starts_with(line, "## "@) {
                Ok(
                    ParseState {
                        issues: closed_issues(st),
                        current: Some(new_issue(trim(line.skip("## "@.len() as int)))),
                        section: Section::BeforeH3,
                        lines: seq![],
                        captured: false,
                        fence: None,
                    },
                )
            } else if starts_with(line, "### "@) {
                let header = trim(line.skip("### "@.len() as int));
                match st.current {
                    None => Err(section_before_issue_error(header, n)),
                    Some(i) => match section_result(header, n) {
                        Ok(s) => Ok(
                            ParseState {
                                current: Some(apply_section(i, st.section, st.lines)),
                                section: s,
                                lines: seq![],
                                ..st
                            },
                        ),
                        Err(e) => Err(e),
                    },
                }
            } else {
                Ok(collect_line(st, line))
            },
        },
    }
}

/// The state after the lines `ls`, or the first error.
pub open spec fn run_lines(ls: Seq<Seq<char>>) -> Result<ParseState, ErrorView>
    decreases ls.len(),
{
    if ls.len() == 0 {
        Ok(initial_state())
    } else {
        match run_lines(ls.drop_last()) {
            Ok(st) => step_line(st, ls.last(), ls.len()),
            Err(e) => Err(e),
        }
    }
}

/// The result once every line is read.
pub open spec fn finish(st: ParseState, has_content: bool) -> Result<Seq<IssueView>, ErrorView> {
    match st.fence {
        Some(f) => Err(unterminated_fence_error(f)),
        None => {
            let issues = closed_issues(st);
            if issues.len() == 0 && has_content {
                Err(no_issues_error())
            } else {
                Ok(issues)
            }
        },
    }
}

/// Whether some line of `ls` is not blank.
pub open spec fn has_content(ls: Seq<Seq<char>>) -> bool {
    exists|i: int| 0 <= i < ls.len() && trim(ls[i]).len() > 0
}

/// The parse of a whole document.
pub open spec fn parse_document(content: Seq<char>) -> Result<Seq<IssueView>, ErrorView> {
    let ls = lines(content);
    match run_lines(ls) {
        Ok(st) => finish(st, has_content(ls)),
        Err(e) => Err(e),
    }
}

/// The fenced code block open after the lines `ls`, tracked alone: a fence opens on an opener
/// line outside any fence and closes on a line that closes it.
pub open spec fn fence_after(ls: Seq<Seq<char>>) -> Option<OpenFence>
    decreases ls.len(),
{
    if ls.len() == 0 {
        None
    } else {
        match fence_after(ls.drop_last()) {
            Some(f) => if closes_fence_of(ls.last(), f.marker, f.run_len as nat) {
                None
            } else {
                Some(f)
            },
            None => match fence_opener_of(ls.last()) {
                Some((m, r)) => Some(
                    OpenFence { marker: m, run_len: r as usize, line_no: ls.len() as usize },
                ),
                None => None,
            },
        }
    }
}

/// The titles of the `## ` lines of `ls` that lie outside every fenced code block, in order:
/// each such line without its `## `, trimmed.
pub open spec fn h2_titles(ls: Seq<Seq<char>>) -> Seq<Seq<char>>
    decreases ls.len(),
{
    if ls.len() == 0 {
        seq![]
    } else {
        let prev = h2_titles(ls.drop_last());
        if fence_after(ls.drop_last()) is None && fence_opener_of(ls.last()) is None && starts_with(
            ls.last(),
            "## "@,
        ) {
            prev.push(trim(ls.last().skip("## "@.len() as int)))
        } else {
            prev
        }
    }
}

/// The titles of some issues.
pub open spec fn titles(issues: Seq<IssueView>) -> Seq<Seq<char>> {
    issues.map_values(|i: IssueView| i.title)
}

/// The titles of the issues of a parse state: the completed ones, then the current one.
pub open spec fn state_titles(st: ParseState) -> Seq<Seq<char>> {
    titles(closed_issues(st))
}

proof fn lemma_run_titles(ls: Seq<Seq<char>>)
    ensures
        run_lines(ls) matches Ok(st) ==> st.fence == fence_after(ls) && state_titles(st)
            == h2_titles(ls),
    decreases ls.len(),
{
    if ls.len() > 0 {
        let prev = ls.drop_last();
        lemma_run_titles(prev);
        if let Ok(st0) = run_lines(prev) {
            let line = ls.last();
            let n = ls.len();
            if let Ok(st) = step_line(st0, line, n) {
                assert(run_lines(ls) == step_line(st0, line, n));
                match st0.fence {
                    Some(f) => {
                        assert(st.issues == st0.issues && st.current == st0.current);
                        assert(state_titles(st) == state_titles(st0));
                    },
                    None => {
                        match fence_opener_of(line) {
                            Some(_) => {
                                assert(st.issues == st0.issues && st.current == st0.current);
                                assert(state_titles(st) == state_titles(st0));
                            },
                            None => {
                                if starts_with(line, "## "@) {
                                    let t = trim(line.skip("## "@.len() as int));
                                    assert(st.issues == closed_issues(st0));
                                    assert(st.current == Some(new_issue(t)));
                                    assert(titles(closed_issues(st)) =~= titles(closed_issues(st0)).push(t));
                                } else if starts_with(line, "### "@) {
                                    match st0.current {
                                        Some(i) => {
                                            let j = apply_section(i, st0.section, st0.lines);
                                            assert(j.title == i.title);
                                            assert(st.issues == st0.issues);
                                            assert(titles(closed_issues(st)) =~= titles(closed_issues(st0)));
                                        },
                                        None => {},
                                    }
                                } else {
                                    assert(st.issues == st0.issues && st.current == st0.current);
                                    assert(state_titles(st) == state_titles(st0));
                                }
                            },
                        }
                    },
                }
            }
        }
    }
}

/// The issues of a parsed document are its `## ` lines outside fenced code blocks, in order:
/// their number is the number of such lines, and the title of each is its line without the
/// `## `, trimmed.
pub proof fn lemma_titles_are_h2_lines(content: Seq<char>)
    requires
        parse_document(content) is Ok,
    ensures
        titles(parse_document(content)->Ok_0) == h2_titles(lines(content)),
        parse_document(content)->Ok_0.len() == h2_titles(lines(content)).len(),
{
    lemma_run_titles(lines(content));
}

/// Whether the line is read as plain content wherever it stands: it is no `## ` or `### `
/// header and opens no fenced code block.
pub open spec fn is_plain_line(line: Seq<char>) -> bool {
    !starts_with(line, "## "@) && !starts_with(line, "### "@) && fence_opener_of(line) is None
}

proof fn lemma_run_plain_lines(ls: Seq<Seq<char>>)
    requires
        forall|i: int| 0 <= i < ls.len() ==> is_plain_line(#[trigger] ls[i]),
    ensures
        run_lines(ls) == Ok::<ParseState, ErrorView>(initial_state()),
    decreases ls.len(),
{
    if ls.len() > 0 {
        let prev = ls.drop_last();
        assert forall|i: int| 0 <= i < prev.len() implies is_plain_line(#[trigger] prev[i]) by {
            assert(prev[i] == ls[i]);
        }
        lemma_run_plain_lines(prev);
        assert(is_plain_line(ls[ls.len() - 1]));
    }
}

/// A document with no issue header, no section header and no fence holds no issue: it parses to
/// no issues when every line is blank, and is refused as having no issues otherwise.
pub proof fn lemma_headerless_document(content: Seq<char>)
    requires
        forall|i: int| 0 <= i < lines(content).len() ==> is_plain_line(#[trigger] lines(content)[i]),
    ensures
        parse_document(content) == if has_content(lines(content)) {
            Err::<Seq<IssueView>, ErrorView>(no_issues_error())
        } else {
            Ok::<Seq<IssueView>, ErrorView>(seq![])
        },
{
    lemma_run_plain_lines(lines(content));
}

/// Once the first `k` lines fail, the whole run fails the same way.
pub proof fn lemma_run_error_persists(ls: Seq<Seq<char>>, k: int)
    requires
        0 <= k <= ls.len(),
        run_lines(ls.take(k)) is Err,
    ensures
        run_lines(ls) == run_lines(ls.take(k)),
    decreases ls.len() - k,
{
    if k < ls.len() {
        assert(ls.take(k + 1).drop_last() =~= ls.take(k));
        lemma_run_error_persists(ls, k + 1);
    } else {
        assert(ls.take(k) =~= ls);
    }
}

/// The executable parse state.
struct Parser {
    issues: Vec<ParsedIssue>,
    current: Option<ParsedIssue>,
    section: Section,
    section_lines: Vec<Vec<char>>,
    captured: bool,
    open_fence: Option<OpenFence>,
}

impl View for Parser {
    type V = ParseState;

    closed spec fn view(&self) -> ParseState {
        ParseState {
            issues: issues_view(self.issues@),
            current: match self.current {
                Some(i) => Some(i@),
                None => None,
            },
            section: self.section,
            lines: lines_view(self.section_lines@),
            captured: self.captured,
            fence: self.open_fence,
        }
    }
}

/// Add a content line to the section body being collected: inside an issue it is kept, except
/// that before the first `### ` only the first non-blank line is (that line is the implicit
/// description); outside any issue it is dropped.
pub fn collect_content_line(
    line: &Vec<char>,
    in_issue: bool,
    section: Section,
    section_lines: &mut Vec<Vec<char>>,
    captured_implicit_desc: &mut bool,
)
    ensures
        ({
            let implicit = section == Section::BeforeH3;
            let keep = in_issue && (!implicit || (!*old(captured_implicit_desc) && trim(line@).len() > 0));
            &&& lines_view(final(section_lines)@) == if keep {
                lines_view(old(section_lines)@).push(line@)
            } else {
                lines_view(old(section_lines)@)
            }
            &&& *final(captured_implicit_desc) == (*old(captured_implicit_desc) || (keep && implicit))
        }),
{
    if !in_issue {
        return;
    }
    if section == Section::BeforeH3 {
        if !*captured_implicit_desc && !is_blank(line) {
            let ghost prev = section_lines@;
            section_lines.push(copy_range(line, 0, line.len()));
            assert(line@.subrange(0, line@.len() as int) =~= line@);
            assert(lines_view(section_lines@) =~= lines_view(prev).push(line@));
            *captured_implicit_desc = true;
        }
    } else {
        let ghost prev = section_lines@;
        section_lines.push(copy_range(line, 0, line.len()));
        assert(line@.subrange(0, line@.len() as int) =~= line@);
        assert(lines_view(section_lines@) =~= lines_view(prev).push(line@));
    }
}

impl Parser {
    fn new() -> (p: Parser)
        ensures
            p@ == initial_state(),
    {
        let p = Parser {
            issues: Vec::new(),
            current: None,
            section: Section::BeforeH3,
            section_lines: Vec::new(),
            captured: false,
            open_fence: None,
        };
        assert(p@.issues =~= Seq::<IssueView>::empty());
        assert(p@.lines =~= Seq::<Seq<char>>::empty());
        p
    }

    fn collect_content_line(&mut self, line: &Vec<char>)
        ensures
            final(self)@ == collect_line(old(self)@, line@),
    {
        let in_issue = self.current.is_some();
        let ghost prev = self@;
        collect_content_line(line, in_issue, self.section, &mut self.section_lines, &mut self.captured);
        assert(self@.lines =~= collect_line(prev, line@).lines);
    }

    /// Close the current issue, if any, into the completed list.
    fn close_current(&mut self)
        ensures
            final(self)@.issues == closed_issues(old(self)@),
            final(self)@.current is None,
            final(self)@.section == old(self)@.section,
            final(self)@.lines == old(self)@.lines,
            final(self)@.captured == old(self)@.captured,
            final(self)@.fence == old(self)@.fence,
    {
        if let Some(mut issue) = self.current.take() {
            apply_section_to_issue(&mut issue, self.section, &self.section_lines);
            let ghost prev = self.issues@;
            self.issues.push(issue);
            assert(issues_view(self.issues@) =~= issues_view(prev).push(issue@));
        }
    }

    fn step(&mut self, line: &Vec<char>, n: usize) -> (r: Result<(), StructuredError>)
        ensures
            match r {
                Ok(()) => step_line(old(self)@, line@, n as nat) == Ok::<ParseState, ErrorView>(
                    final(self)@,
                ),
                Err(e) => step_line(old(self)@, line@, n as nat) == Err::<ParseState, ErrorView>(
                    e@,
                ),
            },
    {
        if let Some(f) = self.open_fence {
            if closes_fence(line, f) {
                self.open_fence = None;
            }
            self.collect_content_line(line);
            return Ok(());
        }
        if let Some((m, r)) = fence_opener(line) {
            self.open_fence = Some(OpenFence { marker: m, run_len: r, line_no: n });
            self.collect_content_line(line);
            return Ok(());
        }
        let h2 = chars_of("## ");
        let h3 = chars_of("### ");
        assert(line@.subrange(0, line@.len() as int) =~= line@);
        if crate::text::starts_with_at(line, 0, &h2) {
            self.close_current();
            let rest = copy_range(line, h2.len(), line.len());
            assert(rest@ =~= line@.skip(h2@.len() as int));
            let title = trimmed(&rest);
            self.current = Some(
                ParsedIssue {
                    title: string_of(&title),
                    stand_in_id: None,
                    parent: None,
                    priority: None,
                    issue_type: None,
                    description: None,
                    design: None,
                    acceptance_criteria: None,
                    assignee: None,
                    labels: Vec::new(),
                    dependencies: Vec::new(),
                    agent_context: None,
                },
            );
            proof {
                let cur = self.current->0;
                assert(cur@.labels =~= Seq::<Seq<char>>::empty());
                assert(cur@.dependencies =~= Seq::<Seq<char>>::empty());
            }
            self.section = Section::BeforeH3;
            self.section_lines = Vec::new();
            self.captured = false;
            assert(self@.lines =~= Seq::<Seq<char>>::empty());
            return Ok(());
        }
        if crate::text::starts_with_at(line, 0, &h3) {
            let rest = copy_range(line, h3.len(), line.len());
            assert(rest@ =~= line@.skip(h3@.len() as int));
            let header = trimmed(&rest);
            match self.current.take() {
                None => {
                    return Err(crate::markdown::parser::section_before_first_issue(
                        &header,
                        n,
                    ));
                },
                Some(mut issue) => {
                    apply_section_to_issue(&mut issue, self.section, &self.section_lines);
                    match Section::from_header(&header, n) {
                        Ok(s) => {
                            self.current = Some(issue);
                            self.section = s;
                            self.section_lines = Vec::new();
                            assert(self@.lines =~= Seq::<Seq<char>>::empty());
                            return Ok(());
                        },
                        Err(e) => {
                            return Err(e);
                        },
                    }
                },
            }
        }
        self.collect_content_line(line);
        Ok(())
    }
}

/// Parse a bulk-markdown document into its issues, all or nothing.
///
/// Rejects, with a `ValidationFailed` error, a `### ` header before the first `## ` title
/// (`kind = "section_before_issue"`), an empty `### ` header (`"empty_section_header"`), an
/// unrecognized one (`"unknown_section"`), a fenced code block never closed
/// (`"unterminated_code_fence"`, naming its opening line) and non-blank content without any
/// `## ` title (`"no_issues"`).
pub fn parse_bulk_markdown(content: &str) -> (r: Result<Vec<ParsedIssue>, StructuredError>)
    ensures
        match r {
            Ok(v) => parse_document(content@) == Ok::<Seq<IssueView>, ErrorView>(
                issues_view(v@),
            ),
            Err(e) => parse_document(content@) == Err::<Seq<IssueView>, ErrorView>(e@),
        },
{
    let chars = chars_of(content);
    let ls = split_lines(&chars);
    let ghost lv = lines(content@);
    assert(lines_view(ls@) =~= lv);
    let mut any_content = false;
    let mut i: usize = 0;
    while i < ls.len()
        invariant
            0 <= i <= ls@.len(),
            lines_view(ls@) == lv,
            any_content == exists|j: int| 0 <= j < i && trim(lv[j]).len() > 0,
        decreases ls@.len() - i,
    {
        assert(ls@[i as int]@ == lv[i as int]);
        if !is_blank(&ls[i]) {
            any_content = true;
        }
        i = i + 1;
    }
    let mut p = Parser::new();
    let mut i: usize = 0;
    assert(lv.take(0) =~= Seq::<Seq<char>>::empty());
    while i < ls.len()
        invariant
            0 <= i <= ls@.len(),
            lines_view(ls@) == lv,
            lv == lines(content@),
            run_lines(lv.take(i as int)) == Ok::<ParseState, ErrorView>(p@),
        decreases ls@.len() - i,
    {
        assert(lv.take(i + 1).drop_last() =~= lv.take(i as int));
        assert(ls@[i as int]@ == lv[i as int]);
        match p.step(&ls[i], i + 1) {
            Ok(()) => {},
            Err(e) => {
                proof {
                    assert(lv.take(i + 1).last() == lv[i as int]);
                    assert(run_lines(lv.take(i + 1)) == Err::<ParseState, ErrorView>(e@));
                    lemma_run_error_persists(lv, i + 1);
                }
                return Err(e);
            },
        }
        i = i + 1;
    }
    assert(lv.take(lv.len() as int) =~= lv);
    if let Some(f) = p.open_fence {
        return Err(crate::markdown::parser::unterminated_code_fence(f));
    }
    p.close_current();
    if p.issues.len() == 0 && any_content {
        return Err(crate::markdown::parser::no_issues());
    }
    Ok(p.issues)
}

} // verus!
