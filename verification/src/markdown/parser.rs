//! The bulk-markdown parser.
//!
//! Each issue starts with an H2 line `## Issue Title`; per-issue sections are H3 lines
//! `### Section Name` from a closed, case-insensitive set. The parse is all-or-nothing: an
//! unrecognized or empty `### ` header, a `### ` before the first `## `, an unterminated code
//! fence, or non-blank content without any `## ` title rejects the whole document. Lines inside a
//! fenced code block are content, never headers. Before the first `### ` of an issue only the
//! first non-blank line is kept (the implicit description); an explicit `### Description`
//! overrides it.
use vstd::prelude::*;

use crate::error::{
    opt_view, strings_view, with_context, with_hint, error_of, ContextView, ErrorCode, ErrorView,
    StructuredError,
};
use crate::markdown::fence::{closes_fence, closes_fence_of, fence_opener, fence_opener_of, OpenFence};
use crate::markdown::split::{
    split_dependencies, split_dependency_content, split_list, split_list_content,
};
use crate::text::{
    chars_eq_ignore_ascii_case, chars_of, copy_range, decimal, eq_ignore_ascii_case, is_blank,
    lines, push_all, push_decimal, push_str, split_lines, starts_with, starts_with_str, string_of,
    trim, trimmed,
};

verus! {

/// A parsed issue of a bulk-markdown document.
#[derive(Debug, Clone, PartialEq, Eq)]
pub struct ParsedIssue {
    /// The H2 title text.
    pub title: String,
    /// The `### ID` stand-in: a symbolic handle local to the document.
    pub stand_in_id: Option<String>,
    /// The `### Parent` reference.
    pub parent: Option<String>,
    /// The `### Priority` text.
    pub priority: Option<String>,
    /// The `### Type` text.
    pub issue_type: Option<String>,
    /// The description: the implicit first line, or an explicit `### Description`.
    pub description: Option<String>,
    /// The `### Design` content.
    pub design: Option<String>,
    /// The `### Acceptance Criteria` / `### Acceptance` content.
    pub acceptance_criteria: Option<String>,
    /// The `### Assignee` content.
    pub assignee: Option<String>,
    /// The `### Labels` items.
    pub labels: Vec<String>,
    /// The `### Dependencies` / `### Deps` references, verbatim.
    pub dependencies: Vec<String>,
    /// The `### Agent Context` content.
    pub agent_context: Option<String>,
}

/// The view of a parsed issue.
pub struct IssueView {
    pub title: Seq<char>,
    pub stand_in_id: Option<Seq<char>>,
    pub parent: Option<Seq<char>>,
    pub priority: Option<Seq<char>>,
    pub issue_type: Option<Seq<char>>,
    pub description: Option<Seq<char>>,
    pub design: Option<Seq<char>>,
    pub acceptance_criteria: Option<Seq<char>>,
    pub assignee: Option<Seq<char>>,
    pub labels: Seq<Seq<char>>,
    pub dependencies: Seq<Seq<char>>,
    pub agent_context: Option<Seq<char>>,
}

impl View for ParsedIssue {
    type V = IssueView;

    open spec fn view(&self) -> IssueView {
        IssueView {
            title: self.title@,
            stand_in_id: opt_view(self.stand_in_id),
            parent: opt_view(self.parent),
            priority: opt_view(self.priority),
            issue_type: opt_view(self.issue_type),
            description: opt_view(self.description),
            design: opt_view(self.design),
            acceptance_criteria: opt_view(self.acceptance_criteria),
            assignee: opt_view(self.assignee),
            labels: strings_view(self.labels),
            dependencies: strings_view(self.dependencies),
            agent_context: opt_view(self.agent_context),
        }
    }
}

/// The views of a vector of parsed issues.
pub open spec fn issues_view(v: Seq<ParsedIssue>) -> Seq<IssueView> {
    v.map_values(|i: ParsedIssue| i@)
}

/// A fresh issue with `title` and nothing else.
pub open spec fn new_issue(title: Seq<char>) -> IssueView {
    IssueView {
        title,
        stand_in_id: None,
        parent: None,
        priority: None,
        issue_type: None,
        description: None,
        design: None,
        acceptance_criteria: None,
        assignee: None,
        labels: seq![],
        dependencies: seq![],
        agent_context: None,
    }
}

/// The H3 sections.
#[derive(Debug, Clone, Copy, PartialEq, Eq, Structural)]
pub enum Section {
    /// Before any H3: the implicit description.
    BeforeH3,
    Id,
    Parent,
    Priority,
    Type,
    Description,
    Design,
    AcceptanceCriteria,
    Assignee,
    Labels,
    Dependencies,
    AgentContext,
}

/// The section an (already trimmed) header names, compared without regard to ASCII case.
///
/// Every accepted name is lower-case ASCII without the letter `k`, so comparing up to ASCII
/// case is the same as comparing the header's full lower-case form with the name.
pub open spec fn section_named(h: Seq<char>) -> Option<Section> {
    if eq_ignore_ascii_case(h, "id"@) {
        Some(Section::Id)
    } else if eq_ignore_ascii_case(h, "parent"@) {
        Some(Section::Parent)
    } else if eq_ignore_ascii_case(h, "priority"@) {
        Some(Section::Priority)
    } else if eq_ignore_ascii_case(h, "type"@) {
        Some(Section::Type)
    } else if eq_ignore_ascii_case(h, "description"@) {
        Some(Section::Description)
    } else if eq_ignore_ascii_case(h, "design"@) {
        Some(Section::Design)
    } else if eq_ignore_ascii_case(h, "acceptance criteria"@) || eq_ignore_ascii_case(
        h,
        "acceptance"@,
    ) {
        Some(Section::AcceptanceCriteria)
    } else if eq_ignore_ascii_case(h, "assignee"@) {
        Some(Section::Assignee)
    } else if eq_ignore_ascii_case(h, "labels"@) {
        Some(Section::Labels)
    } else if eq_ignore_ascii_case(h, "dependencies"@) || eq_ignore_ascii_case(h, "deps"@) {
        Some(Section::Dependencies)
    } else if eq_ignore_ascii_case(h, "agent context"@) || eq_ignore_ascii_case(
        h,
        "agent-context"@,
    ) || eq_ignore_ascii_case(h, "agent_context"@) {
        Some(Section::AgentContext)
    } else {
        None
    }
}

// ------------------------------------------------------------------------------------------
// Errors
// ------------------------------------------------------------------------------------------

/// The accepted section spellings, as the hints list them.
pub open spec fn accepted_sections() -> Seq<char> {
    "id, parent, priority, type, description, design, acceptance criteria, acceptance, assignee, labels, dependencies, deps, agent context, agent-context, agent_context"@
}

/// The longest echoed header, in characters.
pub const MAX_ECHOED_HEADER_CHARS: usize = 80;

/// An echoed header, cut to [`MAX_ECHOED_HEADER_CHARS`] characters with a marker when longer.
pub open spec fn clip_header_of(h: Seq<char>) -> Seq<char> {
    if h.len() <= MAX_ECHOED_HEADER_CHARS {
        h
    } else {
        h.take(MAX_ECHOED_HEADER_CHARS as int) + "…[truncated]"@
    }
}

/// The error for an empty `### ` header on line `n`.
pub open spec fn empty_header_error(n: nat) -> ErrorView {
    with_context(
        with_context(
            with_context(
                with_hint(
                    error_of(
                        ErrorCode::ValidationFailed,
                        "line "@ + decimal(n) + ": an empty `### ` section header"@,
                    ),
                    "name the section — one of: "@ + accepted_sections()
                        + " (case-insensitive). `### ` always starts a NEW section; use `#### ` for a sub-heading inside a section body."@,
                ),
                "field"@,
                ContextView::Text("markdown"@),
            ),
            "kind"@,
            ContextView::Text("empty_section_header"@),
        ),
        "line"@,
        ContextView::Number(n),
    )
}

/// The error for the unrecognized header `h` on line `n`.
pub open spec fn unknown_section_error(h: Seq<char>, n: nat) -> ErrorView {
    let c = clip_header_of(h);
    with_context(
        with_context(
            with_context(
                with_context(
                    with_hint(
                        error_of(
                            ErrorCode::ValidationFailed,
                            "line "@ + decimal(n) + ": unrecognized `### "@ + c + "` section"@,
                        ),
                        "accepted sections are: "@ + accepted_sections()
                            + " (case-insensitive). `### ` always starts a NEW section; use `#### ` for a sub-heading inside a section body, or wrap a code sample in a ``` fence — headers inside a fence are content."@,
                    ),
                    "field"@,
                    ContextView::Text("markdown"@),
                ),
                "kind"@,
                ContextView::Text("unknown_section"@),
            ),
            "section"@,
            ContextView::Text(c),
        ),
        "line"@,
        ContextView::Number(n),
    )
}

/// The error for the header `h` on line `n` appearing before the first `## ` title.
pub open spec fn section_before_issue_error(h: Seq<char>, n: nat) -> ErrorView {
    let c = clip_header_of(h);
    with_context(
        with_context(
            with_context(
                with_context(
                    with_hint(
                        error_of(
                            ErrorCode::ValidationFailed,
                            "line "@ + decimal(n) + ": `### "@ + c
                                + "` appears before the first `## Issue Title`"@,
                        ),
                        "a `### Section` must follow a `## Issue Title`; add the H2 header above it"@,
                    ),
                    "field"@,
                    ContextView::Text("markdown"@),
                ),
                "kind"@,
                ContextView::Text("section_before_issue"@),
            ),
            "section"@,
            ContextView::Text(c),
        ),
        "line"@,
        ContextView::Number(n),
    )
}

/// The delimiter of a fence: its marker repeated `run_len` times.
pub open spec fn delimiter_of(f: OpenFence) -> Seq<char> {
    Seq::new(f.run_len as nat, |i: int| f.marker)
}

/// The error for the fence `f` that is never closed.
pub open spec fn unterminated_fence_error(f: OpenFence) -> ErrorView {
    let d = delimiter_of(f);
    with_context(
        with_context(
            with_context(
                with_context(
                    with_hint(
                        error_of(
                            ErrorCode::ValidationFailed,
                            "line "@ + decimal(f.line_no as nat) + ": unterminated `"@ + d
                                + "` code fence"@,
                        ),
                        "close the fence with a line of at least "@ + decimal(f.run_len as nat)
                            + " `"@ + seq![f.marker]
                            + "` characters and nothing else. Inside a fence, ``` `## ` ``` and ``` `### ` ``` are content, not headers — an unclosed fence would silently swallow every later header into one section."@,
                    ),
                    "field"@,
                    ContextView::Text("markdown"@),
                ),
                "kind"@,
                ContextView::Text("unterminated_code_fence"@),
            ),
            "fence"@,
            ContextView::Text(d),
        ),
        "line"@,
        ContextView::Number(f.line_no as nat),
    )
}

/// The error for non-blank content without any `## ` title.
pub open spec fn no_issues_error() -> ErrorView {
    with_context(
        with_context(
            with_hint(
                error_of(
                    ErrorCode::ValidationFailed,
                    "no issues found; expected '## Title' headers"@,
                ),
                "each issue starts with an H2 line: `## Issue Title`"@,
            ),
            "field"@,
            ContextView::Text("markdown"@),
        ),
        "kind"@,
        ContextView::Text("no_issues"@),
    )
}

/// The section a header names, or the error that rejects it.
pub open spec fn section_result(header: Seq<char>, n: nat) -> Result<Section, ErrorView> {
    let h = trim(header);
    match section_named(h) {
        Some(s) => Ok(s),
        None => if h.len() == 0 {
            Err(empty_header_error(n))
        } else {
            Err(unknown_section_error(header, n))
        },
    }
}

/// An echoed header, cut to at most [`MAX_ECHOED_HEADER_CHARS`] characters.
pub fn clip_header(h: &Vec<char>) -> (r: Vec<char>)
    ensures
        r@ == clip_header_of(h@),
{
    if h.len() <= MAX_ECHOED_HEADER_CHARS {
        copy_range(h, 0, h.len())
    } else {
        let mut r = copy_range(h, 0, MAX_ECHOED_HEADER_CHARS);
        push_str(&mut r, "…[truncated]");
        r
    }
}

fn empty_section_header(n: usize) -> (e: StructuredError)
    ensures
        e@ == empty_header_error(n as nat),
{
    let mut m: Vec<char> = Vec::new();
    push_str(&mut m, "line ");
    push_decimal(&mut m, n as u64);
    push_str(&mut m, ": an empty `### ` section header");
    let mut e = StructuredError::from_code(ErrorCode::ValidationFailed, &m);
    let mut h: Vec<char> = Vec::new();
    push_str(&mut h, "name the section — one of: ");
    push_str(
        &mut h,
        "id, parent, priority, type, description, design, acceptance criteria, acceptance, assignee, labels, dependencies, deps, agent context, agent-context, agent_context",
    );
    push_str(
        &mut h,
        " (case-insensitive). `### ` always starts a NEW section; use `#### ` for a sub-heading inside a section body.",
    );
    e.set_hint(&h);
    e.add_text_str("field", "markdown");
    e.add_text_str("kind", "empty_section_header");
    e.add_number("line", n as u64);
    e
}

fn unknown_section(header: &Vec<char>, n: usize) -> (e: StructuredError)
    ensures
        e@ == unknown_section_error(header@, n as nat),
{
    let c = clip_header(header);
    let mut m: Vec<char> = Vec::new();
    push_str(&mut m, "line ");
    push_decimal(&mut m, n as u64);
    push_str(&mut m, ": unrecognized `### ");
    push_all(&mut m, &c);
    push_str(&mut m, "` section");
    let mut e = StructuredError::from_code(ErrorCode::ValidationFailed, &m);
    let mut h: Vec<char> = Vec::new();
    push_str(&mut h, "accepted sections are: ");
    push_str(
        &mut h,
        "id, parent, priority, type, description, design, acceptance criteria, acceptance, assignee, labels, dependencies, deps, agent context, agent-context, agent_context",
    );
    push_str(
        &mut h,
        " (case-insensitive). `### ` always starts a NEW section; use `#### ` for a sub-heading inside a section body, or wrap a code sample in a ``` fence — headers inside a fence are content.",
    );
    e.set_hint(&h);
    e.add_text_str("field", "markdown");
    e.add_text_str("kind", "unknown_section");
    e.add_text("section", &c);
    e.add_number("line", n as u64);
    e
}

pub(crate) fn section_before_first_issue(header: &Vec<char>, n: usize) -> (e: StructuredError)
    ensures
        e@ == section_before_issue_error(header@, n as nat),
{
    let c = clip_header(header);
    let mut m: Vec<char> = Vec::new();
    push_str(&mut m, "line ");
    push_decimal(&mut m, n as u64);
    push_str(&mut m, ": `### ");
    push_all(&mut m, &c);
    push_str(&mut m, "` appears before the first `## Issue Title`");
    let mut e = StructuredError::from_code(ErrorCode::ValidationFailed, &m);
    let h = chars_of("a `### Section` must follow a `## Issue Title`; add the H2 header above it");
    e.set_hint(&h);
    e.add_text_str("field", "markdown");
    e.add_text_str("kind", "section_before_issue");
    e.add_text("section", &c);
    e.add_number("line", n as u64);
    e
}

pub(crate) fn unterminated_code_fence(f: OpenFence) -> (e: StructuredError)
    ensures
        e@ == unterminated_fence_error(f),
{
    let mut d: Vec<char> = Vec::new();
    let mut i: usize = 0;
    while i < f.run_len
        invariant
            0 <= i <= f.run_len,
            d@ == Seq::new(i as nat, |j: int| f.marker),
        decreases f.run_len - i,
    {
        d.push(f.marker);
        i = i + 1;
        assert(d@ =~= Seq::new(i as nat, |j: int| f.marker));
    }
    let mut m: Vec<char> = Vec::new();
    push_str(&mut m, "line ");
    push_decimal(&mut m, f.line_no as u64);
    push_str(&mut m, ": unterminated `");
    push_all(&mut m, &d);
    push_str(&mut m, "` code fence");
    let mut e = StructuredError::from_code(ErrorCode::ValidationFailed, &m);
    let mut h: Vec<char> = Vec::new();
    push_str(&mut h, "close the fence with a line of at least ");
    push_decimal(&mut h, f.run_len as u64);
    push_str(&mut h, " `");
    let ghost prev = h@;
    h.push(f.marker);
    assert(h@ =~= prev + seq![f.marker]);
    push_str(
        &mut h,
        "` characters and nothing else. Inside a fence, ``` `## ` ``` and ``` `### ` ``` are content, not headers — an unclosed fence would silently swallow every later header into one section.",
    );
    e.set_hint(&h);
    e.add_text_str("field", "markdown");
    e.add_text_str("kind", "unterminated_code_fence");
    e.add_text("fence", &d);
    e.add_number("line", f.line_no as u64);
    e
}

pub(crate) fn no_issues() -> (e: StructuredError)
    ensures
        e@ == no_issues_error(),
{
    let m = chars_of("no issues found; expected '## Title' headers");
    let mut e = StructuredError::from_code(ErrorCode::ValidationFailed, &m);
    let h = chars_of("each issue starts with an H2 line: `## Issue Title`");
    e.set_hint(&h);
    e.add_text_str("field", "markdown");
    e.add_text_str("kind", "no_issues");
    e
}

impl Section {
    /// The section a header names (case-insensitive, surrounding whitespace ignored), or the
    /// error that rejects an empty or unrecognized header on line `line_no`.
    pub fn from_header(header: &Vec<char>, line_no: usize) -> (r: Result<Section, StructuredError>)
        ensures
            match r {
                Ok(s) => section_result(header@, line_no as nat) == Ok::<Section, ErrorView>(s),
                Err(e) => section_result(header@, line_no as nat) == Err::<Section, ErrorView>(
                    e@,
                ),
            },
    {
        let h = trimmed(header);
        if chars_eq_ignore_ascii_case(&h, &chars_of("id")) {
            Ok(Section::Id)
        } else if chars_eq_ignore_ascii_case(&h, &chars_of("parent")) {
            Ok(Section::Parent)
        } else if chars_eq_ignore_ascii_case(&h, &chars_of("priority")) {
            Ok(Section::Priority)
        } else if chars_eq_ignore_ascii_case(&h, &chars_of("type")) {
            Ok(Section::Type)
        } else if chars_eq_ignore_ascii_case(&h, &chars_of("description")) {
            Ok(Section::Description)
        } else if chars_eq_ignore_ascii_case(&h, &chars_of("design")) {
            Ok(Section::Design)
        } else if chars_eq_ignore_ascii_case(&h, &chars_of("acceptance criteria"))
            || chars_eq_ignore_ascii_case(&h, &chars_of("acceptance")) {
            Ok(Section::AcceptanceCriteria)
        } else if chars_eq_ignore_ascii_case(&h, &chars_of("assignee")) {
            Ok(Section::Assignee)
        } else if chars_eq_ignore_ascii_case(&h, &chars_of("labels")) {
            Ok(Section::Labels)
        } else if chars_eq_ignore_ascii_case(&h, &chars_of("dependencies"))
            || chars_eq_ignore_ascii_case(&h, &chars_of("deps")) {
            Ok(Section::Dependencies)
        } else if chars_eq_ignore_ascii_case(&h, &chars_of("agent context"))
            || chars_eq_ignore_ascii_case(&h, &chars_of("agent-context"))
            || chars_eq_ignore_ascii_case(&h, &chars_of("agent_context")) {
            Ok(Section::AgentContext)
        } else if h.len() == 0 {
            Err(empty_section_header(line_no))
        } else {
            Err(unknown_section(header, line_no))
        }
    }
}

// ------------------------------------------------------------------------------------------
// Applying a section body to an issue
// ------------------------------------------------------------------------------------------

/// The lines of `ls` joined with `\n`.
pub open spec fn join_lines(ls: Seq<Seq<char>>) -> Seq<char>
    decreases ls.len(),
{
    if ls.len() == 0 {
        seq![]
    } else if ls.len() == 1 {
        ls[0]
    } else {
        join_lines(ls.drop_last()) + seq!['\n'] + ls.last()
    }
}

/// `issue` after the body `ls` of `section` is applied: the trimmed, newline-joined body
/// becomes the section's field (split into items for labels and dependencies); an empty body
/// changes nothing, and the implicit description never replaces one already set.
pub open spec fn apply_section(issue: IssueView, section: Section, ls: Seq<Seq<char>>) -> IssueView {
    let content = trim(join_lines(ls));
    if content.len() == 0 {
        issue
    } else {
        match section {
            Section::BeforeH3 => if issue.description is None {
                IssueView { description: Some(content), ..issue }
            } else {
                issue
            },
            Section::Id => IssueView { stand_in_id: Some(content), ..issue },
            Section::Parent => IssueView { parent: Some(content), ..issue },
            Section::Priority => IssueView { priority: Some(content), ..issue },
            Section::Type => IssueView { issue_type: Some(content), ..issue },
            Section::Description => IssueView { description: Some(content), ..issue },
            Section::Design => IssueView { design: Some(content), ..issue },
            Section::AcceptanceCriteria => IssueView { acceptance_criteria: Some(content), ..issue },
            Section::Assignee => IssueView { assignee: Some(content), ..issue },
            Section::Labels => IssueView { labels: split_list(content), ..issue },
            Section::Dependencies => IssueView { dependencies: split_dependencies(content), ..issue },
            Section::AgentContext => IssueView { agent_context: Some(content), ..issue },
        }
    }
}

/// The views of a vector of lines.
pub open spec fn lines_view(v: Seq<Vec<char>>) -> Seq<Seq<char>> {
    v.map_values(|l: Vec<char>| l@)
}

fn join_with_newlines(ls: &Vec<Vec<char>>) -> (r: Vec<char>)
    ensures
        r@ == join_lines(lines_view(ls@)),
{
    let mut r: Vec<char> = Vec::new();
    let mut i: usize = 0;
    while i < ls.len()
        invariant
            0 <= i <= ls@.len(),
            r@ == join_lines(lines_view(ls@).subrange(0, i as int)),
        decreases ls@.len() - i,
    {
        let ghost sub = lines_view(ls@).subrange(0, i + 1);
        assert(sub.drop_last() =~= lines_view(ls@).subrange(0, i as int));
        if i > 0 {
            r.push('\n');
        }
        push_all(&mut r, &ls[i]);
        assert(r@ =~= join_lines(sub));
        i = i + 1;
    }
    assert(lines_view(ls@).subrange(0, ls@.len() as int) =~= lines_view(ls@));
    r
}

/// Apply the collected body `lines` of `section` to `issue`.
pub fn apply_section_to_issue(issue: &mut ParsedIssue, section: Section, lines: &Vec<Vec<char>>)
    ensures
        final(issue)@ == apply_section(old(issue)@, section, lines_view(lines@)),
{
    let joined = join_with_newlines(lines);
    let content = trimmed(&joined);
    if content.len() == 0 {
        return;
    }
    match section {
        Section::BeforeH3 => {
            if issue.description.is_none() {
                issue.description = Some(string_of(&content));
            }
        },
        Section::Id => issue.stand_in_id = Some(string_of(&content)),
        Section::Parent => issue.parent = Some(string_of(&content)),
        Section::Priority => issue.priority = Some(string_of(&content)),
        Section::Type => issue.issue_type = Some(string_of(&content)),
        Section::Description => issue.description = Some(string_of(&content)),
        Section::Design => issue.design = Some(string_of(&content)),
        Section::AcceptanceCriteria => issue.acceptance_criteria = Some(string_of(&content)),
        Section::Assignee => issue.assignee = Some(string_of(&content)),
        Section::Labels => issue.labels = split_list_content(&content),
        Section::Dependencies => issue.dependencies = split_dependency_content(&content),
        Section::AgentContext => issue.agent_context = Some(string_of(&content)),
    }
}

} // verus!
