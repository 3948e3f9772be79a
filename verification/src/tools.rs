//! The parameter and result shapes of the smaller tools, and the pure decisions of the tool
//! adapters: the shared wire attribution, the diagnostics kinds, the delete modes, the bulk
//! create preflight and the not-found error.
use vstd::prelude::*;

use crate::error::{
    error_of, opt_view, strings_view, with_context, with_hint, ContextView, ErrorCode, ErrorView,
    StructuredError,
};
use crate::markdown::document::parse_document;
use crate::markdown::parser::{issues_view, IssueView, ParsedIssue};
use crate::model::{Priority, Timestamp};
use crate::quota::{over_quota_error, QuotaKind, Quotas};
use crate::text::{decimal, push_decimal, push_str, string_of};

verus! {

/// The parameters of `close`.
#[derive(Debug, Clone, PartialEq, Eq)]
pub struct CloseParams {
    pub id: u64,
    pub reason: Option<String>,
}

/// The result of `close`.
#[derive(Debug, Clone, PartialEq, Eq)]
pub struct CloseResult {
    pub issue: u64,
    pub unblocked: Vec<u64>,
    pub cross_repo_refs: Option<crate::cross_repo::CrossRepoRefs>,
}

/// The result of `create`.
#[derive(Debug, Clone, PartialEq, Eq)]
pub struct CreateResult {
    pub number: u64,
    pub url: String,
    pub title: String,
    pub issue_type: String,
    pub priority: String,
    pub added_to_project: bool,
    pub fields_attempted: bool,
    pub blockers_added: u32,
    pub parent_set: bool,
    pub milestone_set: bool,
    pub hint: String,
}

/// The parameters of `depends`.
#[derive(Debug, Clone, PartialEq, Eq)]
pub struct DependsParams {
    pub source: String,
    pub target: String,
}

/// The result of `depends`.
#[derive(Debug, Clone, PartialEq, Eq)]
pub struct DependsResult {
    pub created: bool,
    pub source: String,
    pub target: String,
    pub message: String,
}

/// The parameters of `init`.
#[derive(Debug, Clone, PartialEq, Eq)]
pub struct InitParams {
    pub scope: Option<String>,
    pub title: Option<String>,
    pub description: Option<String>,
    pub public: Option<bool>,
}

/// The result of `init`.
#[derive(Debug, Clone, PartialEq, Eq)]
pub struct InitResult {
    pub project_number: u64,
    pub url: String,
    pub created: bool,
    pub scope: String,
    pub hint: String,
}

/// Self-reported, capture-only attribution carried by the mutating tools.
#[derive(Debug, Clone, PartialEq, Eq)]
pub struct Attribution {
    pub agent_name: Option<String>,
    pub harness: Option<String>,
    pub model: Option<String>,
}

impl Default for Attribution {
    /// No attribution.
    fn default() -> (a: Attribution)
        ensures
            a.agent_name is None,
            a.harness is None,
            a.model is None,
    {
        Attribution { agent_name: None, harness: None, model: None }
    }
}

/// The default of `blocking_only` in `dep` `cycles`: only blocking edges.
pub fn default_true() -> (b: bool)
    ensures
        b,
{
    true
}

/// What a diagnostics request asks for.
#[derive(Debug, Clone, Copy, PartialEq, Eq, Structural)]
pub enum DiagnosticKind {
    Stats,
    Info,
    Where,
    Version,
    Lint,
    Changelog,
    Orphans,
    Dangling,
}

/// A diagnostics request; only a changelog carries a window start.
#[derive(Debug, Clone, Copy, PartialEq, Eq, Structural)]
pub enum DiagnosticsInput {
    Stats,
    Info,
    Where,
    Version,
    Lint,
    Changelog { since: Option<Timestamp> },
    Orphans,
    Dangling,
}

impl DiagnosticsInput {
    /// The kind of diagnostics asked for, and the changelog window start.
    pub fn to_kind_and_since(&self) -> (r: (DiagnosticKind, Option<Timestamp>))
        ensures
            r == (match *self {
                DiagnosticsInput::Stats => (DiagnosticKind::Stats, None),
                DiagnosticsInput::Info => (DiagnosticKind::Info, None),
                DiagnosticsInput::Where => (DiagnosticKind::Where, None),
                DiagnosticsInput::Version => (DiagnosticKind::Version, None),
                DiagnosticsInput::Lint => (DiagnosticKind::Lint, None),
                DiagnosticsInput::Changelog { since } => (DiagnosticKind::Changelog, since),
                DiagnosticsInput::Orphans => (DiagnosticKind::Orphans, None),
                DiagnosticsInput::Dangling => (DiagnosticKind::Dangling, None),
            }),
    {
        match self {
            DiagnosticsInput::Stats => (DiagnosticKind::Stats, None),
            DiagnosticsInput::Info => (DiagnosticKind::Info, None),
            DiagnosticsInput::Where => (DiagnosticKind::Where, None),
            DiagnosticsInput::Version => (DiagnosticKind::Version, None),
            DiagnosticsInput::Lint => (DiagnosticKind::Lint, None),
            DiagnosticsInput::Changelog { since } => (DiagnosticKind::Changelog, *since),
            DiagnosticsInput::Orphans => (DiagnosticKind::Orphans, None),
            DiagnosticsInput::Dangling => (DiagnosticKind::Dangling, None),
        }
    }
}

/// How `issue` `delete` removes its targets, as requested on the wire.
#[derive(Debug, Clone, Copy, PartialEq, Eq, Structural)]
pub enum DeleteModeInput {
    Tombstone,
    Cascade,
    Hard,
    DryRun,
}

/// How the store removes issues.
#[derive(Debug, Clone, Copy, PartialEq, Eq, Structural)]
pub enum DeleteMode {
    Tombstone,
    Cascade,
    Hard,
    DryRun,
}

impl DeleteModeInput {
    /// The store's delete mode of the same name.
    pub fn into_delete_mode(self) -> (m: DeleteMode)
        ensures
            m == (match self {
                DeleteModeInput::Tombstone => DeleteMode::Tombstone,
                DeleteModeInput::Cascade => DeleteMode::Cascade,
                DeleteModeInput::Hard => DeleteMode::Hard,
                DeleteModeInput::DryRun => DeleteMode::DryRun,
            }),
    {
        match self {
            DeleteModeInput::Tombstone => DeleteMode::Tombstone,
            DeleteModeInput::Cascade => DeleteMode::Cascade,
            DeleteModeInput::Hard => DeleteMode::Hard,
            DeleteModeInput::DryRun => DeleteMode::DryRun,
        }
    }
}

impl Default for DeleteModeInput {
    /// Tombstone.
    fn default() -> (m: DeleteModeInput)
        ensures
            m == DeleteModeInput::Tombstone,
    {
        DeleteModeInput::Tombstone
    }
}

/// The error for a missing `show` target: `issue not found: {id}`, with the `id` context.
pub open spec fn not_found_error(id: Seq<char>) -> ErrorView {
    with_context(
        error_of(ErrorCode::IssueNotFound, "issue not found: "@ + id),
        "id"@,
        ContextView::Text(id),
    )
}

/// The error for a missing `show` target.
pub fn issue_not_found(id: &str) -> (e: StructuredError)
    ensures
        e@ == not_found_error(id@),
{
    let mut m: Vec<char> = Vec::new();
    push_str(&mut m, "issue not found: ");
    push_str(&mut m, id);
    let mut e = StructuredError::from_code(ErrorCode::IssueNotFound, &m);
    e.add_text_str("id", id);
    e
}

/// The text std's `Debug` gives the string `s`: the characters in double quotes, with the escapes
/// of `char::escape_debug`.
pub uninterp spec fn str_debug_text(s: Seq<char>) -> Seq<char>;

/// `format!("{:?}", s)`, std's `Debug` impl for `str`. Claimed: the result is a function of the
/// characters of `s` alone; the quoting and escaping themselves are left to the name.
#[verifier::external_body]
fn str_debug(s: &str) -> (r: String)
    ensures
        r@ == str_debug_text(s@),
{
    format!("{:?}", s)
}

/// The priority a `### Priority` value names: `P0`..`P4`, or `0`..`4`.
pub open spec fn priority_named(v: Seq<char>) -> Option<Priority> {
    if v == "P0"@ || v == "0"@ {
        Some(Priority::P0)
    } else if v == "P1"@ || v == "1"@ {
        Some(Priority::P1)
    } else if v == "P2"@ || v == "2"@ {
        Some(Priority::P2)
    } else if v == "P3"@ || v == "3"@ {
        Some(Priority::P3)
    } else if v == "P4"@ || v == "4"@ {
        Some(Priority::P4)
    } else {
        None
    }
}

/// The priority `v` names, if any.
pub fn parse_priority(v: &str) -> (r: Option<Priority>)
    ensures
        r == priority_named(v@),
{
    if crate::cross_repo::same_text(v, "P0") || crate::cross_repo::same_text(v, "0") {
        Some(Priority::P0)
    } else if crate::cross_repo::same_text(v, "P1") || crate::cross_repo::same_text(v, "1") {
        Some(Priority::P1)
    } else if crate::cross_repo::same_text(v, "P2") || crate::cross_repo::same_text(v, "2") {
        Some(Priority::P2)
    } else if crate::cross_repo::same_text(v, "P3") || crate::cross_repo::same_text(v, "3") {
        Some(Priority::P3)
    } else if crate::cross_repo::same_text(v, "P4") || crate::cross_repo::same_text(v, "4") {
        Some(Priority::P4)
    } else {
        None
    }
}

/// Whether `i` carries a `### Priority` value that names no priority.
pub open spec fn bad_priority(i: IssueView) -> bool {
    i.priority matches Some(p) && priority_named(p) is None
}

/// The refusal of a record whose `### {section}` value does not parse: `record {index} ({title}):
/// `### {section}` value {value:?} rejected`, with a hint and the `field`, `kind`, `index`,
/// `title`, `section` and `value` context entries.
pub open spec fn section_value_error(
    index: nat,
    title: Seq<char>,
    section: Seq<char>,
    value: Seq<char>,
    hint: Seq<char>,
) -> ErrorView {
    with_context(
        with_context(
            with_context(
                with_context(
                    with_context(
                        with_context(
                            with_hint(
                                error_of(
                                    ErrorCode::ValidationFailed,
                                    "record "@ + decimal(index) + " ("@ + title + "): `### "@
                                        + section + "` value "@ + str_debug_text(value)
                                        + " rejected"@,
                                ),
                                hint,
                            ),
                            "field"@,
                            ContextView::Text("markdown"@),
                        ),
                        "kind"@,
                        ContextView::Text("section_value"@),
                    ),
                    "index"@,
                    ContextView::Number(index),
                ),
                "title"@,
                ContextView::Text(title),
            ),
            "section"@,
            ContextView::Text(section),
        ),
        "value"@,
        ContextView::Text(value),
    )
}

/// The refusal of a record whose `### Priority` value names no priority.
pub open spec fn bad_priority_error(index: nat, i: IssueView) -> ErrorView {
    section_value_error(index, i.title, "Priority"@, i.priority->0, "expected P0..P4 or 0..4"@)
}

/// A record of a bulk document as the store creates it: the parsed sections, the priority
/// parsed, the dependency and parent references verbatim.
#[derive(Debug, Clone, PartialEq, Eq)]
pub struct NewIssueRecord {
    pub title: String,
    pub description: Option<String>,
    /// The `### Type` text; an unknown type is kept as a custom one.
    pub issue_type: Option<String>,
    pub priority: Option<Priority>,
    pub labels: Vec<String>,
    pub parent: Option<String>,
    pub design: Option<String>,
    pub acceptance_criteria: Option<String>,
    pub assignee: Option<String>,
    pub agent_context: Option<String>,
    pub stand_in_id: Option<String>,
    pub dep_refs: Vec<String>,
}

/// Whether `r` is the record of the parsed issue `i`.
pub open spec fn record_of(r: NewIssueRecord, i: IssueView) -> bool {
    &&& r.title@ == i.title
    &&& opt_view(r.description) == i.description
    &&& opt_view(r.issue_type) == i.issue_type
    &&& r.priority == (match i.priority {
        Some(p) => priority_named(p),
        None => None,
    })
    &&& strings_view(r.labels) == i.labels
    &&& opt_view(r.parent) == i.parent
    &&& opt_view(r.design) == i.design
    &&& opt_view(r.acceptance_criteria) == i.acceptance_criteria
    &&& opt_view(r.assignee) == i.assignee
    &&& opt_view(r.agent_context) == i.agent_context
    &&& opt_view(r.stand_in_id) == i.stand_in_id
    &&& strings_view(r.dep_refs) == i.dependencies
}

/// The refusal of record `index`, titled `title`, whose `### {section}` value is `value`.
fn section_value_refusal(index: usize, title: &str, section: &str, value: &str, hint: &str) -> (e: StructuredError)
    ensures
        e@ == section_value_error(index as nat, title@, section@, value@, hint@),
{
    let mut m: Vec<char> = Vec::new();
    push_str(&mut m, "record ");
    push_decimal(&mut m, index as u64);
    push_str(&mut m, " (");
    push_str(&mut m, title);
    push_str(&mut m, "): `### ");
    push_str(&mut m, section);
    push_str(&mut m, "` value ");
    let d = str_debug(value);
    push_str(&mut m, d.as_str());
    push_str(&mut m, " rejected");
    let mut e = StructuredError::from_code(ErrorCode::ValidationFailed, &m);
    let h = crate::text::chars_of(hint);
    e.set_hint(&h);
    e.add_text_str("field", "markdown");
    e.add_text_str("kind", "section_value");
    e.add_number("index", index as u64);
    e.add_text_str("title", title);
    e.add_text_str("section", section);
    e.add_text_str("value", value);
    e
}

/// The record of parsed issue number `index` (from 0), or its refusal when a present
/// `### Priority` value names no priority. A `### Type` value is always accepted: an unknown type
/// is kept as a custom one.
pub fn parsed_to_new_issue(parsed: &ParsedIssue, index: usize) -> (r: Result<NewIssueRecord, StructuredError>)
    ensures
        bad_priority(parsed@) ==> (r matches Err(e) && e@ == bad_priority_error(index as nat, parsed@)),
        !bad_priority(parsed@) ==> (r matches Ok(rec) && record_of(rec, parsed@)),
{
    let priority = match &parsed.priority {
        Some(p) => match parse_priority(p.as_str()) {
            Some(x) => Some(x),
            None => {
                return Err(
                    section_value_refusal(
                        index,
                        parsed.title.as_str(),
                        "Priority",
                        p.as_str(),
                        "expected P0..P4 or 0..4",
                    ),
                );
            },
        },
        None => None,
    };
    Ok(
        NewIssueRecord {
            title: parsed.title.clone(),
            description: crate::list::copy_opt(&parsed.description),
            issue_type: crate::list::copy_opt(&parsed.issue_type),
            priority,
            labels: crate::list::copy_strings(&parsed.labels),
            parent: crate::list::copy_opt(&parsed.parent),
            design: crate::list::copy_opt(&parsed.design),
            acceptance_criteria: crate::list::copy_opt(&parsed.acceptance_criteria),
            assignee: crate::list::copy_opt(&parsed.assignee),
            agent_context: crate::list::copy_opt(&parsed.agent_context),
            stand_in_id: crate::list::copy_opt(&parsed.stand_in_id),
            dep_refs: crate::list::copy_strings(&parsed.dependencies),
        },
    )
}

/// The records of a bulk-create document, or why it is refused, in this order and before
/// anything is created: the parse (all or nothing), then the batch quota on the number of
/// records, then each record's `### Priority` value (the first record that fails is reported).
pub fn create_bulk_records(markdown: &str, quotas: &Quotas) -> (r: Result<Vec<NewIssueRecord>, StructuredError>)
    ensures
        match parse_document(markdown@) {
            Err(pe) => r matches Err(e) && e@ == pe,
            Ok(issues) => if issues.len() > quotas.max_batch {
                r matches Err(e) && e@ == over_quota_error(
                    QuotaKind::Batch,
                    issues.len(),
                    quotas.max_batch as nat,
                )
            } else if exists|k: int| 0 <= k < issues.len() && #[trigger] bad_priority(issues[k]) {
                r matches Err(e) && exists|k: int|
                    0 <= k < issues.len() && #[trigger] bad_priority(issues[k]) && (forall|j: int|
                        0 <= j < k ==> !bad_priority(#[trigger] issues[j])) && e@ == bad_priority_error(
                        k as nat,
                        issues[k],
                    )
            } else {
                r matches Ok(v) && v@.len() == issues.len() && forall|k: int|
                    0 <= k < issues.len() ==> #[trigger] record_of(v@[k], issues[k])
            },
        },
{
    let parsed = match crate::markdown::document::parse_bulk_markdown(markdown) {
        Ok(p) => p,
        Err(e) => return Err(e),
    };
    match crate::quota::enforce_batch_quota(parsed.len(), quotas) {
        Ok(()) => {},
        Err(e) => return Err(e),
    }
    let ghost issues = issues_view(parsed@);
    let mut out: Vec<NewIssueRecord> = Vec::new();
    let mut i: usize = 0;
    while i < parsed.len()
        invariant
            0 <= i <= parsed@.len(),
            issues == issues_view(parsed@),
            issues.len() == parsed@.len(),
            parse_document(markdown@) == Ok::<Seq<IssueView>, ErrorView>(issues),
            issues.len() <= quotas.max_batch,
            out@.len() == i,
            forall|j: int| 0 <= j < i ==> !bad_priority(#[trigger] issues[j]),
            forall|j: int| 0 <= j < i ==> #[trigger] record_of(out@[j], issues[j]),
        decreases parsed@.len() - i,
    {
        assert(issues[i as int] == parsed@[i as int]@);
        match parsed_to_new_issue(&parsed[i], i) {
            Err(e) => {
                assert(bad_priority(issues[i as int]));
                assert(e@ == bad_priority_error(i as nat, issues[i as int]));
                assert(exists|k: int|
                    0 <= k < issues.len() && #[trigger] bad_priority(issues[k]) && (forall|j: int|
                        0 <= j < k ==> !bad_priority(#[trigger] issues[j])) && e@ == bad_priority_error(
                        k as nat,
                        issues[k],
                    ));
                return Err(e);
            },
            Ok(rec) => {
                out.push(rec);
            },
        }
        i = i + 1;
    }
    Ok(out)
}

} // verus!
