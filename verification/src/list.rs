//! `list`: every issue of the repository, filtered, sorted and paginated.
//!
//! Status, priority, type and label filters compare without regard to ASCII case; milestone,
//! agent and assignee filters compare exactly; a blank filter is no filter. `total` counts every
//! matching issue, the page is `limit` of them from `offset` on. The sort is by priority (then
//! creation time, then qualified id), by creation time, or by update time (newest first), the
//! qualified id breaking ties.
use vstd::prelude::*;

use crate::cross_repo::QualifiedId;
use crate::error::{opt_view, strings_view, ToolError};
use crate::model::{
    before, opt_date_display, opt_date_text, priority_rank, priority_text, qid_lt, qkey, rfc3339,
    rfc3339_text, status_text, ts_lt, CivilDate, Issue, Priority, Status, Timestamp,
};
use crate::text::{
    chars_eq, chars_eq_ignore_ascii_case, chars_less, chars_of, eq_ignore_ascii_case, is_blank,
    lemma_str_lt_irreflexive, lemma_str_lt_total, lemma_str_lt_transitive, push_decimal, push_str,
    str_lt, string_of,
    trim,
};

verus! {

/// The page size when `limit` is absent.
pub const DEFAULT_LIMIT: usize = 50;

/// The largest accepted `limit`.
pub const MAX_LIMIT: usize = 200;

/// The parameters of `list`.
#[derive(Debug, Clone, PartialEq, Eq)]
pub struct ListParams {
    pub status: Option<String>,
    pub priority: Option<String>,
    pub issue_type: Option<String>,
    pub milestone: Option<String>,
    pub agent: Option<String>,
    pub label: Option<String>,
    pub assignee: Option<String>,
    pub sort: Option<String>,
    pub limit: Option<usize>,
    pub offset: Option<usize>,
}

/// One listed issue.
#[derive(Debug, Clone, PartialEq, Eq)]
pub struct ListIssueSummary {
    pub number: u64,
    pub title: String,
    pub issue_type: Option<String>,
    pub status: String,
    pub priority: String,
    pub agent: Option<String>,
    pub milestone: Option<String>,
    pub story_points: Option<i32>,
    pub defer_until: Option<String>,
    pub labels: Vec<String>,
    pub assignees: Vec<String>,
    pub created_at: String,
    pub updated_at: String,
    pub url: String,
}

/// The result of `list`.
#[derive(Debug, Clone, PartialEq, Eq)]
pub struct ListResult {
    pub issues: Vec<ListIssueSummary>,
    pub total: usize,
    pub stale: bool,
}

/// The fields of an issue that `list` filters, sorts and reports.
#[derive(Debug, Clone, PartialEq, Eq)]
pub struct ListRow {
    pub qualified_id: QualifiedId,
    pub number: u64,
    pub title: String,
    pub issue_type: Option<String>,
    pub status: Status,
    pub priority: Priority,
    pub agent: Option<String>,
    pub milestone: Option<String>,
    pub story_points: Option<i32>,
    pub defer_until: Option<CivilDate>,
    pub labels: Vec<String>,
    pub assignees: Vec<String>,
    pub created_at: Timestamp,
    pub updated_at: Timestamp,
    pub url: String,
}

/// The order of a listing.
#[derive(Debug, Clone, Copy, PartialEq, Eq, Structural)]
pub enum SortKey {
    /// Priority, then creation time, then qualified id.
    Priority,
    /// Creation time, then qualified id.
    Created,
    /// Update time, newest first, then qualified id.
    Updated,
}

// ------------------------------------------------------------------------------------------
// Copies
// ------------------------------------------------------------------------------------------

/// A copy of an optional string.
pub fn copy_opt(o: &Option<String>) -> (r: Option<String>)
    ensures
        r == *o,
{
    match o {
        Some(s) => Some(s.clone()),
        None => None,
    }
}

/// A copy of a vector of strings.
pub fn copy_strings(v: &Vec<String>) -> (r: Vec<String>)
    ensures
        r@ == v@,
{
    let mut r: Vec<String> = Vec::new();
    let mut i: usize = 0;
    while i < v.len()
        invariant
            0 <= i <= v@.len(),
            r@ == v@.take(i as int),
        decreases v@.len() - i,
    {
        r.push(v[i].clone());
        i = i + 1;
        assert(r@ =~= v@.take(i as int));
    }
    assert(v@.take(v@.len() as int) =~= v@);
    r
}

/// Whether `r` holds the listed fields of `issue`.
pub open spec fn is_row_of(r: ListRow, issue: Issue) -> bool {
    &&& r.qualified_id == issue.qualified_id
    &&& r.number == issue.number
    &&& r.title == issue.title
    &&& r.issue_type == issue.issue_type
    &&& r.status == issue.status
    &&& r.priority == issue.priority
    &&& r.agent == issue.agent
    &&& r.milestone == issue.milestone
    &&& r.story_points == issue.story_points
    &&& r.defer_until == issue.defer_until
    &&& r.labels@ == issue.labels@
    &&& r.assignees@ == issue.assignees@
    &&& r.created_at == issue.created_at
    &&& r.updated_at == issue.updated_at
    &&& r.url == issue.url
}

impl ListRow {
    /// The listed fields of `issue`.
    pub fn from_issue(issue: &Issue) -> (r: ListRow)
        ensures
            is_row_of(r, *issue),
    {
        ListRow {
            qualified_id: crate::model::copy_qid(&issue.qualified_id),
            number: issue.number,
            title: issue.title.clone(),
            issue_type: copy_opt(&issue.issue_type),
            status: issue.status,
            priority: issue.priority,
            agent: copy_opt(&issue.agent),
            milestone: copy_opt(&issue.milestone),
            story_points: issue.story_points,
            defer_until: issue.defer_until,
            labels: copy_strings(&issue.labels),
            assignees: copy_strings(&issue.assignees),
            created_at: issue.created_at,
            updated_at: issue.updated_at,
            url: issue.url.clone(),
        }
    }

    /// The listed summary of this row.
    pub fn into_summary(&self) -> (s: ListIssueSummary)
        ensures
            summarises(s, *self),
    {
        ListIssueSummary {
            number: self.number,
            title: self.title.clone(),
            issue_type: copy_opt(&self.issue_type),
            status: self.status.text(),
            priority: self.priority.text(),
            agent: copy_opt(&self.agent),
            milestone: copy_opt(&self.milestone),
            story_points: self.story_points,
            defer_until: opt_date_display(self.defer_until),
            labels: copy_strings(&self.labels),
            assignees: copy_strings(&self.assignees),
            created_at: rfc3339(self.created_at),
            updated_at: rfc3339(self.updated_at),
            url: self.url.clone(),
        }
    }
}

/// Whether `s` is the listed summary of `r`.
pub open spec fn summarises(s: ListIssueSummary, r: ListRow) -> bool {
    &&& s.number == r.number
    &&& s.title == r.title
    &&& s.issue_type == r.issue_type
    &&& s.status@ == status_text(r.status)
    &&& s.priority@ == priority_text(r.priority)
    &&& s.agent == r.agent
    &&& s.milestone == r.milestone
    &&& s.story_points == r.story_points
    &&& opt_view(s.defer_until) == opt_date_text(r.defer_until)
    &&& s.labels@ == r.labels@
    &&& s.assignees@ == r.assignees@
    &&& s.created_at@ == rfc3339_text(r.created_at.secs, r.created_at.nanos)
    &&& s.updated_at@ == rfc3339_text(r.updated_at.secs, r.updated_at.nanos)
    &&& s.url == r.url
}

/// The rows of `issues`, in order.
pub fn build_list_rows(issues: &[Issue]) -> (rows: Vec<ListRow>)
    ensures
        rows@.len() == issues@.len(),
        forall|i: int| 0 <= i < rows@.len() ==> is_row_of(#[trigger] rows@[i], issues@[i]),
{
    let mut rows: Vec<ListRow> = Vec::new();
    let mut i: usize = 0;
    while i < issues.len()
        invariant
            0 <= i <= issues@.len(),
            rows@.len() == i,
            forall|k: int| 0 <= k < i ==> is_row_of(#[trigger] rows@[k], issues@[k]),
        decreases issues@.len() - i,
    {
        rows.push(ListRow::from_issue(&issues[i]));
        i = i + 1;
    }
    rows
}

// ------------------------------------------------------------------------------------------
// Parameters
// ------------------------------------------------------------------------------------------

/// A filter value: `None` when absent or blank.
pub open spec fn filter_of(o: Option<String>) -> Option<Seq<char>> {
    match o {
        Some(s) => if trim(s@).len() > 0 {
            Some(s@)
        } else {
            None
        },
        None => None,
    }
}

/// The filter an optional parameter gives: `None` when absent or blank.
pub fn normalize_filter(o: &Option<String>) -> (r: Option<Vec<char>>)
    ensures
        match r {
            Some(v) => filter_of(*o) == Some(v@),
            None => filter_of(*o) is None,
        },
{
    match o {
        Some(s) => {
            let v = chars_of(s.as_str());
            if is_blank(&v) {
                None
            } else {
                Some(v)
            }
        },
        None => None,
    }
}

/// Whether `limit` is acceptable: absent, or in `1..=MAX_LIMIT`.
pub open spec fn limit_ok(limit: Option<usize>) -> bool {
    match limit {
        Some(n) => 1 <= n <= MAX_LIMIT,
        None => true,
    }
}

/// Check `limit`: absent or in `1..=200`, otherwise an invalid-parameters error whose message
/// is `limit must be in 1..=200 — got {value}`.
pub fn validate_limit(limit: Option<usize>) -> (r: Result<(), ToolError>)
    ensures
        r is Ok <==> limit_ok(limit),
        r matches Err(e) ==> e.code == crate::error::ToolErrorCode::InvalidParams
            && e.message@ == "limit must be in 1..=200 — got "@ + crate::text::decimal(
            limit->0 as nat,
        ),
{
    match limit {
        None => Ok(()),
        Some(value) => {
            if 1 <= value && value <= MAX_LIMIT {
                Ok(())
            } else {
                let mut m: Vec<char> = Vec::new();
                push_str(&mut m, "limit must be in 1..=200 — got ");
                push_decimal(&mut m, value as u64);
                Err(ToolError::invalid_params(&m))
            }
        },
    }
}

/// The sort a (normalized) `sort` parameter names: absent or `priority`, `created`, `updated`
/// (exactly, lower case); anything else is rejected.
pub open spec fn sort_named(raw: Option<Seq<char>>) -> Option<SortKey> {
    match raw {
        None => Some(SortKey::Priority),
        Some(s) => if s == "priority"@ {
            Some(SortKey::Priority)
        } else if s == "created"@ {
            Some(SortKey::Created)
        } else if s == "updated"@ {
            Some(SortKey::Updated)
        } else {
            None
        },
    }
}

impl SortKey {
    /// The sort `raw` names, or an invalid-parameters error quoting it.
    pub fn parse(raw: Option<&str>) -> (r: Result<SortKey, ToolError>)
        ensures
            match r {
                Ok(k) => sort_named(
                    match raw {
                        Some(s) => Some(s@),
                        None => None,
                    },
                ) == Some(k),
                Err(e) => sort_named(
                    match raw {
                        Some(s) => Some(s@),
                        None => None,
                    },
                ) is None && e.code == crate::error::ToolErrorCode::InvalidParams && e.message@
                    == "sort must be one of \"priority\", \"created\", or \"updated\" — got \""@
                    + raw->0@ + "\""@,
            },
    {
        match raw {
            None => Ok(SortKey::Priority),
            Some(s) => {
                let v = chars_of(s);
                if chars_eq(&v, &chars_of("priority")) {
                    Ok(SortKey::Priority)
                } else if chars_eq(&v, &chars_of("created")) {
                    Ok(SortKey::Created)
                } else if chars_eq(&v, &chars_of("updated")) {
                    Ok(SortKey::Updated)
                } else {
                    let mut m: Vec<char> = Vec::new();
                    push_str(
                        &mut m,
                        "sort must be one of \"priority\", \"created\", or \"updated\" — got \"",
                    );
                    crate::text::push_all(&mut m, &v);
                    push_str(&mut m, "\"");
                    Err(ToolError::invalid_params(&m))
                }
            },
        }
    }
}

// ------------------------------------------------------------------------------------------
// Filtering
// ------------------------------------------------------------------------------------------

/// Whether `r` passes every filter of `p`.
pub open spec fn row_matches(r: ListRow, p: ListParams) -> bool {
    &&& filter_of(p.status) matches Some(f) ==> eq_ignore_ascii_case(status_text(r.status), f)
    &&& filter_of(p.priority) matches Some(f) ==> eq_ignore_ascii_case(priority_text(r.priority), f)
    &&& filter_of(p.issue_type) matches Some(f) ==> (r.issue_type matches Some(t)
        && eq_ignore_ascii_case(t@, f))
    &&& filter_of(p.milestone) matches Some(f) ==> (r.milestone matches Some(m) && m@ == f)
    &&& filter_of(p.agent) matches Some(f) ==> (r.agent matches Some(a) && a@ == f)
    &&& filter_of(p.label) matches Some(f) ==> exists|i: int|
        0 <= i < r.labels@.len() && eq_ignore_ascii_case(#[trigger] r.labels@[i]@, f)
    &&& filter_of(p.assignee) matches Some(f) ==> exists|i: int|
        0 <= i < r.assignees@.len() && #[trigger] r.assignees@[i]@ == f
}

fn text_matches_ic(t: &String, f: &Option<Vec<char>>) -> (b: bool)
    ensures
        b == (f matches Some(x) ==> eq_ignore_ascii_case(t@, x@)),
{
    match f {
        Some(x) => chars_eq_ignore_ascii_case(&chars_of(t.as_str()), x),
        None => true,
    }
}

fn opt_matches(t: &Option<String>, f: &Option<Vec<char>>, ignore_case: bool) -> (b: bool)
    ensures
        b == (f matches Some(x) ==> (t matches Some(s) && (if ignore_case {
            eq_ignore_ascii_case(s@, x@)
        } else {
            s@ == x@
        }))),
{
    match f {
        Some(x) => match t {
            Some(s) => {
                let c = chars_of(s.as_str());
                if ignore_case {
                    chars_eq_ignore_ascii_case(&c, x)
                } else {
                    chars_eq(&c, x)
                }
            },
            None => false,
        },
        None => true,
    }
}

spec fn text_hit(s: Seq<char>, x: Seq<char>, ignore_case: bool) -> bool {
    if ignore_case {
        eq_ignore_ascii_case(s, x)
    } else {
        s == x
    }
}

fn any_matches(v: &Vec<String>, f: &Option<Vec<char>>, ignore_case: bool) -> (b: bool)
    ensures
        b == (f matches Some(x) ==> exists|i: int|
            0 <= i < v@.len() && text_hit(#[trigger] v@[i]@, x@, ignore_case)),
{
    match f {
        Some(x) => {
            let mut i: usize = 0;
            while i < v.len()
                invariant
                    0 <= i <= v@.len(),
                    *f == Some(*x),
                    forall|j: int| 0 <= j < i ==> !text_hit(#[trigger] v@[j]@, x@, ignore_case),
                decreases v@.len() - i,
            {
                let c = chars_of(v[i].as_str());
                let hit = if ignore_case {
                    chars_eq_ignore_ascii_case(&c, x)
                } else {
                    chars_eq(&c, x)
                };
                if hit {
                    assert(text_hit(v@[i as int]@, x@, ignore_case));
                    return true;
                }
                i = i + 1;
            }
            false
        },
        None => true,
    }
}

/// The normalized filters of `list`.
struct Filters {
    status: Option<Vec<char>>,
    priority: Option<Vec<char>>,
    issue_type: Option<Vec<char>>,
    milestone: Option<Vec<char>>,
    agent: Option<Vec<char>>,
    label: Option<Vec<char>>,
    assignee: Option<Vec<char>>,
}

spec fn filter_view(o: Option<Vec<char>>) -> Option<Seq<char>> {
    match o {
        Some(v) => Some(v@),
        None => None,
    }
}

spec fn filters_of(f: Filters, p: ListParams) -> bool {
    &&& filter_view(f.status) == filter_of(p.status)
    &&& filter_view(f.priority) == filter_of(p.priority)
    &&& filter_view(f.issue_type) == filter_of(p.issue_type)
    &&& filter_view(f.milestone) == filter_of(p.milestone)
    &&& filter_view(f.agent) == filter_of(p.agent)
    &&& filter_view(f.label) == filter_of(p.label)
    &&& filter_view(f.assignee) == filter_of(p.assignee)
}

fn filters(p: &ListParams) -> (f: Filters)
    ensures
        filters_of(f, *p),
{
    Filters {
        status: normalize_filter(&p.status),
        priority: normalize_filter(&p.priority),
        issue_type: normalize_filter(&p.issue_type),
        milestone: normalize_filter(&p.milestone),
        agent: normalize_filter(&p.agent),
        label: normalize_filter(&p.label),
        assignee: normalize_filter(&p.assignee),
    }
}

fn row_passes(r: &ListRow, f: &Filters, Ghost(p): Ghost<ListParams>) -> (b: bool)
    requires
        filters_of(*f, p),
    ensures
        b == row_matches(*r, p),
{
    let status = r.status.text();
    let priority = r.priority.text();
    text_matches_ic(&status, &f.status) && text_matches_ic(&priority, &f.priority) && opt_matches(
        &r.issue_type,
        &f.issue_type,
        true,
    ) && opt_matches(&r.milestone, &f.milestone, false) && opt_matches(&r.agent, &f.agent, false)
        && any_matches(&r.labels, &f.label, true) && any_matches(&r.assignees, &f.assignee, false)
}

/// The indices of the rows that pass the filters, in order.
pub open spec fn matching_indices(rows: Seq<ListRow>, p: ListParams) -> Seq<int>
    decreases rows.len(),
{
    if rows.len() == 0 {
        seq![]
    } else {
        let prev = matching_indices(rows.drop_last(), p);
        if row_matches(rows.last(), p) {
            prev.push(rows.len() - 1)
        } else {
            prev
        }
    }
}

/// A blank filter string filters exactly as an absent one: which rows `list` keeps depends on the
/// filter parameters only through their normalized values (`filter_of`).
pub proof fn lemma_list_filters_normalize(rows: Seq<ListRow>, p: ListParams, q: ListParams)
    requires
        filter_of(p.status) == filter_of(q.status),
        filter_of(p.priority) == filter_of(q.priority),
        filter_of(p.issue_type) == filter_of(q.issue_type),
        filter_of(p.milestone) == filter_of(q.milestone),
        filter_of(p.agent) == filter_of(q.agent),
        filter_of(p.label) == filter_of(q.label),
        filter_of(p.assignee) == filter_of(q.assignee),
    ensures
        matching_indices(rows, p) == matching_indices(rows, q),
    decreases rows.len(),
{
    if rows.len() > 0 {
        lemma_list_filters_normalize(rows.drop_last(), p, q);
        assert(row_matches(rows.last(), p) == row_matches(rows.last(), q));
    }
}

// ------------------------------------------------------------------------------------------
// Sorting
// ------------------------------------------------------------------------------------------

/// Whether `a` sorts strictly before `b` under `sort`.
pub open spec fn row_lt(a: ListRow, b: ListRow, sort: SortKey) -> bool {
    let tie = qid_lt(a.qualified_id, b.qualified_id);
    match sort {
        SortKey::Priority => priority_rank(a.priority) < priority_rank(b.priority) || (
        priority_rank(a.priority) == priority_rank(b.priority) && (ts_lt(a.created_at, b.created_at)
            || (a.created_at == b.created_at && tie))),
        SortKey::Created => ts_lt(a.created_at, b.created_at) || (a.created_at == b.created_at
            && tie),
        SortKey::Updated => ts_lt(b.updated_at, a.updated_at) || (a.updated_at == b.updated_at
            && tie),
    }
}

proof fn lemma_qid_lt_irreflexive(a: QualifiedId)
    ensures
        !qid_lt(a, a),
{
    lemma_str_lt_irreflexive(a.owner@);
    lemma_str_lt_irreflexive(a.repo@);
}

proof fn lemma_qid_lt_transitive(a: QualifiedId, b: QualifiedId, c: QualifiedId)
    requires
        qid_lt(a, b),
        qid_lt(b, c),
    ensures
        qid_lt(a, c),
{
    if str_lt(a.owner@, b.owner@) && str_lt(b.owner@, c.owner@) {
        lemma_str_lt_transitive(a.owner@, b.owner@, c.owner@);
    }
    if a.owner@ == b.owner@ && b.owner@ == c.owner@ && str_lt(a.repo@, b.repo@) && str_lt(
        b.repo@,
        c.repo@,
    ) {
        lemma_str_lt_transitive(a.repo@, b.repo@, c.repo@);
    }
}

/// The order is irreflexive.
pub proof fn lemma_row_lt_irreflexive(a: ListRow, sort: SortKey)
    ensures
        !row_lt(a, a, sort),
{
    lemma_qid_lt_irreflexive(a.qualified_id);
}

/// The order is transitive.
pub proof fn lemma_row_lt_transitive(a: ListRow, b: ListRow, c: ListRow, sort: SortKey)
    requires
        row_lt(a, b, sort),
        row_lt(b, c, sort),
    ensures
        row_lt(a, c, sort),
{
    if qid_lt(a.qualified_id, b.qualified_id) && qid_lt(b.qualified_id, c.qualified_id) {
        lemma_qid_lt_transitive(a.qualified_id, b.qualified_id, c.qualified_id);
    }
}

fn qid_less(a: &QualifiedId, b: &QualifiedId) -> (r: bool)
    ensures
        r == qid_lt(*a, *b),
{
    let ao = chars_of(a.owner.as_str());
    let bo = chars_of(b.owner.as_str());
    if chars_less(&ao, &bo) {
        return true;
    }
    if !chars_eq(&ao, &bo) {
        return false;
    }
    let ar = chars_of(a.repo.as_str());
    let br = chars_of(b.repo.as_str());
    if chars_less(&ar, &br) {
        return true;
    }
    if !chars_eq(&ar, &br) {
        return false;
    }
    a.number < b.number
}

/// Whether row `a` sorts strictly before row `b`.
pub fn row_before(a: &ListRow, b: &ListRow, sort: SortKey) -> (r: bool)
    ensures
        r == row_lt(*a, *b, sort),
{
    match sort {
        SortKey::Priority => {
            let ra = a.priority.sort_key();
            let rb = b.priority.sort_key();
            ra < rb || (ra == rb && (before(a.created_at, b.created_at) || (a.created_at
                == b.created_at && qid_less(&a.qualified_id, &b.qualified_id))))
        },
        SortKey::Created => before(a.created_at, b.created_at) || (a.created_at == b.created_at
            && qid_less(&a.qualified_id, &b.qualified_id)),
        SortKey::Updated => before(b.updated_at, a.updated_at) || (a.updated_at == b.updated_at
            && qid_less(&a.qualified_id, &b.qualified_id)),
    }
}

/// Whether the rows at `order` never decrease under `sort`.
pub open spec fn sorted_by(rows: Seq<ListRow>, order: Seq<int>, sort: SortKey) -> bool {
    forall|i: int, j: int|
        0 <= i < j < order.len() ==> !row_lt(rows[#[trigger] order[j]], rows[#[trigger] order[i]], sort)
}

/// Whether `order` lists the same indices as `base`, each once.
pub open spec fn permutes(order: Seq<int>, base: Seq<int>) -> bool {
    &&& order.len() == base.len()
    &&& order.no_duplicates()
    &&& order.to_set() == base.to_set()
}

/// Sort `idx` (indices into `rows`, each once) stably by `sort`.
fn sort_indices(rows: &[ListRow], idx: &Vec<usize>, sort: SortKey) -> (r: Vec<usize>)
    requires
        idx@.no_duplicates(),
        forall|i: int| 0 <= i < idx@.len() ==> #[trigger] idx@[i] < rows@.len(),
    ensures
        permutes(r@.map_values(|x: usize| x as int), idx@.map_values(|x: usize| x as int)),
        sorted_by(rows@, r@.map_values(|x: usize| x as int), sort),
        forall|i: int| 0 <= i < r@.len() ==> #[trigger] r@[i] < rows@.len(),
{
    let mut out: Vec<usize> = Vec::new();
    let mut k: usize = 0;
    while k < idx.len()
        invariant
            0 <= k <= idx@.len(),
            idx@.no_duplicates(),
            forall|i: int| 0 <= i < idx@.len() ==> #[trigger] idx@[i] < rows@.len(),
            out@.len() == k,
            out@.no_duplicates(),
            out@.to_set() == idx@.take(k as int).to_set(),
            forall|i: int| 0 <= i < out@.len() ==> #[trigger] out@[i] < rows@.len(),
            forall|i: int, j: int|
                0 <= i < j < out@.len() ==> !row_lt(
                    rows@[#[trigger] out@[j] as int],
                    rows@[#[trigger] out@[i] as int],
                    sort,
                ),
        decreases idx@.len() - k,
    {
        let x = idx[k];
        let mut p: usize = 0;
        while p < out.len() && !row_before(&rows[x], &rows[out[p]], sort)
            invariant
                0 <= p <= out@.len(),
                x < rows@.len(),
                forall|i: int| 0 <= i < out@.len() ==> #[trigger] out@[i] < rows@.len(),
                forall|i: int| 0 <= i < p ==> !row_lt(rows@[x as int], rows@[#[trigger] out@[i] as int], sort),
            decreases out@.len() - p,
        {
            p = p + 1;
        }
        let ghost old_out = out@;
        proof {
            assert(!old_out.contains(x)) by {
                if old_out.contains(x) {
                    let m = choose|m: int| 0 <= m < old_out.len() && old_out[m] == x;
                    assert(old_out.to_set().contains(x));
                    assert(idx@.take(k as int).to_set().contains(x));
                    let n = choose|n: int| 0 <= n < k && idx@.take(k as int)[n] == x;
                    assert(idx@[n] == idx@[k as int]);
                }
            }
            if p < old_out.len() {
                assert forall|j: int| p <= j < old_out.len() implies !row_lt(
                    rows@[old_out[j] as int],
                    rows@[x as int],
                    sort,
                ) by {
                    if row_lt(rows@[old_out[j] as int], rows@[x as int], sort) {
                        lemma_row_lt_transitive(
                            rows@[old_out[j] as int],
                            rows@[x as int],
                            rows@[old_out[p as int] as int],
                            sort,
                        );
                        if j == p {
                            lemma_row_lt_irreflexive(rows@[old_out[j] as int], sort);
                        }
                    }
                }
            }
        }
        out.insert(p, x);
        proof {
            let new_out = out@;
            assert(new_out =~= old_out.insert(p as int, x));
            assert forall|i: int, j: int| 0 <= i < j < new_out.len() implies !row_lt(
                rows@[#[trigger] new_out[j] as int],
                rows@[#[trigger] new_out[i] as int],
                sort,
            ) by {
                if i < p && j == p {
                } else if i < p && j > p {
                    assert(new_out[j] == old_out[j - 1]);
                } else if i == p {
                    assert(new_out[j] == old_out[j - 1]);
                } else if i > p {
                    assert(new_out[i] == old_out[i - 1]);
                    assert(new_out[j] == old_out[j - 1]);
                }
            }
            assert(new_out.no_duplicates()) by {
                assert forall|i: int, j: int| 0 <= i < j < new_out.len() implies new_out[i]
                    != new_out[j] by {
                    if i < p && j > p {
                        assert(new_out[j] == old_out[j - 1]);
                    } else if i == p && j > p {
                        assert(new_out[j] == old_out[j - 1]);
                        assert(old_out.contains(old_out[j - 1]));
                    } else if i < p && j == p {
                        assert(old_out.contains(old_out[i]));
                    } else if i > p {
                        assert(new_out[i] == old_out[i - 1]);
                        assert(new_out[j] == old_out[j - 1]);
                    }
                }
            }
            assert(idx@.take(k + 1) =~= idx@.take(k as int).push(x));
            assert(new_out.to_set() =~= idx@.take(k + 1).to_set()) by {
                assert forall|y: usize| new_out.to_set().contains(y) implies idx@.take(k + 1).to_set().contains(y) by {
                    assert(new_out.contains(y));
                    let m = choose|m: int| 0 <= m < new_out.len() && new_out[m] == y;
                    if m == p {
                        assert(idx@.take(k + 1)[k as int] == y);
                    } else {
                        if m < p {
                            assert(old_out[m] == y);
                        } else {
                            assert(old_out[m - 1] == y);
                        }
                        assert(old_out.contains(y));
                        assert(idx@.take(k as int).to_set().contains(y));
                        assert(idx@.take(k as int).contains(y));
                        let n = choose|n: int| 0 <= n < k && idx@.take(k as int)[n] == y;
                        assert(idx@.take(k + 1)[n] == y);
                    }
                    assert(idx@.take(k + 1).contains(y));
                }
                assert forall|y: usize| idx@.take(k + 1).to_set().contains(y) implies new_out.to_set().contains(y) by {
                    if y == x {
                        assert(new_out[p as int] == y);
                    } else {
                        assert(idx@.take(k as int).to_set().contains(y));
                        assert(old_out.to_set().contains(y));
                        let m = choose|m: int| 0 <= m < old_out.len() && old_out[m] == y;
                        if m < p {
                            assert(new_out[m] == y);
                        } else {
                            assert(new_out[m + 1] == y);
                        }
                    }
                }
            }
        }
        k = k + 1;
    }
    proof {
        assert(idx@.take(idx@.len() as int) =~= idx@);
        let ro = out@.map_values(|x: usize| x as int);
        let ri = idx@.map_values(|x: usize| x as int);
        assert(ro.no_duplicates()) by {
            assert forall|i: int, j: int| 0 <= i < j < ro.len() implies ro[i] != ro[j] by {
                assert(out@[i] != out@[j]);
            }
        }
        assert(ro.to_set() =~= ri.to_set()) by {
            assert forall|y: int| ro.to_set().contains(y) implies ri.to_set().contains(y) by {
                let m = choose|m: int| 0 <= m < ro.len() && ro[m] == y;
                assert(out@.to_set().contains(out@[m]));
                assert(idx@.to_set().contains(out@[m]));
                let n = choose|n: int| 0 <= n < idx@.len() && idx@[n] == out@[m];
                assert(ri[n] == y);
            }
            assert forall|y: int| ri.to_set().contains(y) implies ro.to_set().contains(y) by {
                let m = choose|m: int| 0 <= m < ri.len() && ri[m] == y;
                assert(idx@.to_set().contains(idx@[m]));
                assert(out@.to_set().contains(idx@[m]));
                let n = choose|n: int| 0 <= n < out@.len() && out@[n] == idx@[m];
                assert(ro[n] == y);
            }
        }
        assert forall|i: int, j: int| 0 <= i < j < ro.len() implies !row_lt(
            rows@[#[trigger] ro[j]],
            rows@[#[trigger] ro[i]],
            sort,
        ) by {
            assert(ro[j] == out@[j] as int);
            assert(ro[i] == out@[i] as int);
        }
    }
    out
}

// ------------------------------------------------------------------------------------------
// The listing
// ------------------------------------------------------------------------------------------

/// Whether `page` holds, in order, the summaries of the rows at `order[offset..offset+limit]`.
pub open spec fn page_of(
    page: Seq<ListIssueSummary>,
    rows: Seq<ListRow>,
    order: Seq<int>,
    offset: nat,
    limit: nat,
) -> bool {
    let start = if offset < order.len() {
        offset
    } else {
        order.len()
    };
    let end = if start + limit < order.len() {
        start + limit
    } else {
        order.len() as nat
    };
    &&& page.len() == end - start
    &&& forall|k: int| 0 <= k < page.len() ==> summarises(#[trigger] page[k], rows[order[start + k]])
}

/// A page that starts at or past the end of the listing is empty.
pub proof fn lemma_page_past_end_is_empty(
    page: Seq<ListIssueSummary>,
    rows: Seq<ListRow>,
    order: Seq<int>,
    offset: nat,
    limit: nat,
)
    requires
        page_of(page, rows, order, offset, limit),
        offset >= order.len(),
    ensures
        page.len() == 0,
{
}

/// Paging through a listing misses and repeats nothing: the page of `l` rows at `offset`
/// followed by the page of `m` rows right after it is the page of `l + m` rows at `offset`.
pub proof fn lemma_consecutive_pages(
    a: Seq<ListIssueSummary>,
    b: Seq<ListIssueSummary>,
    rows: Seq<ListRow>,
    order: Seq<int>,
    offset: nat,
    l: nat,
    m: nat,
)
    requires
        page_of(a, rows, order, offset, l),
        page_of(b, rows, order, offset + l, m),
    ensures
        page_of(a + b, rows, order, offset, l + m),
{
    let n = order.len();
    let start = if offset < n {
        offset
    } else {
        n
    };
    assert forall|k: int| 0 <= k < (a + b).len() implies summarises(
        #[trigger] (a + b)[k],
        rows[order[start + k]],
    ) by {
        if k < a.len() {
            assert((a + b)[k] == a[k]);
        } else {
            assert((a + b)[k] == b[k - a.len()]);
        }
    }
}

// ------------------------------------------------------------------------------------------
// The listing does not depend on the order of the rows
// ------------------------------------------------------------------------------------------

/// No two rows share a qualified id.
pub open spec fn distinct_ids(rows: Seq<ListRow>) -> bool {
    forall|i: int, j: int|
        0 <= i < rows.len() && 0 <= j < rows.len() && i != j ==> qkey(#[trigger] rows[i].qualified_id)
            != qkey(#[trigger] rows[j].qualified_id)
}

/// The rows at `order`, in that order.
pub open spec fn rows_at(rows: Seq<ListRow>, order: Seq<int>) -> Seq<ListRow> {
    order.map_values(|i: int| rows[i])
}

/// Whether each row of `s` sorts strictly before every later one.
pub open spec fn strictly_sorted_rows(s: Seq<ListRow>, sort: SortKey) -> bool {
    forall|i: int, j: int| 0 <= i < j < s.len() ==> row_lt(#[trigger] s[i], #[trigger] s[j], sort)
}

/// Whether the two summaries answer the same fields.
pub open spec fn same_summary(a: ListIssueSummary, b: ListIssueSummary) -> bool {
    &&& a.number == b.number
    &&& a.title@ == b.title@
    &&& opt_view(a.issue_type) == opt_view(b.issue_type)
    &&& a.status@ == b.status@
    &&& a.priority@ == b.priority@
    &&& opt_view(a.agent) == opt_view(b.agent)
    &&& opt_view(a.milestone) == opt_view(b.milestone)
    &&& a.story_points == b.story_points
    &&& opt_view(a.defer_until) == opt_view(b.defer_until)
    &&& a.labels@ == b.labels@
    &&& a.assignees@ == b.assignees@
    &&& a.created_at@ == b.created_at@
    &&& a.updated_at@ == b.updated_at@
    &&& a.url@ == b.url@
}

/// The indices the filters keep are exactly those of the rows that match.
proof fn lemma_matching_indices_members(rows: Seq<ListRow>, p: ListParams)
    ensures
        forall|i: int|
            #[trigger] matching_indices(rows, p).contains(i) <==> (0 <= i < rows.len() && row_matches(
                rows[i],
                p,
            )),
    decreases rows.len(),
{
    if rows.len() > 0 {
        let prev = rows.drop_last();
        lemma_matching_indices_members(prev, p);
        assert forall|i: int|
            #[trigger] matching_indices(rows, p).contains(i) <==> (0 <= i < rows.len() && row_matches(
                rows[i],
                p,
            )) by {
            let m = matching_indices(prev, p);
            if row_matches(rows.last(), p) {
                assert(matching_indices(rows, p) == m.push(rows.len() - 1));
                if m.contains(i) {
                    let k = choose|k: int| 0 <= k < m.len() && m[k] == i;
                    assert(m.push(rows.len() - 1)[k] == i);
                }
                if matching_indices(rows, p).contains(i) {
                    let mm = m.push(rows.len() - 1);
                    let k = choose|k: int| 0 <= k < mm.len() && mm[k] == i;
                    if k < m.len() {
                        assert(m[k] == i);
                        assert(m.contains(i));
                    }
                }
                if i == rows.len() - 1 {
                    assert(m.push(rows.len() - 1)[m.len() as int] == i);
                }
            }
            if 0 <= i < prev.len() {
                assert(prev[i] == rows[i]);
            }
        }
    }
}

/// Whether the optional parameter holds a non-blank text (a filter that is set).
pub open spec fn is_set(o: Option<String>) -> bool {
    o is Some && trim(o->0@).len() > 0
}

/// The listing counts, and lists in some order, exactly the rows that meet every filter that is
/// set: status, priority, type and one label regardless of ASCII case; milestone, agent and one
/// assignee exactly. A row without a milestone (agent, type) never meets a milestone (agent,
/// type) filter.
pub proof fn lemma_listing_counts_rows_meeting_filters(rows: Seq<ListRow>, p: ListParams, i: int)
    requires
        0 <= i < rows.len(),
    ensures
        matching_indices(rows, p).contains(i) <==> {
            let r = rows[i];
            &&& is_set(p.status) ==> eq_ignore_ascii_case(status_text(r.status), p.status->0@)
            &&& is_set(p.priority) ==> eq_ignore_ascii_case(priority_text(r.priority), p.priority->0@)
            &&& is_set(p.issue_type) ==> (r.issue_type is Some && eq_ignore_ascii_case(
                r.issue_type->0@,
                p.issue_type->0@,
            ))
            &&& is_set(p.milestone) ==> (r.milestone is Some && r.milestone->0@ == p.milestone->0@)
            &&& is_set(p.agent) ==> (r.agent is Some && r.agent->0@ == p.agent->0@)
            &&& is_set(p.label) ==> exists|l: int|
                0 <= l < r.labels@.len() && eq_ignore_ascii_case(#[trigger] r.labels@[l]@, p.label->0@)
            &&& is_set(p.assignee) ==> exists|a: int|
                0 <= a < r.assignees@.len() && #[trigger] r.assignees@[a]@ == p.assignee->0@
        },
{
    lemma_matching_indices_members(rows, p);
}

/// Rows with different qualified ids are ordered one way or the other.
proof fn lemma_row_lt_total(a: ListRow, b: ListRow, sort: SortKey)
    requires
        qkey(a.qualified_id) != qkey(b.qualified_id),
    ensures
        row_lt(a, b, sort) || row_lt(b, a, sort),
{
    lemma_str_lt_total(a.qualified_id.owner@, b.qualified_id.owner@);
    lemma_str_lt_total(a.qualified_id.repo@, b.qualified_id.repo@);
    assert(qid_lt(a.qualified_id, b.qualified_id) || qid_lt(b.qualified_id, a.qualified_id));
}

/// Two strictly sorted sequences of rows with the same members are the same sequence.
proof fn lemma_sorted_rows_unique(a: Seq<ListRow>, b: Seq<ListRow>, sort: SortKey)
    requires
        strictly_sorted_rows(a, sort),
        strictly_sorted_rows(b, sort),
        a.to_set() == b.to_set(),
    ensures
        a == b,
    decreases a.len() + b.len(),
{
    if a.len() == 0 {
        if b.len() > 0 {
            assert(b.to_set().contains(b[0]));
        }
        assert(a =~= b);
    } else if b.len() == 0 {
        assert(a.to_set().contains(a[0]));
    } else {
        // the first members agree: each is the least member of the common set
        assert(b.to_set().contains(a[0]));
        assert(a.to_set().contains(b[0]));
        let ka = choose|k: int| 0 <= k < b.len() && b[k] == a[0];
        let kb = choose|k: int| 0 <= k < a.len() && a[k] == b[0];
        if ka > 0 {
            assert(row_lt(b[0], b[ka], sort));
            if kb > 0 {
                assert(row_lt(a[0], a[kb], sort));
                lemma_row_lt_transitive(a[0], b[0], a[0], sort);
                lemma_row_lt_irreflexive(a[0], sort);
            } else {
                lemma_row_lt_irreflexive(a[0], sort);
            }
        } else if kb > 0 {
            lemma_row_lt_irreflexive(b[0], sort);
            assert(row_lt(a[0], a[kb], sort));
        }
        assert(a[0] == b[0]);
        let ra = a.drop_first();
        let rb = b.drop_first();
        assert(ra.to_set() == rb.to_set()) by {
            assert forall|x: ListRow| ra.to_set().contains(x) implies rb.to_set().contains(x) by {
                let k = choose|k: int| 0 <= k < ra.len() && ra[k] == x;
                assert(a[k + 1] == x);
                assert(row_lt(a[0], x, sort));
                assert(b.to_set().contains(x));
                let m = choose|m: int| 0 <= m < b.len() && b[m] == x;
                if m == 0 {
                    lemma_row_lt_irreflexive(x, sort);
                }
                assert(rb[m - 1] == x);
            }
            assert forall|x: ListRow| rb.to_set().contains(x) implies ra.to_set().contains(x) by {
                let k = choose|k: int| 0 <= k < rb.len() && rb[k] == x;
                assert(b[k + 1] == x);
                assert(row_lt(b[0], x, sort));
                assert(a.to_set().contains(x));
                let m = choose|m: int| 0 <= m < a.len() && a[m] == x;
                if m == 0 {
                    lemma_row_lt_irreflexive(x, sort);
                }
                assert(ra[m - 1] == x);
            }
            assert(ra.to_set() =~= rb.to_set());
        }
        lemma_sorted_rows_unique(ra, rb, sort);
        assert(a =~= b) by {
            assert forall|k: int| 0 <= k < a.len() implies a[k] == b[k] by {
                if k > 0 {
                    assert(a[k] == ra[k - 1]);
                    assert(b[k] == rb[k - 1]);
                }
            }
        }
    }
}

/// The matching rows in a sorted order of the matching indices, when no two rows share a
/// qualified id, are strictly sorted and are exactly the rows that match.
proof fn lemma_sorted_matching_rows(rows: Seq<ListRow>, p: ListParams, sort: SortKey, order: Seq<int>)
    requires
        distinct_ids(rows),
        permutes(order, matching_indices(rows, p)),
        sorted_by(rows, order, sort),
    ensures
        strictly_sorted_rows(rows_at(rows, order), sort),
        forall|x: ListRow| #[trigger] rows_at(rows, order).to_set().contains(x) <==> (rows.contains(x) && row_matches(x, p)),
{
    lemma_matching_indices_members(rows, p);
    let s = rows_at(rows, order);
    assert forall|i: int| 0 <= i < order.len() implies 0 <= #[trigger] order[i] < rows.len() && row_matches(
        rows[order[i]],
        p,
    ) by {
        assert(order.to_set().contains(order[i]));
        assert(matching_indices(rows, p).to_set().contains(order[i]));
    }
    assert forall|i: int, j: int| 0 <= i < j < s.len() implies row_lt(#[trigger] s[i], #[trigger] s[j], sort) by {
        assert(order[i] != order[j]);
        assert(s[i] == rows[order[i]]);
        assert(s[j] == rows[order[j]]);
        lemma_row_lt_total(rows[order[i]], rows[order[j]], sort);
    }
    assert forall|x: ListRow| #[trigger] s.to_set().contains(x) <==> (rows.contains(x) && row_matches(x, p)) by {
        if s.to_set().contains(x) {
            let k = choose|k: int| 0 <= k < s.len() && s[k] == x;
            assert(rows[order[k]] == x);
        }
        if rows.contains(x) && row_matches(x, p) {
            let i = choose|i: int| 0 <= i < rows.len() && rows[i] == x;
            assert(matching_indices(rows, p).contains(i));
            assert(matching_indices(rows, p).to_set().contains(i));
            assert(order.to_set().contains(i));
            let k = choose|k: int| 0 <= k < order.len() && order[k] == i;
            assert(s[k] == x);
        }
    }
}

/// Reordering the input rows does not change the listing, as long as no two rows share a
/// qualified id: every sort ends in the (owner, repository, number) tiebreak, so the order is
/// total. For any two sorted orders of the matching rows of `rows1` and of a permutation
/// `rows2` of it, the same rows come in the same places, so the total and every page agree.
pub proof fn lemma_listing_ignores_row_order(
    rows1: Seq<ListRow>,
    rows2: Seq<ListRow>,
    params: ListParams,
    sort: SortKey,
    order1: Seq<int>,
    order2: Seq<int>,
)
    requires
        rows2.to_multiset() == rows1.to_multiset(),
        distinct_ids(rows1),
        permutes(order1, matching_indices(rows1, params)),
        sorted_by(rows1, order1, sort),
        permutes(order2, matching_indices(rows2, params)),
        sorted_by(rows2, order2, sort),
    ensures
        matching_indices(rows1, params).len() == matching_indices(rows2, params).len(),
        rows_at(rows1, order1) == rows_at(rows2, order2),
        forall|page: Seq<ListIssueSummary>, offset: nat, limit: nat|
            #[trigger] page_of(page, rows1, order1, offset, limit) <==> page_of(page, rows2, order2, offset, limit),
{
    broadcast use vstd::seq_lib::group_to_multiset_ensures;

    assert forall|x: ListRow| rows1.contains(x) <==> rows2.contains(x) by {
        assert(rows1.contains(x) <==> rows1.to_multiset().count(x) > 0);
        assert(rows2.contains(x) <==> rows2.to_multiset().count(x) > 0);
    }
    // the permutation keeps the ids distinct
    assert(rows1.no_duplicates()) by {
        assert forall|i: int, j: int| 0 <= i < rows1.len() && 0 <= j < rows1.len() && i != j implies rows1[i]
            != rows1[j] by {
            assert(qkey(rows1[i].qualified_id) != qkey(rows1[j].qualified_id));
        }
    }
    rows1.lemma_multiset_has_no_duplicates();
    rows2.lemma_multiset_has_no_duplicates_conv();
    assert(distinct_ids(rows2)) by {
        assert forall|i: int, j: int| 0 <= i < rows2.len() && 0 <= j < rows2.len() && i != j implies qkey(
            #[trigger] rows2[i].qualified_id,
        ) != qkey(#[trigger] rows2[j].qualified_id) by {
            assert(rows2.contains(rows2[i]));
            assert(rows2.contains(rows2[j]));
            let a = choose|a: int| 0 <= a < rows1.len() && rows1[a] == rows2[i];
            let b = choose|b: int| 0 <= b < rows1.len() && rows1[b] == rows2[j];
            assert(rows2[i] != rows2[j]);
        }
    }
    lemma_sorted_matching_rows(rows1, params, sort, order1);
    lemma_sorted_matching_rows(rows2, params, sort, order2);
    let s1 = rows_at(rows1, order1);
    let s2 = rows_at(rows2, order2);
    assert(s1.to_set() =~= s2.to_set());
    lemma_sorted_rows_unique(s1, s2, sort);
    assert(order1.len() == s1.len());
    assert forall|page: Seq<ListIssueSummary>, offset: nat, limit: nat|
        #[trigger] page_of(page, rows1, order1, offset, limit) <==> page_of(page, rows2, order2, offset, limit) by {
        assert forall|k: int| 0 <= k < order1.len() implies rows1[order1[k]] == rows2[order2[k]] by {
            assert(s1[k] == s2[k]);
        }
    }
}

/// Two listings of a permutation of the same rows, no two of which share a qualified id,
/// answer the same total and the same page, summary for summary.
pub proof fn lemma_listing_results_ignore_row_order(
    rows1: Seq<ListRow>,
    rows2: Seq<ListRow>,
    params: ListParams,
    sort: SortKey,
    offset: nat,
    limit: nat,
    page1: Seq<ListIssueSummary>,
    total1: nat,
    page2: Seq<ListIssueSummary>,
    total2: nat,
)
    requires
        rows2.to_multiset() == rows1.to_multiset(),
        distinct_ids(rows1),
        total1 == matching_indices(rows1, params).len(),
        exists|order: Seq<int>|
            #[trigger] permutes(order, matching_indices(rows1, params)) && sorted_by(rows1, order, sort)
                && page_of(page1, rows1, order, offset, limit),
        total2 == matching_indices(rows2, params).len(),
        exists|order: Seq<int>|
            #[trigger] permutes(order, matching_indices(rows2, params)) && sorted_by(rows2, order, sort)
                && page_of(page2, rows2, order, offset, limit),
    ensures
        total1 == total2,
        page1.len() == page2.len(),
        forall|k: int| 0 <= k < page1.len() ==> same_summary(#[trigger] page1[k], page2[k]),
{
    let order1 = choose|order: Seq<int>|
        #[trigger] permutes(order, matching_indices(rows1, params)) && sorted_by(rows1, order, sort)
            && page_of(page1, rows1, order, offset, limit);
    let order2 = choose|order: Seq<int>|
        #[trigger] permutes(order, matching_indices(rows2, params)) && sorted_by(rows2, order, sort)
            && page_of(page2, rows2, order, offset, limit);
    lemma_listing_ignores_row_order(rows1, rows2, params, sort, order1, order2);
    assert(page_of(page1, rows2, order2, offset, limit));
    let n = order2.len();
    let start = if offset < n {
        offset
    } else {
        n
    };
    assert forall|k: int| 0 <= k < page1.len() implies same_summary(#[trigger] page1[k], page2[k]) by {
        assert(summarises(page1[k], rows2[order2[start + k]]));
        assert(summarises(page2[k], rows2[order2[start + k]]));
    }
}

/// Filter, sort and paginate `rows`: `total` counts every row that passes the filters of
/// `params`; the page holds the summaries of `limit` of them from `offset` on, in `sort` order.
pub fn filter_sort_paginate(
    rows: &[ListRow],
    params: &ListParams,
    sort: SortKey,
    offset: usize,
    limit: usize,
) -> (r: (Vec<ListIssueSummary>, usize))
    ensures
        r.1 == matching_indices(rows@, *params).len(),
        exists|order: Seq<int>|
            #[trigger] permutes(order, matching_indices(rows@, *params)) && sorted_by(rows@, order, sort)
                && page_of(r.0@, rows@, order, offset as nat, limit as nat),
{
    let f = filters(params);
    let mut idx: Vec<usize> = Vec::new();
    let mut i: usize = 0;
    while i < rows.len()
        invariant
            0 <= i <= rows@.len(),
            filters_of(f, *params),
            idx@.map_values(|x: usize| x as int) == matching_indices(rows@.take(i as int), *params),
            forall|k: int| 0 <= k < idx@.len() ==> #[trigger] idx@[k] < i,
            forall|a: int, b: int| 0 <= a < b < idx@.len() ==> idx@[a] < idx@[b],
        decreases rows@.len() - i,
    {
        assert(rows@.take(i + 1).drop_last() =~= rows@.take(i as int));
        if row_passes(&rows[i], &f, Ghost(*params)) {
            let ghost prev = idx@;
            idx.push(i);
            assert(idx@.map_values(|x: usize| x as int) =~= prev.map_values(|x: usize| x as int).push(
                i as int,
            ));
        }
        i = i + 1;
    }
    assert(rows@.take(rows@.len() as int) =~= rows@);
    assert(idx@.no_duplicates()) by {
        assert forall|a: int, b: int| 0 <= a < b < idx@.len() implies idx@[a] != idx@[b] by {}
    }
    let sorted = sort_indices(rows, &idx, sort);
    let total = sorted.len();
    let ghost order = sorted@.map_values(|x: usize| x as int);
    let start = if offset < total {
        offset
    } else {
        total
    };
    let end = if limit < total - start {
        start + limit
    } else {
        total
    };
    let mut page: Vec<ListIssueSummary> = Vec::new();
    let mut k: usize = start;
    while k < end
        invariant
            start <= k <= end <= sorted@.len(),
            page@.len() == k - start,
            order == sorted@.map_values(|x: usize| x as int),
            forall|i: int| 0 <= i < sorted@.len() ==> #[trigger] sorted@[i] < rows@.len(),
            forall|m: int| 0 <= m < page@.len() ==> summarises(#[trigger] page@[m], rows@[order[start + m]]),
        decreases end - k,
    {
        let s = rows[sorted[k]].into_summary();
        page.push(s);
        k = k + 1;
    }
    assert(permutes(order, matching_indices(rows@, *params)));
    (page, total)
}


// ------------------------------------------------------------------------------------------
// The request
// ------------------------------------------------------------------------------------------

/// What `list` settles before it fetches anything: the order, the offset and the page size.
#[derive(Debug, Clone, Copy, PartialEq, Eq, Structural)]
pub struct ListPlan {
    pub sort: SortKey,
    pub offset: usize,
    pub limit: usize,
}

/// The error `list` answers invalid parameters with: the `limit` error first, then the `sort`
/// error.
pub open spec fn list_params_error(p: ListParams) -> Option<Seq<char>> {
    if !limit_ok(p.limit) {
        Some("limit must be in 1..=200 — got "@ + crate::text::decimal(p.limit->0 as nat))
    } else if sort_named(filter_of(p.sort)) is None {
        Some("sort must be one of \"priority\", \"created\", or \"updated\" — got \""@
            + filter_of(p.sort)->0 + "\""@)
    } else {
        None
    }
}

/// Validate the parameters of `list` and settle its plan: `limit` absent or in `1..=200`
/// (default 50), `sort` absent, blank or one of the three names (default `priority`), `offset`
/// default 0.
pub fn plan_list(params: &ListParams) -> (r: Result<ListPlan, ToolError>)
    ensures
        match r {
            Ok(plan) => list_params_error(*params) is None && Some(plan.sort) == sort_named(
                filter_of(params.sort),
            ) && plan.offset == (match params.offset {
                Some(o) => o,
                None => 0,
            }) && plan.limit == (match params.limit {
                Some(l) => l,
                None => DEFAULT_LIMIT,
            }),
            Err(e) => e.code == crate::error::ToolErrorCode::InvalidParams && list_params_error(
                *params,
            ) == Some(e.message@),
        },
{
    match validate_limit(params.limit) {
        Ok(()) => {},
        Err(e) => return Err(e),
    }
    let raw = normalize_filter(&params.sort);
    let sort = match &raw {
        Some(v) => {
            let s = string_of(v);
            SortKey::parse(Some(s.as_str()))
        },
        None => SortKey::parse(None),
    };
    let sort = match sort {
        Ok(k) => k,
        Err(e) => return Err(e),
    };
    let offset = match params.offset {
        Some(o) => o,
        None => 0,
    };
    let limit = match params.limit {
        Some(l) => l,
        None => DEFAULT_LIMIT,
    };
    Ok(ListPlan { sort, offset, limit })
}

/// `list`, once the issues of the repository were fetched (`Some`) or the fetch failed
/// (`None`): invalid parameters are an invalid-parameters error; a failed fetch is an empty,
/// stale result; otherwise the issues are filtered, sorted and paginated by the plan.
pub fn handle_list(params: &ListParams, fetched: Option<&[Issue]>) -> (r: Result<ListResult, ToolError>)
    ensures
        match r {
            Err(e) => e.code == crate::error::ToolErrorCode::InvalidParams && list_params_error(
                *params,
            ) == Some(e.message@),
            Ok(res) => list_params_error(*params) is None && match fetched {
                None => res.stale && res.total == 0 && res.issues@.len() == 0,
                Some(issues) => !res.stale && exists|rows: Seq<ListRow>, order: Seq<int>|
                    #[trigger] list_rows_of(rows, issues@) && #[trigger] permutes(
                        order,
                        matching_indices(rows, *params),
                    ) && res.total == order.len() && sorted_by(
                        rows,
                        order,
                        sort_named(filter_of(params.sort))->0,
                    ) && page_of(
                        res.issues@,
                        rows,
                        order,
                        (match params.offset {
                            Some(o) => o,
                            None => 0,
                        }) as nat,
                        (match params.limit {
                            Some(l) => l,
                            None => DEFAULT_LIMIT,
                        }) as nat,
                    ),
            },
        },
{
    let plan = match plan_list(params) {
        Ok(p) => p,
        Err(e) => return Err(e),
    };
    match fetched {
        None => Ok(ListResult { issues: Vec::new(), total: 0, stale: true }),
        Some(issues) => {
            let rows = build_list_rows(issues);
            let (page, total) = filter_sort_paginate(&rows, params, plan.sort, plan.offset, plan.limit);
            assert(list_rows_of(rows@, issues@));
            Ok(ListResult { issues: page, total, stale: false })
        },
    }
}

/// Whether `rows` holds, in order, the listed fields of `issues`.
pub open spec fn list_rows_of(rows: Seq<ListRow>, issues: Seq<Issue>) -> bool {
    &&& rows.len() == issues.len()
    &&& forall|i: int| 0 <= i < rows.len() ==> is_row_of(#[trigger] rows[i], issues[i])
}

} // verus!
