//! `ready`: the unblocked work, filtered for the caller, and the cross-repo blockers behind it.
//!
//! The ready set is narrowed by the optional type, priority and label filters (ASCII case
//! ignored) and the milestone and agent filters (exact); an issue deferred past today, or one
//! already in progress (unless claimed issues are asked for), is left out; at most `limit`
//! issues (default 10) are returned. The trailer lists, sorted and once each, the cross-repo
//! issues that block a local issue that would otherwise be ready.
use vstd::prelude::*;

use crate::cross_repo::{
    is_local, qid_display, strictly_sorted, CrossRepoRefs, QualifiedId, SortedStrings,
};
use crate::error::strings_view;
use crate::list::{copy_opt, copy_strings, filter_of, is_set, normalize_filter};
use crate::model::{
    date_le, has_open_blocker, open_in, opt_date_display, opt_date_text, priority_text, qkey,
    rfc3339, rfc3339_text, status_text, CivilDate, DepGraph, Issue, IssueState, IssueSummary,
    Status,
};
use crate::text::{chars_eq, chars_eq_ignore_ascii_case, chars_of, eq_ignore_ascii_case, trim};

verus! {

/// The number of issues returned when `limit` is absent.
pub const DEFAULT_LIMIT: usize = 10;

/// The parameters of `ready`.
#[derive(Debug, Clone, PartialEq, Eq)]
pub struct ReadyParams {
    pub limit: Option<usize>,
    pub issue_type: Option<String>,
    pub priority: Option<String>,
    pub milestone: Option<String>,
    pub agent: Option<String>,
    pub label: Option<String>,
    pub include_claimed: Option<bool>,
}

/// One ready issue.
#[derive(Debug, Clone, PartialEq, Eq)]
pub struct ReadyIssueSummary {
    pub number: u64,
    pub title: String,
    pub issue_type: Option<String>,
    pub status: String,
    pub priority: String,
    pub agent: Option<String>,
    pub milestone: Option<String>,
    pub story_points: Option<i32>,
    /// `YYYY-MM-DD`.
    pub defer_until: Option<String>,
    pub labels: Vec<String>,
    /// RFC 3339.
    pub created_at: String,
    pub url: String,
}

/// The result of `ready`.
#[derive(Debug, Clone, PartialEq, Eq)]
pub struct ReadyResult {
    pub issues: Vec<ReadyIssueSummary>,
    pub count: usize,
    /// Whether the cache could not answer.
    pub stale: bool,
    pub cross_repo_refs: Option<CrossRepoRefs>,
}

/// Whether `r` is the listed form of `s`.
pub open spec fn ready_summary_of(r: ReadyIssueSummary, s: IssueSummary) -> bool {
    &&& r.number == s.number
    &&& r.title == s.title
    &&& r.issue_type == s.issue_type
    &&& r.status@ == status_text(s.status)
    &&& r.priority@ == priority_text(s.priority)
    &&& r.agent == s.agent
    &&& r.milestone == s.milestone
    &&& r.story_points == s.story_points
    &&& crate::error::opt_view(r.defer_until) == opt_date_text(s.defer_until)
    &&& r.labels@ == s.labels@
    &&& r.created_at@ == rfc3339_text(s.created_at.secs, s.created_at.nanos)
    &&& r.url == s.url
}

impl ReadyIssueSummary {
    /// The listed form of `summary`.
    pub fn from_core(summary: &IssueSummary) -> (r: ReadyIssueSummary)
        ensures
            ready_summary_of(r, *summary),
    {
        ReadyIssueSummary {
            number: summary.number,
            title: summary.title.clone(),
            issue_type: copy_opt(&summary.issue_type),
            status: summary.status.text(),
            priority: summary.priority.text(),
            agent: copy_opt(&summary.agent),
            milestone: copy_opt(&summary.milestone),
            story_points: summary.story_points,
            defer_until: opt_date_display(summary.defer_until),
            labels: copy_strings(&summary.labels),
            created_at: rfc3339(summary.created_at),
            url: summary.url.clone(),
        }
    }
}

// ------------------------------------------------------------------------------------------
// Filtering
// ------------------------------------------------------------------------------------------

/// Whether `s` passes the filters of `p` on `today`.
pub open spec fn passes(s: IssueSummary, p: ReadyParams, today: CivilDate) -> bool {
    &&& filter_of(p.issue_type) matches Some(f) ==> (s.issue_type matches Some(t)
        && eq_ignore_ascii_case(t@, f))
    &&& filter_of(p.priority) matches Some(f) ==> eq_ignore_ascii_case(priority_text(s.priority), f)
    &&& filter_of(p.milestone) matches Some(f) ==> (s.milestone matches Some(m) && m@ == f)
    &&& filter_of(p.agent) matches Some(f) ==> (s.agent matches Some(a) && a@ == f)
    &&& filter_of(p.label) matches Some(f) ==> exists|i: int|
        0 <= i < s.labels@.len() && eq_ignore_ascii_case(#[trigger] s.labels@[i]@, f)
    &&& s.defer_until matches Some(d) ==> date_le(d, today)
    &&& (p.include_claimed == Some(true) || s.status != Status::InProgress)
}

/// The summaries of `ready` that pass, in order.
pub open spec fn passing(ready: Seq<IssueSummary>, p: ReadyParams, today: CivilDate) -> Seq<IssueSummary>
    decreases ready.len(),
{
    if ready.len() == 0 {
        seq![]
    } else {
        let prev = passing(ready.drop_last(), p, today);
        if passes(ready.last(), p, today) {
            prev.push(ready.last())
        } else {
            prev
        }
    }
}

/// The page `ready` returns of the ready set on `today`: the first `limit` passing summaries.
pub open spec fn ready_page(out: Seq<ReadyIssueSummary>, ready: Seq<IssueSummary>, p: ReadyParams, today: CivilDate) -> bool {
    let all = passing(ready, p, today);
    let limit = match p.limit {
        Some(l) => l as nat,
        None => DEFAULT_LIMIT as nat,
    };
    &&& out.len() == (if all.len() < limit {
        all.len()
    } else {
        limit
    })
    &&& forall|k: int| 0 <= k < out.len() ==> ready_summary_of(#[trigger] out[k], all[k])
}

/// A blank filter string filters exactly as an absent one: the ready page depends on the filter
/// parameters only through their normalized values (`filter_of`), so two parameter sets that
/// normalize alike, with the same limit and claim setting, select the same page.
pub proof fn lemma_ready_filters_normalize(
    ready: Seq<IssueSummary>,
    p: ReadyParams,
    q: ReadyParams,
    today: CivilDate,
    out: Seq<ReadyIssueSummary>,
)
    requires
        filter_of(p.issue_type) == filter_of(q.issue_type),
        filter_of(p.priority) == filter_of(q.priority),
        filter_of(p.milestone) == filter_of(q.milestone),
        filter_of(p.agent) == filter_of(q.agent),
        filter_of(p.label) == filter_of(q.label),
        p.limit == q.limit,
        p.include_claimed == q.include_claimed,
    ensures
        passing(ready, p, today) == passing(ready, q, today),
        ready_page(out, ready, p, today) == ready_page(out, ready, q, today),
    decreases ready.len(),
{
    if ready.len() > 0 {
        lemma_ready_filters_normalize(ready.drop_last(), p, q, today, out);
        assert(passes(ready.last(), p, today) == passes(ready.last(), q, today));
    }
}

/// The normalized filters of `ready`.
struct ReadyFilters {
    issue_type: Option<Vec<char>>,
    priority: Option<Vec<char>>,
    milestone: Option<Vec<char>>,
    agent: Option<Vec<char>>,
    label: Option<Vec<char>>,
}

spec fn fview(o: Option<Vec<char>>) -> Option<Seq<char>> {
    match o {
        Some(v) => Some(v@),
        None => None,
    }
}

fn opt_text_is(t: &Option<String>, f: &Option<Vec<char>>, ignore_case: bool) -> (r: bool)
    ensures
        r == (fview(*f) matches Some(x) ==> (t matches Some(s) && (if ignore_case {
            eq_ignore_ascii_case(s@, x)
        } else {
            s@ == x
        }))),
{
    match f {
        None => true,
        Some(x) => match t {
            None => false,
            Some(s) => {
                let c = chars_of(s.as_str());
                if ignore_case {
                    chars_eq_ignore_ascii_case(&c, x)
                } else {
                    chars_eq(&c, x)
                }
            },
        },
    }
}

fn passes_filters(s: &IssueSummary, f: &ReadyFilters, include_claimed: bool, today: CivilDate, Ghost(p): Ghost<ReadyParams>) -> (r: bool)
    requires
        fview(f.issue_type) == filter_of(p.issue_type),
        fview(f.priority) == filter_of(p.priority),
        fview(f.milestone) == filter_of(p.milestone),
        fview(f.agent) == filter_of(p.agent),
        fview(f.label) == filter_of(p.label),
        include_claimed == (p.include_claimed == Some(true)),
    ensures
        r == passes(*s, p, today),
{
    if !opt_text_is(&s.issue_type, &f.issue_type, true) {
        return false;
    }
    if let Some(x) = &f.priority {
        let pt = s.priority.text();
        if !chars_eq_ignore_ascii_case(&chars_of(pt.as_str()), x) {
            return false;
        }
    }
    if !opt_text_is(&s.milestone, &f.milestone, false) {
        return false;
    }
    if !opt_text_is(&s.agent, &f.agent, false) {
        return false;
    }
    if let Some(x) = &f.label {
        let mut i: usize = 0;
        let mut hit = false;
        while i < s.labels.len()
            invariant
                0 <= i <= s.labels@.len(),
                hit == exists|j: int| 0 <= j < i && eq_ignore_ascii_case(#[trigger] s.labels@[j]@, x@),
            decreases s.labels@.len() - i,
        {
            if !hit && chars_eq_ignore_ascii_case(&chars_of(s.labels[i].as_str()), x) {
                hit = true;
            }
            i = i + 1;
        }
        if !hit {
            return false;
        }
    }
    if let Some(d) = s.defer_until {
        if !crate::model::date_on_or_before(d, today) {
            return false;
        }
    }
    let in_progress = match s.status {
        Status::InProgress => true,
        _ => false,
    };
    include_claimed || !in_progress
}

proof fn lemma_passing_members(ready: Seq<IssueSummary>, p: ReadyParams, today: CivilDate)
    ensures
        forall|k: int|
            0 <= k < passing(ready, p, today).len() ==> passes(#[trigger] passing(ready, p, today)[k], p, today)
                && ready.contains(passing(ready, p, today)[k]),
    decreases ready.len(),
{
    if ready.len() > 0 {
        let prev = ready.drop_last();
        lemma_passing_members(prev, p, today);
        assert forall|k: int| 0 <= k < passing(ready, p, today).len() implies passes(
            #[trigger] passing(ready, p, today)[k],
            p,
            today,
        ) && ready.contains(passing(ready, p, today)[k]) by {
            let x = passing(ready, p, today)[k];
            if k < passing(prev, p, today).len() {
                assert(x == passing(prev, p, today)[k]);
                assert(prev.contains(x));
                let j = choose|j: int| 0 <= j < prev.len() && prev[j] == x;
                assert(ready[j] == x);
            } else {
                assert(x == ready.last());
                assert(ready[ready.len() - 1] == x);
            }
        }
    }
}

/// Whether `r` lists one of the summaries of `ready` that is due on `today` (not deferred past
/// it) and, unless claimed issues are included, not in progress.
pub open spec fn lists_due_ready_issue(r: ReadyIssueSummary, ready: Seq<IssueSummary>, p: ReadyParams, today: CivilDate) -> bool {
    exists|j: int|
        0 <= j < ready.len() && ready_summary_of(r, #[trigger] ready[j]) && (ready[j].defer_until matches Some(
            d,
        ) ==> date_le(d, today)) && (p.include_claimed != Some(true) ==> ready[j].status != Status::InProgress)
}

/// Every issue the ready page returns comes from the ready set and meets each filter that is
/// set (a filter is set when it holds a non-blank text): the milestone and the agent exactly,
/// the type, the priority and one label regardless of ASCII case. An issue without a milestone
/// (agent, type) never passes a milestone (agent, type) filter.
pub proof fn lemma_ready_page_meets_filters(
    out: Seq<ReadyIssueSummary>,
    ready: Seq<IssueSummary>,
    p: ReadyParams,
    today: CivilDate,
    k: int,
)
    requires
        ready_page(out, ready, p, today),
        0 <= k < out.len(),
    ensures
        lists_due_ready_issue(out[k], ready, p, today),
        p.milestone is Some && trim(p.milestone->0@).len() > 0 ==> (out[k].milestone matches Some(m) && m@
            == p.milestone->0@),
        p.agent is Some && trim(p.agent->0@).len() > 0 ==> (out[k].agent matches Some(a) && a@
            == p.agent->0@),
        p.issue_type is Some && trim(p.issue_type->0@).len() > 0 ==> (out[k].issue_type matches Some(t)
            && eq_ignore_ascii_case(t@, p.issue_type->0@)),
        p.priority is Some && trim(p.priority->0@).len() > 0 ==> eq_ignore_ascii_case(
            out[k].priority@,
            p.priority->0@,
        ),
        p.label is Some && trim(p.label->0@).len() > 0 ==> exists|i: int|
            0 <= i < out[k].labels@.len() && eq_ignore_ascii_case(#[trigger] out[k].labels@[i]@, p.label->0@),
{
    lemma_passing_members(ready, p, today);
    let all = passing(ready, p, today);
    let s = all[k];
    assert(ready_summary_of(out[k], s));
    assert(passes(s, p, today));
    assert(ready.contains(s));
    let j = choose|j: int| 0 <= j < ready.len() && ready[j] == s;
    assert(ready_summary_of(out[k], ready[j]));
    if p.label is Some && trim(p.label->0@).len() > 0 {
        let f = p.label->0@;
        assert(filter_of(p.label) == Some(f));
        let i = choose|i: int| 0 <= i < s.labels@.len() && eq_ignore_ascii_case(#[trigger] s.labels@[i]@, f);
        assert(out[k].labels@[i] == s.labels@[i]);
    }
}

proof fn lemma_passing_contains(ready: Seq<IssueSummary>, p: ReadyParams, today: CivilDate, j: int)
    requires
        0 <= j < ready.len(),
        passes(ready[j], p, today),
    ensures
        passing(ready, p, today).contains(ready[j]),
    decreases ready.len(),
{
    let prev = ready.drop_last();
    if j < ready.len() - 1 {
        assert(prev[j] == ready[j]);
        lemma_passing_contains(prev, p, today, j);
        let k = choose|k: int| 0 <= k < passing(prev, p, today).len() && passing(prev, p, today)[k] == ready[j];
        if passes(ready.last(), p, today) {
            assert(passing(ready, p, today)[k] == ready[j]);
        }
    } else {
        let n = passing(prev, p, today).len() as int;
        assert(passing(ready, p, today)[n] == ready[j]);
    }
}

/// A page shorter than its limit holds every issue of the ready set that is due on `today`,
/// not in progress (unless claimed issues are included) and meets each filter that is set.
pub proof fn lemma_short_ready_page_is_complete(
    out: Seq<ReadyIssueSummary>,
    ready: Seq<IssueSummary>,
    p: ReadyParams,
    today: CivilDate,
    j: int,
)
    requires
        ready_page(out, ready, p, today),
        out.len() < match p.limit {
            Some(l) => l as nat,
            None => DEFAULT_LIMIT as nat,
        },
        0 <= j < ready.len(),
        ready[j].defer_until matches Some(d) ==> date_le(d, today),
        p.include_claimed != Some(true) ==> ready[j].status != Status::InProgress,
        is_set(p.milestone) ==> (ready[j].milestone is Some && ready[j].milestone->0@ == p.milestone->0@),
        is_set(p.agent) ==> (ready[j].agent is Some && ready[j].agent->0@ == p.agent->0@),
        is_set(p.issue_type) ==> (ready[j].issue_type is Some && eq_ignore_ascii_case(
            ready[j].issue_type->0@,
            p.issue_type->0@,
        )),
        is_set(p.priority) ==> eq_ignore_ascii_case(priority_text(ready[j].priority), p.priority->0@),
        is_set(p.label) ==> exists|l: int|
            0 <= l < ready[j].labels@.len() && eq_ignore_ascii_case(#[trigger] ready[j].labels@[l]@, p.label->0@),
    ensures
        exists|k: int| 0 <= k < out.len() && ready_summary_of(#[trigger] out[k], ready[j]),
{
    assert(passes(ready[j], p, today));
    lemma_passing_contains(ready, p, today, j);
    let all = passing(ready, p, today);
    let k = choose|k: int| 0 <= k < all.len() && all[k] == ready[j];
    assert(ready_summary_of(out[k], all[k]));
}

/// The first `limit` summaries of `ready_set` that pass the filters of `params` on `today`.
pub fn filter_ready_set_on(ready_set: &[IssueSummary], params: &ReadyParams, today: CivilDate) -> (r: Vec<
    ReadyIssueSummary,
>)
    ensures
        ready_page(r@, ready_set@, *params, today),
{
    let include_claimed = match params.include_claimed {
        Some(b) => b,
        None => false,
    };
    let limit = match params.limit {
        Some(l) => l,
        None => DEFAULT_LIMIT,
    };
    let f = ReadyFilters {
        issue_type: normalize_filter(&params.issue_type),
        priority: normalize_filter(&params.priority),
        milestone: normalize_filter(&params.milestone),
        agent: normalize_filter(&params.agent),
        label: normalize_filter(&params.label),
    };
    let ghost all = passing(ready_set@, *params, today);
    let mut out: Vec<ReadyIssueSummary> = Vec::new();
    let mut i: usize = 0;
    while i < ready_set.len() && out.len() < limit
        invariant
            0 <= i <= ready_set@.len(),
            fview(f.issue_type) == filter_of(params.issue_type),
            fview(f.priority) == filter_of(params.priority),
            fview(f.milestone) == filter_of(params.milestone),
            fview(f.agent) == filter_of(params.agent),
            fview(f.label) == filter_of(params.label),
            include_claimed == (params.include_claimed == Some(true)),
            limit == (match params.limit {
                Some(l) => l,
                None => DEFAULT_LIMIT,
            }),
            out@.len() == passing(ready_set@.take(i as int), *params, today).len(),
            out@.len() <= limit,
            forall|k: int|
                0 <= k < out@.len() ==> ready_summary_of(
                    #[trigger] out@[k],
                    passing(ready_set@.take(i as int), *params, today)[k],
                ),
        decreases ready_set@.len() - i,
    {
        assert(ready_set@.take(i + 1).drop_last() =~= ready_set@.take(i as int));
        assert(ready_set@.take(i + 1).last() == ready_set@[i as int]);
        if passes_filters(&ready_set[i], &f, include_claimed, today, Ghost(*params)) {
            out.push(ReadyIssueSummary::from_core(&ready_set[i]));
        }
        i = i + 1;
    }
    proof {
        lemma_passing_prefix(ready_set@, *params, today, i as int);
        if i == ready_set@.len() {
            assert(ready_set@.take(i as int) =~= ready_set@);
        }
    }
    out
}

/// Filtering a longer prefix only adds at the end.
proof fn lemma_passing_prefix(ready: Seq<IssueSummary>, p: ReadyParams, today: CivilDate, i: int)
    requires
        0 <= i <= ready.len(),
    ensures
        passing(ready.take(i), p, today).len() <= passing(ready, p, today).len(),
        forall|k: int|
            0 <= k < passing(ready.take(i), p, today).len() ==> #[trigger] passing(ready.take(i), p, today)[k]
                == passing(ready, p, today)[k],
    decreases ready.len() - i,
{
    if i < ready.len() {
        lemma_passing_prefix(ready, p, today, i + 1);
        assert(ready.take(i + 1).drop_last() =~= ready.take(i));
        let a = passing(ready.take(i), p, today);
        let b = passing(ready.take(i + 1), p, today);
        assert(forall|k: int| 0 <= k < a.len() ==> #[trigger] a[k] == b[k]);
    } else {
        assert(ready.take(i) =~= ready);
    }
}

/// The first `limit` summaries of `ready_set` that pass the filters of `params` today, the
/// date read from the clock.
pub fn filter_ready_set(ready_set: &[IssueSummary], params: &ReadyParams) -> (r: Vec<ReadyIssueSummary>)
    ensures
        exists|today: CivilDate| #[trigger] ready_page(r@, ready_set@, *params, today),
{
    let today = crate::model::utc_today();
    let r = filter_ready_set_on(ready_set, params, today);
    assert(ready_page(r@, ready_set@, *params, today));
    r
}

// ------------------------------------------------------------------------------------------
// Cross-repo blockers
// ------------------------------------------------------------------------------------------

/// Whether edge `k` of `g` makes `q` wait on an open blocker outside `owner/repo`.
pub open spec fn cross_blocker_edge(g: DepGraph, q: QualifiedId, k: int, owner: Seq<char>, repo: Seq<char>) -> bool {
    &&& 0 <= k < g.edges@.len()
    &&& qkey(g.edges@[k].source) == qkey(q)
    &&& open_in(g, g.edges@[k].target)
    &&& !is_local(g.edges@[k].target, owner, repo)
}

/// The display texts of the open cross-repo blockers of `q`, in edge order.
pub open spec fn cross_blockers(g: DepGraph, q: QualifiedId, owner: Seq<char>, repo: Seq<char>, n: nat) -> Seq<Seq<char>>
    decreases n,
{
    if n == 0 || n > g.edges@.len() {
        seq![]
    } else {
        let prev = cross_blockers(g, q, owner, repo, (n - 1) as nat);
        if cross_blocker_edge(g, q, n - 1, owner, repo) {
            prev.push(qid_display(g.edges@[n - 1].target))
        } else {
            prev
        }
    }
}

/// Whether `q` has an open blocker, and the display texts of its open cross-repo blockers.
pub fn classify_ready_blockers(q: &QualifiedId, graph: &DepGraph, configured_owner: &str, configured_repo: &str) -> (r: (bool, Vec<String>))
    ensures
        r.0 == has_open_blocker(*graph, *q),
        strings_view(r.1) == cross_blockers(
            *graph,
            *q,
            configured_owner@,
            configured_repo@,
            graph.edges@.len(),
        ),
{
    let mut any_open = false;
    let mut cross: Vec<String> = Vec::new();
    let mut k: usize = 0;
    while k < graph.edges.len()
        invariant
            0 <= k <= graph.edges@.len(),
            any_open == exists|j: int|
                0 <= j < k && qkey(#[trigger] graph.edges@[j].source) == qkey(*q) && open_in(
                    *graph,
                    graph.edges@[j].target,
                ),
            strings_view(cross) == cross_blockers(*graph, *q, configured_owner@, configured_repo@, k as nat),
        decreases graph.edges@.len() - k,
    {
        let e = &graph.edges[k];
        if crate::model::same_qid(&e.source, q) && graph.is_open(&e.target) {
            any_open = true;
            if !e.target.is_in(configured_owner, configured_repo) {
                let ghost prev = strings_view(cross);
                cross.push(e.target.to_string());
                assert(strings_view(cross) =~= prev.push(qid_display(e.target)));
            }
        }
        k = k + 1;
    }
    (any_open, cross)
}

/// Whether `i` is a local, open issue that would be ready but for its blockers.
pub open spec fn ready_candidate(i: Issue, owner: Seq<char>, repo: Seq<char>) -> bool {
    &&& i.state != IssueState::Closed
    &&& (i.status == Status::Ready || i.status == Status::Blocked)
    &&& is_local(i.qualified_id, owner, repo)
}

/// The display texts of the open cross-repo issues that block a ready candidate.
pub open spec fn ready_cross_texts(issues: Seq<Issue>, g: DepGraph, owner: Seq<char>, repo: Seq<char>) -> Set<Seq<char>> {
    Set::new(
        |t: Seq<char>|
            exists|i: int, k: int|
                0 <= i < issues.len() && ready_candidate(#[trigger] issues[i], owner, repo)
                    && #[trigger] cross_blocker_edge(g, issues[i].qualified_id, k, owner, repo)
                    && qid_display(g.edges@[k].target) == t,
    )
}

/// `r` is the ready trailer of the cross-repo texts `set`: `None` exactly when the set is
/// empty, otherwise the sorted listing of the set and the ready summary line for its size.
pub open spec fn ready_refs_of(r: Option<CrossRepoRefs>, set: Set<Seq<char>>) -> bool {
    &&& (r is None <==> set == Set::<Seq<char>>::empty())
    &&& r matches Some(refs) ==> {
        &&& strictly_sorted(strings_view(refs.omitted))
        &&& strings_view(refs.omitted).to_set() == set
        &&& refs.summary matches Some(s) && s@ == crate::cross_repo::ready_summary_text(
            refs.omitted@.len(),
        )
    }
}

proof fn lemma_cross_blockers(g: DepGraph, q: QualifiedId, owner: Seq<char>, repo: Seq<char>, n: nat)
    requires
        n <= g.edges@.len(),
    ensures
        forall|t: Seq<char>|
            #[trigger] cross_blockers(g, q, owner, repo, n).contains(t) <==> exists|k: int|
                0 <= k < n && #[trigger] cross_blocker_edge(g, q, k, owner, repo) && qid_display(
                    g.edges@[k].target,
                ) == t,
    decreases n,
{
    if n > 0 {
        lemma_cross_blockers(g, q, owner, repo, (n - 1) as nat);
        let prev = cross_blockers(g, q, owner, repo, (n - 1) as nat);
        let cur = cross_blockers(g, q, owner, repo, n);
        assert forall|t: Seq<char>| #[trigger] cur.contains(t) <==> exists|k: int|
            0 <= k < n && #[trigger] cross_blocker_edge(g, q, k, owner, repo) && qid_display(
                g.edges@[k].target,
            ) == t by {
            if cur.contains(t) {
                let m = choose|m: int| 0 <= m < cur.len() && cur[m] == t;
                if m < prev.len() {
                    assert(prev[m] == t);
                    assert(prev.contains(t));
                }
            }
            if exists|k: int|
                0 <= k < n && #[trigger] cross_blocker_edge(g, q, k, owner, repo) && qid_display(
                    g.edges@[k].target,
                ) == t {
                let k = choose|k: int|
                    0 <= k < n && #[trigger] cross_blocker_edge(g, q, k, owner, repo) && qid_display(
                        g.edges@[k].target,
                    ) == t;
                if k < n - 1 {
                    assert(prev.contains(t));
                    let m = choose|m: int| 0 <= m < prev.len() && prev[m] == t;
                    assert(cur[m] == t);
                } else {
                    assert(cur[cur.len() - 1] == t);
                }
            }
        }
    }
}

/// The cross-repo trailer of `ready`: the open cross-repo issues that block a local issue that
/// is open and neither in progress, deferred nor closed.
pub fn compute_cross_repo_refs(issues: &[Issue], graph: &DepGraph, configured_owner: &str, configured_repo: &str) -> (r: Option<
    CrossRepoRefs,
>)
    ensures
        ready_refs_of(r, ready_cross_texts(issues@, *graph, configured_owner@, configured_repo@)),
{
    let ghost o = configured_owner@;
    let ghost rp = configured_repo@;
    let mut accum = SortedStrings::new();
    let mut i: usize = 0;
    while i < issues.len()
        invariant
            0 <= i <= issues@.len(),
            o == configured_owner@,
            rp == configured_repo@,
            accum.members() == Set::new(
                |t: Seq<char>|
                    exists|x: int, k: int|
                        0 <= x < i && ready_candidate(#[trigger] issues@[x], o, rp)
                            && #[trigger] cross_blocker_edge(*graph, issues@[x].qualified_id, k, o, rp)
                            && qid_display(graph.edges@[k].target) == t,
            ),
        decreases issues@.len() - i,
    {
        let issue = &issues[i];
        let ghost before = accum.members();
        let open_state = match issue.state {
            IssueState::Closed => false,
            IssueState::Open => true,
        };
        let eligible_status = match issue.status {
            Status::Ready => true,
            Status::Blocked => true,
            _ => false,
        };
        let eligible = open_state && eligible_status && issue.qualified_id.is_in(
            configured_owner,
            configured_repo,
        );
        if eligible {
            let (any_open, cross) = classify_ready_blockers(
                &issue.qualified_id,
                graph,
                configured_owner,
                configured_repo,
            );
            proof {
                lemma_cross_blockers(*graph, issue.qualified_id, o, rp, graph.edges@.len());
            }
            if any_open {
                let mut c: usize = 0;
                while c < cross.len()
                    invariant
                        0 <= c <= cross@.len(),
                        accum.members() == before.union(
                            strings_view(cross).take(c as int).to_set(),
                        ),
                    decreases cross@.len() - c,
                {
                    let ghost b2 = accum.members();
                    accum.insert(cross[c].clone());
                    proof {
                        let sv = strings_view(cross);
                        assert(sv.take(c + 1) =~= sv.take(c as int).push(sv[c as int]));
                        assert(sv.take(c + 1).to_set() =~= sv.take(c as int).to_set().insert(sv[c as int])) by {
                            let a = sv.take(c as int);
                            assert forall|x: Seq<char>| a.push(sv[c as int]).to_set().contains(x) implies a.to_set().insert(sv[c as int]).contains(x) by {
                                let m = choose|m: int| 0 <= m < a.push(sv[c as int]).len() && a.push(sv[c as int])[m] == x;
                                if m < a.len() {
                                    assert(a[m] == x);
                                }
                            }
                            assert forall|x: Seq<char>| a.to_set().insert(sv[c as int]).contains(x) implies a.push(sv[c as int]).to_set().contains(x) by {
                                if x == sv[c as int] {
                                    assert(a.push(sv[c as int])[a.len() as int] == x);
                                } else {
                                    let m = choose|m: int| 0 <= m < a.len() && a[m] == x;
                                    assert(a.push(sv[c as int])[m] == x);
                                }
                            }
                        }
                        assert(accum.members() =~= before.union(sv.take(c + 1).to_set()));
                    }
                    c = c + 1;
                }
                proof {
                    let sv = strings_view(cross);
                    assert(sv.take(sv.len() as int) =~= sv);
                }
            }
            proof {
                let sv = strings_view(cross);
                let next = Set::new(
                    |t: Seq<char>|
                        exists|x: int, k: int|
                            0 <= x < i + 1 && ready_candidate(#[trigger] issues@[x], o, rp)
                                && #[trigger] cross_blocker_edge(*graph, issues@[x].qualified_id, k, o, rp)
                                && qid_display(graph.edges@[k].target) == t,
                );
                assert forall|t: Seq<char>| #[trigger] next.contains(t) == accum.members().contains(t) by {
                    if next.contains(t) {
                        let (x, k) = choose|x: int, k: int|
                            0 <= x < i + 1 && ready_candidate(#[trigger] issues@[x], o, rp)
                                && #[trigger] cross_blocker_edge(*graph, issues@[x].qualified_id, k, o, rp)
                                && qid_display(graph.edges@[k].target) == t;
                        if x == i {
                            assert(sv.contains(t));
                            assert(any_open);
                        } else {
                            assert(before.contains(t));
                        }
                    }
                    if accum.members().contains(t) && !before.contains(t) {
                        assert(sv.contains(t));
                        let k = choose|k: int|
                            0 <= k < graph.edges@.len() && #[trigger] cross_blocker_edge(
                                *graph,
                                issue.qualified_id,
                                k,
                                o,
                                rp,
                            ) && qid_display(graph.edges@[k].target) == t;
                        assert(ready_candidate(issues@[i as int], o, rp));
                    }
                }
                assert(next =~= accum.members());
            }
        } else {
            proof {
                let next = Set::new(
                    |t: Seq<char>|
                        exists|x: int, k: int|
                            0 <= x < i + 1 && ready_candidate(#[trigger] issues@[x], o, rp)
                                && #[trigger] cross_blocker_edge(*graph, issues@[x].qualified_id, k, o, rp)
                                && qid_display(graph.edges@[k].target) == t,
                );
                assert(!ready_candidate(issues@[i as int], o, rp));
                assert(next =~= accum.members());
            }
        }
        i = i + 1;
    }
    let ghost set = accum.members();
    let ghost listing = accum.seq();
    let n_items = accum.len();
    let refs = crate::cross_repo::build_cross_repo_refs_with_summary(
        accum,
        crate::cross_repo::ready_summary,
    );
    proof {
        assert(set =~= ready_cross_texts(issues@, *graph, o, rp));
        if refs is None {
            assert(set =~= Set::<Seq<char>>::empty());
        } else {
            assert(set.contains(listing[0]));
            assert(set != Set::<Seq<char>>::empty());
            let sm = refs->0.summary->0;
            assert(call_ensures(crate::cross_repo::ready_summary, (listing.len() as usize,), sm));
            assert(n_items as nat == listing.len());
        }
    }
    refs
}

// ------------------------------------------------------------------------------------------
// The answer
// ------------------------------------------------------------------------------------------

/// `ready`, answered from what the cache holds: the ready set and, when both are there, the
/// issues and the graph behind it. With the ready set and the snapshot the answer carries the
/// cross-repo trailer; with the ready set alone it does not; without the ready set it is an
/// empty, stale answer.
pub fn ready_from_cache(
    params: &ReadyParams,
    ready_set: Option<&[IssueSummary]>,
    snapshot: Option<(&[Issue], &DepGraph)>,
    configured_owner: &str,
    configured_repo: &str,
) -> (r: ReadyResult)
    ensures
        r.count == r.issues@.len(),
        match ready_set {
            None => r.stale && r.issues@.len() == 0 && r.cross_repo_refs is None,
            Some(rs) => !r.stale && (exists|today: CivilDate| #[trigger] ready_page(r.issues@, rs@, *params, today))
                && match snapshot {
                Some((issues, graph)) => ready_refs_of(
                    r.cross_repo_refs,
                    ready_cross_texts(issues@, *graph, configured_owner@, configured_repo@),
                ),
                None => r.cross_repo_refs is None,
            },
        },
{
    match ready_set {
        None => ReadyResult { issues: Vec::new(), count: 0, stale: true, cross_repo_refs: None },
        Some(rs) => {
            let refs = match snapshot {
                Some((issues, graph)) => compute_cross_repo_refs(
                    issues,
                    graph,
                    configured_owner,
                    configured_repo,
                ),
                None => None,
            };
            let filtered = filter_ready_set(rs, params);
            let count = filtered.len();
            ReadyResult { issues: filtered, count, stale: false, cross_repo_refs: refs }
        },
    }
}

} // verus!
