//! `prime`: the session-start markdown context.
//!
//! The issues are categorised (in progress, ready, blocked, recently completed, hotspots, stale
//! claims), the agent filter narrows the agent-scoped categories, every list is capped at
//! `max_per_category`, and the renderer writes the sections in a fixed order: header, counts,
//! the category lists, cycles, session, drift warnings, and the cross-repo trailer. An empty
//! section is left out entirely.
use vstd::prelude::*;

use crate::cross_repo::{qid_display, CrossRepoRefs, QualifiedId};
use crate::error::{opt_view, strings_view, ToolError, ToolErrorCode};
use crate::json::JsonValue;
use crate::list::{copy_opt, copy_strings};
use crate::model::{
    copy_qid, has_open_blocker, has_open_blockers, open_in, opt_date_display, opt_date_text, priority_rank,
    priority_text, qkey, rfc3339, rfc3339_text, status_text, ts_lt, CivilDate, DepGraph, Issue,
    IssueState, IssueSummary, Priority, Status, Timestamp,
};
use crate::sorting::{stable_order, stably_sorts, Ranked};
use crate::text::{
    decimal, lemma_str_lt_irreflexive, lemma_str_lt_total, lemma_str_lt_transitive, push_all,
    push_decimal, push_str, str_lt, string_of,
};

verus! {

/// The smallest accepted `stale_threshold_hours`.
pub const MIN_STALE_THRESHOLD_HOURS: u64 = 1;

/// The smallest accepted `max_per_category`.
pub const MIN_MAX_PER_CATEGORY: usize = 1;

/// The stale threshold when none is given.
pub const DEFAULT_STALE_THRESHOLD_HOURS: u64 = 24;

/// The per-category cap when none is given.
pub const DEFAULT_MAX_PER_CATEGORY: usize = 10;

/// The parameters of `prime`.
#[derive(Debug, Clone, PartialEq, Eq)]
pub struct PrimeParams {
    /// Hours without activity before a claim is stale (at least 1; default 24).
    pub stale_threshold_hours: Option<u64>,
    /// The most items listed per category (at least 1; default 10).
    pub max_per_category: Option<usize>,
    /// Only this agent's in-progress, ready, blocked and stale issues.
    pub agent: Option<String>,
}

/// The result of `prime`: one markdown blob.
#[derive(Debug, Clone, PartialEq, Eq)]
pub struct PrimeResult {
    pub context: String,
}

// ------------------------------------------------------------------------------------------
// Parameters
// ------------------------------------------------------------------------------------------

/// The error `prime` answers its parameters with, if any.
pub open spec fn prime_params_error(p: PrimeParams) -> Option<Seq<char>> {
    if p.stale_threshold_hours matches Some(h) && h < MIN_STALE_THRESHOLD_HOURS {
        Some("stale_threshold_hours must be at least 1, got "@ + decimal(
            p.stale_threshold_hours->0 as nat,
        ))
    } else if p.max_per_category matches Some(m) && m < MIN_MAX_PER_CATEGORY {
        Some("max_per_category must be at least 1, got "@ + decimal(p.max_per_category->0 as nat))
    } else {
        None
    }
}

/// Validate the parameters and resolve their defaults: `(stale_threshold_hours,
/// max_per_category)`.
pub fn validate_and_resolve_params(params: &PrimeParams) -> (r: Result<(u64, usize), ToolError>)
    ensures
        match r {
            Ok((h, m)) => prime_params_error(*params) is None && h == (match params.stale_threshold_hours {
                Some(h) => h,
                None => DEFAULT_STALE_THRESHOLD_HOURS,
            }) && m == (match params.max_per_category {
                Some(m) => m,
                None => DEFAULT_MAX_PER_CATEGORY,
            }),
            Err(e) => e.code == ToolErrorCode::InvalidParams && prime_params_error(*params) == Some(
                e.message@,
            ),
        },
{
    if let Some(hours) = params.stale_threshold_hours {
        if hours < MIN_STALE_THRESHOLD_HOURS {
            let mut m: Vec<char> = Vec::new();
            push_str(&mut m, "stale_threshold_hours must be at least 1, got ");
            push_decimal(&mut m, hours);
            return Err(ToolError::invalid_params(&m));
        }
    }
    if let Some(max) = params.max_per_category {
        if max < MIN_MAX_PER_CATEGORY {
            let mut m: Vec<char> = Vec::new();
            push_str(&mut m, "max_per_category must be at least 1, got ");
            push_decimal(&mut m, max as u64);
            return Err(ToolError::invalid_params(&m));
        }
    }
    let h = match params.stale_threshold_hours {
        Some(h) => h,
        None => DEFAULT_STALE_THRESHOLD_HOURS,
    };
    let m = match params.max_per_category {
        Some(m) => m,
        None => DEFAULT_MAX_PER_CATEGORY,
    };
    Ok((h, m))
}

// ------------------------------------------------------------------------------------------
// Summaries
// ------------------------------------------------------------------------------------------

/// Whether `s` summarises `i`.
pub open spec fn summary_of(s: IssueSummary, i: Issue) -> bool {
    &&& s.qualified_id == i.qualified_id
    &&& s.number == i.number
    &&& s.title == i.title
    &&& s.issue_type == i.issue_type
    &&& s.status == i.status
    &&& s.priority == i.priority
    &&& s.agent == i.agent
    &&& s.milestone == i.milestone
    &&& s.story_points == i.story_points
    &&& s.defer_until == i.defer_until
    &&& s.labels@ == i.labels@
    &&& s.created_at == i.created_at
    &&& s.url == i.url
}

/// Whether two summaries hold the same values.
pub open spec fn same_summary(a: IssueSummary, b: IssueSummary) -> bool {
    &&& a.qualified_id == b.qualified_id
    &&& a.number == b.number
    &&& a.title == b.title
    &&& a.issue_type == b.issue_type
    &&& a.status == b.status
    &&& a.priority == b.priority
    &&& a.agent == b.agent
    &&& a.milestone == b.milestone
    &&& a.story_points == b.story_points
    &&& a.defer_until == b.defer_until
    &&& a.labels@ == b.labels@
    &&& a.created_at == b.created_at
    &&& a.url == b.url
}

/// The summary of `issue`.
pub fn issue_to_summary(issue: &Issue) -> (s: IssueSummary)
    ensures
        summary_of(s, *issue),
{
    IssueSummary {
        qualified_id: copy_qid(&issue.qualified_id),
        number: issue.number,
        title: issue.title.clone(),
        issue_type: copy_opt(&issue.issue_type),
        status: issue.status,
        priority: issue.priority,
        agent: copy_opt(&issue.agent),
        milestone: copy_opt(&issue.milestone),
        story_points: issue.story_points,
        defer_until: issue.defer_until,
        labels: copy_strings(&issue.labels),
        created_at: issue.created_at,
        url: issue.url.clone(),
    }
}

/// A copy of a summary.
pub fn copy_summary(s: &IssueSummary) -> (r: IssueSummary)
    ensures
        same_summary(r, *s),
{
    IssueSummary {
        qualified_id: copy_qid(&s.qualified_id),
        number: s.number,
        title: s.title.clone(),
        issue_type: copy_opt(&s.issue_type),
        status: s.status,
        priority: s.priority,
        agent: copy_opt(&s.agent),
        milestone: copy_opt(&s.milestone),
        story_points: s.story_points,
        defer_until: s.defer_until,
        labels: copy_strings(&s.labels),
        created_at: s.created_at,
        url: s.url.clone(),
    }
}

/// An issue as the prime renderer lists it.
#[derive(Debug, Clone, PartialEq, Eq)]
pub struct PrimeIssueSummary {
    pub qualified_id: String,
    pub number: u64,
    pub title: String,
    pub issue_type: Option<String>,
    pub status: String,
    pub priority: String,
    pub agent: Option<String>,
    pub milestone: Option<String>,
    pub labels: Vec<String>,
    /// RFC 3339.
    pub created_at: String,
    pub url: String,
}

/// Whether `p` is the renderer's view of `s`.
pub open spec fn prime_summary_of(p: PrimeIssueSummary, s: IssueSummary) -> bool {
    &&& p.qualified_id@ == qid_display(s.qualified_id)
    &&& p.number == s.number
    &&& p.title == s.title
    &&& p.issue_type == s.issue_type
    &&& p.status@ == status_text(s.status)
    &&& p.priority@ == priority_text(s.priority)
    &&& p.agent == s.agent
    &&& p.milestone == s.milestone
    &&& p.labels@ == s.labels@
    &&& p.created_at@ == rfc3339_text(s.created_at.secs, s.created_at.nanos)
    &&& p.url == s.url
}

impl PrimeIssueSummary {
    /// The renderer's view of `summary`.
    pub fn from_core(summary: &IssueSummary) -> (p: PrimeIssueSummary)
        ensures
            prime_summary_of(p, *summary),
    {
        PrimeIssueSummary {
            qualified_id: summary.qualified_id.to_string(),
            number: summary.number,
            title: summary.title.clone(),
            issue_type: copy_opt(&summary.issue_type),
            status: summary.status.text(),
            priority: summary.priority.text(),
            agent: copy_opt(&summary.agent),
            milestone: copy_opt(&summary.milestone),
            labels: copy_strings(&summary.labels),
            created_at: rfc3339(summary.created_at),
            url: summary.url.clone(),
        }
    }
}

/// A hotspot: an open issue that blocks others.
#[derive(Debug, Clone, PartialEq, Eq)]
pub struct HotspotSummary {
    pub qualified_id: String,
    pub number: u64,
    pub title: String,
    pub status: String,
    pub priority: String,
    /// How many blocking edges point at it.
    pub blocking_count: usize,
    pub url: String,
}

/// A stale claim: an in-progress issue claimed longer ago than the threshold.
#[derive(Debug, Clone, PartialEq, Eq)]
pub struct StaleIssueSummary {
    pub qualified_id: String,
    pub number: u64,
    pub title: String,
    pub agent: Option<String>,
    /// RFC 3339.
    pub claimed_at: String,
    pub hours_stale: u64,
    pub url: String,
}

/// A recently completed issue.
#[derive(Debug, Clone, PartialEq, Eq)]
pub struct CompletedIssueSummary {
    pub qualified_id: String,
    pub number: u64,
    pub title: String,
    pub issue_type: Option<String>,
    pub priority: String,
    /// RFC 3339 of the last update, standing in for the close time.
    pub closed_at: String,
    pub url: String,
}

/// The categorised issues.
pub struct CategorisedIssues {
    pub in_progress: Vec<IssueSummary>,
    pub ready: Vec<IssueSummary>,
    pub blocked: Vec<IssueSummary>,
    pub completed: Vec<CompletedIssueSummary>,
    pub hotspots: Vec<HotspotSummary>,
    pub stale: Vec<StaleIssueSummary>,
}

// ------------------------------------------------------------------------------------------
// The agent filter
// ------------------------------------------------------------------------------------------

/// The summaries of `v` claimed by `agent`, in order.
pub open spec fn claimed_by(v: Seq<IssueSummary>, agent: Seq<char>) -> Seq<IssueSummary>
    decreases v.len(),
{
    if v.len() == 0 {
        seq![]
    } else {
        let prev = claimed_by(v.drop_last(), agent);
        if v.last().agent matches Some(a) && a@ == agent {
            prev.push(v.last())
        } else {
            prev
        }
    }
}

/// The stale claims of `v` claimed by `agent`, in order.
pub open spec fn stale_claimed_by(v: Seq<StaleIssueSummary>, agent: Seq<char>) -> Seq<StaleIssueSummary>
    decreases v.len(),
{
    if v.len() == 0 {
        seq![]
    } else {
        let prev = stale_claimed_by(v.drop_last(), agent);
        if v.last().agent matches Some(a) && a@ == agent {
            prev.push(v.last())
        } else {
            prev
        }
    }
}

fn agent_is(agent: &Option<String>, filter: &Vec<char>) -> (r: bool)
    ensures
        r == (agent matches Some(a) && a@ == filter@),
{
    match agent {
        Some(a) => crate::text::chars_eq(&crate::text::chars_of(a.as_str()), filter),
        None => false,
    }
}

fn retain_agent(v: Vec<IssueSummary>, filter: &Vec<char>) -> (r: Vec<IssueSummary>)
    ensures
        r@ == claimed_by(v@, filter@),
{
    let ghost orig = v@;
    let mut rest = v;
    let mut kept: Vec<IssueSummary> = Vec::new();
    let ghost mut i: int = 0;
    while rest.len() > 0
        invariant
            0 <= i <= orig.len(),
            rest@ == orig.skip(i),
            kept@ == claimed_by(orig.take(i), filter@),
        decreases rest@.len(),
    {
        let x = rest.remove(0);
        proof {
            assert(orig.take(i + 1).drop_last() =~= orig.take(i));
            assert(orig.take(i + 1).last() == orig[i]);
        }
        if agent_is(&x.agent, filter) {
            kept.push(x);
        }
        proof {
            i = i + 1;
            assert(rest@ =~= orig.skip(i));
        }
    }
    assert(orig.take(i) =~= orig);
    kept
}

fn retain_stale_agent(v: Vec<StaleIssueSummary>, filter: &Vec<char>) -> (r: Vec<StaleIssueSummary>)
    ensures
        r@ == stale_claimed_by(v@, filter@),
{
    let ghost orig = v@;
    let mut rest = v;
    let mut kept: Vec<StaleIssueSummary> = Vec::new();
    let ghost mut i: int = 0;
    while rest.len() > 0
        invariant
            0 <= i <= orig.len(),
            rest@ == orig.skip(i),
            kept@ == stale_claimed_by(orig.take(i), filter@),
        decreases rest@.len(),
    {
        let x = rest.remove(0);
        proof {
            assert(orig.take(i + 1).drop_last() =~= orig.take(i));
            assert(orig.take(i + 1).last() == orig[i]);
        }
        if agent_is(&x.agent, filter) {
            kept.push(x);
        }
        proof {
            i = i + 1;
            assert(rest@ =~= orig.skip(i));
        }
    }
    assert(orig.take(i) =~= orig);
    kept
}

/// Narrow the in-progress, ready, blocked and stale categories to the issues claimed by
/// `agent_filter`, when there is one; completed issues and hotspots are never narrowed.
pub fn apply_agent_filter(categories: CategorisedIssues, agent_filter: Option<&Vec<char>>) -> (r: CategorisedIssues)
    ensures
        match agent_filter {
            None => r == categories,
            Some(f) => {
                &&& r.in_progress@ == claimed_by(categories.in_progress@, f@)
                &&& r.ready@ == claimed_by(categories.ready@, f@)
                &&& r.blocked@ == claimed_by(categories.blocked@, f@)
                &&& r.stale@ == stale_claimed_by(categories.stale@, f@)
                &&& r.completed == categories.completed
                &&& r.hotspots == categories.hotspots
            },
        },
{
    match agent_filter {
        None => categories,
        Some(f) => {
            let CategorisedIssues { in_progress, ready, blocked, completed, hotspots, stale } =
                categories;
            CategorisedIssues {
                in_progress: retain_agent(in_progress, f),
                ready: retain_agent(ready, f),
                blocked: retain_agent(blocked, f),
                completed,
                hotspots,
                stale: retain_stale_agent(stale, f),
            }
        },
    }
}

// ------------------------------------------------------------------------------------------
// Sort keys
// ------------------------------------------------------------------------------------------

/// Priority (most urgent first), then creation time (oldest first).
#[derive(Debug, Clone, Copy, PartialEq, Eq, Structural)]
pub struct PrioKey {
    pub rank: u8,
    pub created: Timestamp,
}

/// Whether `a` sorts before `b` by priority, then creation time.
pub open spec fn prio_before(a: IssueSummary, b: IssueSummary) -> bool {
    priority_rank(a.priority) < priority_rank(b.priority) || (a.priority == b.priority && ts_lt(
        a.created_at,
        b.created_at,
    ))
}

impl Ranked for PrioKey {
    open spec fn ranks_before(&self, other: &Self) -> bool {
        self.rank < other.rank || (self.rank == other.rank && ts_lt(self.created, other.created))
    }

    fn before(&self, other: &Self) -> (r: bool) {
        self.rank < other.rank || (self.rank == other.rank && crate::model::before(
            self.created,
            other.created,
        ))
    }

    proof fn lemma_irreflexive(a: &Self) {
    }

    proof fn lemma_transitive(a: &Self, b: &Self, c: &Self) {
    }

    proof fn lemma_alike_before(a: &Self, b: &Self, c: &Self) {
    }
}

/// Text, greatest first.
pub struct DescText {
    pub text: Vec<char>,
}

impl Ranked for DescText {
    open spec fn ranks_before(&self, other: &Self) -> bool {
        str_lt(other.text@, self.text@)
    }

    fn before(&self, other: &Self) -> (r: bool) {
        crate::text::chars_less(&other.text, &self.text)
    }

    proof fn lemma_irreflexive(a: &Self) {
        lemma_str_lt_irreflexive(a.text@);
    }

    proof fn lemma_transitive(a: &Self, b: &Self, c: &Self) {
        lemma_str_lt_transitive(c.text@, b.text@, a.text@);
    }

    proof fn lemma_alike_before(a: &Self, b: &Self, c: &Self) {
        lemma_str_lt_total(a.text@, b.text@);
    }
}

/// A count, largest first.
#[derive(Debug, Clone, Copy, PartialEq, Eq, Structural)]
pub struct CountDesc {
    pub count: u64,
}

impl Ranked for CountDesc {
    open spec fn ranks_before(&self, other: &Self) -> bool {
        self.count > other.count
    }

    fn before(&self, other: &Self) -> (r: bool) {
        self.count > other.count
    }

    proof fn lemma_irreflexive(a: &Self) {
    }

    proof fn lemma_transitive(a: &Self, b: &Self, c: &Self) {
    }

    proof fn lemma_alike_before(a: &Self, b: &Self, c: &Self) {
    }
}

/// A blocking count, largest first, then an issue number, smallest first.
#[derive(Debug, Clone, Copy, PartialEq, Eq, Structural)]
pub struct HotKey {
    pub count: usize,
    pub number: u64,
}

impl Ranked for HotKey {
    open spec fn ranks_before(&self, other: &Self) -> bool {
        self.count > other.count || (self.count == other.count && self.number < other.number)
    }

    fn before(&self, other: &Self) -> (r: bool) {
        self.count > other.count || (self.count == other.count && self.number < other.number)
    }

    proof fn lemma_irreflexive(a: &Self) {
    }

    proof fn lemma_transitive(a: &Self, b: &Self, c: &Self) {
    }

    proof fn lemma_alike_before(a: &Self, b: &Self, c: &Self) {
    }
}

// ------------------------------------------------------------------------------------------
// Categorising
// ------------------------------------------------------------------------------------------

/// The earliest instant `chrono` holds, in seconds since the Unix epoch.
pub const EARLIEST_SECS: i64 = -8334601315200;

/// The hours of the recently-completed window: the stale threshold, capped at `u32::MAX`.
pub open spec fn window_hours(threshold: u64) -> int {
    if threshold > u32::MAX {
        u32::MAX as int
    } else {
        threshold as int
    }
}

/// The seconds of the start of the recently-completed window.
pub open spec fn cutoff_secs(now: Timestamp, threshold: u64) -> int {
    now.secs - window_hours(threshold) * 3600
}

/// Whether the start of the window is an instant `chrono` holds.
pub open spec fn cutoff_in_range(now: Timestamp, threshold: u64) -> bool {
    cutoff_secs(now, threshold) >= EARLIEST_SECS
}

/// Whether `t` is at or after the start of the window.
pub open spec fn within_window(t: Timestamp, now: Timestamp, threshold: u64) -> bool {
    t.secs > cutoff_secs(now, threshold) || (t.secs == cutoff_secs(now, threshold) && t.nanos
        >= now.nanos)
}

/// The whole hours between two instants, in either direction.
pub open spec fn elapsed_hours(now: Timestamp, then: Timestamp) -> int {
    let d = (now.secs - then.secs) * 1_000_000_000 + (now.nanos - then.nanos);
    (if d < 0 {
        -d
    } else {
        d
    }) / 3_600_000_000_000
}

/// The positions `k < n` at which `p` holds, in order.
pub open spec fn select(n: nat, p: spec_fn(int) -> bool) -> Seq<int>
    decreases n,
{
    if n == 0 {
        seq![]
    } else {
        let s = select((n - 1) as nat, p);
        if p(n - 1) {
            s.push(n - 1)
        } else {
            s
        }
    }
}

/// Whether `issue` is open and in progress.
pub open spec fn is_in_progress(i: Issue) -> bool {
    i.state == IssueState::Open && i.status == Status::InProgress
}

/// Whether `issue` is closed and was last updated within the window.
pub open spec fn is_recently_completed(i: Issue, now: Timestamp, threshold: u64) -> bool {
    i.state != IssueState::Open && within_window(i.updated_at, now, threshold)
}

/// Whether `issue` is in progress and was claimed more than `threshold` hours ago.
pub open spec fn is_stale(i: Issue, now: Timestamp, threshold: u64) -> bool {
    is_in_progress(i) && i.claimed_at is Some && elapsed_hours(now, i.claimed_at->0) > threshold
}

/// Whether a summary in `ready` has the qualified id `q`.
pub open spec fn in_ready(ready: Seq<IssueSummary>, q: QualifiedId) -> bool {
    exists|j: int| 0 <= j < ready.len() && qkey(#[trigger] ready[j].qualified_id) == qkey(q)
}

/// Whether `issue` is open, neither in progress, ready nor deferred, and blocked: by status, or
/// by an open blocker in `graph`.
pub open spec fn is_blocked(i: Issue, ready: Seq<IssueSummary>, g: DepGraph) -> bool {
    &&& i.state == IssueState::Open
    &&& i.status != Status::InProgress
    &&& !in_ready(ready, i.qualified_id)
    &&& i.status != Status::Deferred
    &&& (i.status == Status::Blocked || has_open_blocker(g, i.qualified_id))
}

/// Whether `c` lists the recently completed `i`.
pub open spec fn completed_of(c: CompletedIssueSummary, i: Issue) -> bool {
    &&& c.qualified_id@ == qid_display(i.qualified_id)
    &&& c.number == i.number
    &&& c.title == i.title
    &&& c.issue_type == i.issue_type
    &&& c.priority@ == priority_text(i.priority)
    &&& c.closed_at@ == rfc3339_text(i.updated_at.secs, i.updated_at.nanos)
    &&& c.url == i.url
}

/// Whether `s` lists the stale claim on `i`, taken at `now`.
pub open spec fn stale_of(s: StaleIssueSummary, i: Issue, now: Timestamp) -> bool {
    &&& s.qualified_id@ == qid_display(i.qualified_id)
    &&& s.number == i.number
    &&& s.title == i.title
    &&& s.agent == i.agent
    &&& s.claimed_at@ == rfc3339_text(i.claimed_at->0.secs, i.claimed_at->0.nanos)
    &&& s.hours_stale == elapsed_hours(now, i.claimed_at->0)
    &&& s.url == i.url
}

/// Whether `out` holds the summaries of the issues at `idx`, sorted by priority then creation
/// time, those that sort alike in the order of `idx`.
pub open spec fn prio_sorted_summaries(out: Seq<IssueSummary>, issues: Seq<Issue>, idx: Seq<int>) -> bool {
    exists|ord: Seq<usize>|
        #[trigger] crate::sorting::is_permutation(ord, idx.len()) && out.len() == idx.len() && (forall|m: int|
            0 <= m < out.len() ==> summary_of(#[trigger] out[m], issues[idx[ord[m] as int]])) && (
        forall|m: int, l: int| 0 <= m < l < out.len() ==> !prio_before(#[trigger] out[l], #[trigger] out[m]))
            && (forall|m: int, l: int|
            0 <= m < l < out.len() && !prio_before(#[trigger] out[m], #[trigger] out[l]) && !prio_before(
                out[l],
                out[m],
            ) ==> ord[m] < ord[l])
}

/// Whether `out` lists the recently completed issues at `idx`, most recently closed first (by
/// the text of the close time), those that sort alike in the order of `idx`.
pub open spec fn completed_sorted(out: Seq<CompletedIssueSummary>, issues: Seq<Issue>, idx: Seq<int>) -> bool {
    exists|ord: Seq<usize>|
        #[trigger] crate::sorting::is_permutation(ord, idx.len()) && out.len() == idx.len() && (forall|m: int|
            0 <= m < out.len() ==> completed_of(#[trigger] out[m], issues[idx[ord[m] as int]])) && (
        forall|m: int, l: int|
            0 <= m < l < out.len() ==> !str_lt(#[trigger] out[m].closed_at@, #[trigger] out[l].closed_at@))
            && (forall|m: int, l: int|
            0 <= m < l < out.len() && #[trigger] out[m].closed_at@ == #[trigger] out[l].closed_at@
                ==> ord[m] < ord[l])
}

/// Whether `out` lists the stale claims at `idx`, longest-stale first, those that sort alike in
/// the order of `idx`.
pub open spec fn stale_sorted(out: Seq<StaleIssueSummary>, issues: Seq<Issue>, idx: Seq<int>, now: Timestamp) -> bool {
    exists|ord: Seq<usize>|
        #[trigger] crate::sorting::is_permutation(ord, idx.len()) && out.len() == idx.len() && (forall|m: int|
            0 <= m < out.len() ==> stale_of(#[trigger] out[m], issues[idx[ord[m] as int]], now)) && (
        forall|m: int, l: int|
            0 <= m < l < out.len() ==> #[trigger] out[m].hours_stale >= #[trigger] out[l].hours_stale)
            && (forall|m: int, l: int|
            0 <= m < l < out.len() && #[trigger] out[m].hours_stale == #[trigger] out[l].hours_stale
                ==> ord[m] < ord[l])
}

/// The summaries of `ready` whose issue is not in progress, in order.
pub open spec fn ready_not_in_progress(ready: Seq<IssueSummary>, issues: Seq<Issue>) -> Seq<IssueSummary>
    decreases ready.len(),
{
    if ready.len() == 0 {
        seq![]
    } else {
        let prev = ready_not_in_progress(ready.drop_last(), issues);
        if exists|k: int|
            0 <= k < issues.len() && is_in_progress(#[trigger] issues[k]) && qkey(issues[k].qualified_id)
                == qkey(ready.last().qualified_id) {
            prev
        } else {
            prev.push(ready.last())
        }
    }
}

/// The positions of the first `n` issues that are in progress.
pub open spec fn in_progress_upto(issues: Seq<Issue>, n: nat) -> Seq<int> {
    select(n, |k: int| is_in_progress(issues[k]))
}

/// The positions of the first `n` issues that are blocked.
pub open spec fn blocked_upto(issues: Seq<Issue>, ready: Seq<IssueSummary>, g: DepGraph, n: nat) -> Seq<int> {
    select(n, |k: int| is_blocked(issues[k], ready, g))
}

/// The positions of the first `n` issues that were recently completed.
pub open spec fn completed_upto(issues: Seq<Issue>, now: Timestamp, threshold: u64, n: nat) -> Seq<int> {
    select(n, |k: int| is_recently_completed(issues[k], now, threshold))
}

/// The positions of the first `n` issues whose claim is stale.
pub open spec fn stale_upto(issues: Seq<Issue>, now: Timestamp, threshold: u64, n: nat) -> Seq<int> {
    select(n, |k: int| is_stale(issues[k], now, threshold))
}

/// The whole hours between two instants, in either direction.
pub fn elapsed(now: Timestamp, then: Timestamp) -> (h: u64)
    ensures
        h == elapsed_hours(now, then),
{
    let ds: i128 = now.secs as i128 - then.secs as i128;
    let dn: i128 = now.nanos as i128 - then.nanos as i128;
    assert(-0x1_0000_0000_0000_0000 <= ds <= 0x1_0000_0000_0000_0000);
    assert(ds * 1_000_000_000 <= 0x1_0000_0000_0000_0000 * 1_000_000_000) by (nonlinear_arith)
        requires
            ds <= 0x1_0000_0000_0000_0000,
    ;
    assert(ds * 1_000_000_000 >= -0x1_0000_0000_0000_0000 * 1_000_000_000) by (nonlinear_arith)
        requires
            ds >= -0x1_0000_0000_0000_0000,
    ;
    let d: i128 = ds * 1_000_000_000 + dn;
    let a: i128 = if d < 0 {
        -d
    } else {
        d
    };
    let h: i128 = a / 3_600_000_000_000;
    assert(h <= 0x1_0000_0000_0000_0000 * 1_000_000_000 / 3_600_000_000_000 + 1);
    h as u64
}

/// Whether `t` is at or after the start of the window.
fn in_window(t: Timestamp, now: Timestamp, threshold: u64) -> (r: bool)
    ensures
        r == within_window(t, now, threshold),
{
    let w: i128 = if threshold > 0xffff_ffffu64 {
        0xffff_ffffi128
    } else {
        threshold as i128
    };
    let cut: i128 = now.secs as i128 - w * 3600;
    let ts: i128 = t.secs as i128;
    ts > cut || (ts == cut && t.nanos >= now.nanos)
}

fn ready_has(ready: &[IssueSummary], q: &QualifiedId) -> (r: bool)
    ensures
        r == in_ready(ready@, *q),
{
    let mut j: usize = 0;
    while j < ready.len()
        invariant
            0 <= j <= ready@.len(),
            forall|m: int| 0 <= m < j ==> qkey(#[trigger] ready@[m].qualified_id) != qkey(*q),
        decreases ready@.len() - j,
    {
        if crate::model::same_qid(&ready[j].qualified_id, q) {
            return true;
        }
        j = j + 1;
    }
    false
}

/// A copy of a completed-issue summary.
fn copy_completed(c: &CompletedIssueSummary) -> (r: CompletedIssueSummary)
    ensures
        r == *c,
{
    CompletedIssueSummary {
        qualified_id: c.qualified_id.clone(),
        number: c.number,
        title: c.title.clone(),
        issue_type: copy_opt(&c.issue_type),
        priority: c.priority.clone(),
        closed_at: c.closed_at.clone(),
        url: c.url.clone(),
    }
}

/// A copy of a stale-claim summary.
fn copy_stale(s: &StaleIssueSummary) -> (r: StaleIssueSummary)
    ensures
        r == *s,
{
    StaleIssueSummary {
        qualified_id: s.qualified_id.clone(),
        number: s.number,
        title: s.title.clone(),
        agent: copy_opt(&s.agent),
        claimed_at: s.claimed_at.clone(),
        hours_stale: s.hours_stale,
        url: s.url.clone(),
    }
}

fn gather_summaries(v: &Vec<IssueSummary>, ord: &Vec<usize>) -> (r: Vec<IssueSummary>)
    requires
        forall|i: int| 0 <= i < ord@.len() ==> #[trigger] ord@[i] < v@.len(),
    ensures
        r@.len() == ord@.len(),
        forall|m: int| 0 <= m < r@.len() ==> same_summary(#[trigger] r@[m], v@[ord@[m] as int]),
{
    let mut r: Vec<IssueSummary> = Vec::new();
    let mut m: usize = 0;
    while m < ord.len()
        invariant
            0 <= m <= ord@.len(),
            r@.len() == m,
            forall|i: int| 0 <= i < ord@.len() ==> #[trigger] ord@[i] < v@.len(),
            forall|i: int| 0 <= i < m ==> same_summary(#[trigger] r@[i], v@[ord@[i] as int]),
        decreases ord@.len() - m,
    {
        r.push(copy_summary(&v[ord[m]]));
        m = m + 1;
    }
    r
}

fn gather_completed(v: &Vec<CompletedIssueSummary>, ord: &Vec<usize>) -> (r: Vec<CompletedIssueSummary>)
    requires
        forall|i: int| 0 <= i < ord@.len() ==> #[trigger] ord@[i] < v@.len(),
    ensures
        r@.len() == ord@.len(),
        forall|m: int| 0 <= m < r@.len() ==> #[trigger] r@[m] == v@[ord@[m] as int],
{
    let mut r: Vec<CompletedIssueSummary> = Vec::new();
    let mut m: usize = 0;
    while m < ord.len()
        invariant
            0 <= m <= ord@.len(),
            r@.len() == m,
            forall|i: int| 0 <= i < ord@.len() ==> #[trigger] ord@[i] < v@.len(),
            forall|i: int| 0 <= i < m ==> #[trigger] r@[i] == v@[ord@[i] as int],
        decreases ord@.len() - m,
    {
        r.push(copy_completed(&v[ord[m]]));
        m = m + 1;
    }
    r
}

fn gather_stale(v: &Vec<StaleIssueSummary>, ord: &Vec<usize>) -> (r: Vec<StaleIssueSummary>)
    requires
        forall|i: int| 0 <= i < ord@.len() ==> #[trigger] ord@[i] < v@.len(),
    ensures
        r@.len() == ord@.len(),
        forall|m: int| 0 <= m < r@.len() ==> #[trigger] r@[m] == v@[ord@[m] as int],
{
    let mut r: Vec<StaleIssueSummary> = Vec::new();
    let mut m: usize = 0;
    while m < ord.len()
        invariant
            0 <= m <= ord@.len(),
            r@.len() == m,
            forall|i: int| 0 <= i < ord@.len() ==> #[trigger] ord@[i] < v@.len(),
            forall|i: int| 0 <= i < m ==> #[trigger] r@[i] == v@[ord@[i] as int],
        decreases ord@.len() - m,
    {
        r.push(copy_stale(&v[ord[m]]));
        m = m + 1;
    }
    r
}

/// Sort summaries of the issues at `idx` by priority, then creation time, stably.
fn sort_by_priority(cands: Vec<IssueSummary>, keys: Vec<PrioKey>, Ghost(issues): Ghost<Seq<Issue>>, Ghost(idx): Ghost<Seq<int>>) -> (r: Vec<IssueSummary>)
    requires
        cands@.len() == idx.len(),
        keys@.len() == idx.len(),
        forall|m: int| 0 <= m < idx.len() ==> summary_of(#[trigger] cands@[m], issues[idx[m]]),
        forall|m: int|
            0 <= m < idx.len() ==> #[trigger] keys@[m] == (PrioKey {
                rank: priority_rank(cands@[m].priority) as u8,
                created: cands@[m].created_at,
            }),
    ensures
        prio_sorted_summaries(r@, issues, idx),
{
    let ord = stable_order(&keys);
    let r = gather_summaries(&cands, &ord);
    proof {
        let o = ord@;
        assert forall|m: int| 0 <= m < r@.len() implies summary_of(#[trigger] r@[m], issues[idx[o[m] as int]]) by {
            assert(same_summary(r@[m], cands@[o[m] as int]));
            assert(summary_of(cands@[o[m] as int], issues[idx[o[m] as int]]));
        }
        assert forall|m: int, l: int| 0 <= m < l < r@.len() implies !prio_before(#[trigger] r@[l], #[trigger] r@[m]) by {
            assert(!keys@[o[l] as int].ranks_before(&keys@[o[m] as int]));
        }
        assert forall|m: int, l: int|
            0 <= m < l < r@.len() && !prio_before(#[trigger] r@[m], #[trigger] r@[l]) && !prio_before(
                r@[l],
                r@[m],
            ) implies o[m] < o[l] by {
            assert(!keys@[o[m] as int].ranks_before(&keys@[o[l] as int]));
            assert(!keys@[o[l] as int].ranks_before(&keys@[o[m] as int]));
        }
        assert(crate::sorting::is_permutation(o, idx.len()));
    }
    r
}

fn sort_completed(cands: Vec<CompletedIssueSummary>, keys: Vec<DescText>, Ghost(issues): Ghost<Seq<Issue>>, Ghost(idx): Ghost<Seq<int>>) -> (r: Vec<CompletedIssueSummary>)
    requires
        cands@.len() == idx.len(),
        keys@.len() == idx.len(),
        forall|m: int| 0 <= m < idx.len() ==> completed_of(#[trigger] cands@[m], issues[idx[m]]),
        forall|m: int| 0 <= m < idx.len() ==> #[trigger] keys@[m].text@ == cands@[m].closed_at@,
    ensures
        completed_sorted(r@, issues, idx),
{
    let ord = stable_order(&keys);
    let r = gather_completed(&cands, &ord);
    proof {
        let o = ord@;
        assert forall|m: int| 0 <= m < r@.len() implies completed_of(#[trigger] r@[m], issues[idx[o[m] as int]]) by {
            assert(r@[m] == cands@[o[m] as int]);
        }
        assert forall|m: int, l: int| 0 <= m < l < r@.len() implies !str_lt(#[trigger] r@[m].closed_at@, #[trigger] r@[l].closed_at@) by {
            assert(!keys@[o[l] as int].ranks_before(&keys@[o[m] as int]));
        }
        assert forall|m: int, l: int|
            0 <= m < l < r@.len() && #[trigger] r@[m].closed_at@ == #[trigger] r@[l].closed_at@ implies o[m] < o[l] by {
            lemma_str_lt_irreflexive(r@[m].closed_at@);
            assert(!keys@[o[m] as int].ranks_before(&keys@[o[l] as int]));
            assert(!keys@[o[l] as int].ranks_before(&keys@[o[m] as int]));
        }
        assert(crate::sorting::is_permutation(o, idx.len()));
    }
    r
}

fn sort_stale(cands: Vec<StaleIssueSummary>, keys: Vec<CountDesc>, Ghost(issues): Ghost<Seq<Issue>>, Ghost(idx): Ghost<Seq<int>>, Ghost(now): Ghost<Timestamp>) -> (r: Vec<StaleIssueSummary>)
    requires
        cands@.len() == idx.len(),
        keys@.len() == idx.len(),
        forall|m: int| 0 <= m < idx.len() ==> stale_of(#[trigger] cands@[m], issues[idx[m]], now),
        forall|m: int| 0 <= m < idx.len() ==> #[trigger] keys@[m].count == cands@[m].hours_stale,
    ensures
        stale_sorted(r@, issues, idx, now),
{
    let ord = stable_order(&keys);
    let r = gather_stale(&cands, &ord);
    proof {
        let o = ord@;
        assert forall|m: int| 0 <= m < r@.len() implies stale_of(#[trigger] r@[m], issues[idx[o[m] as int]], now) by {
            assert(r@[m] == cands@[o[m] as int]);
        }
        assert forall|m: int, l: int| 0 <= m < l < r@.len() implies #[trigger] r@[m].hours_stale >= #[trigger] r@[l].hours_stale by {
            assert(!keys@[o[l] as int].ranks_before(&keys@[o[m] as int]));
        }
        assert forall|m: int, l: int|
            0 <= m < l < r@.len() && #[trigger] r@[m].hours_stale == #[trigger] r@[l].hours_stale implies o[m] < o[l] by {
            assert(!keys@[o[m] as int].ranks_before(&keys@[o[l] as int]));
            assert(!keys@[o[l] as int].ranks_before(&keys@[o[m] as int]));
        }
        assert(crate::sorting::is_permutation(o, idx.len()));
    }
    r
}

/// The summaries of `ready` whose issue is not in progress, in order.
fn ready_without_in_progress(ready: &[IssueSummary], issues: &[Issue]) -> (r: Vec<IssueSummary>)
    ensures
        r@.len() == ready_not_in_progress(ready@, issues@).len(),
        forall|m: int|
            0 <= m < r@.len() ==> same_summary(#[trigger] r@[m], ready_not_in_progress(ready@, issues@)[m]),
{
    let mut r: Vec<IssueSummary> = Vec::new();
    let mut j: usize = 0;
    while j < ready.len()
        invariant
            0 <= j <= ready@.len(),
            r@.len() == ready_not_in_progress(ready@.take(j as int), issues@).len(),
            forall|m: int|
                0 <= m < r@.len() ==> same_summary(
                    #[trigger] r@[m],
                    ready_not_in_progress(ready@.take(j as int), issues@)[m],
                ),
        decreases ready@.len() - j,
    {
        assert(ready@.take(j + 1).drop_last() =~= ready@.take(j as int));
        let mut k: usize = 0;
        let mut hit = false;
        while k < issues.len()
            invariant
                0 <= k <= issues@.len(),
                j < ready@.len(),
                hit == exists|x: int|
                    0 <= x < k && is_in_progress(#[trigger] issues@[x]) && qkey(issues@[x].qualified_id)
                        == qkey(ready@[j as int].qualified_id),
            decreases issues@.len() - k,
        {
            let this = match (issues[k].state, issues[k].status) {
                (IssueState::Open, Status::InProgress) => true,
                _ => false,
            };
            if this && crate::model::same_qid(&issues[k].qualified_id, &ready[j].qualified_id) {
                hit = true;
            }
            k = k + 1;
        }
        assert(ready@.take(j + 1).last() == ready@[j as int]);
        if !hit {
            r.push(copy_summary(&ready[j]));
        }
        j = j + 1;
    }
    assert(ready@.take(ready@.len() as int) =~= ready@);
    r
}

/// Whether `r` is the categorisation of `issues` at the instant `now`.
pub open spec fn categorised(
    r: CategorisedIssues,
    issues: Seq<Issue>,
    graph: DepGraph,
    ready_summaries: Seq<IssueSummary>,
    stale_threshold_hours: u64,
    now: Timestamp,
) -> bool {
    &&& prio_sorted_summaries(r.in_progress@, issues, in_progress_upto(issues, issues.len()))
    &&& prio_sorted_summaries(
        r.blocked@,
        issues,
        blocked_upto(issues, ready_summaries, graph, issues.len()),
    )
    &&& completed_sorted(
        r.completed@,
        issues,
        completed_upto(issues, now, stale_threshold_hours, issues.len()),
    )
    &&& stale_sorted(
        r.stale@,
        issues,
        stale_upto(issues, now, stale_threshold_hours, issues.len()),
        now,
    )
    &&& r.ready@.len() == ready_not_in_progress(ready_summaries, issues).len()
    &&& forall|m: int|
        0 <= m < r.ready@.len() ==> same_summary(
            #[trigger] r.ready@[m],
            ready_not_in_progress(ready_summaries, issues)[m],
        )
    &&& hotspots_of(r.hotspots@, graph, issues)
}

/// The positions `select` keeps are exactly those below `n` at which `p` holds.
proof fn lemma_select_members(n: nat, p: spec_fn(int) -> bool)
    ensures
        select(n, p).len() <= n,
        forall|j: int| 0 <= j < select(n, p).len() ==> 0 <= #[trigger] select(n, p)[j] < n && p(select(n, p)[j]),
        forall|k: int| 0 <= k < n && p(k) ==> #[trigger] select(n, p).contains(k),
    decreases n,
{
    if n > 0 {
        let m = (n - 1) as nat;
        lemma_select_members(m, p);
        let s = select(m, p);
        if p(n - 1) {
            assert(select(n, p) == s.push(n - 1));
            assert(select(n, p)[s.len() as int] == n - 1);
            assert forall|k: int| 0 <= k < n && p(k) implies #[trigger] select(n, p).contains(k) by {
                if k < n - 1 {
                    assert(s.contains(k));
                    let j = choose|j: int| 0 <= j < s.len() && s[j] == k;
                    assert(select(n, p)[j] == k);
                }
            }
        } else {
            assert forall|k: int| 0 <= k < n && p(k) implies #[trigger] select(n, p).contains(k) by {
                assert(k < n - 1);
            }
        }
    }
}

/// Visiting a selection in a permuted order visits every selected position once: each visited
/// position satisfies `p`, and each position below `n` that satisfies `p` is visited.
proof fn lemma_permuted_selection(n: nat, p: spec_fn(int) -> bool, ord: Seq<usize>)
    requires
        crate::sorting::is_permutation(ord, select(n, p).len()),
        n <= usize::MAX,
    ensures
        forall|m: int|
            0 <= m < ord.len() ==> 0 <= #[trigger] select(n, p)[ord[m] as int] < n && p(
                select(n, p)[ord[m] as int],
            ),
        forall|k: int|
            0 <= k < n && #[trigger] p(k) ==> exists|m: int| 0 <= m < ord.len() && #[trigger] select(n, p)[ord[m] as int] == k,
{
    let s = select(n, p);
    lemma_select_members(n, p);
    assert forall|m: int| 0 <= m < ord.len() implies 0 <= #[trigger] s[ord[m] as int] < n && p(
        s[ord[m] as int],
    ) by {
        assert(ord[m] < s.len());
    }
    assert forall|k: int| 0 <= k < n && #[trigger] p(k) implies exists|m: int|
        0 <= m < ord.len() && #[trigger] s[ord[m] as int] == k by {
        assert(s.contains(k));
        let j = choose|j: int| 0 <= j < s.len() && s[j] == k;
        lemma_permutation_covers(ord, s.len(), j as usize);
        assert(ord.to_set().contains(j as usize));
        let m = choose|m: int| 0 <= m < ord.len() && ord[m] == j as usize;
        assert(s[ord[m] as int] == k);
    }
}

/// Whether `s` is the summary of an issue below position `n` at which `p` holds.
pub open spec fn summary_at_some(s: IssueSummary, issues: Seq<Issue>, n: nat, p: spec_fn(int) -> bool) -> bool {
    exists|k: int| 0 <= k < n && #[trigger] p(k) && summary_of(s, issues[k])
}

/// Whether the listing `out` has a summary of the issue at position `k`.
pub open spec fn lists_issue(out: Seq<IssueSummary>, issues: Seq<Issue>, k: int) -> bool {
    exists|m: int| 0 <= m < out.len() && summary_of(#[trigger] out[m], issues[k])
}

/// A listing sorted by priority of the positions `select(n, p)` lists exactly the issues at the
/// positions below `n` where `p` holds.
proof fn lemma_prio_listing_exact(out: Seq<IssueSummary>, issues: Seq<Issue>, n: nat, p: spec_fn(int) -> bool)
    requires
        prio_sorted_summaries(out, issues, select(n, p)),
        n <= usize::MAX,
    ensures
        forall|m: int| 0 <= m < out.len() ==> summary_at_some(#[trigger] out[m], issues, n, p),
        forall|k: int| 0 <= k < n && #[trigger] p(k) ==> lists_issue(out, issues, k),
{
    let s = select(n, p);
    let ord = choose|ord: Seq<usize>|
        #[trigger] crate::sorting::is_permutation(ord, s.len()) && out.len() == s.len() && (forall|m: int|
            0 <= m < out.len() ==> summary_of(#[trigger] out[m], issues[s[ord[m] as int]])) && (
        forall|m: int, l: int| 0 <= m < l < out.len() ==> !prio_before(#[trigger] out[l], #[trigger] out[m]))
            && (forall|m: int, l: int|
            0 <= m < l < out.len() && !prio_before(#[trigger] out[m], #[trigger] out[l]) && !prio_before(
                out[l],
                out[m],
            ) ==> ord[m] < ord[l]);
    lemma_permuted_selection(n, p, ord);
    assert forall|m: int| 0 <= m < out.len() implies summary_at_some(#[trigger] out[m], issues, n, p) by {
        let k = s[ord[m] as int];
        assert(p(k));
        assert(summary_of(out[m], issues[k]));
    }
    assert forall|k: int| 0 <= k < n && #[trigger] p(k) implies lists_issue(out, issues, k) by {
        let m = choose|m: int| 0 <= m < ord.len() && #[trigger] s[ord[m] as int] == k;
        assert(summary_of(out[m], issues[k]));
    }
}

/// Whether `s` is the summary of an issue in progress.
pub open spec fn summary_of_in_progress(s: IssueSummary, issues: Seq<Issue>) -> bool {
    exists|k: int| 0 <= k < issues.len() && is_in_progress(#[trigger] issues[k]) && summary_of(s, issues[k])
}

/// Whether `s` is the summary of a blocked issue.
pub open spec fn summary_of_blocked(s: IssueSummary, issues: Seq<Issue>, ready: Seq<IssueSummary>, g: DepGraph) -> bool {
    exists|k: int| 0 <= k < issues.len() && is_blocked(#[trigger] issues[k], ready, g) && summary_of(s, issues[k])
}

/// The in-progress and blocked categories list exactly the issues in progress and the blocked
/// ones: every listed summary is that of such an issue, and every such issue is listed. (Only
/// open issues are in progress or blocked.)
pub proof fn lemma_open_categories_list_exactly(
    r: CategorisedIssues,
    issues: Seq<Issue>,
    graph: DepGraph,
    ready_summaries: Seq<IssueSummary>,
    stale_threshold_hours: u64,
    now: Timestamp,
)
    requires
        categorised(r, issues, graph, ready_summaries, stale_threshold_hours, now),
        issues.len() <= usize::MAX,
    ensures
        forall|m: int| 0 <= m < r.in_progress@.len() ==> summary_of_in_progress(#[trigger] r.in_progress@[m], issues),
        forall|k: int|
            0 <= k < issues.len() && is_in_progress(#[trigger] issues[k]) ==> lists_issue(r.in_progress@, issues, k),
        forall|m: int|
            0 <= m < r.blocked@.len() ==> summary_of_blocked(#[trigger] r.blocked@[m], issues, ready_summaries, graph),
        forall|k: int|
            0 <= k < issues.len() && is_blocked(#[trigger] issues[k], ready_summaries, graph) ==> lists_issue(
                r.blocked@,
                issues,
                k,
            ),
{
    let n = issues.len();
    let pi = |k: int| is_in_progress(issues[k]);
    let pb = |k: int| is_blocked(issues[k], ready_summaries, graph);
    assert(in_progress_upto(issues, n) == select(n, pi));
    assert(blocked_upto(issues, ready_summaries, graph, n) == select(n, pb));
    lemma_prio_listing_exact(r.in_progress@, issues, n, pi);
    lemma_prio_listing_exact(r.blocked@, issues, n, pb);
    assert forall|m: int| 0 <= m < r.in_progress@.len() implies summary_of_in_progress(#[trigger] r.in_progress@[m], issues) by {
        assert(summary_at_some(r.in_progress@[m], issues, n, pi));
        let k = choose|k: int| 0 <= k < n && #[trigger] pi(k) && summary_of(r.in_progress@[m], issues[k]);
        assert(is_in_progress(issues[k]));
    }
    assert forall|k: int| 0 <= k < issues.len() && is_in_progress(#[trigger] issues[k]) implies lists_issue(r.in_progress@, issues, k) by {
        assert(pi(k));
    }
    assert forall|m: int| 0 <= m < r.blocked@.len() implies summary_of_blocked(#[trigger] r.blocked@[m], issues, ready_summaries, graph) by {
        assert(summary_at_some(r.blocked@[m], issues, n, pb));
        let k = choose|k: int| 0 <= k < n && #[trigger] pb(k) && summary_of(r.blocked@[m], issues[k]);
        assert(is_blocked(issues[k], ready_summaries, graph));
    }
    assert forall|k: int| 0 <= k < issues.len() && is_blocked(#[trigger] issues[k], ready_summaries, graph) implies lists_issue(r.blocked@, issues, k) by {
        assert(pb(k));
    }
}

/// An open issue that is neither in progress nor deferred, is not in the ready set, and has a
/// blocker the graph records as open is listed as blocked, whatever its status field says; and
/// every issue listed as blocked is open, neither in progress nor deferred, outside the ready set,
/// and has the status `Blocked` or an open blocker.
pub proof fn lemma_open_blocker_means_blocked(
    r: CategorisedIssues,
    issues: Seq<Issue>,
    graph: DepGraph,
    ready_summaries: Seq<IssueSummary>,
    stale_threshold_hours: u64,
    now: Timestamp,
)
    requires
        categorised(r, issues, graph, ready_summaries, stale_threshold_hours, now),
        issues.len() <= usize::MAX,
    ensures
        forall|k: int|
            0 <= k < issues.len() && #[trigger] issues[k].state == IssueState::Open && issues[k].status
                != Status::InProgress && issues[k].status != Status::Deferred && (forall|j: int|
                0 <= j < ready_summaries.len() ==> qkey(#[trigger] ready_summaries[j].qualified_id) != qkey(
                    issues[k].qualified_id,
                )) && (exists|e: int|
                0 <= e < graph.edges@.len() && qkey(#[trigger] graph.edges@[e].source) == qkey(
                    issues[k].qualified_id,
                ) && open_in(graph, graph.edges@[e].target)) ==> lists_issue(r.blocked@, issues, k),
        forall|m: int|
            #![trigger r.blocked@[m]]
            0 <= m < r.blocked@.len() ==> exists|k: int|
                #![trigger issues[k]]
                0 <= k < issues.len() && summary_of(r.blocked@[m], issues[k]) && issues[k].state
                    == IssueState::Open && issues[k].status != Status::InProgress && issues[k].status
                    != Status::Deferred && (issues[k].status == Status::Blocked || exists|e: int|
                    0 <= e < graph.edges@.len() && qkey(#[trigger] graph.edges@[e].source) == qkey(
                        issues[k].qualified_id,
                    ) && open_in(graph, graph.edges@[e].target)),
{
    lemma_open_categories_list_exactly(r, issues, graph, ready_summaries, stale_threshold_hours, now);
    assert forall|k: int|
        0 <= k < issues.len() && #[trigger] issues[k].state == IssueState::Open && issues[k].status
            != Status::InProgress && issues[k].status != Status::Deferred && (forall|j: int|
            0 <= j < ready_summaries.len() ==> qkey(#[trigger] ready_summaries[j].qualified_id) != qkey(
                issues[k].qualified_id,
            )) && (exists|e: int|
            0 <= e < graph.edges@.len() && qkey(#[trigger] graph.edges@[e].source) == qkey(
                issues[k].qualified_id,
            ) && open_in(graph, graph.edges@[e].target)) implies lists_issue(r.blocked@, issues, k) by {
        assert(!in_ready(ready_summaries, issues[k].qualified_id));
        assert(has_open_blocker(graph, issues[k].qualified_id));
        assert(is_blocked(issues[k], ready_summaries, graph));
    }
    assert forall|m: int| #![trigger r.blocked@[m]] 0 <= m < r.blocked@.len() implies exists|k: int|
        #![trigger issues[k]]
        0 <= k < issues.len() && summary_of(r.blocked@[m], issues[k]) && issues[k].state
            == IssueState::Open && issues[k].status != Status::InProgress && issues[k].status
            != Status::Deferred && (issues[k].status == Status::Blocked || exists|e: int|
            0 <= e < graph.edges@.len() && qkey(#[trigger] graph.edges@[e].source) == qkey(
                issues[k].qualified_id,
            ) && open_in(graph, graph.edges@[e].target)) by {
        assert(summary_of_blocked(r.blocked@[m], issues, ready_summaries, graph));
        let k = choose|k: int|
            0 <= k < issues.len() && is_blocked(#[trigger] issues[k], ready_summaries, graph) && summary_of(
                r.blocked@[m],
                issues[k],
            );
        assert(is_blocked(issues[k], ready_summaries, graph));
    }
}

/// Whether `c` lists an issue that was recently completed.
pub open spec fn completed_of_some(c: CompletedIssueSummary, issues: Seq<Issue>, now: Timestamp, threshold: u64) -> bool {
    exists|k: int|
        0 <= k < issues.len() && is_recently_completed(#[trigger] issues[k], now, threshold) && completed_of(
            c,
            issues[k],
        )
}

/// Whether `out` lists the issue at position `k` as recently completed.
pub open spec fn lists_completed(out: Seq<CompletedIssueSummary>, issues: Seq<Issue>, k: int) -> bool {
    exists|m: int| 0 <= m < out.len() && completed_of(#[trigger] out[m], issues[k])
}

/// Whether `st` lists a stale claim on some issue.
pub open spec fn stale_of_some(st: StaleIssueSummary, issues: Seq<Issue>, now: Timestamp, threshold: u64) -> bool {
    exists|k: int| 0 <= k < issues.len() && is_stale(#[trigger] issues[k], now, threshold) && stale_of(st, issues[k], now)
}

/// Whether `out` lists the stale claim on the issue at position `k`.
pub open spec fn lists_stale(out: Seq<StaleIssueSummary>, issues: Seq<Issue>, k: int, now: Timestamp) -> bool {
    exists|m: int| 0 <= m < out.len() && stale_of(#[trigger] out[m], issues[k], now)
}

/// The recently-completed and stale categories list exactly the issues closed within the
/// window and the claims older than the threshold: every listed entry is that of such an issue,
/// and every such issue is listed.
pub proof fn lemma_window_categories_list_exactly(
    r: CategorisedIssues,
    issues: Seq<Issue>,
    graph: DepGraph,
    ready_summaries: Seq<IssueSummary>,
    stale_threshold_hours: u64,
    now: Timestamp,
)
    requires
        categorised(r, issues, graph, ready_summaries, stale_threshold_hours, now),
        issues.len() <= usize::MAX,
    ensures
        forall|m: int|
            0 <= m < r.completed@.len() ==> completed_of_some(#[trigger] r.completed@[m], issues, now, stale_threshold_hours),
        forall|k: int|
            0 <= k < issues.len() && is_recently_completed(#[trigger] issues[k], now, stale_threshold_hours)
                ==> lists_completed(r.completed@, issues, k),
        forall|m: int| 0 <= m < r.stale@.len() ==> stale_of_some(#[trigger] r.stale@[m], issues, now, stale_threshold_hours),
        forall|k: int|
            0 <= k < issues.len() && is_stale(#[trigger] issues[k], now, stale_threshold_hours) ==> lists_stale(
                r.stale@,
                issues,
                k,
                now,
            ),
{
    let n = issues.len();
    let h = stale_threshold_hours;
    let pc = |k: int| is_recently_completed(issues[k], now, h);
    let ps = |k: int| is_stale(issues[k], now, h);
    let sc = select(n, pc);
    let ss = select(n, ps);
    assert(completed_upto(issues, now, h, n) == sc);
    assert(stale_upto(issues, now, h, n) == ss);
    let out = r.completed@;
    let oc = choose|ord: Seq<usize>|
        #[trigger] crate::sorting::is_permutation(ord, sc.len()) && out.len() == sc.len() && (forall|m: int|
            0 <= m < out.len() ==> completed_of(#[trigger] out[m], issues[sc[ord[m] as int]])) && (
        forall|m: int, l: int|
            0 <= m < l < out.len() ==> !str_lt(#[trigger] out[m].closed_at@, #[trigger] out[l].closed_at@))
            && (forall|m: int, l: int|
            0 <= m < l < out.len() && #[trigger] out[m].closed_at@ == #[trigger] out[l].closed_at@
                ==> ord[m] < ord[l]);
    let so = r.stale@;
    let os = choose|ord: Seq<usize>|
        #[trigger] crate::sorting::is_permutation(ord, ss.len()) && so.len() == ss.len() && (forall|m: int|
            0 <= m < so.len() ==> stale_of(#[trigger] so[m], issues[ss[ord[m] as int]], now)) && (
        forall|m: int, l: int|
            0 <= m < l < so.len() ==> #[trigger] so[m].hours_stale >= #[trigger] so[l].hours_stale)
            && (forall|m: int, l: int|
            0 <= m < l < so.len() && #[trigger] so[m].hours_stale == #[trigger] so[l].hours_stale
                ==> ord[m] < ord[l]);
    lemma_permuted_selection(n, pc, oc);
    lemma_permuted_selection(n, ps, os);
    assert forall|m: int| 0 <= m < out.len() implies completed_of_some(#[trigger] out[m], issues, now, h) by {
        let k = sc[oc[m] as int];
        assert(pc(k));
        assert(completed_of(out[m], issues[k]));
    }
    assert forall|k: int| 0 <= k < n && is_recently_completed(#[trigger] issues[k], now, h) implies lists_completed(out, issues, k) by {
        assert(pc(k));
        let m = choose|m: int| 0 <= m < oc.len() && #[trigger] sc[oc[m] as int] == k;
        assert(completed_of(out[m], issues[k]));
    }
    assert forall|m: int| 0 <= m < so.len() implies stale_of_some(#[trigger] so[m], issues, now, h) by {
        let k = ss[os[m] as int];
        assert(ps(k));
        assert(stale_of(so[m], issues[k], now));
    }
    assert forall|k: int| 0 <= k < n && is_stale(#[trigger] issues[k], now, h) implies lists_stale(so, issues, k, now) by {
        assert(ps(k));
        let m = choose|m: int| 0 <= m < os.len() && #[trigger] ss[os[m] as int] == k;
        assert(stale_of(so[m], issues[k], now));
    }
}

/// The whole hours between two instants, in either direction, counted in nanoseconds.
pub open spec fn hours_apart(a: Timestamp, b: Timestamp) -> int {
    let an = a.secs * 1_000_000_000 + a.nanos;
    let bn = b.secs * 1_000_000_000 + b.nanos;
    (if an >= bn {
        an - bn
    } else {
        bn - an
    }) / 3_600_000_000_000
}

/// Whether `s` is the summary of an open issue whose status is `status`.
pub open spec fn summary_of_open_with_status(s: IssueSummary, issues: Seq<Issue>, status: Status) -> bool {
    exists|k: int|
        0 <= k < issues.len() && summary_of(s, #[trigger] issues[k]) && issues[k].state == IssueState::Open
            && issues[k].status == status
}

/// The in-progress category by the issues' own fields: every open issue whose status is in
/// progress is listed there, and only such issues are.
pub proof fn lemma_in_progress_by_fields(
    r: CategorisedIssues,
    issues: Seq<Issue>,
    graph: DepGraph,
    ready_summaries: Seq<IssueSummary>,
    stale_threshold_hours: u64,
    now: Timestamp,
)
    requires
        categorised(r, issues, graph, ready_summaries, stale_threshold_hours, now),
        issues.len() <= usize::MAX,
    ensures
        forall|k: int|
            0 <= k < issues.len() && #[trigger] issues[k].state == IssueState::Open && issues[k].status
                == Status::InProgress ==> lists_issue(r.in_progress@, issues, k),
        forall|m: int|
            0 <= m < r.in_progress@.len() ==> summary_of_open_with_status(
                #[trigger] r.in_progress@[m],
                issues,
                Status::InProgress,
            ),
{
    lemma_open_categories_list_exactly(r, issues, graph, ready_summaries, stale_threshold_hours, now);
    assert forall|m: int| 0 <= m < r.in_progress@.len() implies summary_of_open_with_status(
        #[trigger] r.in_progress@[m],
        issues,
        Status::InProgress,
    ) by {
        assert(summary_of_in_progress(r.in_progress@[m], issues));
        let k = choose|k: int| 0 <= k < issues.len() && is_in_progress(#[trigger] issues[k]) && summary_of(r.in_progress@[m], issues[k]);
        assert(issues[k].state == IssueState::Open && issues[k].status == Status::InProgress);
    }
}

/// The recently-completed category by the issues' own fields: every closed issue last updated
/// at or after `now` minus the threshold in hours (capped at `u32::MAX`) is listed there.
pub proof fn lemma_completed_by_fields(
    r: CategorisedIssues,
    issues: Seq<Issue>,
    graph: DepGraph,
    ready_summaries: Seq<IssueSummary>,
    stale_threshold_hours: u64,
    now: Timestamp,
)
    requires
        categorised(r, issues, graph, ready_summaries, stale_threshold_hours, now),
        issues.len() <= usize::MAX,
    ensures
        forall|k: int|
            0 <= k < issues.len() && #[trigger] issues[k].state != IssueState::Open && ({
                let w = if stale_threshold_hours > u32::MAX {
                    u32::MAX as int
                } else {
                    stale_threshold_hours as int
                };
                let u = issues[k].updated_at;
                u.secs > now.secs - w * 3600 || (u.secs == now.secs - w * 3600 && u.nanos >= now.nanos)
            }) ==> lists_completed(r.completed@, issues, k),
{
    lemma_window_categories_list_exactly(r, issues, graph, ready_summaries, stale_threshold_hours, now);
}

/// The stale-claims category by the issues' own fields: every open issue in progress whose
/// claim is more than the threshold in whole hours old is listed there, with that many hours.
pub proof fn lemma_stale_by_fields(
    r: CategorisedIssues,
    issues: Seq<Issue>,
    graph: DepGraph,
    ready_summaries: Seq<IssueSummary>,
    stale_threshold_hours: u64,
    now: Timestamp,
)
    requires
        categorised(r, issues, graph, ready_summaries, stale_threshold_hours, now),
        issues.len() <= usize::MAX,
    ensures
        forall|k: int|
            0 <= k < issues.len() && #[trigger] issues[k].state == IssueState::Open && issues[k].status
                == Status::InProgress && issues[k].claimed_at is Some && hours_apart(
                now,
                issues[k].claimed_at->0,
            ) > stale_threshold_hours ==> exists|m: int|
                0 <= m < r.stale@.len() && #[trigger] r.stale@[m].number == issues[k].number
                    && r.stale@[m].hours_stale == hours_apart(now, issues[k].claimed_at->0),
{
    lemma_window_categories_list_exactly(r, issues, graph, ready_summaries, stale_threshold_hours, now);
    assert forall|k: int|
        0 <= k < issues.len() && #[trigger] issues[k].state == IssueState::Open && issues[k].status
            == Status::InProgress && issues[k].claimed_at is Some && hours_apart(
            now,
            issues[k].claimed_at->0,
        ) > stale_threshold_hours implies exists|m: int|
        0 <= m < r.stale@.len() && #[trigger] r.stale@[m].number == issues[k].number
            && r.stale@[m].hours_stale == hours_apart(now, issues[k].claimed_at->0) by {
        assert(elapsed_hours(now, issues[k].claimed_at->0) == hours_apart(now, issues[k].claimed_at->0));
        assert(is_stale(issues[k], now, stale_threshold_hours));
        assert(lists_stale(r.stale@, issues, k, now));
        let m = choose|m: int| 0 <= m < r.stale@.len() && stale_of(#[trigger] r.stale@[m], issues[k], now);
        assert(r.stale@[m].number == issues[k].number);
    }
}

/// Categorise `issues` at the instant `now`: in progress and blocked (by priority, then
/// creation time), recently completed (closed within `stale_threshold_hours` of `now`, most
/// recent first), stale claims (claimed more than `stale_threshold_hours` ago, most stale
/// first), the ready set without the issues in progress, and the hotspots of `graph`. Sorts are
/// stable.
pub fn categorise_issues(
    issues: &[Issue],
    graph: &DepGraph,
    ready_summaries: &[IssueSummary],
    stale_threshold_hours: u64,
    now: Timestamp,
) -> (r: CategorisedIssues)
    requires
        cutoff_in_range(now, stale_threshold_hours),
    ensures
        categorised(r, issues@, *graph, ready_summaries@, stale_threshold_hours, now),
{
    let mut ip: Vec<IssueSummary> = Vec::new();
    let mut ip_keys: Vec<PrioKey> = Vec::new();
    let mut bl: Vec<IssueSummary> = Vec::new();
    let mut bl_keys: Vec<PrioKey> = Vec::new();
    let mut cp: Vec<CompletedIssueSummary> = Vec::new();
    let mut cp_keys: Vec<DescText> = Vec::new();
    let mut st: Vec<StaleIssueSummary> = Vec::new();
    let mut st_keys: Vec<CountDesc> = Vec::new();
    let ghost iss = issues@;
    let ghost rs = ready_summaries@;
    let mut k: usize = 0;
    while k < issues.len()
        invariant
            0 <= k <= issues@.len(),
            iss == issues@,
            rs == ready_summaries@,
            ip@.len() == in_progress_upto(iss, k as nat).len(),
            ip_keys@.len() == ip@.len(),
            forall|m: int|
                0 <= m < ip@.len() ==> summary_of(#[trigger] ip@[m], iss[in_progress_upto(iss, k as nat)[m]]),
            forall|m: int|
                0 <= m < ip@.len() ==> #[trigger] ip_keys@[m] == (PrioKey {
                    rank: priority_rank(ip@[m].priority) as u8,
                    created: ip@[m].created_at,
                }),
            bl@.len() == blocked_upto(iss, rs, *graph, k as nat).len(),
            bl_keys@.len() == bl@.len(),
            forall|m: int|
                0 <= m < bl@.len() ==> summary_of(#[trigger] bl@[m], iss[blocked_upto(iss, rs, *graph, k as nat)[m]]),
            forall|m: int|
                0 <= m < bl@.len() ==> #[trigger] bl_keys@[m] == (PrioKey {
                    rank: priority_rank(bl@[m].priority) as u8,
                    created: bl@[m].created_at,
                }),
            cp@.len() == completed_upto(iss, now, stale_threshold_hours, k as nat).len(),
            cp_keys@.len() == cp@.len(),
            forall|m: int|
                0 <= m < cp@.len() ==> completed_of(#[trigger] cp@[m], iss[completed_upto(iss, now, stale_threshold_hours, k as nat)[m]]),
            forall|m: int| 0 <= m < cp@.len() ==> #[trigger] cp_keys@[m].text@ == cp@[m].closed_at@,
            st@.len() == stale_upto(iss, now, stale_threshold_hours, k as nat).len(),
            st_keys@.len() == st@.len(),
            forall|m: int|
                0 <= m < st@.len() ==> stale_of(#[trigger] st@[m], iss[stale_upto(iss, now, stale_threshold_hours, k as nat)[m]], now),
            forall|m: int| 0 <= m < st@.len() ==> #[trigger] st_keys@[m].count == st@[m].hours_stale,
        decreases issues@.len() - k,
    {
        let issue = &issues[k];
        let open = match issue.state {
            IssueState::Open => true,
            IssueState::Closed => false,
        };
        if !open {
            if in_window(issue.updated_at, now, stale_threshold_hours) {
                let closed_at = rfc3339(issue.updated_at);
                let key = DescText { text: crate::text::chars_of(closed_at.as_str()) };
                cp.push(CompletedIssueSummary {
                    qualified_id: issue.qualified_id.to_string(),
                    number: issue.number,
                    title: issue.title.clone(),
                    issue_type: copy_opt(&issue.issue_type),
                    priority: issue.priority.text(),
                    closed_at,
                    url: issue.url.clone(),
                });
                cp_keys.push(key);
            }
        } else {
            let in_progress = match issue.status {
                Status::InProgress => true,
                _ => false,
            };
            if in_progress {
                let s = issue_to_summary(issue);
                ip_keys.push(PrioKey { rank: s.priority.sort_key(), created: s.created_at });
                ip.push(s);
                if let Some(claimed) = issue.claimed_at {
                    let hours = elapsed(now, claimed);
                    if hours > stale_threshold_hours {
                        st.push(StaleIssueSummary {
                            qualified_id: issue.qualified_id.to_string(),
                            number: issue.number,
                            title: issue.title.clone(),
                            agent: copy_opt(&issue.agent),
                            claimed_at: rfc3339(claimed),
                            hours_stale: hours,
                            url: issue.url.clone(),
                        });
                        st_keys.push(CountDesc { count: hours });
                    }
                }
            } else if !ready_has(ready_summaries, &issue.qualified_id) {
                let deferred = match issue.status {
                    Status::Deferred => true,
                    _ => false,
                };
                let blocked_status = match issue.status {
                    Status::Blocked => true,
                    _ => false,
                };
                if !deferred && (blocked_status || has_open_blockers(issue, graph)) {
                    let s = issue_to_summary(issue);
                    bl_keys.push(PrioKey { rank: s.priority.sort_key(), created: s.created_at });
                    bl.push(s);
                }
            }
        }
        k = k + 1;
    }
    let ghost ipi = in_progress_upto(iss, iss.len());
    let ghost bli = blocked_upto(iss, rs, *graph, iss.len());
    let ghost cpi = completed_upto(iss, now, stale_threshold_hours, iss.len());
    let ghost sti = stale_upto(iss, now, stale_threshold_hours, iss.len());
    let in_progress = sort_by_priority(ip, ip_keys, Ghost(iss), Ghost(ipi));
    let blocked = sort_by_priority(bl, bl_keys, Ghost(iss), Ghost(bli));
    let completed = sort_completed(cp, cp_keys, Ghost(iss), Ghost(cpi));
    let stale = sort_stale(st, st_keys, Ghost(iss), Ghost(sti), Ghost(now));
    let ready = ready_without_in_progress(ready_summaries, issues);
    let hotspots = compute_hotspots(graph, issues);
    CategorisedIssues { in_progress, ready, blocked, completed, hotspots, stale }
}

// ------------------------------------------------------------------------------------------
// Hotspots
// ------------------------------------------------------------------------------------------

/// The identity of a reference, as a key.
pub type QKey = (Seq<char>, Seq<char>, u64);

/// The number of edges whose target is `t`.
pub open spec fn blocking_count(edges: Seq<crate::model::Edge>, t: QKey) -> nat
    decreases edges.len(),
{
    if edges.len() == 0 {
        0
    } else {
        blocking_count(edges.drop_last(), t) + if qkey(edges.last().target) == t {
            1nat
        } else {
            0nat
        }
    }
}

/// The last issue of `issues` whose id is `t`.
pub open spec fn issue_with(issues: Seq<Issue>, t: QKey) -> Option<Issue>
    decreases issues.len(),
{
    if issues.len() == 0 {
        None
    } else if qkey(issues.last().qualified_id) == t {
        Some(issues.last())
    } else {
        issue_with(issues.drop_last(), t)
    }
}

/// Whether some edge of `g` has the target `t`.
pub open spec fn is_target(g: DepGraph, t: QKey) -> bool {
    exists|k: int| 0 <= k < g.edges@.len() && qkey(#[trigger] g.edges@[k].target) == t
}

/// Whether `t` is a hotspot: the target of an edge, whose issue is open.
pub open spec fn is_hot(g: DepGraph, issues: Seq<Issue>, t: QKey) -> bool {
    is_target(g, t) && issue_with(issues, t) is Some && issue_with(issues, t)->0.state
        == IssueState::Open
}

/// Whether `h` describes the hotspot `t`.
pub open spec fn hotspot_desc(h: HotspotSummary, g: DepGraph, issues: Seq<Issue>, t: QKey) -> bool {
    let i = issue_with(issues, t)->0;
    &&& h.qualified_id@ == crate::cross_repo::qid_text(t.0, t.1, t.2 as nat)
    &&& h.number == i.number
    &&& h.title == i.title
    &&& h.status@ == status_text(i.status)
    &&& h.priority@ == priority_text(i.priority)
    &&& h.blocking_count == blocking_count(g.edges@, t)
    &&& h.url == i.url
}

/// Whether `a` sorts before `b`: more blocked issues first, then the smaller number.
pub open spec fn hot_before(a: HotspotSummary, b: HotspotSummary) -> bool {
    a.blocking_count > b.blocking_count || (a.blocking_count == b.blocking_count && a.number
        < b.number)
}

/// Whether `out` describes each hotspot of `g` once, most blocking first, then by number
/// (hotspots alike in both come in no promised order).
pub open spec fn hotspots_of(out: Seq<HotspotSummary>, g: DepGraph, issues: Seq<Issue>) -> bool {
    exists|ts: Seq<QKey>|
        #[trigger] ts.len() == out.len() && ts.no_duplicates() && (forall|m: int|
            0 <= m < ts.len() ==> is_hot(g, issues, #[trigger] ts[m]) && hotspot_desc(
                out[m],
                g,
                issues,
                ts[m],
            )) && (forall|t: QKey| is_hot(g, issues, t) ==> ts.contains(t)) && (forall|m: int, l: int|
            0 <= m < l < out.len() ==> !hot_before(#[trigger] out[l], #[trigger] out[m]))
}

/// The number of edges of `edges` that point at `t`.
pub open spec fn edges_into(edges: Seq<crate::model::Edge>, t: QKey) -> nat {
    edges.filter(|e: crate::model::Edge| qkey(e.target) == t).len()
}

/// Whether the blocking count of `h` is the number of edges of `g` pointing at the issue `h` names.
pub open spec fn counts_edges_into(h: HotspotSummary, g: DepGraph) -> bool {
    exists|t: QKey|
        h.qualified_id@ == crate::cross_repo::qid_text(t.0, t.1, t.2 as nat) && #[trigger] edges_into(g.edges@, t)
            == h.blocking_count
}

proof fn lemma_blocking_count_is_edges_into(edges: Seq<crate::model::Edge>, t: QKey)
    ensures
        blocking_count(edges, t) == edges_into(edges, t),
    decreases edges.len(),
{
    reveal(Seq::filter);
    if edges.len() > 0 {
        lemma_blocking_count_is_edges_into(edges.drop_last(), t);
    }
}

/// Each hotspot names, as its blocking count, the number of edges of the graph that point at it
/// (the issues it blocks), and the hotspots come with their blocking counts never increasing.
pub proof fn lemma_hotspots_count_edges_into(out: Seq<HotspotSummary>, g: DepGraph, issues: Seq<Issue>)
    requires
        hotspots_of(out, g, issues),
    ensures
        forall|m: int| 0 <= m < out.len() ==> counts_edges_into(#[trigger] out[m], g),
        forall|m: int, l: int| 0 <= m < l < out.len() ==> #[trigger] out[m].blocking_count >= #[trigger] out[l].blocking_count,
{
    let ts = choose|ts: Seq<QKey>|
        #[trigger] ts.len() == out.len() && ts.no_duplicates() && (forall|m: int|
            0 <= m < ts.len() ==> is_hot(g, issues, #[trigger] ts[m]) && hotspot_desc(
                out[m],
                g,
                issues,
                ts[m],
            )) && (forall|t: QKey| is_hot(g, issues, t) ==> ts.contains(t)) && (forall|m: int, l: int|
            0 <= m < l < out.len() ==> !hot_before(#[trigger] out[l], #[trigger] out[m]));
    assert forall|m: int| 0 <= m < out.len() implies counts_edges_into(#[trigger] out[m], g) by {
        let t = ts[m];
        assert(hotspot_desc(out[m], g, issues, t));
        lemma_blocking_count_is_edges_into(g.edges@, t);
    }
    assert forall|m: int, l: int| 0 <= m < l < out.len() implies #[trigger] out[m].blocking_count
        >= #[trigger] out[l].blocking_count by {
        assert(!hot_before(out[l], out[m]));
    }
}

fn copy_hotspot(h: &HotspotSummary) -> (r: HotspotSummary)
    ensures
        r == *h,
{
    HotspotSummary {
        qualified_id: h.qualified_id.clone(),
        number: h.number,
        title: h.title.clone(),
        status: h.status.clone(),
        priority: h.priority.clone(),
        blocking_count: h.blocking_count,
        url: h.url.clone(),
    }
}

/// The position of the last issue whose id is `t`.
fn last_issue_with(issues: &[Issue], t: &QualifiedId) -> (r: Option<usize>)
    ensures
        match r {
            Some(x) => x < issues@.len() && issue_with(issues@, qkey(*t)) == Some(issues@[x as int]),
            None => issue_with(issues@, qkey(*t)) is None,
        },
{
    let mut found: Option<usize> = None;
    let mut j: usize = 0;
    while j < issues.len()
        invariant
            0 <= j <= issues@.len(),
            match found {
                Some(x) => x < j && issue_with(issues@.take(j as int), qkey(*t)) == Some(
                    issues@[x as int],
                ),
                None => issue_with(issues@.take(j as int), qkey(*t)) is None,
            },
        decreases issues@.len() - j,
    {
        assert(issues@.take(j + 1).drop_last() =~= issues@.take(j as int));
        assert(issues@.take(j + 1).last() == issues@[j as int]);
        if crate::model::same_qid(&issues[j].qualified_id, t) {
            found = Some(j);
        }
        j = j + 1;
    }
    assert(issues@.take(issues@.len() as int) =~= issues@);
    found
}

proof fn lemma_count_step(es: Seq<crate::model::Edge>, k: int)
    requires
        0 <= k < es.len(),
    ensures
        forall|t: QKey|
            #[trigger] blocking_count(es.take(k + 1), t) == blocking_count(es.take(k), t) + if qkey(
                es[k].target,
            ) == t {
                1nat
            } else {
                0nat
            },
{
    assert(es.take(k + 1).drop_last() =~= es.take(k));
    assert(es.take(k + 1).last() == es[k]);
}

proof fn lemma_count_zero(es: Seq<crate::model::Edge>, t: QKey)
    requires
        forall|e: int| 0 <= e < es.len() ==> qkey(#[trigger] es[e].target) != t,
    ensures
        blocking_count(es, t) == 0,
    decreases es.len(),
{
    if es.len() > 0 {
        assert forall|e: int| 0 <= e < es.drop_last().len() implies qkey(
            #[trigger] es.drop_last()[e].target,
        ) != t by {
            assert(es.drop_last()[e] == es[e]);
        }
        lemma_count_zero(es.drop_last(), t);
    }
}

/// The distinct targets of `edges`, each with the number of edges pointing at it.
fn count_targets(graph: &DepGraph) -> (r: (Vec<QualifiedId>, Vec<usize>))
    ensures
        r.1@.len() == r.0@.len(),
        forall|a: int, b: int|
            0 <= a < b < r.0@.len() ==> qkey(#[trigger] r.0@[a]) != qkey(#[trigger] r.0@[b]),
        forall|x: int|
            0 <= x < r.0@.len() ==> #[trigger] r.1@[x] == blocking_count(graph.edges@, qkey(r.0@[x])),
        forall|x: int| 0 <= x < r.0@.len() ==> is_target(*graph, qkey(#[trigger] r.0@[x])),
        forall|t: QKey|
            is_target(*graph, t) ==> exists|x: int| 0 <= x < r.0@.len() && qkey(#[trigger] r.0@[x]) == t,
{
    let ghost edges = graph.edges@;
    let mut targets: Vec<QualifiedId> = Vec::new();
    let mut counts: Vec<usize> = Vec::new();
    let ghost mut src: Seq<int> = seq![];
    let ghost mut pos: Seq<int> = seq![];
    let mut k: usize = 0;
    while k < graph.edges.len()
        invariant
            0 <= k <= edges.len(),
            edges == graph.edges@,
            counts@.len() == targets@.len(),
            src.len() == targets@.len(),
            pos.len() == k,
            forall|a: int, b: int|
                0 <= a < b < targets@.len() ==> qkey(#[trigger] targets@[a]) != qkey(#[trigger] targets@[b]),
            forall|i: int|
                0 <= i < targets@.len() ==> #[trigger] counts@[i] == blocking_count(
                    edges.take(k as int),
                    qkey(targets@[i]),
                ) && counts@[i] <= k,
            forall|i: int|
                0 <= i < targets@.len() ==> 0 <= #[trigger] src[i] < k && qkey(edges[src[i]].target)
                    == qkey(targets@[i]),
            forall|e: int|
                0 <= e < k ==> 0 <= #[trigger] pos[e] < targets@.len() && qkey(targets@[pos[e]])
                    == qkey(edges[e].target),
        decreases edges.len() - k,
    {
        let tgt = &graph.edges[k].target;
        let ghost t0 = targets@;
        let ghost c0 = counts@;
        proof {
            lemma_count_step(edges, k as int);
        }
        let mut p: usize = 0;
        while p < targets.len() && !crate::model::same_qid(&targets[p], tgt)
            invariant
                0 <= p <= targets@.len(),
                forall|i: int| 0 <= i < p ==> qkey(#[trigger] targets@[i]) != qkey(*tgt),
            decreases targets@.len() - p,
        {
            p = p + 1;
        }
        if p < targets.len() {
            let c = counts[p] + 1;
            counts.set(p, c);
        } else {
            proof {
                assert forall|e: int| 0 <= e < edges.take(k as int).len() implies qkey(
                    #[trigger] edges.take(k as int)[e].target,
                ) != qkey(*tgt) by {
                    assert(edges.take(k as int)[e] == edges[e]);
                    assert(qkey(t0[pos[e]]) == qkey(edges[e].target));
                }
                lemma_count_zero(edges.take(k as int), qkey(*tgt));
                src = src.push(k as int);
            }
            targets.push(copy_qid(tgt));
            counts.push(1);
        }
        proof {
            pos = pos.push(p as int);
            assert forall|i: int| 0 <= i < targets@.len() implies #[trigger] counts@[i]
                == blocking_count(edges.take(k + 1), qkey(targets@[i])) && counts@[i] <= k + 1 by {
                if i < t0.len() {
                    assert(targets@[i] == t0[i]);
                }
            }
            assert forall|a: int, b: int| 0 <= a < b < targets@.len() implies qkey(
                #[trigger] targets@[a],
            ) != qkey(#[trigger] targets@[b]) by {
                if b == t0.len() {
                    assert(targets@[a] == t0[a]);
                } else {
                    assert(targets@[a] == t0[a]);
                    assert(targets@[b] == t0[b]);
                }
            }
            assert forall|i: int| 0 <= i < targets@.len() implies 0 <= #[trigger] src[i] < k + 1
                && qkey(edges[src[i]].target) == qkey(targets@[i]) by {
                if i < t0.len() {
                    assert(targets@[i] == t0[i]);
                }
            }
            assert forall|e: int| 0 <= e < k + 1 implies 0 <= #[trigger] pos[e] < targets@.len()
                && qkey(targets@[pos[e]]) == qkey(edges[e].target) by {
                if e < k {
                    assert(targets@[pos[e]] == t0[pos[e]]);
                }
            }
        }
        k = k + 1;
    }
    assert(edges.take(edges.len() as int) =~= edges);
    proof {
        assert forall|x: int| 0 <= x < targets@.len() implies is_target(*graph, qkey(#[trigger] targets@[x])) by {
            assert(qkey(edges[src[x]].target) == qkey(targets@[x]));
        }
        assert forall|t: QKey| is_target(*graph, t) implies exists|x: int|
            0 <= x < targets@.len() && qkey(#[trigger] targets@[x]) == t by {
            let e = choose|e: int| 0 <= e < edges.len() && qkey(#[trigger] edges[e].target) == t;
            assert(qkey(targets@[pos[e]]) == t);
        }
    }
    (targets, counts)
}

/// The hotspot descriptions of the targets whose issue is open, with their sort keys.
fn describe_hotspots(
    graph: &DepGraph,
    issues: &[Issue],
    targets: &Vec<QualifiedId>,
    counts: &Vec<usize>,
) -> (r: (Vec<HotspotSummary>, Vec<HotKey>, Ghost<Seq<QKey>>))
    requires
        counts@.len() == targets@.len(),
        forall|a: int, b: int|
            0 <= a < b < targets@.len() ==> qkey(#[trigger] targets@[a]) != qkey(#[trigger] targets@[b]),
        forall|x: int|
            0 <= x < targets@.len() ==> #[trigger] counts@[x] == blocking_count(graph.edges@, qkey(targets@[x])),
        forall|x: int| 0 <= x < targets@.len() ==> is_target(*graph, qkey(#[trigger] targets@[x])),
        forall|t: QKey|
            is_target(*graph, t) ==> exists|x: int| 0 <= x < targets@.len() && qkey(#[trigger] targets@[x]) == t,
    ensures
        r.0@.len() == r.2@.len(),
        r.1@.len() == r.2@.len(),
        r.2@.no_duplicates(),
        forall|m: int|
            0 <= m < r.2@.len() ==> is_hot(*graph, issues@, #[trigger] r.2@[m]) && hotspot_desc(
                r.0@[m],
                *graph,
                issues@,
                r.2@[m],
            ),
        forall|m: int|
            0 <= m < r.2@.len() ==> #[trigger] r.1@[m] == (HotKey {
                count: r.0@[m].blocking_count,
                number: r.0@[m].number,
            }),
        forall|t: QKey| is_hot(*graph, issues@, t) ==> r.2@.contains(t),
{
    let mut hot: Vec<HotspotSummary> = Vec::new();
    let mut keys: Vec<HotKey> = Vec::new();
    let ghost mut ts: Seq<QKey> = seq![];
    let mut i: usize = 0;
    while i < targets.len()
        invariant
            0 <= i <= targets@.len(),
            counts@.len() == targets@.len(),
            forall|a: int, b: int|
                0 <= a < b < targets@.len() ==> qkey(#[trigger] targets@[a]) != qkey(#[trigger] targets@[b]),
            forall|x: int|
                0 <= x < targets@.len() ==> #[trigger] counts@[x] == blocking_count(graph.edges@, qkey(targets@[x])),
            hot@.len() == ts.len(),
            keys@.len() == ts.len(),
            forall|m: int|
                #![trigger ts[m]]
                0 <= m < ts.len() ==> exists|x: int| 0 <= x < i && qkey(#[trigger] targets@[x]) == ts[m],
            ts.no_duplicates(),
            forall|m: int|
                0 <= m < ts.len() ==> is_hot(*graph, issues@, #[trigger] ts[m]) && hotspot_desc(
                    hot@[m],
                    *graph,
                    issues@,
                    ts[m],
                ),
            forall|m: int|
                0 <= m < ts.len() ==> #[trigger] keys@[m] == (HotKey {
                    count: hot@[m].blocking_count,
                    number: hot@[m].number,
                }),
            forall|x: int|
                0 <= x < i && is_hot(*graph, issues@, qkey(#[trigger] targets@[x])) ==> ts.contains(
                    qkey(targets@[x]),
                ),
            forall|x: int| 0 <= x < targets@.len() ==> is_target(*graph, qkey(#[trigger] targets@[x])),
        decreases targets@.len() - i,
    {
        let t = &targets[i];
        match last_issue_with(issues, t) {
            Some(x) => {
                let open = match issues[x].state {
                    IssueState::Open => true,
                    IssueState::Closed => false,
                };
                if open {
                    let issue = &issues[x];
                    let h = HotspotSummary {
                        qualified_id: t.to_string(),
                        number: issue.number,
                        title: issue.title.clone(),
                        status: issue.status.text(),
                        priority: issue.priority.text(),
                        blocking_count: counts[i],
                        url: issue.url.clone(),
                    };
                    keys.push(HotKey { count: counts[i], number: issue.number });
                    hot.push(h);
                    proof {
                        assert forall|m: int| 0 <= m < ts.len() implies ts[m] != qkey(
                            targets@[i as int],
                        ) by {
                            let x2 = choose|x2: int| 0 <= x2 < i && qkey(#[trigger] targets@[x2]) == ts[m];
                        }
                        let ghost old_ts = ts;
                        ts = ts.push(qkey(targets@[i as int]));
                        assert forall|m: int| #![trigger ts[m]] 0 <= m < ts.len() implies exists|x2: int|
                            0 <= x2 < i + 1 && qkey(#[trigger] targets@[x2]) == ts[m] by {
                            if m < old_ts.len() {
                                let x2 = choose|x2: int| 0 <= x2 < i && qkey(#[trigger] targets@[x2]) == old_ts[m];
                            } else {
                                assert(qkey(targets@[i as int]) == ts[m]);
                            }
                        }
                        assert forall|x2: int|
                            0 <= x2 < i + 1 && is_hot(*graph, issues@, qkey(#[trigger] targets@[x2])) implies ts.contains(
                                qkey(targets@[x2]),
                            ) by {
                            if x2 < i {
                                assert(old_ts.contains(qkey(targets@[x2])));
                                let m = choose|m: int| 0 <= m < old_ts.len() && old_ts[m] == qkey(targets@[x2]);
                                assert(ts[m] == old_ts[m]);
                            } else {
                                assert(ts[old_ts.len() as int] == qkey(targets@[x2]));
                            }
                        }
                    }
                }
            },
            None => {},
        }
        i = i + 1;
    }
    proof {
        assert forall|t: QKey| is_hot(*graph, issues@, t) implies ts.contains(t) by {
            let x = choose|x: int| 0 <= x < targets@.len() && qkey(#[trigger] targets@[x]) == t;
        }
    }
    (hot, keys, Ghost(ts))
}

/// The hotspots of `graph`: each open issue that blocks others, with how many blocking edges
/// point at it, most blocking first, then by number.
pub fn compute_hotspots(graph: &DepGraph, issues: &[Issue]) -> (r: Vec<HotspotSummary>)
    ensures
        hotspots_of(r@, *graph, issues@),
{
    let (targets, counts) = count_targets(graph);
    let (hot, keys, Ghost(ts)) = describe_hotspots(graph, issues, &targets, &counts);
    let ord = stable_order(&keys);
    let mut r: Vec<HotspotSummary> = Vec::new();
    let mut m: usize = 0;
    while m < ord.len()
        invariant
            0 <= m <= ord@.len(),
            r@.len() == m,
            stably_sorts(ord@, keys@),
            keys@.len() == hot@.len(),
            forall|a: int| 0 <= a < m ==> #[trigger] r@[a] == hot@[ord@[a] as int],
        decreases ord@.len() - m,
    {
        r.push(copy_hotspot(&hot[ord[m]]));
        m = m + 1;
    }
    proof {
        let o = ord@;
        let ts2 = Seq::new(o.len(), |a: int| ts[o[a] as int]);
        assert(ts2.no_duplicates()) by {
            assert forall|a: int, b: int| 0 <= a < b < ts2.len() implies ts2[a] != ts2[b] by {
                assert(o[a] != o[b]);
            }
        }
        assert forall|t: QKey| is_hot(*graph, issues@, t) implies ts2.contains(t) by {
            assert(ts.contains(t));
            let mm = choose|mm: int| 0 <= mm < ts.len() && ts[mm] == t;
            lemma_permutation_covers(o, ts.len(), mm as usize);
            let a = choose|a: int| 0 <= a < o.len() && o[a] == mm as usize;
            assert(ts2[a] == t);
        }
        assert forall|a: int| 0 <= a < ts2.len() implies is_hot(*graph, issues@, #[trigger] ts2[a]) && hotspot_desc(
            r@[a],
            *graph,
            issues@,
            ts2[a],
        ) by {
            assert(r@[a] == hot@[o[a] as int]);
        }
        assert forall|a: int, b: int| 0 <= a < b < r@.len() implies !hot_before(#[trigger] r@[b], #[trigger] r@[a]) by {
            assert(!keys@[o[b] as int].ranks_before(&keys@[o[a] as int]));
        }
        assert(ts2.len() == r@.len());
    }
    r
}

/// A permutation of `0..n` visits every position.
proof fn lemma_permutation_covers(o: Seq<usize>, n: nat, x: usize)
    requires
        crate::sorting::is_permutation(o, n),
        x < n,
        n <= usize::MAX,
    ensures
        o.to_set().contains(x),
{
    let s = o.to_set();
    let full = Set::new(|y: usize| y < n);
    assert forall|y: usize| s.contains(y) implies full.contains(y) by {
        let a = choose|a: int| 0 <= a < o.len() && o[a] == y;
    }
    o.unique_seq_to_set();
    if !s.contains(x) {
        let smaller = full.remove(x);
        assert(s.subset_of(smaller));
        lemma_range_set_len(n);
        vstd::set_lib::lemma_len_subset(s, smaller);
        assert(false);
    }
}

/// The positions below `n` are `n` of them.
proof fn lemma_range_set_len(n: nat)
    requires
        n <= usize::MAX,
    ensures
        Set::new(|y: usize| y < n).finite(),
        Set::new(|y: usize| y < n).len() == n,
    decreases n,
{
    let full = Set::new(|y: usize| y < n);
    if n == 0 {
        assert(full =~= Set::<usize>::empty());
    } else {
        lemma_range_set_len((n - 1) as nat);
        let prev = Set::new(|y: usize| y < (n - 1) as nat);
        assert(full =~= prev.insert((n - 1) as usize));
    }
}

// ------------------------------------------------------------------------------------------
// Rendering
// ------------------------------------------------------------------------------------------

/// The counts rendered in `## Counts`, taken after the agent filter and before truncation.
#[derive(Debug, Clone, Copy, PartialEq, Eq, Structural)]
pub struct PrimeCounts {
    pub in_progress: usize,
    pub ready: usize,
    pub blocked: usize,
    pub completed: usize,
    pub hotspots: usize,
    pub stale: usize,
}

/// The session the context is rendered for.
#[derive(Debug, Clone, PartialEq, Eq)]
pub struct SessionMeta {
    /// The connected client's name.
    pub agent_client: String,
    /// The normalised agent kind.
    pub agent_kind: String,
    /// The operator-defined agent field, when set.
    pub agent_field: Option<String>,
    /// When the session started.
    pub connected_at: Timestamp,
}

/// The configured repository.
#[derive(Debug, Clone, PartialEq, Eq)]
pub struct RepoIdentity {
    pub owner: String,
    pub repo: String,
    pub project_number: Option<u64>,
}

impl RepoIdentity {
    /// The configured repository, from what the server state reports: owner, repository and
    /// project number.
    pub fn from_state(owner: &str, repo: &str, project_number: Option<u64>) -> (r: RepoIdentity)
        ensures
            r.owner@ == owner@,
            r.repo@ == repo@,
            r.project_number == project_number,
    {
        RepoIdentity { owner: owner.to_string(), repo: repo.to_string(), project_number }
    }
}

impl SessionMeta {
    /// The session, from what the server state holds: the client's name (`unknown` before the
    /// client introduced itself), the agent kind, the operator's agent field, and the connection
    /// instant (the current instant before the session was initialised).
    pub fn from_state(
        agent_client: Option<&str>,
        agent_kind: &str,
        agent_field: Option<String>,
        connected_at: Option<Timestamp>,
    ) -> (r: SessionMeta)
        ensures
            r.agent_client@ == match agent_client {
                Some(c) => c@,
                None => "unknown"@,
            },
            r.agent_kind@ == agent_kind@,
            r.agent_field == agent_field,
            connected_at matches Some(t) ==> r.connected_at == t,
            connected_at is None ==> r.connected_at.secs >= 0,
    {
        let client = match agent_client {
            Some(c) => c.to_string(),
            None => "unknown".to_string(),
        };
        let at = match connected_at {
            Some(t) => t,
            None => crate::model::utc_now(),
        };
        SessionMeta { agent_client: client, agent_kind: agent_kind.to_string(), agent_field, connected_at: at }
    }
}

/// The line that reports the items left out of a truncated list.
pub open spec fn omitted_line(total: nat, shown: nat) -> Seq<char> {
    if total > shown {
        "_… ("@ + decimal((total - shown) as nat) + " more omitted)_\n"@
    } else {
        seq![]
    }
}

/// ` (@agent)` when there is an agent.
pub open spec fn agent_suffix(a: Option<String>) -> Seq<char> {
    match a {
        Some(x) => " (@"@ + x@ + ")"@,
        None => seq![],
    }
}

/// One bullet of an in-progress, ready or blocked list.
pub open spec fn summary_line(s: PrimeIssueSummary) -> Seq<char> {
    "- #"@ + decimal(s.number as nat) + " ["@ + s.priority@ + "] "@ + s.title@ + agent_suffix(s.agent)
        + "\n"@
}

/// The bullets of a list of summaries.
pub open spec fn summary_lines(v: Seq<PrimeIssueSummary>) -> Seq<char>
    decreases v.len(),
{
    if v.len() == 0 {
        seq![]
    } else {
        summary_lines(v.drop_last()) + summary_line(v.last())
    }
}

/// The `## {heading}` section of a summary list; nothing when it is empty.
pub open spec fn category_text(heading: Seq<char>, visible: Seq<PrimeIssueSummary>, total: nat) -> Seq<char> {
    if visible.len() == 0 {
        seq![]
    } else {
        "\n## "@ + heading + "\n"@ + summary_lines(visible) + omitted_line(total, visible.len())
    }
}

fn push_omitted(out: &mut Vec<char>, total: usize, shown: usize)
    ensures
        final(out)@ == old(out)@ + omitted_line(total as nat, shown as nat),
{
    if total > shown {
        push_str(out, "_… (");
        push_decimal(out, (total - shown) as u64);
        push_str(out, " more omitted)_\n");
    }
}

fn push_agent(out: &mut Vec<char>, a: &Option<String>)
    ensures
        final(out)@ == old(out)@ + agent_suffix(*a),
{
    if let Some(x) = a {
        push_str(out, " (@");
        push_str(out, x.as_str());
        push_str(out, ")");
    }
}

/// Emit the `## {heading}` section of an in-progress, ready or blocked list.
pub fn render_category_list_summaries(out: &mut Vec<char>, heading: &str, visible: &Vec<PrimeIssueSummary>, total: usize)
    ensures
        final(out)@ == old(out)@ + category_text(heading@, visible@, total as nat),
{
    if visible.len() == 0 {
        return;
    }
    push_str(out, "\n## ");
    push_str(out, heading);
    push_str(out, "\n");
    let ghost head = out@;
    let mut i: usize = 0;
    while i < visible.len()
        invariant
            0 <= i <= visible@.len(),
            out@ == head + summary_lines(visible@.take(i as int)),
        decreases visible@.len() - i,
    {
        let s = &visible[i];
        let mut line: Vec<char> = Vec::new();
        push_str(&mut line, "- #");
        push_decimal(&mut line, s.number);
        push_str(&mut line, " [");
        push_str(&mut line, s.priority.as_str());
        push_str(&mut line, "] ");
        push_str(&mut line, s.title.as_str());
        push_agent(&mut line, &s.agent);
        push_str(&mut line, "\n");
        assert(line@ =~= summary_line(*s));
        push_all(out, &line);
        assert(visible@.take(i + 1).drop_last() =~= visible@.take(i as int));
        i = i + 1;
    }
    assert(visible@.take(visible@.len() as int) =~= visible@);
    push_omitted(out, total, visible.len());
}

/// One bullet of the recently-completed list.
pub open spec fn completed_line(c: CompletedIssueSummary) -> Seq<char> {
    "- #"@ + decimal(c.number as nat) + " ["@ + c.priority@ + "] "@ + c.title@ + "\n"@
}

/// The bullets of the recently-completed list.
pub open spec fn completed_lines(v: Seq<CompletedIssueSummary>) -> Seq<char>
    decreases v.len(),
{
    if v.len() == 0 {
        seq![]
    } else {
        completed_lines(v.drop_last()) + completed_line(v.last())
    }
}

/// The `## Recently completed` section; nothing when the list is empty.
pub open spec fn completed_text(visible: Seq<CompletedIssueSummary>, total: nat) -> Seq<char> {
    if visible.len() == 0 {
        seq![]
    } else {
        "\n## Recently completed\n"@ + completed_lines(visible) + omitted_line(total, visible.len())
    }
}

/// Emit the `## Recently completed` section.
pub fn render_completed(out: &mut Vec<char>, visible: &Vec<CompletedIssueSummary>, total: usize)
    ensures
        final(out)@ == old(out)@ + completed_text(visible@, total as nat),
{
    if visible.len() == 0 {
        return;
    }
    push_str(out, "\n## Recently completed\n");
    let ghost head = out@;
    let mut i: usize = 0;
    while i < visible.len()
        invariant
            0 <= i <= visible@.len(),
            out@ == head + completed_lines(visible@.take(i as int)),
        decreases visible@.len() - i,
    {
        let c = &visible[i];
        let mut line: Vec<char> = Vec::new();
        push_str(&mut line, "- #");
        push_decimal(&mut line, c.number);
        push_str(&mut line, " [");
        push_str(&mut line, c.priority.as_str());
        push_str(&mut line, "] ");
        push_str(&mut line, c.title.as_str());
        push_str(&mut line, "\n");
        assert(line@ =~= completed_line(*c));
        push_all(out, &line);
        assert(visible@.take(i + 1).drop_last() =~= visible@.take(i as int));
        i = i + 1;
    }
    assert(visible@.take(visible@.len() as int) =~= visible@);
    push_omitted(out, total, visible.len());
}

/// One bullet of the hotspot list.
pub open spec fn hotspot_line(h: HotspotSummary) -> Seq<char> {
    "- #"@ + decimal(h.number as nat) + " ["@ + h.priority@ + "] "@ + h.title@ + " — blocks "@
        + decimal(h.blocking_count as nat) + "\n"@
}

/// The bullets of the hotspot list.
pub open spec fn hotspot_lines(v: Seq<HotspotSummary>) -> Seq<char>
    decreases v.len(),
{
    if v.len() == 0 {
        seq![]
    } else {
        hotspot_lines(v.drop_last()) + hotspot_line(v.last())
    }
}

/// The `## Hotspots` section; nothing when the list is empty.
pub open spec fn hotspots_text(visible: Seq<HotspotSummary>, total: nat) -> Seq<char> {
    if visible.len() == 0 {
        seq![]
    } else {
        "\n## Hotspots\n"@ + hotspot_lines(visible) + omitted_line(total, visible.len())
    }
}

/// Emit the `## Hotspots` section.
pub fn render_hotspots(out: &mut Vec<char>, visible: &Vec<HotspotSummary>, total: usize)
    ensures
        final(out)@ == old(out)@ + hotspots_text(visible@, total as nat),
{
    if visible.len() == 0 {
        return;
    }
    push_str(out, "\n## Hotspots\n");
    let ghost head = out@;
    let mut i: usize = 0;
    while i < visible.len()
        invariant
            0 <= i <= visible@.len(),
            out@ == head + hotspot_lines(visible@.take(i as int)),
        decreases visible@.len() - i,
    {
        let h = &visible[i];
        let mut line: Vec<char> = Vec::new();
        push_str(&mut line, "- #");
        push_decimal(&mut line, h.number);
        push_str(&mut line, " [");
        push_str(&mut line, h.priority.as_str());
        push_str(&mut line, "] ");
        push_str(&mut line, h.title.as_str());
        push_str(&mut line, " — blocks ");
        push_decimal(&mut line, h.blocking_count as u64);
        push_str(&mut line, "\n");
        assert(line@ =~= hotspot_line(*h));
        push_all(out, &line);
        assert(visible@.take(i + 1).drop_last() =~= visible@.take(i as int));
        i = i + 1;
    }
    assert(visible@.take(visible@.len() as int) =~= visible@);
    push_omitted(out, total, visible.len());
}

/// One bullet of the stale-claims list.
pub open spec fn stale_line(s: StaleIssueSummary) -> Seq<char> {
    "- #"@ + decimal(s.number as nat) + " "@ + s.title@ + " — "@ + decimal(s.hours_stale as nat)
        + "h"@ + agent_suffix(s.agent) + "\n"@
}

/// The bullets of the stale-claims list.
pub open spec fn stale_lines(v: Seq<StaleIssueSummary>) -> Seq<char>
    decreases v.len(),
{
    if v.len() == 0 {
        seq![]
    } else {
        stale_lines(v.drop_last()) + stale_line(v.last())
    }
}

/// The `## Stale claims (>{threshold}h)` section; nothing when the list is empty.
pub open spec fn stale_text(visible: Seq<StaleIssueSummary>, total: nat, threshold: nat) -> Seq<char> {
    if visible.len() == 0 {
        seq![]
    } else {
        "\n## Stale claims (>"@ + decimal(threshold) + "h)\n"@ + stale_lines(visible) + omitted_line(
            total,
            visible.len(),
        )
    }
}

/// Emit the `## Stale claims` section.
pub fn render_stale(out: &mut Vec<char>, visible: &Vec<StaleIssueSummary>, total: usize, stale_threshold_hours: u64)
    ensures
        final(out)@ == old(out)@ + stale_text(visible@, total as nat, stale_threshold_hours as nat),
{
    if visible.len() == 0 {
        return;
    }
    push_str(out, "\n## Stale claims (>");
    push_decimal(out, stale_threshold_hours);
    push_str(out, "h)\n");
    let ghost head = out@;
    let mut i: usize = 0;
    while i < visible.len()
        invariant
            0 <= i <= visible@.len(),
            out@ == head + stale_lines(visible@.take(i as int)),
        decreases visible@.len() - i,
    {
        let s = &visible[i];
        let mut line: Vec<char> = Vec::new();
        push_str(&mut line, "- #");
        push_decimal(&mut line, s.number);
        push_str(&mut line, " ");
        push_str(&mut line, s.title.as_str());
        push_str(&mut line, " — ");
        push_decimal(&mut line, s.hours_stale);
        push_str(&mut line, "h");
        push_agent(&mut line, &s.agent);
        push_str(&mut line, "\n");
        assert(line@ =~= stale_line(*s));
        push_all(out, &line);
        assert(visible@.take(i + 1).drop_last() =~= visible@.take(i as int));
        i = i + 1;
    }
    assert(visible@.take(visible@.len() as int) =~= visible@);
    push_omitted(out, total, visible.len());
}

/// The `# Repo:` header, with the project line when there is a project.
pub open spec fn header_text(owner: Seq<char>, repo: Seq<char>, project: Option<u64>) -> Seq<char> {
    "# Repo: "@ + owner + "/"@ + repo + "\n"@ + match project {
        Some(n) => "Project: "@ + decimal(n as nat) + "\n"@,
        None => seq![],
    }
}

/// Emit the `# Repo:` header.
pub fn render_header(out: &mut Vec<char>, owner: &str, repo: &str, project_number: Option<u64>)
    ensures
        final(out)@ == old(out)@ + header_text(owner@, repo@, project_number),
{
    let mut t: Vec<char> = Vec::new();
    push_str(&mut t, "# Repo: ");
    push_str(&mut t, owner);
    push_str(&mut t, "/");
    push_str(&mut t, repo);
    push_str(&mut t, "\n");
    if let Some(n) = project_number {
        push_str(&mut t, "Project: ");
        push_decimal(&mut t, n);
        push_str(&mut t, "\n");
    }
    assert(t@ =~= header_text(owner@, repo@, project_number));
    push_all(out, &t);
}

/// The `## Counts` section.
pub open spec fn counts_text(c: PrimeCounts, threshold: nat) -> Seq<char> {
    "\n## Counts\n- ready: "@ + decimal(c.ready as nat) + "\n- blocked: "@ + decimal(c.blocked as nat)
        + "\n- in-progress: "@ + decimal(c.in_progress as nat) + "\n- completed ("@ + decimal(
        threshold,
    ) + "h): "@ + decimal(c.completed as nat) + "\n- hotspots: "@ + decimal(c.hotspots as nat)
        + "\n- stale (>"@ + decimal(threshold) + "h): "@ + decimal(c.stale as nat) + "\n"@
}

/// Emit the `## Counts` section.
pub fn render_counts(out: &mut Vec<char>, c: &PrimeCounts, stale_threshold_hours: u64)
    ensures
        final(out)@ == old(out)@ + counts_text(*c, stale_threshold_hours as nat),
{
    let mut t: Vec<char> = Vec::new();
    push_str(&mut t, "\n## Counts\n- ready: ");
    push_decimal(&mut t, c.ready as u64);
    push_str(&mut t, "\n- blocked: ");
    push_decimal(&mut t, c.blocked as u64);
    push_str(&mut t, "\n- in-progress: ");
    push_decimal(&mut t, c.in_progress as u64);
    push_str(&mut t, "\n- completed (");
    push_decimal(&mut t, stale_threshold_hours);
    push_str(&mut t, "h): ");
    push_decimal(&mut t, c.completed as u64);
    push_str(&mut t, "\n- hotspots: ");
    push_decimal(&mut t, c.hotspots as u64);
    push_str(&mut t, "\n- stale (>");
    push_decimal(&mut t, stale_threshold_hours);
    push_str(&mut t, "h): ");
    push_decimal(&mut t, c.stale as u64);
    push_str(&mut t, "\n");
    assert(t@ =~= counts_text(*c, stale_threshold_hours as nat));
    push_all(out, &t);
}

/// `#n` for each member, joined by ` → `.
pub open spec fn members_text(members: Seq<u64>) -> Seq<char>
    decreases members.len(),
{
    if members.len() == 0 {
        seq![]
    } else if members.len() == 1 {
        "#"@ + decimal(members[0] as nat)
    } else {
        members_text(members.drop_last()) + " → "@ + "#"@ + decimal(members.last() as nat)
    }
}

/// The bullet of the `idx`-th cycle (from 0), its members capped at `max_per_category` (at
/// least one).
pub open spec fn cycle_line(idx: nat, cycle: Seq<u64>, max_per_category: nat) -> Seq<char> {
    let heading = "cycle "@ + decimal(idx + 1) + ":"@;
    let take = if max_per_category >= 1 {
        max_per_category
    } else {
        1
    };
    if cycle.len() == 0 {
        "- "@ + heading + " (cross-repo only — see trailer)\n"@
    } else {
        "- "@ + heading + " "@ + members_text(
            cycle.take(
                if take < cycle.len() {
                    take as int
                } else {
                    cycle.len() as int
                },
            ),
        ) + (if cycle.len() > take {
            " … ("@ + decimal((cycle.len() - take) as nat) + " more)"@
        } else {
            seq![]
        }) + "\n"@
    }
}

/// The bullets of the first `n` cycles.
pub open spec fn cycle_lines(cycles: Seq<Vec<u64>>, n: nat, max_per_category: nat) -> Seq<char>
    decreases n,
{
    if n == 0 || n > cycles.len() {
        seq![]
    } else {
        cycle_lines(cycles, (n - 1) as nat, max_per_category) + cycle_line(
            (n - 1) as nat,
            cycles[n - 1]@,
            max_per_category,
        )
    }
}

/// The `## Issues with cycles` section; nothing when there are no cycles.
pub open spec fn cycles_text(cycles: Seq<Vec<u64>>, max_per_category: nat) -> Seq<char> {
    if cycles.len() == 0 {
        seq![]
    } else {
        "\n## Issues with cycles\n"@ + cycle_lines(cycles, cycles.len(), max_per_category)
    }
}

fn push_members(out: &mut Vec<char>, cycle: &Vec<u64>, n: usize)
    requires
        n <= cycle@.len(),
    ensures
        final(out)@ == old(out)@ + members_text(cycle@.take(n as int)),
{
    let ghost head = out@;
    let mut i: usize = 0;
    while i < n
        invariant
            0 <= i <= n <= cycle@.len(),
            out@ == head + members_text(cycle@.take(i as int)),
        decreases n - i,
    {
        let mut t: Vec<char> = Vec::new();
        if i > 0 {
            push_str(&mut t, " → ");
        }
        push_str(&mut t, "#");
        push_decimal(&mut t, cycle[i]);
        proof {
            let nxt = cycle@.take(i + 1);
            assert(nxt.drop_last() =~= cycle@.take(i as int));
            if i == 0 {
                assert(members_text(nxt) == "#"@ + decimal(cycle@[0] as nat));
                assert(t@ =~= "#"@ + decimal(cycle@[0] as nat));
            } else {
                assert(t@ =~= " → "@ + "#"@ + decimal(cycle@[i as int] as nat));
            }
        }
        push_all(out, &t);
        i = i + 1;
    }
}

/// Emit the `## Issues with cycles` section.
pub fn render_cycles(out: &mut Vec<char>, cycles: &Vec<Vec<u64>>, max_per_category: usize)
    ensures
        final(out)@ == old(out)@ + cycles_text(cycles@, max_per_category as nat),
{
    if cycles.len() == 0 {
        return;
    }
    push_str(out, "\n## Issues with cycles\n");
    let ghost head = out@;
    let mut idx: usize = 0;
    while idx < cycles.len()
        invariant
            0 <= idx <= cycles@.len(),
            out@ == head + cycle_lines(cycles@, idx as nat, max_per_category as nat),
        decreases cycles@.len() - idx,
    {
        let cycle = &cycles[idx];
        let mut t: Vec<char> = Vec::new();
        push_str(&mut t, "- ");
        push_str(&mut t, "cycle ");
        push_decimal(&mut t, (idx + 1) as u64);
        push_str(&mut t, ":");
        if cycle.len() == 0 {
            push_str(&mut t, " (cross-repo only — see trailer)\n");
        } else {
            let take = if max_per_category >= 1 {
                max_per_category
            } else {
                1
            };
            push_str(&mut t, " ");
            let n = if take < cycle.len() {
                take
            } else {
                cycle.len()
            };
            push_members(&mut t, cycle, n);
            if cycle.len() > take {
                push_str(&mut t, " … (");
                push_decimal(&mut t, (cycle.len() - take) as u64);
                push_str(&mut t, " more)");
            }
            push_str(&mut t, "\n");
        }
        assert(t@ =~= cycle_line(idx as nat, cycle@, max_per_category as nat));
        push_all(out, &t);
        idx = idx + 1;
    }
}

/// The `## Session` section.
pub open spec fn session_text(s: SessionMeta) -> Seq<char> {
    "\n## Session\n- agent_kind: "@ + s.agent_kind@ + "\n- agent_client: "@ + s.agent_client@ + "\n"@
        + match s.agent_field {
        Some(f) => "- agent_field: "@ + f@ + "\n"@,
        None => seq![],
    } + "- connected_at: "@ + rfc3339_text(s.connected_at.secs, s.connected_at.nanos) + "\n"@
}

/// Emit the `## Session` section.
pub fn render_session(out: &mut Vec<char>, session: &SessionMeta)
    ensures
        final(out)@ == old(out)@ + session_text(*session),
{
    let mut t: Vec<char> = Vec::new();
    push_str(&mut t, "\n## Session\n- agent_kind: ");
    push_str(&mut t, session.agent_kind.as_str());
    push_str(&mut t, "\n- agent_client: ");
    push_str(&mut t, session.agent_client.as_str());
    push_str(&mut t, "\n");
    if let Some(f) = &session.agent_field {
        push_str(&mut t, "- agent_field: ");
        push_str(&mut t, f.as_str());
        push_str(&mut t, "\n");
    }
    push_str(&mut t, "- connected_at: ");
    let c = rfc3339(session.connected_at);
    push_str(&mut t, c.as_str());
    push_str(&mut t, "\n");
    assert(t@ =~= session_text(*session));
    push_all(out, &t);
}

/// The bullets of a list of texts, each as `- {text}`.
pub open spec fn bullet_lines(v: Seq<Seq<char>>) -> Seq<char>
    decreases v.len(),
{
    if v.len() == 0 {
        seq![]
    } else {
        bullet_lines(v.drop_last()) + "- "@ + v.last() + "\n"@
    }
}

/// The `## Drift warnings` section; nothing when there are none.
pub open spec fn drift_text(warnings: Option<Seq<Seq<char>>>) -> Seq<char> {
    match warnings {
        Some(w) => if w.len() == 0 {
            seq![]
        } else {
            "\n## Drift warnings\n"@ + bullet_lines(w)
        },
        None => seq![],
    }
}

/// Emit the `## Drift warnings` section.
pub fn render_drift(out: &mut Vec<char>, warnings: Option<&Vec<String>>)
    ensures
        final(out)@ == old(out)@ + drift_text(
            match warnings {
                Some(w) => Some(strings_view(*w)),
                None => None,
            },
        ),
{
    let w = match warnings {
        Some(w) => w,
        None => return,
    };
    if w.len() == 0 {
        return;
    }
    push_str(out, "\n## Drift warnings\n");
    let ghost head = out@;
    let ghost sv = strings_view(*w);
    let mut i: usize = 0;
    while i < w.len()
        invariant
            0 <= i <= w@.len(),
            sv == strings_view(*w),
            out@ == head + bullet_lines(sv.take(i as int)),
        decreases w@.len() - i,
    {
        let mut t: Vec<char> = Vec::new();
        push_str(&mut t, "- ");
        push_str(&mut t, w[i].as_str());
        push_str(&mut t, "\n");
        assert(sv.take(i + 1).drop_last() =~= sv.take(i as int));
        assert(sv[i as int] == w@[i as int]@);
        push_all(out, &t);
        i = i + 1;
    }
    assert(sv.take(w@.len() as int) =~= sv);
}

/// The bullets of the trailer, each as `` - `{entry}` ``.
pub open spec fn entry_lines(v: Seq<Seq<char>>) -> Seq<char>
    decreases v.len(),
{
    if v.len() == 0 {
        seq![]
    } else {
        entry_lines(v.drop_last()) + "- `"@ + v.last() + "`\n"@
    }
}

/// The `## Cross-repo references` trailer; nothing when there is none.
pub open spec fn trailer_text(refs: Option<CrossRepoRefs>) -> Seq<char> {
    match refs {
        Some(r) => "\n## Cross-repo references\n"@ + entry_lines(strings_view(r.omitted)) + match r.summary {
            Some(s) => "\n_"@ + s@ + "_\n"@,
            None => seq![],
        },
        None => seq![],
    }
}

/// Emit the `## Cross-repo references` trailer.
pub fn render_cross_repo_trailer(out: &mut Vec<char>, refs: Option<&CrossRepoRefs>)
    ensures
        final(out)@ == old(out)@ + trailer_text(
            match refs {
                Some(r) => Some(*r),
                None => None,
            },
        ),
{
    let r = match refs {
        Some(r) => r,
        None => return,
    };
    push_str(out, "\n## Cross-repo references\n");
    let ghost head = out@;
    let ghost sv = strings_view(r.omitted);
    let mut i: usize = 0;
    while i < r.omitted.len()
        invariant
            0 <= i <= r.omitted@.len(),
            sv == strings_view(r.omitted),
            out@ == head + entry_lines(sv.take(i as int)),
        decreases r.omitted@.len() - i,
    {
        let mut t: Vec<char> = Vec::new();
        push_str(&mut t, "- `");
        push_str(&mut t, r.omitted[i].as_str());
        push_str(&mut t, "`\n");
        assert(sv.take(i + 1).drop_last() =~= sv.take(i as int));
        assert(sv[i as int] == r.omitted@[i as int]@);
        push_all(out, &t);
        i = i + 1;
    }
    assert(sv.take(r.omitted@.len() as int) =~= sv);
    if let Some(s) = &r.summary {
        push_str(out, "\n_");
        push_str(out, s.as_str());
        push_str(out, "_\n");
    }
}

// ------------------------------------------------------------------------------------------
// The context
// ------------------------------------------------------------------------------------------

/// Everything the renderer reads.
pub struct ContextInputs {
    pub owner: String,
    pub repo: String,
    pub project_number: Option<u64>,
    pub stale_threshold_hours: u64,
    pub max_per_category: usize,
    pub counts: PrimeCounts,
    pub cycles: Vec<Vec<u64>>,
    pub cross_repo_refs: Option<CrossRepoRefs>,
    pub session: SessionMeta,
    pub drift_warnings: Option<Vec<String>>,
    pub in_progress: Vec<PrimeIssueSummary>,
    pub ready: Vec<PrimeIssueSummary>,
    pub blocked: Vec<PrimeIssueSummary>,
    pub completed: Vec<CompletedIssueSummary>,
    pub hotspots: Vec<HotspotSummary>,
    pub stale: Vec<StaleIssueSummary>,
}

/// The markdown context: header, counts, the category lists, cycles, session, drift warnings
/// and the cross-repo trailer, in that order.
pub open spec fn context_text(c: ContextInputs) -> Seq<char> {
    header_text(c.owner@, c.repo@, c.project_number) + counts_text(
        c.counts,
        c.stale_threshold_hours as nat,
    ) + category_text("In progress"@, c.in_progress@, c.counts.in_progress as nat) + category_text(
        "Ready"@,
        c.ready@,
        c.counts.ready as nat,
    ) + category_text("Blocked"@, c.blocked@, c.counts.blocked as nat) + completed_text(
        c.completed@,
        c.counts.completed as nat,
    ) + hotspots_text(c.hotspots@, c.counts.hotspots as nat) + stale_text(
        c.stale@,
        c.counts.stale as nat,
        c.stale_threshold_hours as nat,
    ) + cycles_text(c.cycles@, c.max_per_category as nat) + session_text(c.session) + drift_text(
        match c.drift_warnings {
            Some(w) => Some(strings_view(w)),
            None => None,
        },
    ) + trailer_text(c.cross_repo_refs)
}

/// Whether `needle` occurs in `hay` as a contiguous run.
pub open spec fn occurs_in(needle: Seq<char>, hay: Seq<char>) -> bool {
    exists|i: int| 0 <= i && i + needle.len() <= hay.len() && #[trigger] hay.subrange(i, i + needle.len()) == needle
}

proof fn lemma_occurs_in_concat(needle: Seq<char>, a: Seq<char>, b: Seq<char>, c: Seq<char>)
    requires
        occurs_in(needle, b),
    ensures
        occurs_in(needle, a + b + c),
{
    let i = choose|i: int| 0 <= i && i + needle.len() <= b.len() && #[trigger] b.subrange(i, i + needle.len()) == needle;
    let h = a + b + c;
    let j = a.len() + i;
    assert(h.subrange(j, j + needle.len()) =~= b.subrange(i, i + needle.len()));
}

proof fn lemma_occurs_in_after(needle: Seq<char>, a: Seq<char>, b: Seq<char>)
    requires
        occurs_in(needle, b),
    ensures
        occurs_in(needle, a + b),
{
    lemma_occurs_in_concat(needle, a, b, seq![]);
    assert(a + b + seq![] =~= a + b);
}

proof fn lemma_occurs_in_before(needle: Seq<char>, a: Seq<char>, b: Seq<char>)
    requires
        occurs_in(needle, a),
    ensures
        occurs_in(needle, a + b),
{
    lemma_occurs_in_concat(needle, seq![], a, b);
    assert(seq![] + a + b =~= a + b);
}

proof fn lemma_hotspot_lines_list_each(v: Seq<HotspotSummary>, j: int)
    requires
        0 <= j < v.len(),
    ensures
        occurs_in(hotspot_line(v[j]), hotspot_lines(v)),
    decreases v.len(),
{
    let l = hotspot_line(v[j]);
    if j == v.len() - 1 {
        let h = hotspot_lines(v);
        let pre = hotspot_lines(v.drop_last());
        assert(h == pre + l);
        assert(h.subrange(pre.len() as int, (pre.len() + l.len()) as int) =~= l);
    } else {
        lemma_hotspot_lines_list_each(v.drop_last(), j);
        assert(v.drop_last()[j] == v[j]);
        lemma_occurs_in_concat(l, seq![], hotspot_lines(v.drop_last()), hotspot_line(v.last()));
        assert(seq![] + hotspot_lines(v.drop_last()) + hotspot_line(v.last()) =~= hotspot_lines(v));
    }
}

/// The rendered context names every visible hotspot on a bullet of its own:
/// `- #<number> [<priority>] <title> — blocks <blocking count>`.
pub proof fn lemma_context_lists_each_hotspot(c: ContextInputs, j: int)
    requires
        0 <= j < c.hotspots@.len(),
    ensures
        occurs_in(
            "- #"@ + decimal(c.hotspots@[j].number as nat) + " ["@ + c.hotspots@[j].priority@ + "] "@
                + c.hotspots@[j].title@ + " — blocks "@ + decimal(c.hotspots@[j].blocking_count as nat)
                + "\n"@,
            context_text(c),
        ),
{
    let v = c.hotspots@;
    let l = hotspot_line(v[j]);
    lemma_hotspot_lines_list_each(v, j);
    let total = c.counts.hotspots as nat;
    lemma_occurs_in_concat(l, "\n## Hotspots\n"@, hotspot_lines(v), omitted_line(total, v.len()));
    let sec = hotspots_text(v, total);
    assert(occurs_in(l, sec));
    let x0 = header_text(c.owner@, c.repo@, c.project_number) + counts_text(
        c.counts,
        c.stale_threshold_hours as nat,
    ) + category_text("In progress"@, c.in_progress@, c.counts.in_progress as nat) + category_text(
        "Ready"@,
        c.ready@,
        c.counts.ready as nat,
    ) + category_text("Blocked"@, c.blocked@, c.counts.blocked as nat) + completed_text(
        c.completed@,
        c.counts.completed as nat,
    );
    lemma_occurs_in_after(l, x0, sec);
    let x1 = x0 + sec;
    let s1 = stale_text(c.stale@, c.counts.stale as nat, c.stale_threshold_hours as nat);
    lemma_occurs_in_before(l, x1, s1);
    let x2 = x1 + s1;
    let s2 = cycles_text(c.cycles@, c.max_per_category as nat);
    lemma_occurs_in_before(l, x2, s2);
    let x3 = x2 + s2;
    let s3 = session_text(c.session);
    lemma_occurs_in_before(l, x3, s3);
    let x4 = x3 + s3;
    let s4 = drift_text(
        match c.drift_warnings {
            Some(w) => Some(strings_view(w)),
            None => None,
        },
    );
    lemma_occurs_in_before(l, x4, s4);
    let x5 = x4 + s4;
    let s5 = trailer_text(c.cross_repo_refs);
    lemma_occurs_in_before(l, x5, s5);
    assert(context_text(c) == x5 + s5);
}

/// The parts of the context, in order.
pub open spec fn context_parts(c: ContextInputs) -> Seq<Seq<char>> {
    seq![
        header_text(c.owner@, c.repo@, c.project_number),
        counts_text(c.counts, c.stale_threshold_hours as nat),
        category_text("In progress"@, c.in_progress@, c.counts.in_progress as nat),
        category_text("Ready"@, c.ready@, c.counts.ready as nat),
        category_text("Blocked"@, c.blocked@, c.counts.blocked as nat),
        completed_text(c.completed@, c.counts.completed as nat),
        hotspots_text(c.hotspots@, c.counts.hotspots as nat),
        stale_text(c.stale@, c.counts.stale as nat, c.stale_threshold_hours as nat),
        cycles_text(c.cycles@, c.max_per_category as nat),
        session_text(c.session),
        drift_text(
            match c.drift_warnings {
                Some(w) => Some(strings_view(w)),
                None => None,
            },
        ),
        trailer_text(c.cross_repo_refs),
    ]
}

/// The concatenation of the first `n` parts.
pub open spec fn joined(ps: Seq<Seq<char>>, n: nat) -> Seq<char>
    decreases n,
{
    if n == 0 {
        seq![]
    } else {
        joined(ps, (n - 1) as nat) + ps[n - 1]
    }
}

proof fn lemma_occurs_in_joined(l: Seq<char>, ps: Seq<Seq<char>>, n: nat, k: int)
    requires
        0 <= k < n <= ps.len(),
        occurs_in(l, ps[k]),
    ensures
        occurs_in(l, joined(ps, n)),
    decreases n,
{
    if k == n - 1 {
        lemma_occurs_in_after(l, joined(ps, (n - 1) as nat), ps[k]);
    } else {
        lemma_occurs_in_joined(l, ps, (n - 1) as nat, k);
        lemma_occurs_in_before(l, joined(ps, (n - 1) as nat), ps[n - 1]);
    }
}

/// What occurs in a part of the context occurs in the context.
proof fn lemma_occurs_in_context(c: ContextInputs, l: Seq<char>, k: int)
    requires
        0 <= k < 12,
        occurs_in(l, context_parts(c)[k]),
    ensures
        occurs_in(l, context_text(c)),
{
    let ps = context_parts(c);
    lemma_occurs_in_joined(l, ps, 12, k);
    assert(joined(ps, 12) == context_text(c)) by {
        reveal_with_fuel(joined, 13);
    }
}

/// The bullet of one entry of an in-progress, ready or blocked list.
pub open spec fn bullet_text(number: u64, priority: Seq<char>, title: Seq<char>, agent: Option<String>) -> Seq<char> {
    "- #"@ + decimal(number as nat) + " ["@ + priority + "] "@ + title + (match agent {
        Some(a) => " (@"@ + a@ + ")"@,
        None => seq![],
    }) + "\n"@
}

proof fn lemma_summary_lines_list_each(v: Seq<PrimeIssueSummary>, j: int)
    requires
        0 <= j < v.len(),
    ensures
        occurs_in(summary_line(v[j]), summary_lines(v)),
    decreases v.len(),
{
    let l = summary_line(v[j]);
    if j == v.len() - 1 {
        let h = summary_lines(v);
        let pre = summary_lines(v.drop_last());
        assert(h.subrange(pre.len() as int, (pre.len() + l.len()) as int) =~= l);
    } else {
        lemma_summary_lines_list_each(v.drop_last(), j);
        assert(v.drop_last()[j] == v[j]);
        lemma_occurs_in_before(l, summary_lines(v.drop_last()), summary_line(v.last()));
    }
}

proof fn lemma_category_lists_each(heading: Seq<char>, v: Seq<PrimeIssueSummary>, total: nat, j: int)
    requires
        0 <= j < v.len(),
    ensures
        occurs_in(bullet_text(v[j].number, v[j].priority@, v[j].title@, v[j].agent), category_text(heading, v, total)),
{
    lemma_summary_lines_list_each(v, j);
    assert(summary_line(v[j]) == bullet_text(v[j].number, v[j].priority@, v[j].title@, v[j].agent));
    lemma_occurs_in_concat(summary_line(v[j]), "\n## "@ + heading + "\n"@, summary_lines(v), omitted_line(total, v.len()));
}

proof fn lemma_completed_lines_list_each(v: Seq<CompletedIssueSummary>, j: int)
    requires
        0 <= j < v.len(),
    ensures
        occurs_in(completed_line(v[j]), completed_lines(v)),
    decreases v.len(),
{
    let l = completed_line(v[j]);
    if j == v.len() - 1 {
        let h = completed_lines(v);
        let pre = completed_lines(v.drop_last());
        assert(h.subrange(pre.len() as int, (pre.len() + l.len()) as int) =~= l);
    } else {
        lemma_completed_lines_list_each(v.drop_last(), j);
        assert(v.drop_last()[j] == v[j]);
        lemma_occurs_in_before(l, completed_lines(v.drop_last()), completed_line(v.last()));
    }
}

proof fn lemma_stale_lines_list_each(v: Seq<StaleIssueSummary>, j: int)
    requires
        0 <= j < v.len(),
    ensures
        occurs_in(stale_line(v[j]), stale_lines(v)),
    decreases v.len(),
{
    let l = stale_line(v[j]);
    if j == v.len() - 1 {
        let h = stale_lines(v);
        let pre = stale_lines(v.drop_last());
        assert(h.subrange(pre.len() as int, (pre.len() + l.len()) as int) =~= l);
    } else {
        lemma_stale_lines_list_each(v.drop_last(), j);
        assert(v.drop_last()[j] == v[j]);
        lemma_occurs_in_before(l, stale_lines(v.drop_last()), stale_line(v.last()));
    }
}

/// The rendered context names every visible entry of each category on a bullet of its own: in
/// progress, ready and blocked as `- #<number> [<priority>] <title>` with ` (@<agent>)` when
/// claimed; recently completed as `- #<number> [<priority>] <title>`; stale claims as
/// `- #<number> <title> — <hours>h` with the agent.
pub proof fn lemma_context_lists_each_entry(c: ContextInputs)
    ensures
        forall|j: int|
            0 <= j < c.in_progress@.len() ==> occurs_in(
                bullet_text(
                    #[trigger] c.in_progress@[j].number,
                    c.in_progress@[j].priority@,
                    c.in_progress@[j].title@,
                    c.in_progress@[j].agent,
                ),
                context_text(c),
            ),
        forall|j: int|
            0 <= j < c.ready@.len() ==> occurs_in(
                bullet_text(#[trigger] c.ready@[j].number, c.ready@[j].priority@, c.ready@[j].title@, c.ready@[j].agent),
                context_text(c),
            ),
        forall|j: int|
            0 <= j < c.blocked@.len() ==> occurs_in(
                bullet_text(
                    #[trigger] c.blocked@[j].number,
                    c.blocked@[j].priority@,
                    c.blocked@[j].title@,
                    c.blocked@[j].agent,
                ),
                context_text(c),
            ),
        forall|j: int|
            0 <= j < c.completed@.len() ==> occurs_in(
                "- #"@ + decimal(#[trigger] c.completed@[j].number as nat) + " ["@ + c.completed@[j].priority@ + "] "@
                    + c.completed@[j].title@ + "\n"@,
                context_text(c),
            ),
        forall|j: int|
            0 <= j < c.stale@.len() ==> occurs_in(
                "- #"@ + decimal(#[trigger] c.stale@[j].number as nat) + " "@ + c.stale@[j].title@ + " — "@
                    + decimal(c.stale@[j].hours_stale as nat) + "h"@ + (match c.stale@[j].agent {
                    Some(a) => " (@"@ + a@ + ")"@,
                    None => seq![],
                }) + "\n"@,
                context_text(c),
            ),
{
    let ps = context_parts(c);
    assert forall|j: int| 0 <= j < c.in_progress@.len() implies occurs_in(
        bullet_text(
            #[trigger] c.in_progress@[j].number,
            c.in_progress@[j].priority@,
            c.in_progress@[j].title@,
            c.in_progress@[j].agent,
        ),
        context_text(c),
    ) by {
        let v = c.in_progress@;
        lemma_category_lists_each("In progress"@, v, c.counts.in_progress as nat, j);
        lemma_occurs_in_context(c, bullet_text(v[j].number, v[j].priority@, v[j].title@, v[j].agent), 2);
    }
    assert forall|j: int| 0 <= j < c.ready@.len() implies occurs_in(
        bullet_text(#[trigger] c.ready@[j].number, c.ready@[j].priority@, c.ready@[j].title@, c.ready@[j].agent),
        context_text(c),
    ) by {
        let v = c.ready@;
        lemma_category_lists_each("Ready"@, v, c.counts.ready as nat, j);
        lemma_occurs_in_context(c, bullet_text(v[j].number, v[j].priority@, v[j].title@, v[j].agent), 3);
    }
    assert forall|j: int| 0 <= j < c.blocked@.len() implies occurs_in(
        bullet_text(
            #[trigger] c.blocked@[j].number,
            c.blocked@[j].priority@,
            c.blocked@[j].title@,
            c.blocked@[j].agent,
        ),
        context_text(c),
    ) by {
        let v = c.blocked@;
        lemma_category_lists_each("Blocked"@, v, c.counts.blocked as nat, j);
        lemma_occurs_in_context(c, bullet_text(v[j].number, v[j].priority@, v[j].title@, v[j].agent), 4);
    }
    assert forall|j: int| 0 <= j < c.completed@.len() implies occurs_in(
        "- #"@ + decimal(#[trigger] c.completed@[j].number as nat) + " ["@ + c.completed@[j].priority@ + "] "@
            + c.completed@[j].title@ + "\n"@,
        context_text(c),
    ) by {
        let v = c.completed@;
        let t = c.counts.completed as nat;
        lemma_completed_lines_list_each(v, j);
        lemma_occurs_in_concat(completed_line(v[j]), "\n## Recently completed\n"@, completed_lines(v), omitted_line(t, v.len()));
        lemma_occurs_in_context(c, completed_line(v[j]), 5);
    }
    assert forall|j: int| 0 <= j < c.stale@.len() implies occurs_in(
        "- #"@ + decimal(#[trigger] c.stale@[j].number as nat) + " "@ + c.stale@[j].title@ + " — "@
            + decimal(c.stale@[j].hours_stale as nat) + "h"@ + (match c.stale@[j].agent {
            Some(a) => " (@"@ + a@ + ")"@,
            None => seq![],
        }) + "\n"@,
        context_text(c),
    ) by {
        let v = c.stale@;
        let t = c.counts.stale as nat;
        let th = c.stale_threshold_hours as nat;
        lemma_stale_lines_list_each(v, j);
        lemma_occurs_in_concat(
            stale_line(v[j]),
            "\n## Stale claims (>"@ + decimal(th) + "h)\n"@,
            stale_lines(v),
            omitted_line(t, v.len()),
        );
        lemma_occurs_in_context(c, stale_line(v[j]), 7);
    }
}

/// Render the markdown context.
pub fn render_context(ctx: &ContextInputs) -> (s: String)
    ensures
        s@ == context_text(*ctx),
        forall|j: int|
            0 <= j < ctx.hotspots@.len() ==> occurs_in(
                "- #"@ + decimal(#[trigger] ctx.hotspots@[j].number as nat) + " ["@ + ctx.hotspots@[j].priority@
                    + "] "@ + ctx.hotspots@[j].title@ + " — blocks "@ + decimal(
                    ctx.hotspots@[j].blocking_count as nat,
                ) + "\n"@,
                s@,
            ),
{
    let mut out: Vec<char> = Vec::new();
    render_header(&mut out, ctx.owner.as_str(), ctx.repo.as_str(), ctx.project_number);
    render_counts(&mut out, &ctx.counts, ctx.stale_threshold_hours);
    render_category_list_summaries(&mut out, "In progress", &ctx.in_progress, ctx.counts.in_progress);
    render_category_list_summaries(&mut out, "Ready", &ctx.ready, ctx.counts.ready);
    render_category_list_summaries(&mut out, "Blocked", &ctx.blocked, ctx.counts.blocked);
    render_completed(&mut out, &ctx.completed, ctx.counts.completed);
    render_hotspots(&mut out, &ctx.hotspots, ctx.counts.hotspots);
    render_stale(&mut out, &ctx.stale, ctx.counts.stale, ctx.stale_threshold_hours);
    render_cycles(&mut out, &ctx.cycles, ctx.max_per_category);
    render_session(&mut out, &ctx.session);
    let drift = match &ctx.drift_warnings {
        Some(w) => Some(w),
        None => None,
    };
    render_drift(&mut out, drift);
    let refs = match &ctx.cross_repo_refs {
        Some(r) => Some(r),
        None => None,
    };
    render_cross_repo_trailer(&mut out, refs);
    assert(out@ =~= context_text(*ctx));
    proof {
        assert forall|j: int| 0 <= j < ctx.hotspots@.len() implies occurs_in(
            "- #"@ + decimal(#[trigger] ctx.hotspots@[j].number as nat) + " ["@ + ctx.hotspots@[j].priority@
                + "] "@ + ctx.hotspots@[j].title@ + " — blocks "@ + decimal(
                ctx.hotspots@[j].blocking_count as nat,
            ) + "\n"@,
            context_text(*ctx),
        ) by {
            lemma_context_lists_each_hotspot(*ctx, j);
        }
    }
    string_of(&out)
}

/// Whether `out` holds the renderer's view of the first `max` summaries of `src`.
pub open spec fn truncated_summaries(out: Seq<PrimeIssueSummary>, src: Seq<IssueSummary>, max: nat) -> bool {
    &&& out.len() == (if src.len() < max {
        src.len()
    } else {
        max
    })
    &&& forall|k: int| 0 <= k < out.len() ==> prime_summary_of(#[trigger] out[k], src[k])
}

/// The first `max` items of `v`.
pub open spec fn first_n<T>(v: Seq<T>, max: nat) -> Seq<T> {
    v.take(
        if v.len() < max {
            v.len() as int
        } else {
            max as int
        },
    )
}

/// The builder of the renderer's inputs: counts, projected cycles and truncated lists.
pub struct ContextInputsBuilder {
    pub owner: String,
    pub repo: String,
    pub project_number: Option<u64>,
    pub stale_threshold_hours: u64,
    pub max_per_category: usize,
    pub counts: PrimeCounts,
    pub cycles: Vec<Vec<u64>>,
    pub cross_repo_refs: Option<CrossRepoRefs>,
    pub in_progress: Vec<PrimeIssueSummary>,
    pub ready: Vec<PrimeIssueSummary>,
    pub blocked: Vec<PrimeIssueSummary>,
    pub completed: Vec<CompletedIssueSummary>,
    pub hotspots: Vec<HotspotSummary>,
    pub stale: Vec<StaleIssueSummary>,
}

/// Whether `b` is what the builder makes of its arguments.
pub open spec fn built_from(
    b: ContextInputsBuilder,
    repo: RepoIdentity,
    stale_threshold_hours: u64,
    max_per_category: usize,
    filtered: CategorisedIssues,
    raw_cycles: Seq<Vec<QualifiedId>>,
) -> bool {
    &&& b.owner == repo.owner
    &&& b.repo == repo.repo
    &&& b.project_number == repo.project_number
    &&& b.stale_threshold_hours == stale_threshold_hours
    &&& b.max_per_category == max_per_category
    &&& b.counts == (PrimeCounts {
        in_progress: filtered.in_progress@.len() as usize,
        ready: filtered.ready@.len() as usize,
        blocked: filtered.blocked@.len() as usize,
        completed: filtered.completed@.len() as usize,
        hotspots: filtered.hotspots@.len() as usize,
        stale: filtered.stale@.len() as usize,
    })
    &&& b.cycles@.len() == raw_cycles.len()
    &&& forall|c: int|
        0 <= c < raw_cycles.len() ==> #[trigger] b.cycles@[c]@ == crate::cross_repo::local_numbers(
            raw_cycles[c]@,
            repo.owner@,
            repo.repo@,
        )
    &&& crate::dep_cycles::cycles_refs_of(
        b.cross_repo_refs,
        crate::cross_repo::all_cross_texts(raw_cycles, repo.owner@, repo.repo@),
    )
    &&& truncated_summaries(b.in_progress@, filtered.in_progress@, max_per_category as nat)
    &&& truncated_summaries(b.ready@, filtered.ready@, max_per_category as nat)
    &&& truncated_summaries(b.blocked@, filtered.blocked@, max_per_category as nat)
    &&& b.completed@ == first_n(filtered.completed@, max_per_category as nat)
    &&& b.hotspots@ == first_n(filtered.hotspots@, max_per_category as nat)
    &&& b.stale@ == first_n(filtered.stale@, max_per_category as nat)
}

fn take_summaries(v: &Vec<IssueSummary>, max: usize) -> (r: Vec<PrimeIssueSummary>)
    ensures
        truncated_summaries(r@, v@, max as nat),
{
    let mut r: Vec<PrimeIssueSummary> = Vec::new();
    let mut i: usize = 0;
    while i < v.len() && i < max
        invariant
            0 <= i <= v@.len(),
            i <= max,
            r@.len() == i,
            forall|k: int| 0 <= k < i ==> prime_summary_of(#[trigger] r@[k], v@[k]),
        decreases v@.len() - i,
    {
        r.push(PrimeIssueSummary::from_core(&v[i]));
        i = i + 1;
    }
    r
}

fn take_first<T>(v: Vec<T>, max: usize) -> (r: Vec<T>)
    ensures
        r@ == first_n(v@, max as nat),
{
    let ghost orig = v@;
    let mut v = v;
    if v.len() > max {
        v.truncate(max);
    }
    assert(v@ =~= first_n(orig, max as nat));
    v
}

impl ContextInputsBuilder {
    /// Count the filtered categories, project the cycles onto the configured repository (with
    /// the cross-repo trailer), and cap every list at `max_per_category`.
    pub fn new(
        repo: RepoIdentity,
        stale_threshold_hours: u64,
        max_per_category: usize,
        filtered: CategorisedIssues,
        raw_cycles: &[Vec<QualifiedId>],
    ) -> (b: ContextInputsBuilder)
        ensures
            built_from(b, repo, stale_threshold_hours, max_per_category, filtered, raw_cycles@),
    {
        let counts = PrimeCounts {
            in_progress: filtered.in_progress.len(),
            ready: filtered.ready.len(),
            blocked: filtered.blocked.len(),
            completed: filtered.completed.len(),
            hotspots: filtered.hotspots.len(),
            stale: filtered.stale.len(),
        };
        let (cycles, accum) = crate::cross_repo::project_all_cycles(
            raw_cycles,
            repo.owner.as_str(),
            repo.repo.as_str(),
        );
        let ghost set = accum.members();
        let ghost listing = accum.seq();
        let n_items = accum.len();
        let cross_repo_refs = crate::cross_repo::build_cross_repo_refs_with_summary(
            accum,
            crate::cross_repo::cycles_summary,
        );
        proof {
            if cross_repo_refs is None {
                assert(listing.len() == 0);
                assert(set =~= Set::<Seq<char>>::empty());
            } else {
                assert(listing.len() > 0);
                assert(set.contains(listing[0]));
                assert(set != Set::<Seq<char>>::empty());
                let refs = cross_repo_refs->0;
                let sm = refs.summary->0;
                assert(call_ensures(
                    crate::cross_repo::cycles_summary,
                    (listing.len() as usize,),
                    sm,
                ));
                assert(n_items as nat == listing.len());
            }
        }
        let in_progress = take_summaries(&filtered.in_progress, max_per_category);
        let ready = take_summaries(&filtered.ready, max_per_category);
        let blocked = take_summaries(&filtered.blocked, max_per_category);
        let CategorisedIssues { in_progress: _, ready: _, blocked: _, completed, hotspots, stale } =
            filtered;
        ContextInputsBuilder {
            owner: repo.owner,
            repo: repo.repo,
            project_number: repo.project_number,
            stale_threshold_hours,
            max_per_category,
            counts,
            cycles,
            cross_repo_refs,
            in_progress,
            ready,
            blocked,
            completed: take_first(completed, max_per_category),
            hotspots: take_first(hotspots, max_per_category),
            stale: take_first(stale, max_per_category),
        }
    }

    /// The renderer's inputs, with the session and the drift warnings.
    pub fn build(self, session: SessionMeta, drift_warnings: Option<Vec<String>>) -> (c: ContextInputs)
        ensures
            c.owner == self.owner,
            c.repo == self.repo,
            c.project_number == self.project_number,
            c.stale_threshold_hours == self.stale_threshold_hours,
            c.max_per_category == self.max_per_category,
            c.counts == self.counts,
            c.cycles == self.cycles,
            c.cross_repo_refs == self.cross_repo_refs,
            c.session == session,
            c.drift_warnings == drift_warnings,
            c.in_progress == self.in_progress,
            c.ready == self.ready,
            c.blocked == self.blocked,
            c.completed == self.completed,
            c.hotspots == self.hotspots,
            c.stale == self.stale,
    {
        ContextInputs {
            owner: self.owner,
            repo: self.repo,
            project_number: self.project_number,
            stale_threshold_hours: self.stale_threshold_hours,
            max_per_category: self.max_per_category,
            counts: self.counts,
            cycles: self.cycles,
            cross_repo_refs: self.cross_repo_refs,
            session,
            drift_warnings,
            in_progress: self.in_progress,
            ready: self.ready,
            blocked: self.blocked,
            completed: self.completed,
            hotspots: self.hotspots,
            stale: self.stale,
        }
    }
}

/// Whether `c` is what the builder makes of its arguments, with the session and the drift
/// warnings.
pub open spec fn inputs_from(
    c: ContextInputs,
    repo: RepoIdentity,
    stale_threshold_hours: u64,
    max_per_category: usize,
    filtered: CategorisedIssues,
    raw_cycles: Seq<Vec<QualifiedId>>,
    session: SessionMeta,
    drift_warnings: Option<Vec<String>>,
) -> bool {
    exists|b: ContextInputsBuilder|
        #[trigger] built_from(b, repo, stale_threshold_hours, max_per_category, filtered, raw_cycles)
            && c.owner == b.owner && c.repo == b.repo && c.project_number == b.project_number
            && c.stale_threshold_hours == b.stale_threshold_hours && c.max_per_category
            == b.max_per_category && c.counts == b.counts && c.cycles == b.cycles
            && c.cross_repo_refs == b.cross_repo_refs && c.session == session && c.drift_warnings
            == drift_warnings && c.in_progress == b.in_progress && c.ready == b.ready && c.blocked
            == b.blocked && c.completed == b.completed && c.hotspots == b.hotspots && c.stale
            == b.stale
}

/// Whether `f` is `c` narrowed by the agent filter `agent` (a blank or absent filter keeps
/// everything).
pub open spec fn filtered_by(f: CategorisedIssues, c: CategorisedIssues, agent: Option<String>) -> bool {
    match crate::list::filter_of(agent) {
        None => f == c,
        Some(a) => {
            &&& f.in_progress@ == claimed_by(c.in_progress@, a)
            &&& f.ready@ == claimed_by(c.ready@, a)
            &&& f.blocked@ == claimed_by(c.blocked@, a)
            &&& f.stale@ == stale_claimed_by(c.stale@, a)
            &&& f.completed == c.completed
            &&& f.hotspots == c.hotspots
        },
    }
}

/// Render the prime context from the categorised issues: narrow them by `agent`, build the
/// renderer's inputs and render them.
pub fn render_prime(
    repo: RepoIdentity,
    stale_threshold_hours: u64,
    max_per_category: usize,
    categories: CategorisedIssues,
    agent: &Option<String>,
    raw_cycles: &[Vec<QualifiedId>],
    session: SessionMeta,
    drift_warnings: Option<Vec<String>>,
) -> (r: PrimeResult)
    ensures
        exists|f: CategorisedIssues, c: ContextInputs|
            #[trigger] filtered_by(f, categories, *agent) && #[trigger] inputs_from(
                c,
                repo,
                stale_threshold_hours,
                max_per_category,
                f,
                raw_cycles@,
                session,
                drift_warnings,
            ) && r.context@ == context_text(c),
{
    let ghost cats = categories;
    let filter = crate::list::normalize_filter(agent);
    let filtered = match &filter {
        Some(f) => apply_agent_filter(categories, Some(f)),
        None => apply_agent_filter(categories, None),
    };
    let ghost fl = filtered;
    let builder = ContextInputsBuilder::new(
        repo,
        stale_threshold_hours,
        max_per_category,
        filtered,
        raw_cycles,
    );
    let ghost b = builder;
    let ctx = builder.build(session, drift_warnings);
    let context = render_context(&ctx);
    assert(filtered_by(fl, cats, *agent));
    assert(inputs_from(
        ctx,
        repo,
        stale_threshold_hours,
        max_per_category,
        fl,
        raw_cycles@,
        session,
        drift_warnings,
    ));
    PrimeResult { context }
}

// ------------------------------------------------------------------------------------------
// Drift warnings
// ------------------------------------------------------------------------------------------

/// The kind of a drift item: the first key of the object it is, if any.
pub open spec fn drift_kind(v: JsonValue) -> Option<Seq<char>> {
    match v {
        JsonValue::Object(m) => if m@.len() > 0 {
            Some(m@[0].0@)
        } else {
            None
        },
        _ => None,
    }
}

/// The human label of a drift kind.
pub open spec fn drift_label(kind: Seq<char>) -> Seq<char> {
    if kind == "UncascadedClosure"@ {
        "uncascaded closure"@
    } else if kind == "OrphanedBlockingEdge"@ {
        "orphaned blocking edge"@
    } else if kind == "MalformedAgentField"@ {
        "malformed agent field"@
    } else if kind == "MissingProjectField"@ {
        "missing project field"@
    } else if kind == "CycleDetected"@ {
        "cycle detected"@
    } else if kind == "StaleClaim"@ {
        "stale claim"@
    } else {
        kind
    }
}

/// The number of items of kind `kind`.
pub open spec fn kind_count(items: Seq<JsonValue>, kind: Seq<char>) -> nat
    decreases items.len(),
{
    if items.len() == 0 {
        0
    } else {
        kind_count(items.drop_last(), kind) + if drift_kind(items.last()) == Some(kind) {
            1nat
        } else {
            0nat
        }
    }
}

/// `1 {label}` or `{count} {label}s`.
pub open spec fn drift_line(kind: Seq<char>, count: nat) -> Seq<char> {
    if count == 1 {
        "1 "@ + drift_label(kind)
    } else {
        decimal(count) + " "@ + drift_label(kind) + "s"@
    }
}

/// Whether some item is of kind `kind`.
pub open spec fn has_kind(items: Seq<JsonValue>, kind: Seq<char>) -> bool {
    exists|i: int| 0 <= i < items.len() && #[trigger] drift_kind(items[i]) == Some(kind)
}

/// Text, smallest first.
pub struct AscText {
    pub text: Vec<char>,
}

impl Ranked for AscText {
    open spec fn ranks_before(&self, other: &Self) -> bool {
        str_lt(self.text@, other.text@)
    }

    fn before(&self, other: &Self) -> (r: bool) {
        crate::text::chars_less(&self.text, &other.text)
    }

    proof fn lemma_irreflexive(a: &Self) {
        lemma_str_lt_irreflexive(a.text@);
    }

    proof fn lemma_transitive(a: &Self, b: &Self, c: &Self) {
        lemma_str_lt_transitive(a.text@, b.text@, c.text@);
    }

    proof fn lemma_alike_before(a: &Self, b: &Self, c: &Self) {
        lemma_str_lt_total(a.text@, b.text@);
    }
}

fn drift_kind_of(v: &JsonValue) -> (r: Option<Vec<char>>)
    ensures
        match r {
            Some(k) => drift_kind(*v) == Some(k@),
            None => drift_kind(*v) is None,
        },
{
    match v {
        JsonValue::Object(m) => if m.len() > 0 {
            Some(crate::text::chars_of(m[0].0.as_str()))
        } else {
            None
        },
        _ => None,
    }
}

proof fn lemma_kind_count_step(items: Seq<JsonValue>, k: int)
    requires
        0 <= k < items.len(),
    ensures
        forall|t: Seq<char>|
            #[trigger] kind_count(items.take(k + 1), t) == kind_count(items.take(k), t) + if drift_kind(
                items[k],
            ) == Some(t) {
                1nat
            } else {
                0nat
            },
{
    assert(items.take(k + 1).drop_last() =~= items.take(k));
    assert(items.take(k + 1).last() == items[k]);
}

proof fn lemma_kind_count_zero(items: Seq<JsonValue>, t: Seq<char>)
    requires
        forall|i: int| 0 <= i < items.len() ==> #[trigger] drift_kind(items[i]) != Some(t),
    ensures
        kind_count(items, t) == 0,
    decreases items.len(),
{
    if items.len() > 0 {
        assert forall|i: int| 0 <= i < items.drop_last().len() implies #[trigger] drift_kind(
            items.drop_last()[i],
        ) != Some(t) by {
            assert(items.drop_last()[i] == items[i]);
        }
        lemma_kind_count_zero(items.drop_last(), t);
    }
}

/// The distinct drift kinds of `items`, each with the number of items of that kind.
fn count_kinds(items: &Vec<JsonValue>) -> (r: (Vec<Vec<char>>, Vec<usize>))
    ensures
        r.1@.len() == r.0@.len(),
        forall|a: int, b: int| 0 <= a < b < r.0@.len() ==> #[trigger] r.0@[a]@ != #[trigger] r.0@[b]@,
        forall|x: int| 0 <= x < r.0@.len() ==> #[trigger] r.1@[x] == kind_count(items@, r.0@[x]@),
        forall|x: int| 0 <= x < r.0@.len() ==> has_kind(items@, #[trigger] r.0@[x]@),
        forall|t: Seq<char>|
            has_kind(items@, t) ==> exists|x: int| 0 <= x < r.0@.len() && #[trigger] r.0@[x]@ == t,
{
    let ghost its = items@;
    let mut kinds: Vec<Vec<char>> = Vec::new();
    let mut counts: Vec<usize> = Vec::new();
    let ghost mut src: Seq<int> = seq![];
    let ghost mut pos: Seq<int> = seq![];
    let mut k: usize = 0;
    while k < items.len()
        invariant
            0 <= k <= its.len(),
            its == items@,
            counts@.len() == kinds@.len(),
            src.len() == kinds@.len(),
            pos.len() == k,
            forall|a: int, b: int| 0 <= a < b < kinds@.len() ==> #[trigger] kinds@[a]@ != #[trigger] kinds@[b]@,
            forall|i: int|
                0 <= i < kinds@.len() ==> #[trigger] counts@[i] == kind_count(its.take(k as int), kinds@[i]@)
                    && counts@[i] <= k,
            forall|i: int|
                0 <= i < kinds@.len() ==> 0 <= #[trigger] src[i] < k && drift_kind(its[src[i]]) == Some(
                    kinds@[i]@,
                ),
            forall|e: int|
                0 <= e < k ==> (drift_kind(its[e]) is None && #[trigger] pos[e] == -1) || (0 <= pos[e]
                    < kinds@.len() && drift_kind(its[e]) == Some(kinds@[pos[e]]@)),
        decreases its.len() - k,
    {
        let ghost k0 = kinds@;
        proof {
            lemma_kind_count_step(its, k as int);
        }
        match drift_kind_of(&items[k]) {
            None => {
                proof {
                    pos = pos.push(-1);
                }
            },
            Some(kind) => {
                let mut p: usize = 0;
                while p < kinds.len() && !crate::text::chars_eq(&kinds[p], &kind)
                    invariant
                        0 <= p <= kinds@.len(),
                        forall|i: int| 0 <= i < p ==> #[trigger] kinds@[i]@ != kind@,
                    decreases kinds@.len() - p,
                {
                    p = p + 1;
                }
                let ghost kv = kind@;
                if p < kinds.len() {
                    let c = counts[p] + 1;
                    counts.set(p, c);
                } else {
                    proof {
                        assert forall|e: int| 0 <= e < its.take(k as int).len() implies #[trigger] drift_kind(
                            its.take(k as int)[e],
                        ) != Some(kv) by {
                            assert(its.take(k as int)[e] == its[e]);
                            if drift_kind(its[e]) is Some {
                                assert(k0[pos[e]]@ == drift_kind(its[e])->0);
                            }
                        }
                        lemma_kind_count_zero(its.take(k as int), kv);
                        src = src.push(k as int);
                    }
                    kinds.push(kind);
                    counts.push(1);
                }
                proof {
                    pos = pos.push(p as int);
                }
            },
        }
        proof {
            assert forall|i: int| 0 <= i < kinds@.len() implies #[trigger] counts@[i] == kind_count(
                its.take(k + 1),
                kinds@[i]@,
            ) && counts@[i] <= k + 1 by {
                if i < k0.len() {
                    assert(kinds@[i] == k0[i]);
                }
            }
            assert forall|a: int, b: int| 0 <= a < b < kinds@.len() implies #[trigger] kinds@[a]@
                != #[trigger] kinds@[b]@ by {
                if b == k0.len() {
                    assert(kinds@[a] == k0[a]);
                } else {
                    assert(kinds@[a] == k0[a]);
                    assert(kinds@[b] == k0[b]);
                }
            }
            assert forall|i: int| 0 <= i < kinds@.len() implies 0 <= #[trigger] src[i] < k + 1
                && drift_kind(its[src[i]]) == Some(kinds@[i]@) by {
                if i < k0.len() {
                    assert(kinds@[i] == k0[i]);
                }
            }
            assert forall|e: int| 0 <= e < k + 1 implies (drift_kind(its[e]) is None && #[trigger] pos[e]
                == -1) || (0 <= pos[e] < kinds@.len() && drift_kind(its[e]) == Some(
                kinds@[pos[e]]@,
            )) by {
                if e < k && pos[e] >= 0 {
                    assert(kinds@[pos[e]] == k0[pos[e]]);
                }
            }
        }
        k = k + 1;
    }
    assert(its.take(its.len() as int) =~= its);
    proof {
        assert forall|x: int| 0 <= x < kinds@.len() implies has_kind(its, #[trigger] kinds@[x]@) by {
            assert(drift_kind(its[src[x]]) == Some(kinds@[x]@));
        }
        assert forall|t: Seq<char>| has_kind(its, t) implies exists|x: int|
            0 <= x < kinds@.len() && #[trigger] kinds@[x]@ == t by {
            let e = choose|e: int| 0 <= e < its.len() && #[trigger] drift_kind(its[e]) == Some(t);
            assert(kinds@[pos[e]]@ == t);
        }
    }
    (kinds, counts)
}

/// `lines` summarises the drift items `items`: one line per drift kind found, each kind once,
/// `1 {label}` or `{count} {label}s`, sorted.
pub open spec fn summarises_drift(lines: Seq<String>, items: Seq<JsonValue>) -> bool {
    exists|ks: Seq<Seq<char>>|
        #[trigger] ks.no_duplicates() && ks.len() == lines.len() && (forall|t: Seq<char>|
            ks.contains(t) <==> has_kind(items, t)) && (forall|m: int|
            0 <= m < ks.len() ==> #[trigger] lines[m]@ == drift_line(ks[m], kind_count(items, ks[m])))
            && (forall|m: int, l: int| 0 <= m < l < lines.len() ==> !str_lt(#[trigger] lines[l]@, #[trigger] lines[m]@))
}

/// One human-readable line per drift kind, `1 {label}` or `{count} {label}s`, sorted.
pub fn summarise_drift(drift_found: &Vec<JsonValue>) -> (r: Vec<String>)
    ensures
        summarises_drift(r@, drift_found@),
{
    let (kinds, counts) = count_kinds(drift_found);
    let mut lines: Vec<String> = Vec::new();
    let mut keys: Vec<AscText> = Vec::new();
    let mut i: usize = 0;
    while i < kinds.len()
        invariant
            0 <= i <= kinds@.len(),
            counts@.len() == kinds@.len(),
            forall|x: int| 0 <= x < kinds@.len() ==> #[trigger] counts@[x] == kind_count(drift_found@, kinds@[x]@),
            lines@.len() == i,
            keys@.len() == i,
            forall|m: int|
                0 <= m < i ==> #[trigger] lines@[m]@ == drift_line(kinds@[m]@, kind_count(drift_found@, kinds@[m]@)),
            forall|m: int| 0 <= m < i ==> #[trigger] keys@[m].text@ == lines@[m]@,
        decreases kinds@.len() - i,
    {
        let kind = &kinds[i];
        let mut label: Vec<char> = Vec::new();
        let kinds_text = string_of(kind);
        let k = kinds_text.as_str();
        if crate::cross_repo::same_text(k, "UncascadedClosure") {
            push_str(&mut label, "uncascaded closure");
        } else if crate::cross_repo::same_text(k, "OrphanedBlockingEdge") {
            push_str(&mut label, "orphaned blocking edge");
        } else if crate::cross_repo::same_text(k, "MalformedAgentField") {
            push_str(&mut label, "malformed agent field");
        } else if crate::cross_repo::same_text(k, "MissingProjectField") {
            push_str(&mut label, "missing project field");
        } else if crate::cross_repo::same_text(k, "CycleDetected") {
            push_str(&mut label, "cycle detected");
        } else if crate::cross_repo::same_text(k, "StaleClaim") {
            push_str(&mut label, "stale claim");
        } else {
            push_all(&mut label, kind);
        }
        assert(label@ == drift_label(kind@));
        let mut line: Vec<char> = Vec::new();
        if counts[i] == 1 {
            push_str(&mut line, "1 ");
            push_all(&mut line, &label);
        } else {
            push_decimal(&mut line, counts[i] as u64);
            push_str(&mut line, " ");
            push_all(&mut line, &label);
            push_str(&mut line, "s");
        }
        assert(line@ == drift_line(kind@, kind_count(drift_found@, kind@)));
        let key_text = crate::text::copy_range(&line, 0, line.len());
        assert(line@.subrange(0, line@.len() as int) =~= line@);
        assert(key_text@ == line@);
        let line_text = string_of(&line);
        assert(line_text@ == line@);
        let ghost old_keys = keys@;
        let ghost old_lines = lines@;
        keys.push(AscText { text: key_text });
        lines.push(line_text);
        assert forall|m: int| 0 <= m < i + 1 implies #[trigger] keys@[m].text@ == lines@[m]@ by {
            if m < i {
                assert(old_keys[m].text@ == old_lines[m]@);
                assert(keys@[m] == old_keys[m]);
                assert(lines@[m] == old_lines[m]);
            }
        }
        i = i + 1;
    }
    let ord = stable_order(&keys);
    let mut r: Vec<String> = Vec::new();
    let mut m: usize = 0;
    while m < ord.len()
        invariant
            0 <= m <= ord@.len(),
            r@.len() == m,
            stably_sorts(ord@, keys@),
            keys@.len() == lines@.len(),
            forall|a: int| 0 <= a < m ==> #[trigger] r@[a]@ == lines@[ord@[a] as int]@,
        decreases ord@.len() - m,
    {
        r.push(lines[ord[m]].clone());
        m = m + 1;
    }
    proof {
        let o = ord@;
        let ks = Seq::new(o.len(), |a: int| kinds@[o[a] as int]@);
        assert(ks.no_duplicates()) by {
            assert forall|a: int, b: int| 0 <= a < b < ks.len() implies ks[a] != ks[b] by {
                assert(o[a] != o[b]);
            }
        }
        assert forall|t: Seq<char>| ks.contains(t) <==> has_kind(drift_found@, t) by {
            if ks.contains(t) {
                let a = choose|a: int| 0 <= a < ks.len() && ks[a] == t;
                assert(kinds@[o[a] as int]@ == t);
            }
            if has_kind(drift_found@, t) {
                let x = choose|x: int| 0 <= x < kinds@.len() && #[trigger] kinds@[x]@ == t;
                lemma_permutation_covers(o, kinds@.len(), x as usize);
                let a = choose|a: int| 0 <= a < o.len() && o[a] == x as usize;
                assert(ks[a] == t);
            }
        }
        assert forall|a: int, b: int| 0 <= a < b < r@.len() implies !str_lt(#[trigger] r@[b]@, #[trigger] r@[a]@) by {
            assert(!keys@[o[b] as int].ranks_before(&keys@[o[a] as int]));
        }
        assert forall|a: int| 0 <= a < ks.len() implies #[trigger] r@[a]@ == drift_line(
            ks[a],
            kind_count(drift_found@, ks[a]),
        ) by {
            assert(r@[a]@ == lines@[o[a] as int]@);
        }
    }
    r
}

/// The drift warnings of a background drift check: none when the check produced no report (it
/// failed or did not finish) or a clean one, else the summary of what it found.
pub fn drift_warnings(report: Option<(bool, &Vec<JsonValue>)>) -> (r: Option<Vec<String>>)
    ensures
        match report {
            Some((clean, items)) => if clean {
                r is None
            } else {
                r matches Some(lines) && summarises_drift(lines@, items@)
            },
            None => r is None,
        },
{
    match report {
        Some((clean, items)) => if clean {
            None
        } else {
            Some(summarise_drift(items))
        },
        None => None,
    }
}

/// Categorise `issues` at the current instant, read from the clock; `None` when the start of the
/// recently-completed window would fall before the earliest instant `chrono` holds.
pub fn categorise_issues_now(
    issues: &[Issue],
    graph: &DepGraph,
    ready_summaries: &[IssueSummary],
    stale_threshold_hours: u64,
) -> (r: Option<CategorisedIssues>)
    ensures
        exists|now: Timestamp|
            now.secs >= 0 && (r is None <==> !#[trigger] cutoff_in_range(now, stale_threshold_hours))
                && (r matches Some(c) ==> categorised(
                c,
                issues@,
                *graph,
                ready_summaries@,
                stale_threshold_hours,
                now,
            )),
        window_hours(stale_threshold_hours) * 3600 <= -EARLIEST_SECS ==> r is Some,
{
    let now = crate::model::utc_now();
    let w: i128 = if stale_threshold_hours > 0xffff_ffffu64 {
        0xffff_ffffi128
    } else {
        stale_threshold_hours as i128
    };
    let cut: i128 = now.secs as i128 - w * 3600;
    if cut < EARLIEST_SECS as i128 {
        assert(!cutoff_in_range(now, stale_threshold_hours));
        return None;
    }
    let c = categorise_issues(issues, graph, ready_summaries, stale_threshold_hours, now);
    assert(cutoff_in_range(now, stale_threshold_hours) && categorised(
        c,
        issues@,
        *graph,
        ready_summaries@,
        stale_threshold_hours,
        now,
    ));
    Some(c)
}

} // verus!
