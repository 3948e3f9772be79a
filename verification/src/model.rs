//! The issue records the tools compute over.
//!
//! A record holds, as plain values, what the tools read of an issue: its qualified id, its
//! workflow [`Status`], its [`Priority`], its GitHub [`IssueState`], its labels and assignees, and
//! its timestamps. A timestamp is a [`Timestamp`] (seconds and nanoseconds since the Unix epoch,
//! which is the order it compares in); its RFC 3339 display text, like the `YYYY-MM-DD` text of a
//! [`CivilDate`] and the current time, comes from `chrono`.
use vstd::prelude::*;

use chrono::Datelike;

use crate::cross_repo::QualifiedId;
use crate::text::{chars_of, str_lt, string_of};

verus! {

/// The workflow status of an issue.
#[derive(Debug, Clone, Copy, PartialEq, Eq, Structural)]
pub enum Status {
    Ready,
    Blocked,
    InProgress,
    Deferred,
    Closed,
}

/// The display text of a status.
pub open spec fn status_text(s: Status) -> Seq<char> {
    match s {
        Status::Ready => "Ready"@,
        Status::Blocked => "Blocked"@,
        Status::InProgress => "InProgress"@,
        Status::Deferred => "Deferred"@,
        Status::Closed => "Closed"@,
    }
}

impl Status {
    /// The display text.
    pub fn text(&self) -> (s: String)
        ensures
            s@ == status_text(*self),
    {
        let v = match self {
            Status::Ready => chars_of("Ready"),
            Status::Blocked => chars_of("Blocked"),
            Status::InProgress => chars_of("InProgress"),
            Status::Deferred => chars_of("Deferred"),
            Status::Closed => chars_of("Closed"),
        };
        string_of(&v)
    }
}

/// The priority of an issue, `P0` the most urgent.
#[derive(Debug, Clone, Copy, PartialEq, Eq, Structural)]
pub enum Priority {
    P0,
    P1,
    P2,
    P3,
    P4,
}

/// The rank a priority sorts by: `P0` first.
pub open spec fn priority_rank(p: Priority) -> nat {
    match p {
        Priority::P0 => 0,
        Priority::P1 => 1,
        Priority::P2 => 2,
        Priority::P3 => 3,
        Priority::P4 => 4,
    }
}

/// The display text of a priority.
pub open spec fn priority_text(p: Priority) -> Seq<char> {
    match p {
        Priority::P0 => "P0"@,
        Priority::P1 => "P1"@,
        Priority::P2 => "P2"@,
        Priority::P3 => "P3"@,
        Priority::P4 => "P4"@,
    }
}

impl Priority {
    /// The rank it sorts by.
    pub fn sort_key(&self) -> (k: u8)
        ensures
            k == priority_rank(*self),
    {
        match self {
            Priority::P0 => 0,
            Priority::P1 => 1,
            Priority::P2 => 2,
            Priority::P3 => 3,
            Priority::P4 => 4,
        }
    }

    /// The display text.
    pub fn text(&self) -> (s: String)
        ensures
            s@ == priority_text(*self),
    {
        let v = match self {
            Priority::P0 => chars_of("P0"),
            Priority::P1 => chars_of("P1"),
            Priority::P2 => chars_of("P2"),
            Priority::P3 => chars_of("P3"),
            Priority::P4 => chars_of("P4"),
        };
        string_of(&v)
    }
}

/// Whether an issue is open or closed on GitHub.
#[derive(Debug, Clone, Copy, PartialEq, Eq, Structural)]
pub enum IssueState {
    Open,
    Closed,
}

/// An instant: whole seconds since the Unix epoch and the nanoseconds past them.
#[derive(Debug, Clone, Copy, PartialEq, Eq, Structural)]
pub struct Timestamp {
    pub secs: i64,
    pub nanos: u32,
}

/// Whether `a` is before `b`.
pub open spec fn ts_lt(a: Timestamp, b: Timestamp) -> bool {
    a.secs < b.secs || (a.secs == b.secs && a.nanos < b.nanos)
}

/// A calendar date.
#[derive(Debug, Clone, Copy, PartialEq, Eq, Structural)]
pub struct CivilDate {
    pub year: i32,
    pub month: u32,
    pub day: u32,
}

/// Whether `a` is on or before `b`.
pub open spec fn date_le(a: CivilDate, b: CivilDate) -> bool {
    a.year < b.year || (a.year == b.year && (a.month < b.month || (a.month == b.month && a.day
        <= b.day)))
}

/// Whether `a` is on or before `b`.
pub fn date_on_or_before(a: CivilDate, b: CivilDate) -> (r: bool)
    ensures
        r == date_le(a, b),
{
    a.year < b.year || (a.year == b.year && (a.month < b.month || (a.month == b.month && a.day
        <= b.day)))
}

/// Whether `a` is before `b`.
pub fn before(a: Timestamp, b: Timestamp) -> (r: bool)
    ensures
        r == ts_lt(a, b),
{
    a.secs < b.secs || (a.secs == b.secs && a.nanos < b.nanos)
}

/// The RFC 3339 text that `chrono` gives the UTC instant `secs` seconds and `nanos` nanoseconds
/// after the Unix epoch (empty where `chrono` holds no such instant).
pub uninterp spec fn rfc3339_text(secs: i64, nanos: u32) -> Seq<char>;


/// The RFC 3339 text of `t`: `chrono::DateTime::<Utc>::from_timestamp` builds the instant and
/// `DateTime::to_rfc3339` formats it; the result is taken as a function of the two numbers alone.
#[verifier::external_body]
pub(crate) fn rfc3339(t: Timestamp) -> (s: String)
    ensures
        s@ == rfc3339_text(t.secs, t.nanos),
{
    match chrono::DateTime::from_timestamp(t.secs, t.nanos) {
        Some(d) => d.to_rfc3339(),
        None => String::new(),
    }
}

/// Whether `year` is a leap year of the proleptic Gregorian calendar.
pub open spec fn leap_year(year: int) -> bool {
    (year % 4 == 0 && year % 100 != 0) || year % 400 == 0
}

/// The number of days of `month` in `year`.
pub open spec fn days_in_month(year: int, month: int) -> int {
    if month == 2 {
        if leap_year(year) {
            29
        } else {
            28
        }
    } else if month == 4 || month == 6 || month == 9 || month == 11 {
        30
    } else {
        31
    }
}

/// Whether `year-month-day` names a day of the calendar.
pub open spec fn valid_civil(year: int, month: int, day: int) -> bool {
    1 <= month <= 12 && 1 <= day <= days_in_month(year, month)
}

/// The decimal digits of `n`, zero-padded on the left to `width` characters.
pub open spec fn zero_padded(n: nat, width: nat) -> Seq<char> {
    let digits = crate::text::decimal(n);
    if digits.len() < width {
        Seq::new((width - digits.len()) as nat, |i: int| '0') + digits
    } else {
        digits
    }
}

/// The earliest year a `chrono` date holds.
pub const MIN_DATE_YEAR: i32 = -262143;

/// The latest year a `chrono` date holds.
pub const MAX_DATE_YEAR: i32 = 262142;

/// The year as `%Y` writes it: four digits at least, with an explicit sign outside 0 to 9999.
pub open spec fn year_text(year: int) -> Seq<char> {
    if 0 <= year <= 9999 {
        zero_padded(year as nat, 4)
    } else if year > 9999 {
        "+"@ + zero_padded(year as nat, 4)
    } else {
        "-"@ + zero_padded((-year) as nat, 4)
    }
}

/// The `%Y-%m-%d` text `chrono` gives the date `year-month-day`; empty where `chrono` holds no
/// such date (a month or day that does not exist, or a year out of its range).
pub open spec fn date_text(year: i32, month: u32, day: u32) -> Seq<char> {
    if MIN_DATE_YEAR <= year <= MAX_DATE_YEAR && valid_civil(year as int, month as int, day as int) {
        year_text(year as int) + "-"@ + zero_padded(month as nat, 2) + "-"@ + zero_padded(day as nat, 2)
    } else {
        seq![]
    }
}

/// The display text of `d`: `chrono::NaiveDate::from_ymd_opt` builds the date (none for a month
/// or day that does not exist, or a year outside `MIN_DATE_YEAR..=MAX_DATE_YEAR`) and its
/// `Display` impl writes it as `%Y-%m-%d`, the year zero-padded to four digits and signed outside
/// 0 to 9999 (`-0001-01-01`, `+10000-12-31`).
#[verifier::external_body]
pub(crate) fn date_display(d: CivilDate) -> (s: String)
    ensures
        s@ == date_text(d.year, d.month, d.day),
{
    match chrono::NaiveDate::from_ymd_opt(d.year, d.month, d.day) {
        Some(n) => n.to_string(),
        None => String::new(),
    }
}

/// The current UTC instant, from `chrono::Utc::now`. It depends on the clock; claimed only what
/// `Utc::now` guarantees of every reading it returns: it is not before the Unix epoch (`now`
/// panics on an earlier clock) and its sub-second part is a nanosecond count below one second.
#[verifier::external_body]
pub(crate) fn utc_now() -> (t: Timestamp)
    ensures
        0 <= t.secs,
        t.nanos < 1_000_000_000,
{
    let n = chrono::Utc::now();
    Timestamp { secs: n.timestamp(), nanos: n.timestamp_subsec_nanos() }
}

/// The current UTC calendar date, from `chrono::Utc::now` and `DateTime::date_naive`. Nothing is
/// promised of it: it depends on the clock.
#[verifier::external_body]
pub(crate) fn utc_today() -> (d: CivilDate) {
    let n = chrono::Utc::now().date_naive();
    CivilDate { year: n.year(), month: n.month(), day: n.day() }
}

/// The display text of an optional date.
pub open spec fn opt_date_text(d: Option<CivilDate>) -> Option<Seq<char>> {
    match d {
        Some(x) => Some(date_text(x.year, x.month, x.day)),
        None => None,
    }
}

/// The display text of an optional date.
pub fn opt_date_display(d: Option<CivilDate>) -> (r: Option<String>)
    ensures
        match r {
            Some(s) => opt_date_text(d) == Some(s@),
            None => d is None,
        },
{
    match d {
        Some(x) => Some(date_display(x)),
        None => None,
    }
}

/// An issue, as the tools read it.
#[derive(Debug, Clone, PartialEq, Eq)]
pub struct Issue {
    pub qualified_id: QualifiedId,
    pub number: u64,
    pub node_id: String,
    pub title: String,
    /// The display text of the issue type.
    pub issue_type: Option<String>,
    pub status: Status,
    pub priority: Priority,
    pub agent: Option<String>,
    pub claimed_at: Option<Timestamp>,
    pub story_points: Option<i32>,
    pub defer_until: Option<CivilDate>,
    pub labels: Vec<String>,
    pub milestone: Option<String>,
    pub assignees: Vec<String>,
    pub state: IssueState,
    pub created_at: Timestamp,
    pub updated_at: Timestamp,
    pub url: String,
}

/// An open issue summarised for the ready set and the prime categories.
#[derive(Debug, Clone, PartialEq, Eq)]
pub struct IssueSummary {
    pub qualified_id: QualifiedId,
    pub number: u64,
    pub title: String,
    /// The display text of the issue type.
    pub issue_type: Option<String>,
    pub status: Status,
    pub priority: Priority,
    pub agent: Option<String>,
    pub milestone: Option<String>,
    pub story_points: Option<i32>,
    pub defer_until: Option<CivilDate>,
    pub labels: Vec<String>,
    pub created_at: Timestamp,
    pub url: String,
}

/// Whether `a` orders before `b` by `(owner, repo, number)`.
pub open spec fn qid_lt(a: QualifiedId, b: QualifiedId) -> bool {
    str_lt(a.owner@, b.owner@) || (a.owner@ == b.owner@ && (str_lt(a.repo@, b.repo@) || (a.repo@
        == b.repo@ && a.number < b.number)))
}


/// The identity of a reference: owner, repository and number.
pub open spec fn qkey(q: QualifiedId) -> (Seq<char>, Seq<char>, u64) {
    (q.owner@, q.repo@, q.number)
}

/// A copy of a qualified id.
pub fn copy_qid(q: &QualifiedId) -> (r: QualifiedId)
    ensures
        r == *q,
{
    QualifiedId { owner: q.owner.clone(), repo: q.repo.clone(), number: q.number }
}

/// Whether two references name the same issue.
pub fn same_qid(a: &QualifiedId, b: &QualifiedId) -> (r: bool)
    ensures
        r == (qkey(*a) == qkey(*b)),
{
    a.number == b.number && crate::cross_repo::same_text(a.owner.as_str(), b.owner.as_str())
        && crate::cross_repo::same_text(a.repo.as_str(), b.repo.as_str())
}

/// A blocking edge: `source` is blocked by `target`.
#[derive(Debug, Clone, PartialEq, Eq)]
pub struct Edge {
    pub source: QualifiedId,
    pub target: QualifiedId,
}

/// The dependency graph as the tools read it: its blocking edges and the GitHub state of each
/// issue it knows (each issue listed once).
#[derive(Debug, Clone, PartialEq, Eq)]
pub struct DepGraph {
    pub edges: Vec<Edge>,
    pub states: Vec<(QualifiedId, IssueState)>,
}

/// The state the graph records for `q`.
pub open spec fn state_in(states: Seq<(QualifiedId, IssueState)>, q: (Seq<char>, Seq<char>, u64)) -> Option<IssueState>
    decreases states.len(),
{
    if states.len() == 0 {
        None
    } else if qkey(states[0].0) == q {
        Some(states[0].1)
    } else {
        state_in(states.skip(1), q)
    }
}

/// Whether the graph records `q` as open.
pub open spec fn open_in(g: DepGraph, q: QualifiedId) -> bool {
    state_in(g.states@, qkey(q)) == Some(IssueState::Open)
}

proof fn lemma_state_in(states: Seq<(QualifiedId, IssueState)>, q: (Seq<char>, Seq<char>, u64))
    ensures
        match state_in(states, q) {
            Some(st) => exists|i: int|
                0 <= i < states.len() && qkey(states[i].0) == q && states[i].1 == st && forall|j: int|
                    0 <= j < i ==> qkey(#[trigger] states[j].0) != q,
            None => forall|j: int| 0 <= j < states.len() ==> qkey(#[trigger] states[j].0) != q,
        },
    decreases states.len(),
{
    if states.len() > 0 {
        lemma_state_in(states.skip(1), q);
        if qkey(states[0].0) != q {
            match state_in(states.skip(1), q) {
                Some(st) => {
                    let i = choose|i: int|
                        0 <= i < states.skip(1).len() && qkey(states.skip(1)[i].0) == q
                            && states.skip(1)[i].1 == st && forall|j: int|
                            0 <= j < i ==> qkey(#[trigger] states.skip(1)[j].0) != q;
                    assert(states[i + 1] == states.skip(1)[i]);
                    assert forall|j: int| 0 <= j < i + 1 implies qkey(#[trigger] states[j].0) != q by {
                        if j > 0 {
                            assert(states[j] == states.skip(1)[j - 1]);
                        }
                    }
                },
                None => {
                    assert forall|j: int| 0 <= j < states.len() implies qkey(#[trigger] states[j].0) != q by {
                        if j > 0 {
                            assert(states[j] == states.skip(1)[j - 1]);
                        }
                    }
                },
            }
        }
    }
}

impl DepGraph {
    /// Whether the graph records `q` as open.
    pub fn is_open(&self, q: &QualifiedId) -> (r: bool)
        ensures
            r == open_in(*self, *q),
    {
        proof {
            lemma_state_in(self.states@, qkey(*q));
        }
        let mut i: usize = 0;
        while i < self.states.len()
            invariant
                0 <= i <= self.states@.len(),
                forall|j: int| 0 <= j < i ==> qkey(#[trigger] self.states@[j].0) != qkey(*q),
            decreases self.states@.len() - i,
        {
            if same_qid(&self.states[i].0, q) {
                proof {
                    lemma_state_in(self.states@, qkey(*q));
                    if let Some(st) = state_in(self.states@, qkey(*q)) {
                        let k = choose|k: int|
                            0 <= k < self.states@.len() && qkey(self.states@[k].0) == qkey(*q)
                                && self.states@[k].1 == st && forall|j: int|
                                0 <= j < k ==> qkey(#[trigger] self.states@[j].0) != qkey(*q);
                        if k > i {
                            assert(qkey(self.states@[i as int].0) != qkey(*q));
                        }
                    }
                }
                return match self.states[i].1 {
                    IssueState::Open => true,
                    IssueState::Closed => false,
                };
            }
            i = i + 1;
        }
        false
    }
}

/// Whether `q` is blocked, in `g`, by an issue the graph records as open.
pub open spec fn has_open_blocker(g: DepGraph, q: QualifiedId) -> bool {
    exists|k: int|
        0 <= k < g.edges@.len() && qkey(#[trigger] g.edges@[k].source) == qkey(q) && open_in(
            g,
            g.edges@[k].target,
        )
}

/// Whether `issue` has at least one open blocker in `graph`.
pub fn has_open_blockers(issue: &Issue, graph: &DepGraph) -> (r: bool)
    ensures
        r == has_open_blocker(*graph, issue.qualified_id),
{
    let mut k: usize = 0;
    while k < graph.edges.len()
        invariant
            0 <= k <= graph.edges@.len(),
            forall|j: int|
                0 <= j < k ==> !(qkey(#[trigger] graph.edges@[j].source) == qkey(issue.qualified_id)
                    && open_in(*graph, graph.edges@[j].target)),
        decreases graph.edges@.len() - k,
    {
        if same_qid(&graph.edges[k].source, &issue.qualified_id) && graph.is_open(
            &graph.edges[k].target,
        ) {
            return true;
        }
        k = k + 1;
    }
    false
}
} // verus!
