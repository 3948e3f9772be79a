//! `dep_remove`: removing a blocking edge, validated before the mutation.
//!
//! Both references are parsed (`42`, `#42` or `owner/repo#42`) and normalized against the
//! configured repository; an edge from an issue to itself is refused. Before anything is
//! mutated the edge is probed: in the cached graph when the cache is warm and both ends are
//! local, otherwise in the fetched source issue. A closed endpoint refuses the removal; an
//! absent edge is answered `removed: false` without mutating; a present edge is removed, and a
//! local source left with no open blocker is moved to `ready`. The request runs as a sequence of
//! steps: `dep_remove_next` picks what to do next from what the last outside call returned.
use vstd::prelude::*;

use crate::cross_repo::{qid_display, qid_text, QualifiedId};
use crate::model::{has_open_blocker, has_open_blockers, qkey, state_in, DepGraph, Issue, IssueState};
use crate::text::{chars_of, decimal, push_all, push_decimal, push_str, string_of};

verus! {

/// The parameters of `dep_remove`.
#[derive(Debug, Clone, PartialEq, Eq)]
pub struct DepRemoveParams {
    /// The blocked issue (edge source).
    pub source: String,
    /// The blocking issue (edge target).
    pub target: String,
}

/// The result of `dep_remove`.
#[derive(Debug, Clone, PartialEq, Eq)]
pub struct DepRemoveResult {
    /// Whether the edge existed and was removed.
    pub removed: bool,
    /// The source reference, `#n` or `owner/repo#n`.
    pub source: String,
    /// The target reference, `#n` or `owner/repo#n`.
    pub target: String,
    pub message: String,
}

/// A reference to an issue: local to the configured repository, or in another one.
#[derive(Debug, Clone, PartialEq, Eq)]
pub enum IssueRef {
    Local(u64),
    CrossRepo { owner: String, repo: String, number: u64 },
}

/// Why `dep_remove` refuses a request.
#[derive(Debug, Clone, PartialEq, Eq)]
pub enum DepRemoveError {
    /// A reference does not parse.
    InvalidIssueRef { input: String },
    /// The request is invalid.
    Validation { message: String },
    /// An endpoint of the edge is closed.
    EndpointClosed { qid: QualifiedId },
    /// The edge was removed but the cache could not be rebuilt (an upstream 503).
    CacheRebuildFailed { status: u16, message: String },
    /// The removal itself failed upstream.
    RemoveFailed { message: String },
}

// ------------------------------------------------------------------------------------------
// References
// ------------------------------------------------------------------------------------------

/// Whether `c` is an ASCII digit.
pub open spec fn is_digit(c: char) -> bool {
    '0' <= c && c <= '9'
}

/// The value of the decimal digits `s`.
pub open spec fn digits_value(s: Seq<char>) -> nat
    decreases s.len(),
{
    if s.len() == 0 {
        0
    } else {
        digits_value(s.drop_last()) * 10 + ((s.last() as int - '0' as int) as nat)
    }
}

/// The number `s` spells: one or more ASCII digits whose value fits in `u64`.
pub open spec fn number_of(s: Seq<char>) -> Option<u64> {
    if s.len() > 0 && (forall|i: int| 0 <= i < s.len() ==> is_digit(#[trigger] s[i])) && digits_value(
        s,
    ) <= u64::MAX {
        Some(digits_value(s) as u64)
    } else {
        None
    }
}

/// The view of a reference.
pub enum RefView {
    Local(u64),
    CrossRepo(Seq<char>, Seq<char>, u64),
}

/// The view of `r`.
pub open spec fn ref_view(r: IssueRef) -> RefView {
    match r {
        IssueRef::Local(n) => RefView::Local(n),
        IssueRef::CrossRepo { owner, repo, number } => RefView::CrossRepo(owner@, repo@, number),
    }
}

/// The position of the first `c` in `s`, if any.
pub open spec fn first_index(s: Seq<char>, c: char) -> Option<int> {
    crate::text::find_from(s, seq![c], 0)
}

/// The reference `s` spells: `n` or `#n` (local), or `owner/repo#n` with a non-empty owner and
/// repository and no further `/` or `#`.
pub open spec fn parse_ref_spec(s: Seq<char>) -> Option<RefView> {
    if s.len() > 0 && s[0] == '#' {
        match number_of(s.skip(1)) {
            Some(n) => Some(RefView::Local(n)),
            None => None,
        }
    } else {
        match number_of(s) {
            Some(n) => Some(RefView::Local(n)),
            None => match first_index(s, '#') {
                Some(h) => {
                    let path = s.take(h);
                    let num = s.skip(h + 1);
                    match first_index(path, '/') {
                        Some(sl) => {
                            let owner = path.take(sl);
                            let repo = path.skip(sl + 1);
                            if owner.len() > 0 && repo.len() > 0 && first_index(repo, '/') is None
                                && first_index(num, '#') is None {
                                match number_of(num) {
                                    Some(n) => Some(RefView::CrossRepo(owner, repo, n)),
                                    None => None,
                                }
                            } else {
                                None
                            }
                        },
                        None => None,
                    }
                },
                None => None,
            },
        }
    }
}

proof fn lemma_digits_step(s: Seq<char>, i: int)
    requires
        0 <= i < s.len(),
    ensures
        digits_value(s.take(i + 1)) == digits_value(s.take(i)) * 10 + ((s[i] as int - '0' as int) as nat),
{
    assert(s.take(i + 1).drop_last() =~= s.take(i));
}

proof fn lemma_digits_grow(s: Seq<char>, i: int, j: int)
    requires
        0 <= i <= j <= s.len(),
        forall|k: int| 0 <= k < s.len() ==> is_digit(#[trigger] s[k]),
    ensures
        digits_value(s.take(i)) <= digits_value(s.take(j)),
    decreases j - i,
{
    if i < j {
        lemma_digits_grow(s, i, j - 1);
        lemma_digits_step(s, j - 1);
    }
}

/// The number `v` spells, if it is one.
fn parse_number(v: &Vec<char>) -> (r: Option<u64>)
    ensures
        r == number_of(v@),
{
    if v.len() == 0 {
        return None;
    }
    let mut acc: u64 = 0;
    let mut i: usize = 0;
    while i < v.len()
        invariant
            0 <= i <= v@.len(),
            v@.len() > 0,
            forall|k: int| 0 <= k < i ==> is_digit(#[trigger] v@[k]),
            acc == digits_value(v@.take(i as int)),
        decreases v@.len() - i,
    {
        let c = v[i];
        if !('0' <= c && c <= '9') {
            return None;
        }
        proof {
            lemma_digits_step(v@, i as int);
        }
        let d: u64 = (c as u32 - '0' as u32) as u64;
        if acc > (u64::MAX - d) / 10 {
            proof {
                assert forall|k: int| 0 <= k < v@.len() implies is_digit(#[trigger] v@[k]) || !(
                forall|k2: int| 0 <= k2 < v@.len() ==> is_digit(#[trigger] v@[k2])) by {}
                if forall|k: int| 0 <= k < v@.len() ==> is_digit(#[trigger] v@[k]) {
                    lemma_digits_grow(v@, i + 1, v@.len() as int);
                    assert(v@.take(v@.len() as int) =~= v@);
                    assert(acc * 10 + d > u64::MAX) by (nonlinear_arith)
                        requires
                            acc > (u64::MAX - d) / 10,
                            d <= 9,
                    ;
                }
            }
            return None;
        }
        acc = acc * 10 + d;
        i = i + 1;
    }
    assert(v@.take(v@.len() as int) =~= v@);
    Some(acc)
}

/// The position of the first `c` in `v`.
fn find_char(v: &Vec<char>, c: char) -> (r: Option<usize>)
    ensures
        match r {
            Some(i) => first_index(v@, c) == Some(i as int) && i < v@.len(),
            None => first_index(v@, c) is None,
        },
{
    let mut p: Vec<char> = Vec::new();
    p.push(c);
    assert(p@ =~= seq![c]);
    match crate::text::find_sub(v, &p, 0) {
        Some(i) => Some(i),
        None => None,
    }
}

/// Parse a reference: `42`, `#42` or `owner/repo#42`.
pub fn parse_ref(value: &str) -> (r: Result<IssueRef, DepRemoveError>)
    ensures
        match r {
            Ok(x) => parse_ref_spec(value@) == Some(ref_view(x)),
            Err(e) => parse_ref_spec(value@) is None && (e matches DepRemoveError::InvalidIssueRef {
                input,
            } && input@ == value@),
        },
{
    let s = chars_of(value);
    let invalid = DepRemoveError::InvalidIssueRef { input: string_of(&s) };
    if s.len() > 0 && s[0] == '#' {
        let rest = crate::text::copy_range(&s, 1, s.len());
        assert(rest@ =~= s@.skip(1));
        return match parse_number(&rest) {
            Some(n) => Ok(IssueRef::Local(n)),
            None => Err(invalid),
        };
    }
    if let Some(n) = parse_number(&s) {
        return Ok(IssueRef::Local(n));
    }
    let h = match find_char(&s, '#') {
        Some(h) => h,
        None => return Err(invalid),
    };
    let path = crate::text::copy_range(&s, 0, h);
    let num = crate::text::copy_range(&s, h + 1, s.len());
    assert(path@ =~= s@.take(h as int));
    assert(num@ =~= s@.skip(h + 1));
    let sl = match find_char(&path, '/') {
        Some(sl) => sl,
        None => return Err(invalid),
    };
    let owner = crate::text::copy_range(&path, 0, sl);
    let repo = crate::text::copy_range(&path, sl + 1, path.len());
    assert(owner@ =~= path@.take(sl as int));
    assert(repo@ =~= path@.skip(sl + 1));
    if owner.len() == 0 || repo.len() == 0 || find_char(&repo, '/').is_some() || find_char(
        &num,
        '#',
    ).is_some() {
        return Err(invalid);
    }
    match parse_number(&num) {
        Some(n) => Ok(IssueRef::CrossRepo { owner: string_of(&owner), repo: string_of(&repo), number: n }),
        None => Err(invalid),
    }
}

/// `r` with a cross-repo reference to the configured repository made local.
pub open spec fn normalized(r: RefView, owner: Seq<char>, repo: Seq<char>) -> RefView {
    match r {
        RefView::CrossRepo(o, p, n) => if o == owner && p == repo {
            RefView::Local(n)
        } else {
            r
        },
        RefView::Local(n) => r,
    }
}

/// The issue `r` names, resolved against the configured repository.
pub open spec fn resolved_key(r: RefView, owner: Seq<char>, repo: Seq<char>) -> (Seq<char>, Seq<char>, u64) {
    match r {
        RefView::Local(n) => (owner, repo, n),
        RefView::CrossRepo(o, p, n) => (o, p, n),
    }
}

/// The display text of `r`: `#n` or `owner/repo#n`.
pub open spec fn ref_text(r: RefView) -> Seq<char> {
    match r {
        RefView::Local(n) => "#"@ + decimal(n as nat),
        RefView::CrossRepo(o, p, n) => qid_text(o, p, n as nat),
    }
}

impl IssueRef {
    /// This reference with a cross-repo reference to `owner/repo` made local.
    pub fn normalize(&self, owner: &str, repo: &str) -> (r: IssueRef)
        ensures
            ref_view(r) == normalized(ref_view(*self), owner@, repo@),
    {
        match self {
            IssueRef::Local(n) => IssueRef::Local(*n),
            IssueRef::CrossRepo { owner: o, repo: p, number } => {
                if crate::cross_repo::same_text(o.as_str(), owner) && crate::cross_repo::same_text(
                    p.as_str(),
                    repo,
                ) {
                    IssueRef::Local(*number)
                } else {
                    IssueRef::CrossRepo { owner: o.clone(), repo: p.clone(), number: *number }
                }
            },
        }
    }

    /// The issue this reference names, resolved against `owner/repo`.
    pub fn resolve(&self, owner: &str, repo: &str) -> (q: QualifiedId)
        ensures
            qkey(q) == resolved_key(ref_view(*self), owner@, repo@),
    {
        match self {
            IssueRef::Local(n) => QualifiedId::new(owner, repo, *n),
            IssueRef::CrossRepo { owner: o, repo: p, number } => QualifiedId::new(
                o.as_str(),
                p.as_str(),
                *number,
            ),
        }
    }

    /// The display text: `#n` or `owner/repo#n`.
    pub fn to_string(&self) -> (s: String)
        ensures
            s@ == ref_text(ref_view(*self)),
    {
        match self {
            IssueRef::Local(n) => {
                let mut v: Vec<char> = Vec::new();
                push_str(&mut v, "#");
                push_decimal(&mut v, *n);
                string_of(&v)
            },
            IssueRef::CrossRepo { owner, repo, number } => QualifiedId::new(
                owner.as_str(),
                repo.as_str(),
                *number,
            ).to_string(),
        }
    }

    /// Whether this reference is local.
    pub fn is_local(&self) -> (b: bool)
        ensures
            b == (ref_view(*self) is Local),
    {
        match self {
            IssueRef::Local(_) => true,
            _ => false,
        }
    }
}

// ------------------------------------------------------------------------------------------
// The probe
// ------------------------------------------------------------------------------------------

/// What the pre-mutation probe found.
#[derive(Debug, Clone, PartialEq, Eq)]
pub enum EdgePresence {
    /// The edge exists: remove it.
    Present,
    /// The edge does not exist: answer `removed: false` without mutating.
    MissingSkipMutation,
    /// This endpoint is closed: refuse.
    EndpointClosed(QualifiedId),
}

/// What the probe finds in the cached graph for the edge `source → target`: a closed source,
/// else a closed target, else whether the edge is there.
pub open spec fn cached_presence(g: DepGraph, source: QualifiedId, target: QualifiedId) -> EdgePresence {
    if state_in(g.states@, qkey(source)) == Some(IssueState::Closed) {
        EdgePresence::EndpointClosed(source)
    } else if state_in(g.states@, qkey(target)) == Some(IssueState::Closed) {
        EdgePresence::EndpointClosed(target)
    } else if exists|k: int|
        0 <= k < g.edges@.len() && qkey(#[trigger] g.edges@[k].source) == qkey(source) && qkey(
            g.edges@[k].target,
        ) == qkey(target) {
        EdgePresence::Present
    } else {
        EdgePresence::MissingSkipMutation
    }
}

fn state_is_closed(graph: &DepGraph, q: &QualifiedId) -> (r: bool)
    ensures
        r == (state_in(graph.states@, qkey(*q)) == Some(IssueState::Closed)),
{
    let mut i: usize = 0;
    assert(graph.states@.skip(0) =~= graph.states@);
    while i < graph.states.len()
        invariant
            0 <= i <= graph.states@.len(),
            state_in(graph.states@.skip(i as int), qkey(*q)) == state_in(graph.states@, qkey(*q)),
        decreases graph.states@.len() - i,
    {
        assert(graph.states@.skip(i as int).skip(1) =~= graph.states@.skip(i + 1));
        assert(graph.states@.skip(i as int)[0] == graph.states@[i as int]);
        if crate::model::same_qid(&graph.states[i].0, q) {
            return match graph.states[i].1 {
                IssueState::Closed => true,
                IssueState::Open => false,
            };
        }
        i = i + 1;
    }
    false
}

/// The warm-cache probe: classify the edge `source → target` in the cached graph.
pub fn guard_edge_exists(graph: &DepGraph, source_qid: &QualifiedId, target_qid: &QualifiedId) -> (r: EdgePresence)
    ensures
        r == cached_presence(*graph, *source_qid, *target_qid),
{
    if state_is_closed(graph, source_qid) {
        return EdgePresence::EndpointClosed(crate::model::copy_qid(source_qid));
    }
    if state_is_closed(graph, target_qid) {
        return EdgePresence::EndpointClosed(crate::model::copy_qid(target_qid));
    }
    let mut k: usize = 0;
    while k < graph.edges.len()
        invariant
            0 <= k <= graph.edges@.len(),
            state_in(graph.states@, qkey(*source_qid)) != Some(IssueState::Closed),
            state_in(graph.states@, qkey(*target_qid)) != Some(IssueState::Closed),
            forall|j: int|
                0 <= j < k ==> !(qkey(#[trigger] graph.edges@[j].source) == qkey(*source_qid) && qkey(
                    graph.edges@[j].target,
                ) == qkey(*target_qid)),
        decreases graph.edges@.len() - k,
    {
        if crate::model::same_qid(&graph.edges[k].source, source_qid) && crate::model::same_qid(
            &graph.edges[k].target,
            target_qid,
        ) {
            assert(qkey(graph.edges@[k as int].source) == qkey(*source_qid) && qkey(
                graph.edges@[k as int].target,
            ) == qkey(*target_qid));
            return EdgePresence::Present;
        }
        k = k + 1;
    }
    EdgePresence::MissingSkipMutation
}

/// A blocker of a fetched issue; a missing repository identity means the fetched issue's own.
#[derive(Debug, Clone, PartialEq, Eq)]
pub struct RelatedIssue {
    pub number: u64,
    pub repo_owner: Option<String>,
    pub repo_name: Option<String>,
    pub state: IssueState,
}

/// Whether blocker `b` of the issue `source` is `target`.
pub open spec fn blocker_is(b: RelatedIssue, source: QualifiedId, target: QualifiedId) -> bool {
    let owner = match b.repo_owner {
        Some(o) => o@,
        None => source.owner@,
    };
    let repo = match b.repo_name {
        Some(r) => r@,
        None => source.repo@,
    };
    owner == target.owner@ && repo == target.repo@ && b.number == target.number
}

/// The first blocker of `bs` that is `target`.
pub open spec fn first_blocker(bs: Seq<RelatedIssue>, source: QualifiedId, target: QualifiedId) -> Option<RelatedIssue>
    decreases bs.len(),
{
    if bs.len() == 0 {
        None
    } else if blocker_is(bs[0], source, target) {
        Some(bs[0])
    } else {
        first_blocker(bs.skip(1), source, target)
    }
}

/// What the probe finds in the fetched source: a closed source, else the first blocker that is
/// the target (closed or not), else no edge.
pub open spec fn fetched_presence(source_state: IssueState, bs: Seq<RelatedIssue>, source: QualifiedId, target: QualifiedId) -> EdgePresence {
    if source_state == IssueState::Closed {
        EdgePresence::EndpointClosed(source)
    } else {
        match first_blocker(bs, source, target) {
            Some(b) => if b.state == IssueState::Closed {
                EdgePresence::EndpointClosed(target)
            } else {
                EdgePresence::Present
            },
            None => EdgePresence::MissingSkipMutation,
        }
    }
}

fn blocker_matches(b: &RelatedIssue, source: &QualifiedId, target: &QualifiedId) -> (r: bool)
    ensures
        r == blocker_is(*b, *source, *target),
{
    let owner = match &b.repo_owner {
        Some(o) => o.as_str(),
        None => source.owner.as_str(),
    };
    let repo = match &b.repo_name {
        Some(r) => r.as_str(),
        None => source.repo.as_str(),
    };
    crate::cross_repo::same_text(owner, target.owner.as_str()) && crate::cross_repo::same_text(
        repo,
        target.repo.as_str(),
    ) && b.number == target.number
}

/// The cold-cache or cross-repo probe: classify the edge from the fetched source issue (its
/// state and its blockers).
pub fn probe_edge_via_fetch(
    source_state: IssueState,
    blocked_by: &[RelatedIssue],
    source_qid: &QualifiedId,
    target_qid: &QualifiedId,
) -> (r: EdgePresence)
    ensures
        r == fetched_presence(source_state, blocked_by@, *source_qid, *target_qid),
{
    if let IssueState::Closed = source_state {
        return EdgePresence::EndpointClosed(crate::model::copy_qid(source_qid));
    }
    let mut i: usize = 0;
    assert(blocked_by@.skip(0) =~= blocked_by@);
    while i < blocked_by.len()
        invariant
            0 <= i <= blocked_by@.len(),
            source_state == IssueState::Open,
            first_blocker(blocked_by@.skip(i as int), *source_qid, *target_qid) == first_blocker(
                blocked_by@,
                *source_qid,
                *target_qid,
            ),
        decreases blocked_by@.len() - i,
    {
        assert(blocked_by@.skip(i as int).skip(1) =~= blocked_by@.skip(i + 1));
        assert(blocked_by@.skip(i as int)[0] == blocked_by@[i as int]);
        if blocker_matches(&blocked_by[i], source_qid, target_qid) {
            return match blocked_by[i].state {
                IssueState::Closed => EdgePresence::EndpointClosed(crate::model::copy_qid(target_qid)),
                IssueState::Open => EdgePresence::Present,
            };
        }
        i = i + 1;
    }
    EdgePresence::MissingSkipMutation
}

// ------------------------------------------------------------------------------------------
// The steps
// ------------------------------------------------------------------------------------------

/// A validated request: the normalized references, the issues they resolve to, and where the
/// probe looks.
#[derive(Debug, Clone, PartialEq, Eq)]
pub struct DepRemovePlan {
    pub source_ref: IssueRef,
    pub target_ref: IssueRef,
    pub source_qid: QualifiedId,
    pub target_qid: QualifiedId,
    /// Probe the cached graph (warm cache, both ends local) rather than the fetched source.
    pub probe_cache: bool,
}

/// The plan `dep_remove` makes of `params`, or why it refuses them.
pub open spec fn plan_of(p: DepRemoveParams, owner: Seq<char>, repo: Seq<char>, cache_warm: bool, r: Result<DepRemovePlan, DepRemoveError>) -> bool {
    match parse_ref_spec(p.source@) {
        None => r matches Err(DepRemoveError::InvalidIssueRef { input }) && input@ == p.source@,
        Some(s) => match parse_ref_spec(p.target@) {
            None => r matches Err(DepRemoveError::InvalidIssueRef { input }) && input@ == p.target@,
            Some(t) => {
                let sn = normalized(s, owner, repo);
                let tn = normalized(t, owner, repo);
                if resolved_key(sn, owner, repo) == resolved_key(tn, owner, repo) {
                    r matches Err(DepRemoveError::Validation { message }) && message@
                        == "dep_remove: source and target must differ (both resolved to "@
                        + qid_text(
                        resolved_key(sn, owner, repo).0,
                        resolved_key(sn, owner, repo).1,
                        resolved_key(sn, owner, repo).2 as nat,
                    ) + ")"@
                } else {
                    r matches Ok(plan) && ref_view(plan.source_ref) == sn && ref_view(
                        plan.target_ref,
                    ) == tn && qkey(plan.source_qid) == resolved_key(sn, owner, repo) && qkey(
                        plan.target_qid,
                    ) == resolved_key(tn, owner, repo) && plan.probe_cache == (cache_warm
                        && sn is Local && tn is Local)
                }
            },
        },
    }
}

/// Parse, normalize and resolve the two references and choose where to probe.
pub fn plan_dep_remove(params: &DepRemoveParams, owner: &str, repo: &str, cache_warm: bool) -> (r: Result<
    DepRemovePlan,
    DepRemoveError,
>)
    ensures
        plan_of(*params, owner@, repo@, cache_warm, r),
{
    let source_raw = match parse_ref(params.source.as_str()) {
        Ok(x) => x,
        Err(e) => return Err(e),
    };
    let target_raw = match parse_ref(params.target.as_str()) {
        Ok(x) => x,
        Err(e) => return Err(e),
    };
    let source_ref = source_raw.normalize(owner, repo);
    let target_ref = target_raw.normalize(owner, repo);
    let source_qid = source_ref.resolve(owner, repo);
    let target_qid = target_ref.resolve(owner, repo);
    if crate::model::same_qid(&source_qid, &target_qid) {
        let mut m: Vec<char> = Vec::new();
        push_str(&mut m, "dep_remove: source and target must differ (both resolved to ");
        let q = source_qid.to_string();
        push_str(&mut m, q.as_str());
        push_str(&mut m, ")");
        return Err(DepRemoveError::Validation { message: string_of(&m) });
    }
    let probe_cache = cache_warm && source_ref.is_local() && target_ref.is_local();
    Ok(DepRemovePlan { source_ref, target_ref, source_qid, target_qid, probe_cache })
}

/// What `dep_remove` does after the probe.
#[derive(Debug, Clone, PartialEq, Eq)]
pub enum AfterProbe {
    /// Remove the edge.
    Mutate,
    /// Answer without mutating.
    Answer(DepRemoveResult),
    /// Refuse.
    Refuse(DepRemoveError),
}

/// The answer to an edge that is not there.
pub open spec fn missing_answer(plan: DepRemovePlan, r: DepRemoveResult) -> bool {
    let s = ref_text(ref_view(plan.source_ref));
    let t = ref_text(ref_view(plan.target_ref));
    &&& !r.removed
    &&& r.source@ == s
    &&& r.target@ == t
    &&& r.message@ == "No blocking edge to remove: "@ + s + " is not currently blocked by "@ + t
}

/// The answer to an edge that was removed.
pub open spec fn removed_answer(plan: DepRemovePlan, r: DepRemoveResult) -> bool {
    let s = ref_text(ref_view(plan.source_ref));
    let t = ref_text(ref_view(plan.target_ref));
    &&& r.removed
    &&& r.source@ == s
    &&& r.target@ == t
    &&& r.message@ == "Removed blocking edge: "@ + s + " is no longer blocked by "@ + t
}

/// Decide what follows the probe: remove a present edge, answer `removed: false` for a missing
/// one, refuse a closed endpoint.
pub fn after_probe(plan: &DepRemovePlan, presence: EdgePresence) -> (r: AfterProbe)
    ensures
        match presence {
            EdgePresence::Present => r == AfterProbe::Mutate,
            EdgePresence::MissingSkipMutation => r matches AfterProbe::Answer(a) && missing_answer(
                *plan,
                a,
            ),
            EdgePresence::EndpointClosed(q) => r == AfterProbe::Refuse(
                DepRemoveError::EndpointClosed { qid: q },
            ),
        },
{
    match presence {
        EdgePresence::Present => AfterProbe::Mutate,
        EdgePresence::MissingSkipMutation => {
            let s = plan.source_ref.to_string();
            let t = plan.target_ref.to_string();
            let mut m: Vec<char> = Vec::new();
            push_str(&mut m, "No blocking edge to remove: ");
            push_str(&mut m, s.as_str());
            push_str(&mut m, " is not currently blocked by ");
            push_str(&mut m, t.as_str());
            AfterProbe::Answer(DepRemoveResult { removed: false, source: s, target: t, message: string_of(&m) })
        },
        EdgePresence::EndpointClosed(q) => AfterProbe::Refuse(DepRemoveError::EndpointClosed { qid: q }),
    }
}

/// The source issue in the rebuilt cache: the first with the source's number and id.
pub open spec fn source_in(issues: Seq<Issue>, number: u64, q: QualifiedId) -> Option<Issue>
    decreases issues.len(),
{
    if issues.len() == 0 {
        None
    } else if issues[0].number == number && qkey(issues[0].qualified_id) == qkey(q) {
        Some(issues[0])
    } else {
        source_in(issues.skip(1), number, q)
    }
}

/// After the removal, for a local source: whether to move the source to `ready` (it is in the
/// rebuilt cache and has no open blocker left), or the error when the cache could not be rebuilt.
pub fn reevaluate_source_after_remove(
    rebuilt: Option<(&[Issue], &DepGraph)>,
    source_number: u64,
    source_qid: &QualifiedId,
    target_qid: &QualifiedId,
) -> (r: Result<bool, DepRemoveError>)
    ensures
        match rebuilt {
            None => r matches Err(DepRemoveError::CacheRebuildFailed { status, message })
                && status == 503 && message@ == "Blocking edge removed between "@ + qid_display(
                *source_qid,
            ) + " and "@ + qid_display(*target_qid)
                + ", but cache rebuild failed — please re-run `show` to observe the final blocked status"@,
            Some((issues, graph)) => r matches Ok(b) && b == (match source_in(
                issues@,
                source_number,
                *source_qid,
            ) {
                Some(i) => !has_open_blocker(*graph, i.qualified_id),
                None => false,
            }),
        },
{
    let (issues, graph) = match rebuilt {
        Some(x) => x,
        None => {
            let mut m: Vec<char> = Vec::new();
            push_str(&mut m, "Blocking edge removed between ");
            let s = source_qid.to_string();
            push_str(&mut m, s.as_str());
            push_str(&mut m, " and ");
            let t = target_qid.to_string();
            push_str(&mut m, t.as_str());
            push_str(
                &mut m,
                ", but cache rebuild failed — please re-run `show` to observe the final blocked status",
            );
            return Err(DepRemoveError::CacheRebuildFailed { status: 503, message: string_of(&m) });
        },
    };
    let mut i: usize = 0;
    assert(issues@.skip(0) =~= issues@);
    while i < issues.len()
        invariant
            0 <= i <= issues@.len(),
            rebuilt == Some((issues, graph)),
            source_in(issues@.skip(i as int), source_number, *source_qid) == source_in(
                issues@,
                source_number,
                *source_qid,
            ),
        decreases issues@.len() - i,
    {
        assert(issues@.skip(i as int).skip(1) =~= issues@.skip(i + 1));
        assert(issues@.skip(i as int)[0] == issues@[i as int]);
        if issues[i].number == source_number && crate::model::same_qid(
            &issues[i].qualified_id,
            source_qid,
        ) {
            return Ok(!has_open_blockers(&issues[i], graph));
        }
        i = i + 1;
    }
    Ok(false)
}

/// The answer once the edge was removed.
pub fn removed_result(plan: &DepRemovePlan) -> (r: DepRemoveResult)
    ensures
        removed_answer(*plan, r),
{
    let s = plan.source_ref.to_string();
    let t = plan.target_ref.to_string();
    let mut m: Vec<char> = Vec::new();
    push_str(&mut m, "Removed blocking edge: ");
    push_str(&mut m, s.as_str());
    push_str(&mut m, " is no longer blocked by ");
    push_str(&mut m, t.as_str());
    DepRemoveResult { removed: true, source: s, target: t, message: string_of(&m) }
}

// ------------------------------------------------------------------------------------------
// The whole request, step by step
// ------------------------------------------------------------------------------------------

/// What the outside world reports back to a `dep_remove` request in progress.
pub enum DepRemoveEvent<'a> {
    /// The request starts (its plan is made).
    Start,
    /// The probe observed the edge.
    Probed(EdgePresence),
    /// The removal call returned: nothing, or the upstream failure's message.
    Removed(Result<(), String>),
    /// The cache was rebuilt after the removal: its issues and graph, or nothing.
    Rebuilt(Option<(&'a [Issue], &'a DepGraph)>),
}

/// What a `dep_remove` request in progress does next.
#[derive(Debug, Clone, PartialEq, Eq)]
pub enum DepRemoveAction {
    /// Probe the cached graph.
    ProbeCache,
    /// Probe the source issue fetched afresh.
    ProbeFetch,
    /// Call the removal.
    Remove,
    /// Rebuild the cache.
    Rebuild,
    /// Move the source to `ready` (best effort), then answer.
    MarkReadyAndAnswer(DepRemoveResult),
    /// Answer.
    Answer(DepRemoveResult),
    /// Refuse or fail.
    Fail(DepRemoveError),
}

/// What `dep_remove` does next under `plan` when `event` comes in.
pub open spec fn next_action(plan: DepRemovePlan, event: DepRemoveEvent, a: DepRemoveAction) -> bool {
    match event {
        DepRemoveEvent::Start => a == if plan.probe_cache {
            DepRemoveAction::ProbeCache
        } else {
            DepRemoveAction::ProbeFetch
        },
        DepRemoveEvent::Probed(p) => match p {
            EdgePresence::Present => a == DepRemoveAction::Remove,
            EdgePresence::MissingSkipMutation => a matches DepRemoveAction::Answer(r) && missing_answer(
                plan,
                r,
            ),
            EdgePresence::EndpointClosed(q) => a == DepRemoveAction::Fail(
                DepRemoveError::EndpointClosed { qid: q },
            ),
        },
        DepRemoveEvent::Removed(Err(m)) => a == DepRemoveAction::Fail(
            DepRemoveError::RemoveFailed { message: m },
        ),
        DepRemoveEvent::Removed(Ok(())) => a == DepRemoveAction::Rebuild,
        DepRemoveEvent::Rebuilt(rebuilt) => if !(ref_view(plan.source_ref) is Local) {
            a matches DepRemoveAction::Answer(r) && removed_answer(plan, r)
        } else { match rebuilt {
            None => a matches DepRemoveAction::Fail(DepRemoveError::CacheRebuildFailed { status, message })
                && status == 503 && message@ == "Blocking edge removed between "@ + qid_display(
                plan.source_qid,
            ) + " and "@ + qid_display(plan.target_qid)
                + ", but cache rebuild failed — please re-run `show` to observe the final blocked status"@,
            Some((issues, graph)) => {
                let ready = match source_in(issues@, local_number(plan), plan.source_qid) {
                    Some(i) => !has_open_blocker(*graph, i.qualified_id),
                    None => false,
                };
                if ready {
                    a matches DepRemoveAction::MarkReadyAndAnswer(r) && removed_answer(plan, r)
                } else {
                    a matches DepRemoveAction::Answer(r) && removed_answer(plan, r)
                }
            },
        } },
    }
}

/// The source's number, where the source is local.
pub open spec fn local_number(plan: DepRemovePlan) -> u64 {
    match ref_view(plan.source_ref) {
        RefView::Local(n) => n,
        RefView::CrossRepo(_, _, n) => n,
    }
}

/// The next step of a `dep_remove` request under `plan`, given what just came back.
pub fn dep_remove_next(plan: &DepRemovePlan, event: DepRemoveEvent) -> (a: DepRemoveAction)
    ensures
        next_action(*plan, event, a),
{
    match event {
        DepRemoveEvent::Start => if plan.probe_cache {
            DepRemoveAction::ProbeCache
        } else {
            DepRemoveAction::ProbeFetch
        },
        DepRemoveEvent::Probed(p) => match after_probe(plan, p) {
            AfterProbe::Mutate => DepRemoveAction::Remove,
            AfterProbe::Answer(r) => DepRemoveAction::Answer(r),
            AfterProbe::Refuse(e) => DepRemoveAction::Fail(e),
        },
        DepRemoveEvent::Removed(Err(m)) => DepRemoveAction::Fail(DepRemoveError::RemoveFailed { message: m }),
        DepRemoveEvent::Removed(Ok(())) => DepRemoveAction::Rebuild,
        DepRemoveEvent::Rebuilt(rebuilt) => {
            let number = match &plan.source_ref {
                IssueRef::Local(n) => *n,
                IssueRef::CrossRepo { .. } => return DepRemoveAction::Answer(removed_result(plan)),
            };
            match reevaluate_source_after_remove(rebuilt, number, &plan.source_qid, &plan.target_qid) {
                Ok(true) => DepRemoveAction::MarkReadyAndAnswer(removed_result(plan)),
                Ok(false) => DepRemoveAction::Answer(removed_result(plan)),
                Err(e) => DepRemoveAction::Fail(e),
            }
        },
    }
}

/// An answer that reports the edge removed comes only after the removal call returned without
/// failure: in reply to the cache rebuild, which is asked for only in reply to that return.
pub proof fn lemma_removed_only_after_removal(plan: DepRemovePlan, event: DepRemoveEvent, a: DepRemoveAction)
    requires
        next_action(plan, event, a),
        (a matches DepRemoveAction::Answer(r) && r.removed) || a is MarkReadyAndAnswer,
    ensures
        event is Rebuilt,
{
    match event {
        DepRemoveEvent::Probed(p) => match p {
            EdgePresence::MissingSkipMutation => {
                let r = a->Answer_0;
                assert(missing_answer(plan, r));
                assert(!r.removed);
            },
            _ => {},
        },
        DepRemoveEvent::Removed(res) => {
            if res is Err {
                assert(a is Fail);
            }
        },
        _ => {},
    }
}

/// The cache is rebuilt exactly in reply to a removal call that returned without failure.
pub proof fn lemma_rebuild_only_after_removal(plan: DepRemovePlan, event: DepRemoveEvent, a: DepRemoveAction)
    requires
        next_action(plan, event, a),
    ensures
        (a == DepRemoveAction::Rebuild) <==> (event matches DepRemoveEvent::Removed(Ok(_))),
{
}

/// A request never removes an edge the probe did not find: the removal is asked for exactly in
/// reply to a probe that found the edge.
pub proof fn lemma_remove_only_when_present(plan: DepRemovePlan, event: DepRemoveEvent, a: DepRemoveAction)
    requires
        next_action(plan, event, a),
    ensures
        (a == DepRemoveAction::Remove) <==> (event == DepRemoveEvent::Probed(EdgePresence::Present)),
{
}

/// Whether `e` is what comes back from performing `a`.
pub open spec fn responds(a: DepRemoveAction, e: DepRemoveEvent) -> bool {
    match a {
        DepRemoveAction::ProbeCache => e is Probed,
        DepRemoveAction::ProbeFetch => e is Probed,
        DepRemoveAction::Remove => e is Removed,
        DepRemoveAction::Rebuild => e is Rebuilt,
        _ => false,
    }
}

/// Whether `events` and `actions` are a run of a request under `plan`: it starts, each action is
/// the one `dep_remove_next` picks for its event, and each later event comes back from the
/// action before it.
pub open spec fn is_run(plan: DepRemovePlan, events: Seq<DepRemoveEvent>, actions: Seq<DepRemoveAction>) -> bool {
    &&& events.len() == actions.len()
    &&& events.len() > 0
    &&& events[0] is Start
    &&& forall|i: int| 0 <= i < events.len() ==> next_action(plan, #[trigger] events[i], actions[i])
    &&& forall|i: int| 0 <= i < events.len() - 1 ==> responds(#[trigger] actions[i], events[i + 1])
}

/// A run that ends in an answer reporting the edge removed went through a probe that found the
/// edge, the removal asked for in reply, and that removal returning without failure, in this
/// order, right before the cache rebuild that the answer replies to.
pub proof fn lemma_run_reports_removed_only_after_removal(
    plan: DepRemovePlan,
    events: Seq<DepRemoveEvent>,
    actions: Seq<DepRemoveAction>,
)
    requires
        is_run(plan, events, actions),
        (actions.last() matches DepRemoveAction::Answer(r) && r.removed) || actions.last() is MarkReadyAndAnswer,
    ensures
        events.len() >= 4,
        events[events.len() - 3] == DepRemoveEvent::Probed(EdgePresence::Present),
        actions[events.len() - 3] == DepRemoveAction::Remove,
        events[events.len() - 2] matches DepRemoveEvent::Removed(Ok(_)),
        actions[events.len() - 2] == DepRemoveAction::Rebuild,
        events.last() is Rebuilt,
{
    let n = events.len() as int;
    assert(next_action(plan, events[n - 1], actions[n - 1]));
    lemma_removed_only_after_removal(plan, events[n - 1], actions[n - 1]);
    // the first event starts the request, which only probes
    assert(next_action(plan, events[0], actions[0]));
    assert(n - 1 > 0);
    assert(responds(actions[n - 2], events[n - 1]));
    assert(next_action(plan, events[n - 2], actions[n - 2]));
    lemma_rebuild_only_after_removal(plan, events[n - 2], actions[n - 2]);
    assert(n - 2 > 0);
    assert(responds(actions[n - 3], events[n - 2]));
    assert(next_action(plan, events[n - 3], actions[n - 3]));
    lemma_remove_only_when_present(plan, events[n - 3], actions[n - 3]);
    assert(n - 3 > 0);
}

// ------------------------------------------------------------------------------------------
// Laws
// ------------------------------------------------------------------------------------------

/// The two probes agree when they observe the same state: the cached graph and the fetched
/// source record the same state for the source, the edge `source → target` exists in the graph
/// exactly when the target is among the fetched blockers, with the same state. (They differ
/// when the target is closed and the edge is absent: the cache path reports the closed target,
/// the fetch path reports no edge.)
pub proof fn lemma_probes_agree(
    g: DepGraph,
    source_state: IssueState,
    blockers: Seq<RelatedIssue>,
    source: QualifiedId,
    target: QualifiedId,
)
    requires
        state_in(g.states@, qkey(source)) == Some(source_state),
        (first_blocker(blockers, source, target) is Some) <==> (exists|k: int|
            0 <= k < g.edges@.len() && qkey(#[trigger] g.edges@[k].source) == qkey(source) && qkey(
                g.edges@[k].target,
            ) == qkey(target)),
        first_blocker(blockers, source, target) matches Some(b) ==> state_in(g.states@, qkey(target))
            == Some(b.state),
        state_in(g.states@, qkey(target)) == Some(IssueState::Closed) ==> exists|k: int|
            0 <= k < g.edges@.len() && qkey(#[trigger] g.edges@[k].source) == qkey(source) && qkey(
                g.edges@[k].target,
            ) == qkey(target),
    ensures
        cached_presence(g, source, target) == fetched_presence(source_state, blockers, source, target),
{
}

/// The digits of `decimal(n)` spell `n`.
pub proof fn lemma_decimal_number(n: u64)
    ensures
        number_of(decimal(n as nat)) == Some(n),
{
    lemma_decimal_digits(n as nat);
}

proof fn lemma_decimal_digits(n: nat)
    ensures
        decimal(n).len() > 0,
        forall|i: int| 0 <= i < decimal(n).len() ==> is_digit(#[trigger] decimal(n)[i]),
        digits_value(decimal(n)) == n,
        forall|i: int| 0 <= i < decimal(n).len() ==> #[trigger] decimal(n)[i] != '#' && decimal(n)[i]
            != '/',
    decreases n,
{
    lemma_digit_char((n % 10) as nat);
    if n >= 10 {
        lemma_decimal_digits(n / 10);
        let d = decimal(n);
        assert(d.drop_last() =~= decimal(n / 10));
        assert(d.last() == crate::text::digit_char((n % 10) as nat));
        assert(digits_value(d) == digits_value(decimal(n / 10)) * 10 + ((d.last() as int - '0' as int) as nat));
        assert((n / 10) * 10 + n % 10 == n);
    } else {
        lemma_digit_char(n);
        let d = decimal(n);
        assert(d.drop_last() =~= Seq::<char>::empty());
        assert(d.last() == crate::text::digit_char(n));
        assert(digits_value(d) == digits_value(d.drop_last()) * 10 + ((d.last() as int - '0' as int) as nat));
    }
}

proof fn lemma_digit_char(k: nat)
    requires
        k < 10,
    ensures
        crate::text::digit_char(k) as int - '0' as int == k,
        is_digit(crate::text::digit_char(k)),
{
}

proof fn lemma_no_char_found(s: Seq<char>, c: char, from: int)
    requires
        0 <= from,
        forall|i: int| from <= i < s.len() ==> #[trigger] s[i] != c,
    ensures
        crate::text::find_from(s, seq![c], from) is None,
    decreases s.len() + 1 - from,
{
    if from + 1 <= s.len() {
        assert(s.subrange(from, s.len() as int).subrange(0, 1)[0] == s[from]);
        assert(s.subrange(from, s.len() as int).subrange(0, 1) != seq![c]);
        lemma_no_char_found(s, c, from + 1);
    }
}

proof fn lemma_first_char_at(s: Seq<char>, c: char, from: int, at: int)
    requires
        0 <= from <= at < s.len(),
        s[at] == c,
        forall|i: int| from <= i < at ==> #[trigger] s[i] != c,
    ensures
        crate::text::find_from(s, seq![c], from) == Some(at),
    decreases at - from,
{
    if from < at {
        assert(s.subrange(from, s.len() as int).subrange(0, 1)[0] == s[from]);
        assert(s.subrange(from, s.len() as int).subrange(0, 1) != seq![c]);
        lemma_first_char_at(s, c, from + 1, at);
    } else {
        assert(s.subrange(from, s.len() as int).subrange(0, 1) =~= seq![c]);
    }
}

/// Whether `s` is a valid owner or repository name in a reference: not empty, without `/` or
/// `#`.
pub open spec fn plain_name(s: Seq<char>) -> bool {
    s.len() > 0 && forall|i: int| 0 <= i < s.len() ==> #[trigger] s[i] != '/' && s[i] != '#'
}

/// A reference parses back from its display text, where its owner and repository are plain
/// names.
pub proof fn lemma_ref_text_parses(r: RefView)
    requires
        r matches RefView::CrossRepo(o, p, n) ==> plain_name(o) && plain_name(p),
    ensures
        parse_ref_spec(ref_text(r)) == Some(r),
{
    reveal_strlit("#");
    reveal_strlit("/");
    match r {
        RefView::Local(n) => {
            lemma_decimal_number(n);
            let t = ref_text(r);
            assert(t.skip(1) =~= decimal(n as nat));
        },
        RefView::CrossRepo(o, p, n) => {
            lemma_decimal_number(n);
            lemma_decimal_digits(n as nat);
            let t = ref_text(r);
            let d = decimal(n as nat);
            assert(t =~= o + seq!['/'] + p + seq!['#'] + d);
            let h: int = o.len() as int + 1 + p.len() as int;
            assert(t[o.len() as int] == '/');
            assert(!is_digit(t[o.len() as int]));
            assert(number_of(t) is None);
            assert(t[0] == o[0]);
            lemma_first_char_at(t, '#', 0, h);
            let path = t.take(h);
            assert(path =~= o + seq!['/'] + p);
            lemma_first_char_at(path, '/', 0, o.len() as int);
            assert(path.take(o.len() as int) =~= o);
            assert(path.skip(o.len() as int + 1) =~= p);
            assert(t.skip(h + 1) =~= d);
            lemma_no_char_found(p, '/', 0);
            lemma_no_char_found(d, '#', 0);
        },
    }
}

} // verus!
