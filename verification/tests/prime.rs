use chrono::TimeZone;
use unblock_mcp::cross_repo::{CrossRepoRefs, QualifiedId};
use unblock_mcp::error::ToolErrorCode;
use unblock_mcp::json::JsonValue;
use unblock_mcp::list::normalize_filter;
use unblock_mcp::model::{has_open_blockers, DepGraph, Edge, Issue, IssueState, IssueSummary, Priority, Status, Timestamp};
use unblock_mcp::prime::{
    apply_agent_filter, categorise_issues, categorise_issues_now, compute_hotspots, drift_warnings,
    issue_to_summary, render_context, render_prime, summarise_drift, validate_and_resolve_params,
    CategorisedIssues, ContextInputs, ContextInputsBuilder, PrimeCounts, PrimeIssueSummary,
    PrimeParams, RepoIdentity, SessionMeta, DEFAULT_MAX_PER_CATEGORY, DEFAULT_STALE_THRESHOLD_HOURS,
};

const TEST_OWNER: &str = "test-owner";
const TEST_REPO: &str = "test-repo";

fn ts(t: chrono::DateTime<chrono::Utc>) -> Timestamp {
    Timestamp { secs: t.timestamp(), nanos: t.timestamp_subsec_nanos() }
}

fn now() -> Timestamp {
    ts(chrono::Utc::now())
}

fn hours_ago(h: i64) -> Timestamp {
    ts(chrono::Utc::now() - chrono::Duration::hours(h))
}

fn qid(number: u64) -> QualifiedId {
    QualifiedId::new(TEST_OWNER, TEST_REPO, number)
}

fn test_issue(number: u64, state: IssueState, status: Status) -> Issue {
    Issue {
        qualified_id: qid(number),
        number,
        node_id: format!("NODE_{number}"),
        title: format!("Issue #{number}"),
        issue_type: Some("Task".to_owned()),
        status,
        priority: Priority::P1,
        agent: None,
        claimed_at: None,
        story_points: None,
        defer_until: None,
        labels: vec![],
        milestone: None,
        assignees: vec![],
        state,
        created_at: now(),
        updated_at: now(),
        url: format!("https://github.com/test-owner/test-repo/issues/{number}"),
    }
}

fn blocks(source: u64, target: u64) -> Edge {
    Edge { source: qid(source), target: qid(target) }
}

fn graph_of(issues: &[Issue], edges: Vec<Edge>) -> DepGraph {
    DepGraph { edges, states: issues.iter().map(|i| (i.qualified_id.clone(), i.state)).collect() }
}

/// The ready set as the cache computes it: open local issues, ready or claimed, with no open
/// blocker.
fn ready_of(issues: &[Issue], graph: &DepGraph) -> Vec<IssueSummary> {
    issues
        .iter()
        .filter(|i| {
            i.state == IssueState::Open
                && (i.status == Status::Ready || i.status == Status::InProgress)
                && i.qualified_id.owner == TEST_OWNER
                && i.qualified_id.repo == TEST_REPO
                && !has_open_blockers(i, graph)
        })
        .map(issue_to_summary)
        .collect()
}

fn categorise(issues: &[Issue], edges: Vec<Edge>, hours: u64) -> CategorisedIssues {
    let graph = graph_of(issues, edges);
    let ready = ready_of(issues, &graph);
    categorise_issues(issues, &graph, &ready, hours, now())
}

fn chars(s: &str) -> Vec<char> {
    s.chars().collect()
}

#[test]
fn categorise_empty_issues_returns_empty() {
    let result = categorise(&[], vec![], 24);
    assert!(result.in_progress.is_empty());
    assert!(result.ready.is_empty());
    assert!(result.blocked.is_empty());
    assert!(result.completed.is_empty());
    assert!(result.hotspots.is_empty());
    assert!(result.stale.is_empty());
}

#[test]
fn categorise_in_progress_issues() {
    let mut issue = test_issue(1, IssueState::Open, Status::InProgress);
    issue.agent = Some("agent-x".to_owned());
    issue.claimed_at = Some(now());
    let result = categorise(&[issue], vec![], 24);
    assert_eq!(result.in_progress.len(), 1);
    assert_eq!(result.in_progress[0].number, 1);
    assert!(result.stale.is_empty(), "recently claimed should not be stale");
}

#[test]
fn categorise_stale_claims() {
    let mut issue = test_issue(1, IssueState::Open, Status::InProgress);
    issue.agent = Some("agent-x".to_owned());
    issue.claimed_at = Some(hours_ago(48));
    let result = categorise(&[issue], vec![], 24);
    assert_eq!(result.in_progress.len(), 1);
    assert_eq!(result.stale.len(), 1);
    assert_eq!(result.stale[0].number, 1);
    assert!(result.stale[0].hours_stale >= 47);
}

#[test]
fn categorise_blocked_issues() {
    let issue1 = test_issue(1, IssueState::Open, Status::Ready);
    let issue2 = test_issue(2, IssueState::Open, Status::Blocked);
    let result = categorise(&[issue1, issue2], vec![blocks(2, 1)], 24);
    assert_eq!(result.ready.len(), 1);
    assert_eq!(result.ready[0].number, 1);
    assert_eq!(result.blocked.len(), 1);
    assert_eq!(result.blocked[0].number, 2);
}

#[test]
fn categorise_hotspots() {
    let issues = vec![
        test_issue(1, IssueState::Open, Status::Ready),
        test_issue(2, IssueState::Open, Status::Blocked),
        test_issue(3, IssueState::Open, Status::Blocked),
    ];
    let graph = graph_of(&issues, vec![blocks(2, 1), blocks(3, 1)]);
    let hotspots = compute_hotspots(&graph, &issues);
    assert_eq!(hotspots.len(), 1);
    assert_eq!(hotspots[0].number, 1);
    assert_eq!(hotspots[0].blocking_count, 2);
    let ready = ready_of(&issues, &graph);
    let result = categorise_issues(&issues, &graph, &ready, 24, now());
    assert_eq!(result.hotspots.len(), 1);
    assert_eq!(result.hotspots[0].blocking_count, 2);
}

#[test]
fn hotspots_excludes_closed_issues() {
    let issues = vec![
        test_issue(1, IssueState::Closed, Status::Closed),
        test_issue(2, IssueState::Open, Status::Ready),
    ];
    let graph = graph_of(&issues, vec![blocks(2, 1)]);
    let hotspots = compute_hotspots(&graph, &issues);
    assert!(hotspots.is_empty(), "closed issues should not appear as hotspots");
}

#[test]
fn hotspots_sorted_by_blocking_count_desc() {
    let issues = vec![
        test_issue(1, IssueState::Open, Status::Ready),
        test_issue(2, IssueState::Open, Status::Blocked),
        test_issue(3, IssueState::Open, Status::Blocked),
        test_issue(4, IssueState::Open, Status::Ready),
        test_issue(5, IssueState::Open, Status::Blocked),
    ];
    let graph = graph_of(&issues, vec![blocks(2, 1), blocks(3, 1), blocks(5, 1), blocks(5, 4)]);
    let hotspots = compute_hotspots(&graph, &issues);
    assert_eq!(hotspots.len(), 2);
    assert_eq!(hotspots[0].number, 1);
    assert_eq!(hotspots[0].blocking_count, 3);
    assert_eq!(hotspots[1].number, 4);
    assert_eq!(hotspots[1].blocking_count, 1);
}

#[test]
fn closed_issues_excluded_from_open_categories() {
    let result = categorise(&[test_issue(1, IssueState::Closed, Status::Closed)], vec![], 24);
    assert!(result.in_progress.is_empty());
    assert!(result.ready.is_empty());
    assert!(result.blocked.is_empty());
    assert!(result.stale.is_empty());
    assert_eq!(result.completed.len(), 1);
    assert_eq!(result.completed[0].number, 1);
}

#[test]
fn completed_excludes_old_closed_issues() {
    let mut issue = test_issue(1, IssueState::Closed, Status::Closed);
    issue.updated_at = hours_ago(48);
    let result = categorise(&[issue], vec![], 24);
    assert!(result.completed.is_empty(), "issues closed more than 24h ago should not appear");
}

#[test]
fn completed_sorted_by_closed_at_desc() {
    let mut issue1 = test_issue(1, IssueState::Closed, Status::Closed);
    issue1.updated_at = hours_ago(2);
    let mut issue2 = test_issue(2, IssueState::Closed, Status::Closed);
    issue2.updated_at = hours_ago(1);
    let result = categorise(&[issue1, issue2], vec![], 24);
    assert_eq!(result.completed.len(), 2);
    assert_eq!(result.completed[0].number, 2, "most recently closed should come first");
    assert_eq!(result.completed[1].number, 1, "older closed should come second");
}

#[test]
fn completed_respects_custom_threshold() {
    let mut issue = test_issue(1, IssueState::Closed, Status::Closed);
    issue.updated_at = hours_ago(30);
    let issues = vec![issue];
    assert!(categorise(&issues, vec![], 24).completed.is_empty());
    assert_eq!(categorise(&issues, vec![], 48).completed.len(), 1);
}

#[test]
fn deferred_issues_excluded_from_blocked() {
    let issues = vec![
        test_issue(1, IssueState::Open, Status::Ready),
        test_issue(2, IssueState::Open, Status::Deferred),
    ];
    let result = categorise(&issues, vec![blocks(2, 1)], 24);
    assert!(result.blocked.is_empty(), "deferred issue should not appear in blocked list");
}

#[test]
fn in_progress_excluded_from_ready() {
    let mut issue = test_issue(1, IssueState::Open, Status::InProgress);
    issue.agent = Some("agent-x".to_owned());
    issue.claimed_at = Some(now());
    let result = categorise(&[issue], vec![], 24);
    assert_eq!(result.in_progress.len(), 1);
    assert!(result.ready.is_empty());
}

#[test]
fn in_progress_sorted_by_priority_then_created_at() {
    let earlier = ts(chrono::Utc.with_ymd_and_hms(2024, 1, 1, 0, 0, 0).unwrap());
    let later = ts(chrono::Utc.with_ymd_and_hms(2024, 6, 1, 0, 0, 0).unwrap());
    let mut issue1 = test_issue(1, IssueState::Open, Status::InProgress);
    issue1.priority = Priority::P2;
    issue1.created_at = later;
    issue1.claimed_at = Some(now());
    let mut issue2 = test_issue(2, IssueState::Open, Status::InProgress);
    issue2.priority = Priority::P0;
    issue2.created_at = earlier;
    issue2.claimed_at = Some(now());
    let result = categorise(&[issue1, issue2], vec![], 24);
    assert_eq!(result.in_progress.len(), 2);
    assert_eq!(result.in_progress[0].number, 2, "P0 should come first");
    assert_eq!(result.in_progress[1].number, 1, "P2 should come second");
}

#[test]
fn stale_sorted_by_hours_desc() {
    let mut issue1 = test_issue(1, IssueState::Open, Status::InProgress);
    issue1.agent = Some("a".to_owned());
    issue1.claimed_at = Some(hours_ago(30));
    let mut issue2 = test_issue(2, IssueState::Open, Status::InProgress);
    issue2.agent = Some("b".to_owned());
    issue2.claimed_at = Some(hours_ago(72));
    let result = categorise(&[issue1, issue2], vec![], 24);
    assert_eq!(result.stale.len(), 2);
    assert_eq!(result.stale[0].number, 2, "most stale (72h) should come first");
    assert_eq!(result.stale[1].number, 1, "less stale (30h) should come second");
}

#[test]
fn stale_hours_are_whole_hours_since_the_claim() {
    let now = ts(chrono::Utc.with_ymd_and_hms(2026, 3, 5, 12, 30, 0).unwrap());
    let mut issue = test_issue(1, IssueState::Open, Status::InProgress);
    issue.agent = Some("a".to_owned());
    issue.claimed_at = Some(ts(chrono::Utc.with_ymd_and_hms(2026, 3, 3, 12, 0, 0).unwrap()));
    let issues = vec![issue];
    let graph = graph_of(&issues, vec![]);
    let ready = ready_of(&issues, &graph);
    let result = categorise_issues(&issues, &graph, &ready, 24, now);
    assert_eq!(result.stale.len(), 1);
    assert_eq!(result.stale[0].hours_stale, 48);
    assert_eq!(result.stale[0].claimed_at, "2026-03-03T12:00:00+00:00");
}

#[test]
fn categorising_now_reads_the_clock() {
    let mut issue = test_issue(1, IssueState::Open, Status::InProgress);
    issue.claimed_at = Some(hours_ago(30));
    let issues = vec![issue];
    let graph = graph_of(&issues, vec![]);
    let ready = ready_of(&issues, &graph);
    let result = categorise_issues_now(&issues, &graph, &ready, 24).expect("window in range");
    assert_eq!(result.stale.len(), 1);
    assert!(categorise_issues_now(&issues, &graph, &ready, u64::MAX).is_none());
}

#[test]
fn handle_prime_rejects_zero_stale_threshold() {
    let params = PrimeParams { stale_threshold_hours: Some(0), max_per_category: None, agent: None };
    let err = validate_and_resolve_params(&params).expect_err("stale_threshold_hours=0 should be rejected");
    assert_eq!(err.code, ToolErrorCode::InvalidParams);
    assert!(err.message.contains("stale_threshold_hours"), "{}", err.message);
}

#[test]
fn handle_prime_rejects_zero_max_per_category() {
    let params = PrimeParams { stale_threshold_hours: None, max_per_category: Some(0), agent: None };
    let err = validate_and_resolve_params(&params).expect_err("max_per_category=0 should be rejected");
    assert_eq!(err.code, ToolErrorCode::InvalidParams);
    assert!(err.message.contains("max_per_category"), "{}", err.message);
}

fn zero_counts() -> PrimeCounts {
    PrimeCounts { in_progress: 0, ready: 0, blocked: 0, completed: 0, hotspots: 0, stale: 0 }
}

fn frozen_connected_at() -> Timestamp {
    ts(chrono::Utc.with_ymd_and_hms(2026, 1, 1, 12, 0, 0).unwrap())
}

fn unknown_session() -> SessionMeta {
    SessionMeta {
        agent_client: "unknown".to_owned(),
        agent_kind: "unknown".to_owned(),
        agent_field: None,
        connected_at: frozen_connected_at(),
    }
}

fn five_member_cycle() -> Vec<u64> {
    vec![1, 2, 3, 4, 5]
}

fn minimal_inputs(counts: PrimeCounts, session: SessionMeta) -> ContextInputs {
    ContextInputs {
        owner: "acme".to_owned(),
        repo: "widgets".to_owned(),
        project_number: None,
        stale_threshold_hours: 24,
        max_per_category: 10,
        counts,
        cycles: vec![],
        cross_repo_refs: None,
        session,
        drift_warnings: None,
        in_progress: vec![],
        ready: vec![],
        blocked: vec![],
        completed: vec![],
        hotspots: vec![],
        stale: vec![],
    }
}

const CLEAN: &str = "\
# Repo: acme/widgets

## Counts
- ready: 0
- blocked: 0
- in-progress: 0
- completed (24h): 0
- hotspots: 0
- stale (>24h): 0

## Session
- agent_kind: unknown
- agent_client: unknown
- connected_at: 2026-01-01T12:00:00+00:00
";

#[test]
fn render_context_clean_emits_header_counts_session_only() {
    let md = render_context(&minimal_inputs(zero_counts(), unknown_session()));
    assert_eq!(md, CLEAN);
}

#[test]
fn render_context_session_emits_agent_field_bullet_when_set() {
    let session = SessionMeta {
        agent_client: "Zed Agent".to_owned(),
        agent_kind: "zed".to_owned(),
        agent_field: Some("rust-supervisor".to_owned()),
        connected_at: frozen_connected_at(),
    };
    let md = render_context(&minimal_inputs(zero_counts(), session));
    assert_eq!(
        md,
        "\
# Repo: acme/widgets

## Counts
- ready: 0
- blocked: 0
- in-progress: 0
- completed (24h): 0
- hotspots: 0
- stale (>24h): 0

## Session
- agent_kind: zed
- agent_client: Zed Agent
- agent_field: rust-supervisor
- connected_at: 2026-01-01T12:00:00+00:00
"
    );
}

#[test]
fn render_context_emits_project_line_when_set() {
    let mut ctx = minimal_inputs(zero_counts(), unknown_session());
    ctx.project_number = Some(42);
    let md = render_context(&ctx);
    assert_eq!(
        md,
        "\
# Repo: acme/widgets
Project: 42

## Counts
- ready: 0
- blocked: 0
- in-progress: 0
- completed (24h): 0
- hotspots: 0
- stale (>24h): 0

## Session
- agent_kind: unknown
- agent_client: unknown
- connected_at: 2026-01-01T12:00:00+00:00
"
    );
}

#[test]
fn render_context_counts_echo_stale_threshold() {
    let mut ctx = minimal_inputs(zero_counts(), unknown_session());
    ctx.stale_threshold_hours = 72;
    let md = render_context(&ctx);
    assert_eq!(
        md,
        "\
# Repo: acme/widgets

## Counts
- ready: 0
- blocked: 0
- in-progress: 0
- completed (72h): 0
- hotspots: 0
- stale (>72h): 0

## Session
- agent_kind: unknown
- agent_client: unknown
- connected_at: 2026-01-01T12:00:00+00:00
"
    );
}

#[test]
fn render_context_cycles_section_elided_when_empty() {
    let md = render_context(&minimal_inputs(zero_counts(), unknown_session()));
    assert_eq!(md, CLEAN);
}

fn with_cycles_section(section: &str) -> String {
    format!(
        "\
# Repo: acme/widgets

## Counts
- ready: 0
- blocked: 0
- in-progress: 0
- completed (24h): 0
- hotspots: 0
- stale (>24h): 0

## Issues with cycles
{section}
## Session
- agent_kind: unknown
- agent_client: unknown
- connected_at: 2026-01-01T12:00:00+00:00
"
    )
}

#[test]
fn render_context_cycles_section_renders_local_projection() {
    let mut ctx = minimal_inputs(zero_counts(), unknown_session());
    ctx.cycles = vec![vec![6, 7, 8]];
    assert_eq!(render_context(&ctx), with_cycles_section("- cycle 1: #6 → #7 → #8\n"));
}

#[test]
fn render_context_cycle_members_truncated_to_max_per_category() {
    let mut ctx = minimal_inputs(zero_counts(), unknown_session());
    ctx.max_per_category = 2;
    ctx.cycles = vec![five_member_cycle()];
    assert_eq!(render_context(&ctx), with_cycles_section("- cycle 1: #1 → #2 … (3 more)\n"));
}

#[test]
fn render_context_cycle_members_truncated_at_max_per_category_one() {
    let mut ctx = minimal_inputs(zero_counts(), unknown_session());
    ctx.max_per_category = 1;
    ctx.cycles = vec![five_member_cycle()];
    assert_eq!(render_context(&ctx), with_cycles_section("- cycle 1: #1 … (4 more)\n"));
}

#[test]
fn render_context_cross_repo_only_cycle_emits_sentinel_bullet() {
    let mut ctx = minimal_inputs(zero_counts(), unknown_session());
    ctx.cycles = vec![vec![]];
    assert_eq!(
        render_context(&ctx),
        with_cycles_section("- cycle 1: (cross-repo only — see trailer)\n")
    );
}

#[test]
fn render_context_drift_warnings_elided_when_none() {
    let md = render_context(&minimal_inputs(zero_counts(), unknown_session()));
    assert_eq!(md, CLEAN);
}

#[test]
fn render_context_drift_warnings_elided_when_empty_slice() {
    let mut ctx = minimal_inputs(zero_counts(), unknown_session());
    ctx.drift_warnings = Some(vec![]);
    assert_eq!(render_context(&ctx), CLEAN);
}

#[test]
fn render_context_drift_warnings_rendered_verbatim() {
    let mut ctx = minimal_inputs(zero_counts(), unknown_session());
    ctx.drift_warnings = Some(vec!["1 uncascaded closure".to_owned(), "3 stale claims".to_owned()]);
    assert_eq!(
        render_context(&ctx),
        format!("{CLEAN}\n## Drift warnings\n- 1 uncascaded closure\n- 3 stale claims\n")
    );
}

fn one_cycle_member_refs() -> CrossRepoRefs {
    CrossRepoRefs {
        omitted: vec!["other/repo#99".to_owned()],
        summary: Some("1 cross-repo cycle member omitted from `cycles`".to_owned()),
    }
}

#[test]
fn render_context_cross_repo_trailer_renders_with_summary() {
    let mut ctx = minimal_inputs(zero_counts(), unknown_session());
    ctx.cross_repo_refs = Some(one_cycle_member_refs());
    assert_eq!(
        render_context(&ctx),
        format!(
            "{CLEAN}\n## Cross-repo references\n- `other/repo#99`\n\n_1 cross-repo cycle member omitted from `cycles`_\n"
        )
    );
}

#[test]
fn render_context_section_order_matches_spec_contract() {
    let mut ctx = minimal_inputs(zero_counts(), unknown_session());
    ctx.cycles = vec![vec![6, 7]];
    ctx.cross_repo_refs = Some(one_cycle_member_refs());
    ctx.drift_warnings = Some(vec!["1 stale claim".to_owned()]);
    assert_eq!(
        render_context(&ctx),
        "\
# Repo: acme/widgets

## Counts
- ready: 0
- blocked: 0
- in-progress: 0
- completed (24h): 0
- hotspots: 0
- stale (>24h): 0

## Issues with cycles
- cycle 1: #6 → #7

## Session
- agent_kind: unknown
- agent_client: unknown
- connected_at: 2026-01-01T12:00:00+00:00

## Drift warnings
- 1 stale claim

## Cross-repo references
- `other/repo#99`

_1 cross-repo cycle member omitted from `cycles`_
"
    );
}

#[test]
fn render_context_lists_the_visible_issues_with_their_totals() {
    let mut ctx = minimal_inputs(
        PrimeCounts { in_progress: 0, ready: 3, blocked: 0, completed: 0, hotspots: 0, stale: 0 },
        unknown_session(),
    );
    ctx.ready = vec![PrimeIssueSummary::from_core(&summary(1))];
    let md = render_context(&ctx);
    assert_eq!(
        md,
        "\
# Repo: acme/widgets

## Counts
- ready: 3
- blocked: 0
- in-progress: 0
- completed (24h): 0
- hotspots: 0
- stale (>24h): 0

## Ready
- #1 [P1] Issue #1
_… (2 more omitted)_

## Session
- agent_kind: unknown
- agent_client: unknown
- connected_at: 2026-01-01T12:00:00+00:00
"
    );
}

#[test]
fn integration_mixed_issues_categorised_correctly() {
    let issue1 = test_issue(1, IssueState::Open, Status::Ready);
    let issue2 = test_issue(2, IssueState::Open, Status::Blocked);
    let mut issue3 = test_issue(3, IssueState::Open, Status::InProgress);
    issue3.agent = Some("agent-z".to_owned());
    issue3.claimed_at = Some(hours_ago(48));
    let issue4 = test_issue(4, IssueState::Closed, Status::Closed);
    let result = categorise(&[issue1, issue2, issue3, issue4], vec![blocks(2, 1)], 24);
    assert_eq!(result.ready.len(), 1, "ready should include only #1");
    assert_eq!(result.ready[0].number, 1);
    assert_eq!(result.blocked.len(), 1);
    assert_eq!(result.blocked[0].number, 2);
    assert_eq!(result.in_progress.len(), 1);
    assert_eq!(result.in_progress[0].number, 3);
    assert_eq!(result.stale.len(), 1);
    assert_eq!(result.stale[0].number, 3);
    assert_eq!(result.completed.len(), 1);
    assert_eq!(result.completed[0].number, 4);
    assert_eq!(result.hotspots.len(), 1);
    assert_eq!(result.hotspots[0].number, 1);
    assert_eq!(result.hotspots[0].blocking_count, 1);
}

#[test]
fn max_per_category_truncates_results() {
    let issues: Vec<Issue> = (1..=20).map(|i| test_issue(i, IssueState::Open, Status::Ready)).collect();
    let result = categorise(&issues, vec![], 24);
    assert_eq!(result.ready.len(), 20, "all 20 should be ready before truncation");
    let truncated: Vec<_> = result.ready.iter().take(5).map(PrimeIssueSummary::from_core).collect();
    assert_eq!(truncated.len(), 5);
}

fn two_claimed(status: Status) -> Vec<Issue> {
    let mut issue1 = test_issue(1, IssueState::Open, status);
    issue1.agent = Some("agent-x".to_owned());
    issue1.claimed_at = Some(now());
    let mut issue2 = test_issue(2, IssueState::Open, status);
    issue2.agent = Some("agent-y".to_owned());
    issue2.claimed_at = Some(now());
    vec![issue1, issue2]
}

#[test]
fn agent_filter_none_returns_all() {
    let result = categorise(&two_claimed(Status::InProgress), vec![], 24);
    let filtered = apply_agent_filter(result, None);
    assert_eq!(filtered.in_progress.len(), 2);
}

#[test]
fn agent_filter_matches_in_progress() {
    let result = categorise(&two_claimed(Status::InProgress), vec![], 24);
    let f = chars("agent-x");
    let filtered = apply_agent_filter(result, Some(&f));
    assert_eq!(filtered.in_progress.len(), 1);
}

#[test]
fn agent_filter_matches_ready() {
    let result = categorise(&two_claimed(Status::Ready), vec![], 24);
    let f = chars("agent-x");
    let filtered = apply_agent_filter(result, Some(&f));
    assert_eq!(filtered.ready.len(), 1);
}

#[test]
fn agent_filter_matches_blocked() {
    let issue1 = test_issue(1, IssueState::Open, Status::Ready);
    let mut issue2 = test_issue(2, IssueState::Open, Status::Blocked);
    issue2.agent = Some("agent-x".to_owned());
    let mut issue3 = test_issue(3, IssueState::Open, Status::Blocked);
    issue3.agent = Some("agent-y".to_owned());
    let result = categorise(&[issue1, issue2, issue3], vec![blocks(2, 1), blocks(3, 1)], 24);
    let f = chars("agent-x");
    let filtered = apply_agent_filter(result, Some(&f));
    assert_eq!(filtered.blocked.len(), 1);
}

#[test]
fn agent_filter_matches_stale() {
    let mut issues = two_claimed(Status::InProgress);
    issues[0].claimed_at = Some(hours_ago(48));
    issues[1].claimed_at = Some(hours_ago(48));
    let result = categorise(&issues, vec![], 24);
    let f = chars("agent-x");
    let filtered = apply_agent_filter(result, Some(&f));
    assert_eq!(filtered.stale.len(), 1);
}

#[test]
fn agent_filter_leaves_completed_and_hotspots_untouched() {
    let mut closed = test_issue(1, IssueState::Closed, Status::Closed);
    closed.agent = Some("agent-y".to_owned());
    let mut hotspot = test_issue(2, IssueState::Open, Status::Ready);
    hotspot.agent = Some("agent-y".to_owned());
    let blocked_by_hotspot = test_issue(3, IssueState::Open, Status::Blocked);
    let result = categorise(&[closed, hotspot, blocked_by_hotspot], vec![blocks(3, 2)], 24);
    assert_eq!(result.completed.len(), 1);
    assert_eq!(result.hotspots.len(), 1);
    let f = chars("agent-x");
    let filtered = apply_agent_filter(result, Some(&f));
    assert_eq!(filtered.completed.len(), 1, "completed should not be filtered by agent");
    assert_eq!(filtered.hotspots.len(), 1, "hotspots should not be filtered by agent");
}

#[test]
fn agent_filter_does_not_affect_completed() {
    let mut issue = test_issue(1, IssueState::Closed, Status::Closed);
    issue.agent = Some("agent-x".to_owned());
    let result = categorise(&[issue], vec![], 24);
    assert_eq!(result.completed.len(), 1);
}

#[test]
fn agent_filter_does_not_affect_hotspots() {
    let mut issue1 = test_issue(1, IssueState::Open, Status::Ready);
    issue1.agent = Some("agent-x".to_owned());
    let mut issue2 = test_issue(2, IssueState::Open, Status::Blocked);
    issue2.agent = Some("agent-y".to_owned());
    let result = categorise(&[issue1, issue2], vec![blocks(2, 1)], 24);
    assert_eq!(result.hotspots.len(), 1);
}

#[test]
fn agent_filter_counts_reflect_filtered_totals() {
    let mut issues = two_claimed(Status::InProgress);
    let mut issue3 = test_issue(3, IssueState::Open, Status::Ready);
    issue3.agent = Some("agent-x".to_owned());
    let mut issue4 = test_issue(4, IssueState::Open, Status::Ready);
    issue4.agent = Some("agent-y".to_owned());
    issues.push(issue3);
    issues.push(issue4);
    let categories = categorise(&issues, vec![], 24);
    let f = chars("agent-x");
    let filtered = apply_agent_filter(categories, Some(&f));
    assert_eq!(filtered.in_progress.len(), 1, "filtered in_progress count");
    assert_eq!(filtered.ready.len(), 1, "filtered ready count");
}

#[test]
fn empty_agent_filter_returns_all_categories() {
    let result = categorise(&two_claimed(Status::InProgress), vec![], 24);
    let agent_filter = normalize_filter(&Some(String::new()));
    assert!(agent_filter.is_none(), "empty string should normalize to None");
    let filtered = apply_agent_filter(result, agent_filter.as_ref());
    assert_eq!(filtered.in_progress.len(), 2);
}

fn tagged(kind: &str) -> JsonValue {
    JsonValue::Object(vec![(kind.to_owned(), JsonValue::Object(vec![]))])
}

#[test]
fn summarise_drift_empty_report_returns_empty() {
    assert!(summarise_drift(&vec![]).is_empty());
}

#[test]
fn summarise_drift_single_uncascaded_closure() {
    let drift = JsonValue::Object(vec![(
        "UncascadedClosure".to_owned(),
        JsonValue::Object(vec![
            ("closed_issue".to_owned(), JsonValue::Str("owner/repo#1".to_owned())),
            (
                "should_have_unblocked".to_owned(),
                JsonValue::Array(vec![JsonValue::Str("owner/repo#2".to_owned())]),
            ),
        ]),
    )]);
    assert_eq!(summarise_drift(&vec![drift]), vec!["1 uncascaded closure"]);
}

#[test]
fn summarise_drift_multiple_of_same_type_uses_plural() {
    let drifts = vec![tagged("UncascadedClosure"), tagged("UncascadedClosure"), tagged("UncascadedClosure")];
    assert_eq!(summarise_drift(&drifts), vec!["3 uncascaded closures"]);
}

#[test]
fn summarise_drift_mixed_types_sorted() {
    let drifts = vec![tagged("UncascadedClosure"), tagged("StaleClaim"), tagged("OrphanedBlockingEdge")];
    assert_eq!(
        summarise_drift(&drifts),
        vec!["1 orphaned blocking edge", "1 stale claim", "1 uncascaded closure"]
    );
}

#[test]
fn summarise_drift_all_six_types() {
    let drifts = vec![
        tagged("UncascadedClosure"),
        tagged("OrphanedBlockingEdge"),
        tagged("MalformedAgentField"),
        tagged("MissingProjectField"),
        tagged("CycleDetected"),
        tagged("StaleClaim"),
    ];
    let warnings = summarise_drift(&drifts);
    assert_eq!(warnings.len(), 6);
    for w in &warnings {
        assert!(w.starts_with("1 "), "each should start with '1 ': {w}");
    }
}

#[test]
fn summarise_drift_keeps_unknown_kinds_and_skips_untagged_items() {
    let drifts = vec![tagged("NewKind"), tagged("NewKind"), JsonValue::Str("x".to_owned())];
    assert_eq!(summarise_drift(&drifts), vec!["2 NewKinds"]);
}

#[test]
fn resolve_drift_warnings_clean_report_returns_none() {
    let items: Vec<JsonValue> = vec![];
    assert!(drift_warnings(Some((true, &items))).is_none());
}

#[test]
fn resolve_drift_warnings_with_drift_returns_some() {
    let items = vec![tagged("UncascadedClosure")];
    assert_eq!(drift_warnings(Some((false, &items))), Some(vec!["1 uncascaded closure".to_owned()]));
}

#[test]
fn resolve_drift_warnings_error_returns_none() {
    assert!(drift_warnings(None).is_none());
}

#[test]
fn resolve_drift_warnings_panic_returns_none() {
    assert!(drift_warnings(None).is_none());
}

fn empty_categorised() -> CategorisedIssues {
    CategorisedIssues {
        in_progress: vec![],
        ready: vec![],
        blocked: vec![],
        completed: vec![],
        hotspots: vec![],
        stale: vec![],
    }
}

fn summary(number: u64) -> IssueSummary {
    IssueSummary {
        qualified_id: qid(number),
        number,
        title: format!("Issue #{number}"),
        issue_type: Some("Task".to_owned()),
        status: Status::Ready,
        priority: Priority::P1,
        agent: None,
        milestone: None,
        story_points: None,
        defer_until: None,
        labels: vec![],
        created_at: ts(chrono::Utc.with_ymd_and_hms(2026, 1, 1, 12, 0, 0).unwrap()),
        url: format!("https://github.com/test-owner/test-repo/issues/{number}"),
    }
}

fn acme(project_number: Option<u64>) -> RepoIdentity {
    RepoIdentity { owner: "acme".to_owned(), repo: "widgets".to_owned(), project_number }
}

#[test]
fn builder_empty_inputs_produces_zero_counts_and_no_trailer() {
    let builder = ContextInputsBuilder::new(acme(None), 24, 10, empty_categorised(), &[]);
    assert_eq!(builder.counts, zero_counts());
    assert!(builder.cycles.is_empty());
    assert!(builder.cross_repo_refs.is_none(), "no cycles means no cross-repo trailer");
}

#[test]
fn builder_counts_mirror_filtered_category_lengths() {
    let categories = CategorisedIssues {
        ready: vec![summary(1), summary(2), summary(3), summary(4)],
        blocked: vec![summary(5), summary(6)],
        ..empty_categorised()
    };
    let builder = ContextInputsBuilder::new(acme(None), 24, 10, categories, &[]);
    assert_eq!(builder.counts.ready, 4);
    assert_eq!(builder.counts.blocked, 2);
}

#[test]
fn builder_truncates_each_category_at_max_per_category() {
    let categories = CategorisedIssues { ready: (1..=6).map(summary).collect(), ..empty_categorised() };
    let builder = ContextInputsBuilder::new(acme(None), 24, 3, categories, &[]);
    assert_eq!(builder.counts.ready, 6, "counts capture pre-truncation category length");
    assert_eq!(builder.ready.len(), 3, "truncated list honours max_per_category");
    let numbers: Vec<u64> = builder.ready.iter().map(|s| s.number).collect();
    assert_eq!(numbers, vec![1, 2, 3]);
}

#[test]
fn builder_populates_cross_repo_trailer_when_cycle_has_cross_repo_member() {
    let raw_cycles = vec![vec![
        QualifiedId::new("acme", "widgets", 1),
        QualifiedId::new("acme", "other", 42),
        QualifiedId::new("acme", "widgets", 2),
    ]];
    let builder = ContextInputsBuilder::new(acme(None), 24, 10, empty_categorised(), &raw_cycles);
    let refs = builder.cross_repo_refs.as_ref().expect("cross-repo member must populate the trailer");
    assert_eq!(refs.omitted, vec!["acme/other#42".to_owned()]);
    assert_eq!(refs.summary.as_deref(), Some("1 cross-repo cycle member omitted from `cycles`"));
    assert_eq!(builder.cycles, vec![vec![1u64, 2u64]]);
}

#[test]
fn builder_local_only_cycle_leaves_trailer_none() {
    let raw_cycles = vec![vec![QualifiedId::new("acme", "widgets", 1), QualifiedId::new("acme", "widgets", 2)]];
    let builder = ContextInputsBuilder::new(acme(None), 24, 10, empty_categorised(), &raw_cycles);
    assert!(builder.cross_repo_refs.is_none());
    assert_eq!(builder.cycles, vec![vec![1u64, 2u64]]);
}

#[test]
fn builder_build_wires_owned_fields_into_context_inputs() {
    let categories = CategorisedIssues {
        in_progress: vec![summary(1)],
        ready: vec![summary(2), summary(3)],
        ..empty_categorised()
    };
    let raw_cycles = vec![vec![QualifiedId::new("acme", "widgets", 1), QualifiedId::new("acme", "widgets", 2)]];
    let builder = ContextInputsBuilder::new(acme(Some(7)), 48, 5, categories, &raw_cycles);
    let ctx = builder.build(unknown_session(), Some(vec![]));
    assert_eq!(ctx.owner, "acme");
    assert_eq!(ctx.repo, "widgets");
    assert_eq!(ctx.project_number, Some(7));
    assert_eq!(ctx.stale_threshold_hours, 48);
    assert_eq!(ctx.max_per_category, 5);
    assert_eq!(ctx.counts.in_progress, 1);
    assert_eq!(ctx.counts.ready, 2);
    assert_eq!(ctx.cycles, vec![vec![1u64, 2u64]]);
    assert!(ctx.cross_repo_refs.is_none());
    assert_eq!(ctx.in_progress.len(), 1);
    assert_eq!(ctx.ready.len(), 2);
    assert!(ctx.blocked.is_empty());
    assert!(ctx.completed.is_empty());
    assert!(ctx.hotspots.is_empty());
    assert!(ctx.stale.is_empty());
    assert_eq!(ctx.drift_warnings, Some(vec![]));
}

#[test]
fn validate_and_resolve_params_defaults_apply_when_unset() {
    let params = PrimeParams { stale_threshold_hours: None, max_per_category: None, agent: None };
    let (hours, max) = validate_and_resolve_params(&params).expect("defaults should pass validation");
    assert_eq!(hours, DEFAULT_STALE_THRESHOLD_HOURS);
    assert_eq!(max, DEFAULT_MAX_PER_CATEGORY);
}

#[test]
fn validate_and_resolve_params_passes_explicit_values_through() {
    let params = PrimeParams { stale_threshold_hours: Some(48), max_per_category: Some(5), agent: None };
    let (hours, max) = validate_and_resolve_params(&params).expect("explicit values should pass");
    assert_eq!(hours, 48);
    assert_eq!(max, 5);
}

#[test]
fn validate_and_resolve_params_rejects_zero_stale_threshold() {
    let params = PrimeParams { stale_threshold_hours: Some(0), max_per_category: None, agent: None };
    let err = validate_and_resolve_params(&params).expect_err("zero stale threshold must be rejected");
    assert_eq!(err.code, ToolErrorCode::InvalidParams);
    assert!(err.message.contains("stale_threshold_hours"));
}

#[test]
fn validate_and_resolve_params_rejects_zero_max_per_category() {
    let params = PrimeParams { stale_threshold_hours: None, max_per_category: Some(0), agent: None };
    let err = validate_and_resolve_params(&params).expect_err("zero max_per_category must be rejected");
    assert_eq!(err.code, ToolErrorCode::InvalidParams);
    assert!(err.message.contains("max_per_category"));
}

#[test]
fn render_prime_narrows_by_agent_and_renders() {
    let mut categories = empty_categorised();
    let mut mine = summary(1);
    mine.agent = Some("agent-x".to_owned());
    let mut theirs = summary(2);
    theirs.agent = Some("agent-y".to_owned());
    categories.ready = vec![mine, theirs];
    let r = render_prime(
        acme(None),
        24,
        10,
        categories,
        &Some("agent-x".to_owned()),
        &[],
        unknown_session(),
        None,
    );
    assert!(r.context.contains("- ready: 1"), "{}", r.context);
    assert!(r.context.starts_with("# Repo: acme/widgets\n"), "{}", r.context);
}

#[test]
fn session_meta_from_state_defaults_when_uninitialised() {
    let meta = SessionMeta::from_state(None, "unknown", None, None);
    assert_eq!(meta.agent_client, "unknown");
    assert_eq!(meta.agent_kind, "unknown");
    let elapsed = now().secs - meta.connected_at.secs;
    assert!((0..5).contains(&elapsed), "connected_at should be recent, got {elapsed}s ago");
}

#[test]
fn session_meta_from_state_populated() {
    let connected = now();
    let meta = SessionMeta::from_state(Some("Zed Agent"), "zed", Some("lead".to_owned()), Some(connected));
    assert_eq!(meta.agent_client, "Zed Agent");
    assert_eq!(meta.agent_kind, "zed");
    assert_eq!(meta.agent_field.as_deref(), Some("lead"));
    assert_eq!(meta.connected_at, connected);
}

#[test]
fn repo_identity_from_state_defaults_when_uninitialised() {
    let repo = RepoIdentity::from_state("test-owner", "test-repo", None);
    assert_eq!(repo.owner, "test-owner");
    assert_eq!(repo.repo, "test-repo");
    assert_eq!(repo.project_number, None);
}

#[test]
fn repo_identity_from_state_populated() {
    let repo = RepoIdentity::from_state("test-owner", "test-repo", Some(42));
    assert_eq!(repo.owner, "test-owner");
    assert_eq!(repo.repo, "test-repo");
    assert_eq!(repo.project_number, Some(42));
}
