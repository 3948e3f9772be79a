use chrono::{Datelike, TimeZone};
use unblock_mcp::cross_repo::QualifiedId;
use unblock_mcp::model::{CivilDate, DepGraph, Edge, Issue, IssueState, IssueSummary, Priority, Status, Timestamp};
use unblock_mcp::ready::{
    classify_ready_blockers, compute_cross_repo_refs, filter_ready_set, filter_ready_set_on,
    ready_from_cache, ReadyParams,
};

fn ts_of(y: i32, mo: u32, d: u32) -> Timestamp {
    let t = chrono::Utc.with_ymd_and_hms(y, mo, d, 0, 0, 0).unwrap();
    Timestamp { secs: t.timestamp(), nanos: 0 }
}

fn civil(d: chrono::NaiveDate) -> CivilDate {
    CivilDate { year: d.year(), month: d.month(), day: d.day() }
}

fn test_summary(number: u64, priority: Priority) -> IssueSummary {
    IssueSummary {
        qualified_id: QualifiedId::new("test", "repo", number),
        number,
        title: format!("Issue #{number}"),
        issue_type: Some("Task".to_owned()),
        status: Status::Ready,
        priority,
        agent: None,
        milestone: None,
        story_points: None,
        defer_until: None,
        labels: vec![],
        created_at: ts_of(2026, 1, 1),
        url: format!("https://github.com/test/repo/issues/{number}"),
    }
}

fn default_params() -> ReadyParams {
    ReadyParams {
        limit: None,
        issue_type: None,
        priority: None,
        milestone: None,
        agent: None,
        label: None,
        include_claimed: None,
    }
}

fn issue_at(owner: &str, repo: &str, number: u64, state: IssueState, status: Status) -> Issue {
    Issue {
        qualified_id: QualifiedId::new(owner, repo, number),
        number,
        node_id: format!("I_{owner}_{repo}_{number}"),
        title: format!("{owner}/{repo}#{number}"),
        issue_type: Some("Task".to_owned()),
        status,
        priority: Priority::P2,
        agent: None,
        claimed_at: None,
        story_points: None,
        defer_until: None,
        labels: vec![],
        milestone: None,
        assignees: vec![],
        state,
        created_at: ts_of(2026, 1, 1),
        updated_at: ts_of(2026, 1, 1),
        url: format!("https://github.com/{owner}/{repo}/issues/{number}"),
    }
}

fn edge(s: (&str, &str, u64), t: (&str, &str, u64)) -> Edge {
    Edge { source: QualifiedId::new(s.0, s.1, s.2), target: QualifiedId::new(t.0, t.1, t.2) }
}

fn graph_of(issues: &[Issue], edges: Vec<Edge>) -> DepGraph {
    DepGraph { edges, states: issues.iter().map(|i| (i.qualified_id.clone(), i.state)).collect() }
}

#[test]
fn empty_ready_set_returns_empty() {
    let result = filter_ready_set(&[], &default_params());
    assert!(result.is_empty());
}

#[test]
fn returns_all_when_no_filters() {
    let set = vec![test_summary(1, Priority::P0), test_summary(2, Priority::P1)];
    let result = filter_ready_set(&set, &default_params());
    assert_eq!(result.len(), 2);
}

#[test]
fn limit_truncates_results() {
    let set: Vec<_> = (1..=20).map(|n| test_summary(n, Priority::P2)).collect();
    let params = ReadyParams { limit: Some(5), ..default_params() };
    let result = filter_ready_set(&set, &params);
    assert_eq!(result.len(), 5);
}

#[test]
fn default_limit_is_10() {
    let set: Vec<_> = (1..=15).map(|n| test_summary(n, Priority::P2)).collect();
    let result = filter_ready_set(&set, &default_params());
    assert_eq!(result.len(), 10);
}

#[test]
fn filter_by_priority() {
    let set = vec![test_summary(1, Priority::P0), test_summary(2, Priority::P1), test_summary(3, Priority::P0)];
    let params = ReadyParams { priority: Some("P0".to_owned()), ..default_params() };
    let result = filter_ready_set(&set, &params);
    assert_eq!(result.len(), 2);
    assert!(result.iter().all(|r| r.priority == "P0"));
}

#[test]
fn ready_filter_by_priority_case_insensitive() {
    let set = vec![test_summary(1, Priority::P0)];
    let params = ReadyParams { priority: Some("p0".to_owned()), ..default_params() };
    let result = filter_ready_set(&set, &params);
    assert_eq!(result.len(), 1);
}

#[test]
fn filter_by_issue_type() {
    let mut set = vec![test_summary(1, Priority::P1)];
    set[0].issue_type = Some("Bug".to_owned());
    let mut s2 = test_summary(2, Priority::P1);
    s2.issue_type = Some("Task".to_owned());
    set.push(s2);
    let params = ReadyParams { issue_type: Some("Bug".to_owned()), ..default_params() };
    let result = filter_ready_set(&set, &params);
    assert_eq!(result.len(), 1);
    assert_eq!(result[0].number, 1);
}

#[test]
fn ready_filter_by_issue_type_case_insensitive() {
    let mut set = vec![test_summary(1, Priority::P1)];
    set[0].issue_type = Some("Feature".to_owned());
    let params = ReadyParams { issue_type: Some("feature".to_owned()), ..default_params() };
    let result = filter_ready_set(&set, &params);
    assert_eq!(result.len(), 1);
}

#[test]
fn filter_by_label() {
    let mut s1 = test_summary(1, Priority::P1);
    s1.labels = vec!["urgent".to_owned(), "backend".to_owned()];
    let mut s2 = test_summary(2, Priority::P1);
    s2.labels = vec!["frontend".to_owned()];
    let set = vec![s1, s2];
    let params = ReadyParams { label: Some("urgent".to_owned()), ..default_params() };
    let result = filter_ready_set(&set, &params);
    assert_eq!(result.len(), 1);
    assert_eq!(result[0].number, 1);
}

#[test]
fn ready_filter_by_label_case_insensitive() {
    let mut s1 = test_summary(1, Priority::P1);
    s1.labels = vec!["Urgent".to_owned()];
    let set = vec![s1];
    let params = ReadyParams { label: Some("urgent".to_owned()), ..default_params() };
    let result = filter_ready_set(&set, &params);
    assert_eq!(result.len(), 1);
}

#[test]
fn filter_by_milestone() {
    let mut s1 = test_summary(1, Priority::P1);
    s1.milestone = Some("v1.0".to_owned());
    let mut s2 = test_summary(2, Priority::P1);
    s2.milestone = Some("v2.0".to_owned());
    let set = vec![s1, s2];
    let params = ReadyParams { milestone: Some("v1.0".to_owned()), ..default_params() };
    let result = filter_ready_set(&set, &params);
    assert_eq!(result.len(), 1);
    assert_eq!(result[0].number, 1);
}

#[test]
fn filter_by_agent() {
    let mut s1 = test_summary(1, Priority::P1);
    s1.agent = Some("agent-x".to_owned());
    s1.status = Status::InProgress;
    let s2 = test_summary(2, Priority::P1);
    let set = vec![s1, s2];
    let params = ReadyParams {
        agent: Some("agent-x".to_owned()),
        include_claimed: Some(true),
        ..default_params()
    };
    let result = filter_ready_set(&set, &params);
    assert_eq!(result.len(), 1);
    assert_eq!(result[0].number, 1);
}

#[test]
fn empty_agent_string_treated_as_no_filter() {
    let set = vec![test_summary(1, Priority::P0), test_summary(2, Priority::P1)];
    let params = ReadyParams { agent: Some(String::new()), ..default_params() };
    let result = filter_ready_set(&set, &params);
    assert_eq!(result.len(), 2, "empty agent string should not filter out any issues");
}

#[test]
fn whitespace_agent_string_treated_as_no_filter() {
    let set = vec![test_summary(1, Priority::P0)];
    let params = ReadyParams { agent: Some("   ".to_owned()), ..default_params() };
    let result = filter_ready_set(&set, &params);
    assert_eq!(result.len(), 1, "whitespace-only agent string should not filter out any issues");
}

#[test]
fn empty_issue_type_string_treated_as_no_filter() {
    let set = vec![test_summary(1, Priority::P0)];
    let params = ReadyParams { issue_type: Some(String::new()), ..default_params() };
    let result = filter_ready_set(&set, &params);
    assert_eq!(result.len(), 1);
}

#[test]
fn empty_priority_string_treated_as_no_filter() {
    let set = vec![test_summary(1, Priority::P0)];
    let params = ReadyParams { priority: Some(String::new()), ..default_params() };
    let result = filter_ready_set(&set, &params);
    assert_eq!(result.len(), 1);
}

#[test]
fn empty_milestone_string_treated_as_no_filter() {
    let set = vec![test_summary(1, Priority::P0)];
    let params = ReadyParams { milestone: Some(String::new()), ..default_params() };
    let result = filter_ready_set(&set, &params);
    assert_eq!(result.len(), 1);
}

#[test]
fn empty_label_string_treated_as_no_filter() {
    let mut s1 = test_summary(1, Priority::P0);
    s1.labels = vec!["backend".to_owned()];
    let set = vec![s1];
    let params = ReadyParams { label: Some(String::new()), ..default_params() };
    let result = filter_ready_set(&set, &params);
    assert_eq!(result.len(), 1);
}

#[test]
fn excludes_deferred_issues() {
    let mut s1 = test_summary(1, Priority::P1);
    s1.defer_until = Some(CivilDate { year: 2099, month: 12, day: 31 });
    let s2 = test_summary(2, Priority::P1);
    let set = vec![s1, s2];
    let result = filter_ready_set(&set, &default_params());
    assert_eq!(result.len(), 1);
    assert_eq!(result[0].number, 2);
}

#[test]
fn includes_past_deferred_issues() {
    let mut s1 = test_summary(1, Priority::P1);
    let today = chrono::Utc::now().date_naive();
    s1.defer_until = Some(civil(today.pred_opt().unwrap_or(today)));
    let set = vec![s1];
    let result = filter_ready_set(&set, &default_params());
    assert_eq!(result.len(), 1);
}

#[test]
fn includes_today_deferred_issues() {
    let mut s1 = test_summary(1, Priority::P1);
    s1.defer_until = Some(civil(chrono::Utc::now().date_naive()));
    let set = vec![s1];
    let result = filter_ready_set(&set, &default_params());
    assert_eq!(result.len(), 1);
}

#[test]
fn deferral_is_judged_against_the_given_day() {
    let mut s1 = test_summary(1, Priority::P1);
    s1.defer_until = Some(CivilDate { year: 2026, month: 3, day: 10 });
    let set = vec![s1];
    let before = CivilDate { year: 2026, month: 3, day: 9 };
    let on = CivilDate { year: 2026, month: 3, day: 10 };
    assert!(filter_ready_set_on(&set, &default_params(), before).is_empty());
    assert_eq!(filter_ready_set_on(&set, &default_params(), on).len(), 1);
}

#[test]
fn excludes_in_progress_by_default() {
    let mut s1 = test_summary(1, Priority::P1);
    s1.status = Status::InProgress;
    s1.agent = Some("agent-a".to_owned());
    let s2 = test_summary(2, Priority::P1);
    let set = vec![s1, s2];
    let result = filter_ready_set(&set, &default_params());
    assert_eq!(result.len(), 1);
    assert_eq!(result[0].number, 2);
}

#[test]
fn include_claimed_includes_in_progress() {
    let mut s1 = test_summary(1, Priority::P1);
    s1.status = Status::InProgress;
    s1.agent = Some("agent-a".to_owned());
    let s2 = test_summary(2, Priority::P1);
    let set = vec![s1, s2];
    let params = ReadyParams { include_claimed: Some(true), ..default_params() };
    let result = filter_ready_set(&set, &params);
    assert_eq!(result.len(), 2);
}

#[test]
fn sort_order_p0_before_p1() {
    let mut s1 = test_summary(1, Priority::P1);
    s1.created_at = ts_of(2024, 1, 1);
    let mut s2 = test_summary(2, Priority::P0);
    s2.created_at = ts_of(2024, 6, 1);
    let set = vec![s2, s1];
    let result = filter_ready_set(&set, &default_params());
    assert_eq!(result[0].number, 2);
    assert_eq!(result[1].number, 1);
}

#[test]
fn sort_order_same_priority_by_created_at() {
    let mut s1 = test_summary(1, Priority::P1);
    s1.created_at = ts_of(2024, 1, 1);
    let mut s2 = test_summary(2, Priority::P1);
    s2.created_at = ts_of(2024, 6, 1);
    let set = vec![s1, s2];
    let result = filter_ready_set(&set, &default_params());
    assert_eq!(result[0].number, 1);
    assert_eq!(result[1].number, 2);
    assert_eq!(result[0].created_at, "2024-01-01T00:00:00+00:00");
}

#[test]
fn cross_repo_refs_empty_issues_returns_none() {
    let issues: Vec<Issue> = vec![];
    let graph = graph_of(&issues, vec![]);
    assert!(compute_cross_repo_refs(&issues, &graph, "acme", "widgets").is_none());
}

#[test]
fn cross_repo_refs_local_only_blockers_returns_none() {
    let issues = vec![
        issue_at("acme", "widgets", 1, IssueState::Open, Status::Ready),
        issue_at("acme", "widgets", 2, IssueState::Open, Status::Ready),
    ];
    let graph = graph_of(&issues, vec![edge(("acme", "widgets", 1), ("acme", "widgets", 2))]);
    assert!(compute_cross_repo_refs(&issues, &graph, "acme", "widgets").is_none());
}

#[test]
fn cross_repo_refs_single_cross_repo_open_blocker_returns_some() {
    let issues = vec![
        issue_at("acme", "widgets", 1, IssueState::Open, Status::Ready),
        issue_at("other", "repo", 99, IssueState::Open, Status::Ready),
    ];
    let graph = graph_of(&issues, vec![edge(("acme", "widgets", 1), ("other", "repo", 99))]);
    let refs = compute_cross_repo_refs(&issues, &graph, "acme", "widgets").expect("Some");
    assert_eq!(refs.omitted, vec!["other/repo#99".to_owned()]);
    let summary = refs.summary.as_deref().expect("summary populated when omitted non-empty");
    assert!(summary.contains("cross-repo"), "{summary}");
    assert!(summary.contains("ready set"), "{summary}");
}

#[test]
fn cross_repo_refs_closed_cross_repo_blocker_returns_none() {
    let issues = vec![
        issue_at("acme", "widgets", 1, IssueState::Open, Status::Ready),
        issue_at("other", "repo", 99, IssueState::Closed, Status::Closed),
    ];
    let graph = graph_of(&issues, vec![edge(("acme", "widgets", 1), ("other", "repo", 99))]);
    assert!(compute_cross_repo_refs(&issues, &graph, "acme", "widgets").is_none());
}

#[test]
fn cross_repo_refs_duplicate_blocker_across_issues_dedupes() {
    let issues = vec![
        issue_at("acme", "widgets", 1, IssueState::Open, Status::Ready),
        issue_at("acme", "widgets", 2, IssueState::Open, Status::Ready),
        issue_at("other", "repo", 42, IssueState::Open, Status::Ready),
    ];
    let graph = graph_of(
        &issues,
        vec![
            edge(("acme", "widgets", 1), ("other", "repo", 42)),
            edge(("acme", "widgets", 2), ("other", "repo", 42)),
        ],
    );
    let refs = compute_cross_repo_refs(&issues, &graph, "acme", "widgets").expect("Some");
    assert_eq!(refs.omitted, vec!["other/repo#42".to_owned()]);
    let summary = refs.summary.as_deref().expect("summary populated");
    assert!(summary.starts_with("1 "), "{summary}");
    assert!(summary.contains("blocker") && !summary.contains("blockers"), "{summary}");
}

#[test]
fn cross_repo_refs_multiple_blockers_sorted_lexicographically() {
    let issues = vec![
        issue_at("acme", "widgets", 1, IssueState::Open, Status::Ready),
        issue_at("zeta", "repo", 3, IssueState::Open, Status::Ready),
        issue_at("alpha", "repo", 1, IssueState::Open, Status::Ready),
        issue_at("mid", "repo", 2, IssueState::Open, Status::Ready),
    ];
    let graph = graph_of(
        &issues,
        vec![
            edge(("acme", "widgets", 1), ("zeta", "repo", 3)),
            edge(("acme", "widgets", 1), ("alpha", "repo", 1)),
            edge(("acme", "widgets", 1), ("mid", "repo", 2)),
        ],
    );
    let refs = compute_cross_repo_refs(&issues, &graph, "acme", "widgets").expect("Some");
    assert_eq!(
        refs.omitted,
        vec!["alpha/repo#1".to_owned(), "mid/repo#2".to_owned(), "zeta/repo#3".to_owned()],
    );
    let summary = refs.summary.as_deref().expect("summary populated");
    assert!(summary.contains("3 "));
    assert!(summary.contains("blockers"), "{summary}");
}

#[test]
fn cross_repo_refs_in_progress_local_issue_does_not_contribute() {
    let issues = vec![
        issue_at("acme", "widgets", 1, IssueState::Open, Status::InProgress),
        issue_at("other", "repo", 99, IssueState::Open, Status::Ready),
    ];
    let graph = graph_of(&issues, vec![edge(("acme", "widgets", 1), ("other", "repo", 99))]);
    assert!(compute_cross_repo_refs(&issues, &graph, "acme", "widgets").is_none());
}

#[test]
fn cross_repo_refs_deferred_and_closed_status_do_not_contribute() {
    let issues = vec![
        issue_at("acme", "widgets", 1, IssueState::Open, Status::Deferred),
        issue_at("acme", "widgets", 2, IssueState::Open, Status::Closed),
        issue_at("other", "repo", 50, IssueState::Open, Status::Ready),
        issue_at("other", "repo", 51, IssueState::Open, Status::Ready),
    ];
    let graph = graph_of(
        &issues,
        vec![
            edge(("acme", "widgets", 1), ("other", "repo", 50)),
            edge(("acme", "widgets", 2), ("other", "repo", 51)),
        ],
    );
    assert!(compute_cross_repo_refs(&issues, &graph, "acme", "widgets").is_none());
}

#[test]
fn cross_repo_refs_cross_repo_source_issue_does_not_contribute() {
    let issues = vec![
        issue_at("other", "repo", 10, IssueState::Open, Status::Ready),
        issue_at("third", "party", 20, IssueState::Open, Status::Ready),
    ];
    let graph = graph_of(&issues, vec![edge(("other", "repo", 10), ("third", "party", 20))]);
    assert!(compute_cross_repo_refs(&issues, &graph, "acme", "widgets").is_none());
}

#[test]
fn classify_ready_blockers_missing_blocker_state_treated_as_not_blocking() {
    let issues = vec![
        issue_at("acme", "widgets", 1, IssueState::Open, Status::Ready),
        issue_at("other", "repo", 99, IssueState::Open, Status::Ready),
    ];
    let graph = graph_of(&issues, vec![edge(("acme", "widgets", 1), ("other", "repo", 99))]);
    let one = QualifiedId::new("acme", "widgets", 1);
    let (any_full, cross_full) = classify_ready_blockers(&one, &graph, "acme", "widgets");
    assert!(any_full, "baseline: the open cross-repo blocker holds #1 out of the ready set");
    assert_eq!(cross_full, vec!["other/repo#99".to_owned()]);

    let mut divergent = graph.clone();
    let before = divergent.states.len();
    divergent.states.retain(|(q, _)| *q != QualifiedId::new("other", "repo", 99));
    assert_eq!(divergent.states.len(), before - 1, "the blocker entry was there to strip");
    let (any_missing, cross_missing) = classify_ready_blockers(&one, &divergent, "acme", "widgets");
    assert!(!any_missing, "a blocker with no recorded state is not blocking");
    assert!(cross_missing.is_empty(), "found {cross_missing:?}");
}

#[test]
fn cross_repo_refs_output_is_deterministic_across_runs() {
    let issues = vec![
        issue_at("acme", "widgets", 1, IssueState::Open, Status::Ready),
        issue_at("z", "r", 3, IssueState::Open, Status::Ready),
        issue_at("a", "r", 1, IssueState::Open, Status::Ready),
    ];
    let graph = graph_of(
        &issues,
        vec![edge(("acme", "widgets", 1), ("z", "r", 3)), edge(("acme", "widgets", 1), ("a", "r", 1))],
    );
    let first = compute_cross_repo_refs(&issues, &graph, "acme", "widgets");
    let second = compute_cross_repo_refs(&issues, &graph, "acme", "widgets");
    assert_eq!(first, second);
}

#[test]
fn a_cold_cache_answers_an_empty_stale_result() {
    let r = ready_from_cache(&default_params(), None, None, "acme", "widgets");
    assert!(r.stale);
    assert_eq!(r.count, 0);
    assert!(r.issues.is_empty());
    assert!(r.cross_repo_refs.is_none());
}

#[test]
fn a_warm_cache_answers_the_filtered_page_with_its_trailer() {
    let issues = vec![
        issue_at("acme", "widgets", 1, IssueState::Open, Status::Ready),
        issue_at("other", "repo", 99, IssueState::Open, Status::Ready),
    ];
    let graph = graph_of(&issues, vec![edge(("acme", "widgets", 1), ("other", "repo", 99))]);
    let set = vec![test_summary(5, Priority::P1), test_summary(6, Priority::P2)];
    let r = ready_from_cache(&default_params(), Some(&set), Some((&issues, &graph)), "acme", "widgets");
    assert!(!r.stale);
    assert_eq!(r.count, 2);
    assert_eq!(r.issues[0].number, 5);
    assert_eq!(r.issues[0].status, "Ready");
    assert_eq!(r.issues[0].priority, "P1");
    let refs = r.cross_repo_refs.expect("trailer");
    assert_eq!(refs.omitted, vec!["other/repo#99".to_owned()]);
    let bare = ready_from_cache(&default_params(), Some(&set), None, "acme", "widgets");
    assert!(bare.cross_repo_refs.is_none());
}

#[test]
fn deferral_dates_are_reported_as_year_month_day() {
    let mut s1 = test_summary(1, Priority::P1);
    s1.defer_until = Some(CivilDate { year: 2026, month: 3, day: 5 });
    let set = vec![s1];
    let later = CivilDate { year: 2026, month: 4, day: 1 };
    let r = filter_ready_set_on(&set, &default_params(), later);
    assert_eq!(r[0].defer_until.as_deref(), Some("2026-03-05"));
    assert_eq!(r[0].created_at, "2026-01-01T00:00:00+00:00");
}
