use unblock_mcp::cross_repo::QualifiedId;
use unblock_mcp::dep_remove::{
    after_probe, dep_remove_next, guard_edge_exists, parse_ref, plan_dep_remove, probe_edge_via_fetch,
    reevaluate_source_after_remove, removed_result, AfterProbe, DepRemoveAction, DepRemoveError,
    DepRemoveEvent, DepRemoveParams, EdgePresence, IssueRef, RelatedIssue,
};
use unblock_mcp::model::{has_open_blockers, DepGraph, Edge, Issue, IssueState, Priority, Status, Timestamp};

fn qid(number: u64) -> QualifiedId {
    QualifiedId::new("acme", "widgets", number)
}

fn dep_remove_issue(number: u64, status: Status, state: IssueState) -> Issue {
    let ts = Timestamp { secs: 1_767_225_600, nanos: 0 };
    Issue {
        qualified_id: qid(number),
        number,
        node_id: format!("I_{number}"),
        title: format!("Issue {number}"),
        issue_type: None,
        status,
        priority: Priority::P2,
        agent: None,
        claimed_at: None,
        story_points: None,
        defer_until: None,
        labels: vec![],
        milestone: None,
        assignees: vec![],
        state,
        created_at: ts,
        updated_at: ts,
        url: format!("https://github.com/acme/widgets/issues/{number}"),
    }
}

fn graph_of(issues: &[Issue], edges: Vec<Edge>) -> DepGraph {
    DepGraph {
        edges,
        states: issues.iter().map(|i| (i.qualified_id.clone(), i.state)).collect(),
    }
}

fn params(source: &str, target: &str) -> DepRemoveParams {
    DepRemoveParams { source: source.to_owned(), target: target.to_owned() }
}

#[test]
fn parse_ref_accepts_bare_local_number() {
    let r = parse_ref("42").expect("bare local number should parse");
    assert_eq!(r, IssueRef::Local(42));
}

#[test]
fn parse_ref_accepts_hash_prefixed_local() {
    let r = parse_ref("#7").expect("hash-prefixed local should parse");
    assert_eq!(r, IssueRef::Local(7));
}

#[test]
fn parse_ref_accepts_cross_repo() {
    let r = parse_ref("acme/widgets#99").expect("cross-repo reference should parse");
    assert_eq!(
        r,
        IssueRef::CrossRepo { owner: "acme".to_owned(), repo: "widgets".to_owned(), number: 99 }
    );
}

#[test]
fn parse_ref_rejects_garbage_surfaces_invalid_issue_ref() {
    let err = parse_ref("not-a-ref").expect_err("garbage should not parse");
    assert_eq!(err, DepRemoveError::InvalidIssueRef { input: "not-a-ref".to_owned() });
}

#[test]
fn parse_ref_rejects_malformed_shapes() {
    for bad in ["", "#", "#x", "acme#1", "/widgets#1", "acme/#1", "a/b/c#1", "a/b#1#2", "a/b#", "99999999999999999999"] {
        assert!(parse_ref(bad).is_err(), "{bad:?} must not parse");
    }
}

#[test]
fn has_open_blockers_false_when_issue_absent_from_graph() {
    let g = graph_of(&[], vec![]);
    let orphan = dep_remove_issue(42, Status::Ready, IssueState::Open);
    assert!(!has_open_blockers(&orphan, &g));
}

#[test]
fn has_open_blockers_true_for_downstream_of_open_upstream() {
    let upstream = dep_remove_issue(1, Status::Ready, IssueState::Open);
    let downstream = dep_remove_issue(2, Status::Ready, IssueState::Open);
    let issues = vec![upstream.clone(), downstream.clone()];
    let g = graph_of(&issues, vec![Edge { source: qid(2), target: qid(1) }]);
    assert!(has_open_blockers(&downstream, &g));
    assert!(!has_open_blockers(&upstream, &g));
}

#[test]
fn has_open_blockers_false_when_upstream_is_closed() {
    let upstream = dep_remove_issue(1, Status::Closed, IssueState::Closed);
    let downstream = dep_remove_issue(2, Status::Ready, IssueState::Open);
    let issues = vec![upstream.clone(), downstream.clone()];
    let g = graph_of(&issues, vec![Edge { source: qid(2), target: qid(1) }]);
    assert!(!has_open_blockers(&downstream, &g));
}

#[test]
fn dep_remove_result_serializes_expected_shape() {
    let plan = plan_dep_remove(&params("42", "#99"), "acme", "widgets", true).expect("plan");
    let res = removed_result(&plan);
    assert!(res.removed);
    assert_eq!(res.source, "#42");
    assert_eq!(res.target, "#99");
    assert!(res.message.contains("#42") && res.message.contains("#99"), "{}", res.message);
    assert_eq!(res.message, "Removed blocking edge: #42 is no longer blocked by #99");
}

#[test]
fn dep_remove_result_cross_repo_rendering_round_trips() {
    let plan = plan_dep_remove(&params("42", "other/repo#9"), "acme", "widgets", true).expect("plan");
    let res = removed_result(&plan);
    assert_eq!(res.source, "#42");
    assert_eq!(res.target, "other/repo#9");
    let plan = plan_dep_remove(&params("third/party#42", "other/repo#9"), "acme", "widgets", true).expect("plan");
    let res = removed_result(&plan);
    assert_eq!(res.source, "third/party#42");
    assert_eq!(res.message, "Removed blocking edge: third/party#42 is no longer blocked by other/repo#9");
}

#[test]
fn a_reference_to_the_configured_repo_is_made_local() {
    let plan = plan_dep_remove(&params("acme/widgets#5", "#6"), "acme", "widgets", true).expect("plan");
    assert_eq!(plan.source_ref, IssueRef::Local(5));
    assert_eq!(plan.source_qid, qid(5));
    assert_eq!(plan.target_qid, qid(6));
    assert!(plan.probe_cache, "warm cache and both ends local");
}

#[test]
fn a_cold_cache_or_a_cross_repo_end_probes_the_fetched_source() {
    let cold = plan_dep_remove(&params("5", "6"), "acme", "widgets", false).expect("plan");
    assert!(!cold.probe_cache);
    let cross = plan_dep_remove(&params("5", "other/repo#6"), "acme", "widgets", true).expect("plan");
    assert!(!cross.probe_cache);
}

#[test]
fn identical_endpoints_are_refused() {
    let err = plan_dep_remove(&params("acme/widgets#5", "#5"), "acme", "widgets", true).expect_err("same");
    assert_eq!(
        err,
        DepRemoveError::Validation {
            message: "dep_remove: source and target must differ (both resolved to acme/widgets#5)".to_owned()
        }
    );
}

#[test]
fn an_invalid_target_is_reported_with_its_text() {
    let err = plan_dep_remove(&params("5", "five"), "acme", "widgets", true).expect_err("bad");
    assert_eq!(err, DepRemoveError::InvalidIssueRef { input: "five".to_owned() });
}

#[test]
fn the_cached_probe_classifies_the_edge() {
    let a = dep_remove_issue(1, Status::Ready, IssueState::Open);
    let b = dep_remove_issue(2, Status::Ready, IssueState::Open);
    let c = dep_remove_issue(3, Status::Closed, IssueState::Closed);
    let g = graph_of(&[a, b, c], vec![Edge { source: qid(2), target: qid(1) }]);
    assert_eq!(guard_edge_exists(&g, &qid(2), &qid(1)), EdgePresence::Present);
    assert_eq!(guard_edge_exists(&g, &qid(1), &qid(2)), EdgePresence::MissingSkipMutation);
    assert_eq!(guard_edge_exists(&g, &qid(3), &qid(1)), EdgePresence::EndpointClosed(qid(3)));
    assert_eq!(guard_edge_exists(&g, &qid(2), &qid(3)), EdgePresence::EndpointClosed(qid(3)));
}

#[test]
fn the_fetched_probe_classifies_the_edge() {
    let blockers = vec![
        RelatedIssue { number: 1, repo_owner: None, repo_name: None, state: IssueState::Open },
        RelatedIssue {
            number: 9,
            repo_owner: Some("other".to_owned()),
            repo_name: Some("repo".to_owned()),
            state: IssueState::Closed,
        },
    ];
    let other = QualifiedId::new("other", "repo", 9);
    assert_eq!(probe_edge_via_fetch(IssueState::Open, &blockers, &qid(2), &qid(1)), EdgePresence::Present);
    assert_eq!(
        probe_edge_via_fetch(IssueState::Open, &blockers, &qid(2), &other),
        EdgePresence::EndpointClosed(other.clone())
    );
    assert_eq!(
        probe_edge_via_fetch(IssueState::Open, &blockers, &qid(2), &qid(7)),
        EdgePresence::MissingSkipMutation
    );
    assert_eq!(
        probe_edge_via_fetch(IssueState::Closed, &blockers, &qid(2), &qid(1)),
        EdgePresence::EndpointClosed(qid(2))
    );
}

#[test]
fn a_missing_edge_is_answered_without_mutation() {
    let plan = plan_dep_remove(&params("#4", "#8"), "acme", "widgets", true).expect("plan");
    match after_probe(&plan, EdgePresence::MissingSkipMutation) {
        AfterProbe::Answer(a) => {
            assert!(!a.removed);
            assert_eq!(a.message, "No blocking edge to remove: #4 is not currently blocked by #8");
        }
        other => panic!("unexpected {other:?}"),
    }
    assert_eq!(after_probe(&plan, EdgePresence::Present), AfterProbe::Mutate);
    assert_eq!(
        after_probe(&plan, EdgePresence::EndpointClosed(qid(8))),
        AfterProbe::Refuse(DepRemoveError::EndpointClosed { qid: qid(8) })
    );
}

#[test]
fn the_source_moves_to_ready_only_without_open_blockers() {
    let a = dep_remove_issue(1, Status::Ready, IssueState::Open);
    let b = dep_remove_issue(2, Status::Blocked, IssueState::Open);
    let c = dep_remove_issue(3, Status::Ready, IssueState::Open);
    let issues = vec![a, b, c];
    let freed = graph_of(&issues, vec![]);
    assert_eq!(reevaluate_source_after_remove(Some((&issues, &freed)), 2, &qid(2), &qid(1)), Ok(true));
    let still = graph_of(&issues, vec![Edge { source: qid(2), target: qid(3) }]);
    assert_eq!(reevaluate_source_after_remove(Some((&issues, &still)), 2, &qid(2), &qid(1)), Ok(false));
    assert_eq!(reevaluate_source_after_remove(Some((&issues, &freed)), 9, &qid(9), &qid(1)), Ok(false));
}

#[test]
fn a_failed_cache_rebuild_is_reported_as_unavailable() {
    let err = reevaluate_source_after_remove(None, 2, &qid(2), &qid(1)).expect_err("no cache");
    match err {
        DepRemoveError::CacheRebuildFailed { status, message } => {
            assert_eq!(status, 503);
            assert!(message.starts_with("Blocking edge removed between acme/widgets#2 and acme/widgets#1"), "{message}");
        }
        other => panic!("unexpected {other:?}"),
    }
}

#[test]
fn a_request_probes_removes_rebuilds_then_answers_removed() {
    let plan = plan_dep_remove(&params("#2", "#1"), "acme", "widgets", true).expect("plan");
    assert_eq!(dep_remove_next(&plan, DepRemoveEvent::Start), DepRemoveAction::ProbeCache);
    assert_eq!(dep_remove_next(&plan, DepRemoveEvent::Probed(EdgePresence::Present)), DepRemoveAction::Remove);
    assert_eq!(dep_remove_next(&plan, DepRemoveEvent::Removed(Ok(()))), DepRemoveAction::Rebuild);
    let issues = vec![
        dep_remove_issue(1, Status::Ready, IssueState::Open),
        dep_remove_issue(2, Status::Blocked, IssueState::Open),
    ];
    let freed = graph_of(&issues, vec![]);
    match dep_remove_next(&plan, DepRemoveEvent::Rebuilt(Some((&issues, &freed)))) {
        DepRemoveAction::MarkReadyAndAnswer(r) => {
            assert!(r.removed);
            assert_eq!(r.message, "Removed blocking edge: #2 is no longer blocked by #1");
        }
        other => panic!("unexpected {other:?}"),
    }
    let still = graph_of(&issues, vec![Edge { source: qid(2), target: qid(1) }]);
    match dep_remove_next(&plan, DepRemoveEvent::Rebuilt(Some((&issues, &still)))) {
        DepRemoveAction::Answer(r) => assert!(r.removed),
        other => panic!("unexpected {other:?}"),
    }
}

#[test]
fn a_request_that_finds_no_edge_never_removes() {
    let plan = plan_dep_remove(&params("#4", "#8"), "acme", "widgets", false).expect("plan");
    assert_eq!(dep_remove_next(&plan, DepRemoveEvent::Start), DepRemoveAction::ProbeFetch);
    match dep_remove_next(&plan, DepRemoveEvent::Probed(EdgePresence::MissingSkipMutation)) {
        DepRemoveAction::Answer(r) => assert!(!r.removed),
        other => panic!("unexpected {other:?}"),
    }
    assert_eq!(
        dep_remove_next(&plan, DepRemoveEvent::Probed(EdgePresence::EndpointClosed(qid(8)))),
        DepRemoveAction::Fail(DepRemoveError::EndpointClosed { qid: qid(8) })
    );
}

#[test]
fn a_failed_removal_fails_the_request() {
    let plan = plan_dep_remove(&params("#4", "#8"), "acme", "widgets", true).expect("plan");
    assert_eq!(
        dep_remove_next(&plan, DepRemoveEvent::Removed(Err("upstream 404".to_owned()))),
        DepRemoveAction::Fail(DepRemoveError::RemoveFailed { message: "upstream 404".to_owned() })
    );
    match dep_remove_next(&plan, DepRemoveEvent::Rebuilt(None)) {
        DepRemoveAction::Fail(DepRemoveError::CacheRebuildFailed { status, .. }) => assert_eq!(status, 503),
        other => panic!("unexpected {other:?}"),
    }
}

#[test]
fn a_cross_repo_source_is_answered_after_the_rebuild_without_status_update() {
    let plan = plan_dep_remove(&params("other/lib#4", "#8"), "acme", "widgets", true).expect("plan");
    assert_eq!(dep_remove_next(&plan, DepRemoveEvent::Start), DepRemoveAction::ProbeFetch);
    assert_eq!(dep_remove_next(&plan, DepRemoveEvent::Removed(Ok(()))), DepRemoveAction::Rebuild);
    match dep_remove_next(&plan, DepRemoveEvent::Rebuilt(None)) {
        DepRemoveAction::Answer(r) => {
            assert!(r.removed);
            assert_eq!(r.source, "other/lib#4");
        }
        other => panic!("unexpected {other:?}"),
    }
}
