use unblock_mcp::cross_repo::{
    build_cross_repo_refs_with_summary, close_summary, cycles_summary, project_all_cycles,
    project_cascade, project_cycle, ready_summary, QualifiedId, SortedStrings,
};

fn qid(owner: &str, repo: &str, number: u64) -> QualifiedId {
    QualifiedId::new(owner, repo, number)
}

#[test]
fn project_cycle_all_local_returns_local_numbers_no_cross_repo() {
    let cycle = vec![qid("acme", "widgets", 6), qid("acme", "widgets", 7)];
    let mut accum = SortedStrings::new();
    let local = project_cycle(&cycle, "acme", "widgets", &mut accum);
    assert_eq!(local, vec![6, 7]);
    assert!(accum.is_empty());
}

#[test]
fn project_cycle_all_cross_repo_returns_empty_local_populates_accum() {
    let cycle = vec![qid("other", "repo", 99), qid("third", "repo", 1)];
    let mut accum = SortedStrings::new();
    let local = project_cycle(&cycle, "acme", "widgets", &mut accum);
    assert!(local.is_empty());
    let collected: Vec<String> = accum.into_vec();
    assert_eq!(collected, vec!["other/repo#99", "third/repo#1"]);
}

#[test]
fn project_cycle_mixed_splits_local_from_cross_repo() {
    let cycle = vec![
        qid("acme", "widgets", 6),
        qid("other", "repo", 99),
        qid("acme", "widgets", 7),
    ];
    let mut accum = SortedStrings::new();
    let local = project_cycle(&cycle, "acme", "widgets", &mut accum);
    assert_eq!(local, vec![6, 7]);
    let collected: Vec<String> = accum.into_vec();
    assert_eq!(collected, vec!["other/repo#99"]);
}

#[test]
fn project_cycle_dedups_repeated_cross_repo_nodes_via_btreeset() {
    let cycle = vec![
        qid("other", "repo", 99),
        qid("other", "repo", 99),
        qid("other", "repo", 99),
    ];
    let mut accum = SortedStrings::new();
    let _ = project_cycle(&cycle, "acme", "widgets", &mut accum);
    assert_eq!(accum.len(), 1);
    assert!(accum.contains("other/repo#99"));
}

#[test]
fn project_all_cycles_preserves_input_cycle_order() {
    let raw = vec![
        vec![qid("acme", "widgets", 6), qid("acme", "widgets", 7)],
        vec![qid("acme", "widgets", 10), qid("acme", "widgets", 11)],
    ];
    let (cycles, accum) = project_all_cycles(&raw, "acme", "widgets");
    assert_eq!(cycles, vec![vec![6_u64, 7], vec![10_u64, 11]]);
    assert!(accum.is_empty());
}

#[test]
fn project_all_cycles_mixed_emits_short_local_projection_and_accum() {
    let raw = vec![vec![qid("acme", "widgets", 6), qid("other", "repo", 99)]];
    let (cycles, accum) = project_all_cycles(&raw, "acme", "widgets");
    assert_eq!(cycles, vec![vec![6_u64]]);
    let collected: Vec<String> = accum.into_vec();
    assert_eq!(collected, vec!["other/repo#99"]);
}

#[test]
fn project_all_cycles_dedups_cross_repo_across_cycles() {
    let raw = vec![
        vec![qid("acme", "widgets", 6), qid("other", "repo", 99)],
        vec![qid("acme", "widgets", 7), qid("other", "repo", 99)],
    ];
    let (_, accum) = project_all_cycles(&raw, "acme", "widgets");
    assert_eq!(accum.len(), 1);
}

#[test]
fn cross_repo_build_cross_repo_refs_empty_accum_returns_none() {
    let accum = SortedStrings::new();
    let refs = build_cross_repo_refs_with_summary(accum, cycles_summary);
    assert!(refs.is_none());
}

#[test]
fn build_cross_repo_refs_non_empty_returns_some_with_sorted_omitted() {
    let mut accum = SortedStrings::new();
    accum.insert("zeta/repo#1".to_string());
    accum.insert("alpha/repo#99".to_string());
    accum.insert("mid/repo#5".to_string());
    let refs = build_cross_repo_refs_with_summary(accum, cycles_summary)
        .expect("non-empty accum produces Some");
    assert_eq!(
        refs.omitted,
        vec!["alpha/repo#99", "mid/repo#5", "zeta/repo#1"]
    );
}

#[test]
fn build_cross_repo_refs_with_custom_summary_closure() {
    let mut accum = SortedStrings::new();
    accum.insert("other/repo#1".to_string());
    let refs = build_cross_repo_refs_with_summary(accum, |n| format!("custom-{n}")).expect("Some");
    assert_eq!(refs.summary.as_deref(), Some("custom-1"));
}

#[test]
fn cycles_summary_singular_matches_spec() {
    assert_eq!(
        cycles_summary(1),
        "1 cross-repo cycle member omitted from `cycles`"
    );
}

#[test]
fn cycles_summary_plural_matches_spec() {
    assert_eq!(
        cycles_summary(2),
        "2 cross-repo cycle members omitted from `cycles`"
    );
    assert_eq!(
        cycles_summary(5),
        "5 cross-repo cycle members omitted from `cycles`"
    );
}

#[test]
fn ready_summary_singular_matches_spec() {
    assert_eq!(
        ready_summary(1),
        "1 cross-repo blocker excluded local issue(s) from ready set"
    );
}

#[test]
fn ready_summary_plural_matches_spec() {
    assert_eq!(
        ready_summary(2),
        "2 cross-repo blockers excluded local issue(s) from ready set"
    );
    assert_eq!(
        ready_summary(7),
        "7 cross-repo blockers excluded local issue(s) from ready set"
    );
}

#[test]
fn project_cascade_all_local_returns_local_numbers_no_cross_repo() {
    let cascade = vec![qid("acme", "widgets", 10), qid("acme", "widgets", 11)];
    let (local, accum) = project_cascade(&cascade, "acme", "widgets");
    assert_eq!(local, vec![10, 11]);
    assert!(accum.is_empty());
}

#[test]
fn project_cascade_all_cross_repo_returns_empty_local_populates_accum() {
    let cascade = vec![qid("other", "repo", 99), qid("third", "repo", 1)];
    let (local, accum) = project_cascade(&cascade, "acme", "widgets");
    assert!(local.is_empty());
    let collected: Vec<String> = accum.into_vec();
    assert_eq!(collected, vec!["other/repo#99", "third/repo#1"]);
}

#[test]
fn project_cascade_mixed_splits_local_from_cross_repo() {
    let cascade = vec![
        qid("acme", "widgets", 10),
        qid("other", "repo", 99),
        qid("acme", "widgets", 11),
        qid("alpha", "upstream", 42),
    ];
    let (local, accum) = project_cascade(&cascade, "acme", "widgets");
    assert_eq!(local, vec![10, 11]);
    let collected: Vec<String> = accum.into_vec();
    assert_eq!(collected, vec!["alpha/upstream#42", "other/repo#99"]);
}

#[test]
fn project_cascade_dedups_repeated_cross_repo_nodes_via_btreeset() {
    let cascade = vec![
        qid("other", "repo", 99),
        qid("other", "repo", 99),
        qid("other", "repo", 99),
    ];
    let (_local, accum) = project_cascade(&cascade, "acme", "widgets");
    assert_eq!(accum.len(), 1);
    assert!(accum.contains("other/repo#99"));
}

#[test]
fn close_summary_singular_matches_spec() {
    assert_eq!(
        close_summary(1),
        "1 cross-repo dependent cascade-updated but omitted from `unblocked`"
    );
}

#[test]
fn close_summary_plural_matches_spec() {
    assert_eq!(
        close_summary(2),
        "2 cross-repo dependents cascade-updated but omitted from `unblocked`"
    );
    assert_eq!(
        close_summary(5),
        "5 cross-repo dependents cascade-updated but omitted from `unblocked`"
    );
}

#[test]
fn sorted_listing_is_independent_of_insertion_order() {
    let mut a = SortedStrings::new();
    let mut b = SortedStrings::new();
    for s in ["b/r#2", "a/r#1", "c/r#3", "a/r#1"] {
        a.insert(s.to_string());
    }
    for s in ["c/r#3", "a/r#1", "b/r#2"] {
        b.insert(s.to_string());
    }
    assert_eq!(a.into_vec(), b.into_vec());
}
