use unblock_mcp::cross_repo::{project_cycle, QualifiedId, SortedStrings};
use unblock_mcp::dep_cycles::{
    build_cross_repo_refs, dep_cycles_result, filter_cycles_containing, project_all,
    DepCyclesParams, DepCyclesResult,
};

fn qid(owner: &str, repo: &str, number: u64) -> QualifiedId {
    QualifiedId::new(owner, repo, number)
}

#[test]
fn project_cycle_local_only_emits_all_numbers_and_no_cross_repo() {
    let cycle = vec![qid("acme", "widgets", 6), qid("acme", "widgets", 7)];
    let mut accum = SortedStrings::new();
    let local = project_cycle(&cycle, "acme", "widgets", &mut accum);
    assert_eq!(local, vec![6, 7]);
    assert!(accum.is_empty());
}

#[test]
fn project_cycle_mixed_partitions_local_and_cross_repo() {
    let cycle = vec![qid("acme", "widgets", 6), qid("other", "repo", 99)];
    let mut accum = SortedStrings::new();
    let local = project_cycle(&cycle, "acme", "widgets", &mut accum);
    assert_eq!(local, vec![6]);
    assert_eq!(accum.len(), 1);
    assert!(accum.contains("other/repo#99"));
}

#[test]
fn project_cycle_cross_repo_only_emits_empty_local_and_accumulates() {
    let cycle = vec![qid("other", "repo", 1), qid("third", "party", 2)];
    let mut accum = SortedStrings::new();
    let local = project_cycle(&cycle, "acme", "widgets", &mut accum);
    assert!(local.is_empty(), "no local members, empty local projection");
    assert_eq!(accum.len(), 2);
    assert!(accum.contains("other/repo#1"));
    assert!(accum.contains("third/party#2"));
}

#[test]
fn project_cycle_deduplicates_same_cross_repo_across_calls() {
    let a = vec![qid("acme", "widgets", 1), qid("other", "repo", 42)];
    let b = vec![qid("acme", "widgets", 2), qid("other", "repo", 42)];
    let mut accum = SortedStrings::new();
    let _ = project_cycle(&a, "acme", "widgets", &mut accum);
    let _ = project_cycle(&b, "acme", "widgets", &mut accum);
    assert_eq!(accum.len(), 1, "same cross-repo id must be deduped");
    assert!(accum.contains("other/repo#42"));
}

#[test]
fn dep_cycles_build_cross_repo_refs_empty_accum_returns_none() {
    let accum = SortedStrings::new();
    assert!(build_cross_repo_refs(accum).is_none());
}

#[test]
fn build_cross_repo_refs_single_member_singular_summary() {
    let mut accum = SortedStrings::new();
    accum.insert("other/repo#7".to_owned());
    let refs = build_cross_repo_refs(accum).expect("Some");
    assert_eq!(refs.omitted, vec!["other/repo#7".to_owned()]);
    let summary = refs.summary.as_deref().expect("summary set");
    assert!(summary.starts_with("1 "), "singular form: {summary}");
    assert!(summary.contains("member"), "singular noun: {summary}");
    assert!(!summary.contains("members"), "singular noun only: {summary}");
}

#[test]
fn build_cross_repo_refs_plural_sorted_lexicographically() {
    let mut accum = SortedStrings::new();
    accum.insert("zeta/repo#3".to_owned());
    accum.insert("alpha/repo#1".to_owned());
    accum.insert("mid/repo#2".to_owned());
    let refs = build_cross_repo_refs(accum).expect("Some");
    assert_eq!(
        refs.omitted,
        vec!["alpha/repo#1".to_owned(), "mid/repo#2".to_owned(), "zeta/repo#3".to_owned()],
    );
    let summary = refs.summary.as_deref().expect("summary set");
    assert!(summary.contains("3 "));
    assert!(summary.contains("members"), "plural noun: {summary}");
}

#[test]
fn project_all_acyclic_returns_empty_cycles_and_no_cross_repo() {
    let raw: Vec<Vec<QualifiedId>> = vec![];
    let (cycles, refs) = project_all(&raw, "acme", "widgets");
    assert!(cycles.is_empty());
    assert!(refs.is_none());
}

#[test]
fn project_all_local_only_cycle_emits_cycles_and_none_refs() {
    let raw = vec![vec![qid("acme", "widgets", 6), qid("acme", "widgets", 7)]];
    let (cycles, refs) = project_all(&raw, "acme", "widgets");
    assert_eq!(cycles.len(), 1);
    assert_eq!(cycles[0], vec![6, 7]);
    assert!(refs.is_none(), "no cross-repo node, refs None");
}

#[test]
fn project_all_mixed_cycle_populates_refs_and_shortened_projection() {
    let raw = vec![vec![qid("acme", "widgets", 1), qid("other", "repo", 99), qid("acme", "widgets", 2)]];
    let (cycles, refs) = project_all(&raw, "acme", "widgets");
    assert_eq!(cycles.len(), 1);
    assert_eq!(cycles[0], vec![1, 2], "cross-repo stripped, locals retained in order");
    let refs = refs.expect("cross-repo node, refs Some");
    assert_eq!(refs.omitted, vec!["other/repo#99".to_owned()]);
}

#[test]
fn project_all_cross_repo_majority_still_emits_short_cycle() {
    let raw = vec![vec![qid("acme", "widgets", 1), qid("other", "repo", 99), qid("third", "party", 100)]];
    let (cycles, refs) = project_all(&raw, "acme", "widgets");
    assert_eq!(cycles.len(), 1, "cycle preserved even with 1 local member");
    assert_eq!(cycles[0], vec![1]);
    let refs = refs.expect("cross-repo members, refs Some");
    assert_eq!(refs.omitted, vec!["other/repo#99".to_owned(), "third/party#100".to_owned()]);
}

#[test]
fn project_all_all_cross_repo_cycle_emits_empty_vec_but_preserves_refs() {
    let raw = vec![vec![qid("other", "repo", 1), qid("third", "party", 2)]];
    let (cycles, refs) = project_all(&raw, "acme", "widgets");
    assert_eq!(cycles.len(), 1);
    assert!(cycles[0].is_empty());
    let refs = refs.expect("cross-repo-only cycle, refs Some");
    assert_eq!(refs.omitted.len(), 2);
}

#[test]
fn filter_cycles_containing_matches_target_in_scc() {
    let c1 = vec![qid("acme", "widgets", 1), qid("acme", "widgets", 2)];
    let c2 = vec![qid("acme", "widgets", 3), qid("acme", "widgets", 4)];
    let raw = vec![c1.clone(), c2.clone()];
    let target = qid("acme", "widgets", 3);
    let hits = filter_cycles_containing(&raw, &target);
    assert_eq!(hits.len(), 1);
    assert_eq!(*hits[0], c2);
}

#[test]
fn filter_cycles_containing_returns_empty_when_absent() {
    let raw = vec![vec![qid("acme", "widgets", 1), qid("acme", "widgets", 2)]];
    let target = qid("acme", "widgets", 999);
    let hits = filter_cycles_containing(&raw, &target);
    assert!(hits.is_empty());
}

#[test]
fn filter_cycles_containing_scopes_by_owner_repo_not_just_number() {
    let raw = vec![vec![qid("other", "repo", 42), qid("other", "repo", 43)]];
    let target = qid("acme", "widgets", 42);
    let hits = filter_cycles_containing(&raw, &target);
    assert!(hits.is_empty(), "the id target is scoped to the configured repo");
}

#[test]
fn dep_cycles_result_count_mirrors_cycles_len_invariant() {
    let cycles = vec![vec![1, 2], vec![3, 4, 5]];
    let res = DepCyclesResult { count: cycles.len(), cycles, cross_repo_refs: None };
    assert_eq!(res.count, res.cycles.len());
}

#[test]
fn dep_cycles_result_reports_every_cycle_without_an_id() {
    let raw = vec![
        vec![qid("acme", "widgets", 1), qid("acme", "widgets", 2)],
        vec![qid("acme", "widgets", 3), qid("other", "repo", 9)],
    ];
    let res = dep_cycles_result(&raw, "acme", "widgets", &DepCyclesParams { id: None });
    assert_eq!(res.count, 2);
    assert_eq!(res.cycles, vec![vec![1, 2], vec![3]]);
    let refs = res.cross_repo_refs.expect("cross-repo member");
    assert_eq!(refs.omitted, vec!["other/repo#9".to_owned()]);
    assert_eq!(refs.summary.as_deref(), Some("1 cross-repo cycle member omitted from `cycles`"));
}

#[test]
fn dep_cycles_result_with_an_id_keeps_only_its_cycles() {
    let raw = vec![
        vec![qid("acme", "widgets", 1), qid("acme", "widgets", 2)],
        vec![qid("acme", "widgets", 3), qid("other", "repo", 9)],
    ];
    let res = dep_cycles_result(&raw, "acme", "widgets", &DepCyclesParams { id: Some(2) });
    assert_eq!(res.count, 1);
    assert_eq!(res.cycles, vec![vec![1, 2]]);
    assert!(res.cross_repo_refs.is_none(), "the cross-repo member sat in the other cycle");
    let none = dep_cycles_result(&raw, "acme", "widgets", &DepCyclesParams { id: Some(77) });
    assert_eq!(none.count, 0);
    assert!(none.cycles.is_empty());
}
