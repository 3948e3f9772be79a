//! `dep_cycles`: the detected dependency cycles, projected onto the configured repository.
//!
//! Each detected cycle (a strongly connected component of the dependency graph) is reported as
//! the numbers of its local members, in the order the detection returned them; a cycle whose
//! members are all cross-repo is still reported, as an empty list. The cross-repo members of all
//! reported cycles form the `cross_repo_refs` trailer. With a target issue, only the cycles that
//! contain it are reported.
use vstd::prelude::*;

use crate::cross_repo::{
    all_cross_texts, cross_texts, cycles_summary, cycles_summary_text, is_cross_member, is_local,
    local_numbers, project_all_cycles, project_cycle, strictly_sorted, CrossRepoRefs, QualifiedId,
    SortedStrings,
};
use crate::error::strings_view;

verus! {

/// The parameters of `dep_cycles`.
#[derive(Debug, Clone, PartialEq, Eq)]
pub struct DepCyclesParams {
    /// A local issue number: only the cycles containing it are reported.
    pub id: Option<u64>,
}

/// The result of `dep_cycles`.
#[derive(Debug, Clone, PartialEq, Eq)]
pub struct DepCyclesResult {
    /// The local projection of each reported cycle.
    pub cycles: Vec<Vec<u64>>,
    /// The number of reported cycles.
    pub count: usize,
    /// The cross-repo members left out of `cycles`.
    pub cross_repo_refs: Option<CrossRepoRefs>,
}

/// Whether `q` is the issue `owner/repo#number`.
pub open spec fn is_issue(q: QualifiedId, owner: Seq<char>, repo: Seq<char>, number: u64) -> bool {
    q.owner@ == owner && q.repo@ == repo && q.number == number
}

/// Whether `cycle` contains the issue `owner/repo#number`.
pub open spec fn cycle_contains(cycle: Seq<QualifiedId>, owner: Seq<char>, repo: Seq<char>, number: u64) -> bool {
    exists|i: int| 0 <= i < cycle.len() && is_issue(#[trigger] cycle[i], owner, repo, number)
}

/// The cycles of `raw` that contain the issue `owner/repo#number`, in order.
pub open spec fn cycles_containing(
    raw: Seq<Vec<QualifiedId>>,
    owner: Seq<char>,
    repo: Seq<char>,
    number: u64,
) -> Seq<Vec<QualifiedId>>
    decreases raw.len(),
{
    if raw.len() == 0 {
        seq![]
    } else {
        let prev = cycles_containing(raw.drop_last(), owner, repo, number);
        if cycle_contains(raw.last()@, owner, repo, number) {
            prev.push(raw.last())
        } else {
            prev
        }
    }
}

/// `r` is the cycles trailer of the cross-repo texts `set`: `None` exactly when the set is
/// empty, otherwise the sorted listing of the set and the cycles summary line for its size.
pub open spec fn cycles_refs_of(r: Option<CrossRepoRefs>, set: Set<Seq<char>>) -> bool {
    &&& (r is None <==> set == Set::<Seq<char>>::empty())
    &&& r matches Some(refs) ==> {
        &&& strictly_sorted(strings_view(refs.omitted))
        &&& strings_view(refs.omitted).to_set() == set
        &&& refs.summary matches Some(s) && s@ == cycles_summary_text(refs.omitted@.len())
    }
}

/// Whether some cycle of `cycles` has a member outside the repository `owner/repo`.
pub open spec fn has_outside_member(cycles: Seq<Vec<QualifiedId>>, owner: Seq<char>, repo: Seq<char>) -> bool {
    exists|c: int, i: int|
        0 <= c < cycles.len() && 0 <= i < cycles[c]@.len() && !is_local(#[trigger] cycles[c]@[i], owner, repo)
}

/// The cross-repo texts of the cycles are empty exactly when no cycle has a member outside the
/// repository.
pub proof fn lemma_cross_texts_empty_iff_all_local(cycles: Seq<Vec<QualifiedId>>, owner: Seq<char>, repo: Seq<char>)
    ensures
        (all_cross_texts(cycles, owner, repo) == Set::<Seq<char>>::empty()) <==> !has_outside_member(
            cycles,
            owner,
            repo,
        ),
{
    if has_outside_member(cycles, owner, repo) {
        let (c, i) = choose|c: int, i: int|
            0 <= c < cycles.len() && 0 <= i < cycles[c]@.len() && !is_local(#[trigger] cycles[c]@[i], owner, repo);
        let t = crate::cross_repo::qid_display(cycles[c]@[i]);
        assert(is_cross_member(cycles[c]@, i, owner, repo, t));
        assert(cross_texts(cycles[c]@, owner, repo).contains(t));
        assert(all_cross_texts(cycles, owner, repo).contains(t));
    } else {
        assert forall|t: Seq<char>| !#[trigger] all_cross_texts(cycles, owner, repo).contains(t) by {
            if all_cross_texts(cycles, owner, repo).contains(t) {
                let c = choose|c: int| 0 <= c < cycles.len() && #[trigger] cross_texts(cycles[c]@, owner, repo).contains(t);
                let i = choose|i: int| #[trigger] is_cross_member(cycles[c]@, i, owner, repo, t);
                assert(!is_local(cycles[c]@[i], owner, repo));
            }
        }
        assert(all_cross_texts(cycles, owner, repo) =~= Set::<Seq<char>>::empty());
    }
}

fn cycle_has(cycle: &Vec<QualifiedId>, target: &QualifiedId) -> (r: bool)
    ensures
        r == cycle_contains(cycle@, target.owner@, target.repo@, target.number),
{
    let mut i: usize = 0;
    while i < cycle.len()
        invariant
            0 <= i <= cycle@.len(),
            forall|j: int|
                0 <= j < i ==> !is_issue(#[trigger] cycle@[j], target.owner@, target.repo@, target.number),
        decreases cycle@.len() - i,
    {
        if cycle[i].same_as(target) {
            assert(is_issue(cycle@[i as int], target.owner@, target.repo@, target.number));
            return true;
        }
        i = i + 1;
    }
    false
}

/// The cycles that contain `target`, in order.
pub fn filter_cycles_containing<'a>(raw: &'a [Vec<QualifiedId>], target: &QualifiedId) -> (r: Vec<
    &'a Vec<QualifiedId>,
>)
    ensures
        r@.len() == cycles_containing(raw@, target.owner@, target.repo@, target.number).len(),
        forall|i: int| 0 <= i < r@.len() ==> *r@[i] == cycles_containing(raw@, target.owner@, target.repo@, target.number)[i],
{
    let mut r: Vec<&'a Vec<QualifiedId>> = Vec::new();
    let mut i: usize = 0;
    while i < raw.len()
        invariant
            0 <= i <= raw@.len(),
            r@.len() == cycles_containing(raw@.take(i as int), target.owner@, target.repo@, target.number).len(),
            forall|k: int|
                0 <= k < r@.len() ==> *r@[k] == cycles_containing(raw@.take(i as int), target.owner@, target.repo@, target.number)[k],
        decreases raw@.len() - i,
    {
        assert(raw@.take(i + 1).drop_last() =~= raw@.take(i as int));
        if cycle_has(&raw[i], target) {
            r.push(&raw[i]);
        }
        i = i + 1;
    }
    assert(raw@.take(raw@.len() as int) =~= raw@);
    r
}

/// The trailer for the cross-repo cycle members collected in `accum`.
pub fn build_cross_repo_refs(accum: SortedStrings) -> (r: Option<CrossRepoRefs>)
    ensures
        cycles_refs_of(r, accum.members()),
{
    let ghost listing = accum.seq();
    let ghost set = accum.members();
    if accum.is_empty() {
        assert(set =~= Set::<Seq<char>>::empty());
        return None;
    }
    assert(set.contains(listing[0]));
    let omitted = accum.into_vec();
    let n = omitted.len();
    let summary = Some(cycles_summary(n));
    Some(CrossRepoRefs { omitted, summary })
}

/// Project the cycle set `raw`: one local projection per cycle, in order, and the trailer of
/// all their cross-repo members.
pub fn project_all(raw: &[Vec<QualifiedId>], configured_owner: &str, configured_repo: &str) -> (r: (
    Vec<Vec<u64>>,
    Option<CrossRepoRefs>,
))
    ensures
        r.0@.len() == raw@.len(),
        forall|c: int|
            0 <= c < raw@.len() ==> #[trigger] r.0@[c]@ == local_numbers(
                raw@[c]@,
                configured_owner@,
                configured_repo@,
            ),
        cycles_refs_of(r.1, all_cross_texts(raw@, configured_owner@, configured_repo@)),
{
    let (cycles, accum) = project_all_cycles(raw, configured_owner, configured_repo);
    let refs = build_cross_repo_refs(accum);
    (cycles, refs)
}

/// The `dep_cycles` result for the detected cycles `raw` of the configured repository
/// `owner/repo`: every cycle, or with `params.id` only those containing that local issue,
/// projected; `count` is the number of reported cycles.
pub fn dep_cycles_result(
    raw: &[Vec<QualifiedId>],
    configured_owner: &str,
    configured_repo: &str,
    params: &DepCyclesParams,
) -> (r: DepCyclesResult)
    ensures
        r.count == r.cycles@.len(),
        ({
            let reported = match params.id {
                Some(n) => cycles_containing(raw@, configured_owner@, configured_repo@, n),
                None => raw@,
            };
            &&& r.cycles@.len() == reported.len()
            &&& forall|c: int|
                0 <= c < reported.len() ==> #[trigger] r.cycles@[c]@ == local_numbers(
                    reported[c]@,
                    configured_owner@,
                    configured_repo@,
                )
            &&& cycles_refs_of(
                r.cross_repo_refs,
                all_cross_texts(reported, configured_owner@, configured_repo@),
            )
            &&& (r.cross_repo_refs is Some <==> has_outside_member(
                reported,
                configured_owner@,
                configured_repo@,
            ))
        }),
{
    let (cycles, refs) = match params.id {
        Some(n) => {
            let target = QualifiedId::new(configured_owner, configured_repo, n);
            let selected = filter_cycles_containing(raw, &target);
            let mut local_cycles: Vec<Vec<u64>> = Vec::new();
            let mut accum = SortedStrings::new();
            let ghost reported = cycles_containing(raw@, configured_owner@, configured_repo@, n);
            let mut c: usize = 0;
            assert(accum.members() =~= all_cross_texts(
                reported.take(0),
                configured_owner@,
                configured_repo@,
            ));
            while c < selected.len()
                invariant
                    0 <= c <= selected@.len(),
                    selected@.len() == reported.len(),
                    forall|i: int| 0 <= i < selected@.len() ==> *selected@[i] == reported[i],
                    local_cycles@.len() == c,
                    forall|k: int|
                        0 <= k < c ==> #[trigger] local_cycles@[k]@ == local_numbers(
                            reported[k]@,
                            configured_owner@,
                            configured_repo@,
                        ),
                    accum.members() == all_cross_texts(
                        reported.take(c as int),
                        configured_owner@,
                        configured_repo@,
                    ),
                decreases selected@.len() - c,
            {
                let local = project_cycle(
                    selected[c].as_slice(),
                    configured_owner,
                    configured_repo,
                    &mut accum,
                );
                local_cycles.push(local);
                proof {
                    crate::cross_repo::lemma_all_cross_texts_step(
                        reported,
                        c as int,
                        configured_owner@,
                        configured_repo@,
                    );
                }
                c = c + 1;
            }
            assert(reported.take(reported.len() as int) =~= reported);
            let refs = build_cross_repo_refs(accum);
            (local_cycles, refs)
        },
        None => project_all(raw, configured_owner, configured_repo),
    };
    let count = cycles.len();
    proof {
        let reported = match params.id {
            Some(n) => cycles_containing(raw@, configured_owner@, configured_repo@, n),
            None => raw@,
        };
        lemma_cross_texts_empty_iff_all_local(reported, configured_owner@, configured_repo@);
    }
    DepCyclesResult { cycles, count, cross_repo_refs: refs }
}

} // verus!
