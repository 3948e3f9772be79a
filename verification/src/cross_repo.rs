//! The cross-repo response contract: projecting issue references onto the configured
//! repository.
//!
//! A reference whose `(owner, repo)` is the configured repository is *local* and is reported as a
//! bare issue number; any other is *cross-repo* and is collected, as its `owner/repo#number`
//! display text, into a sorted, duplicate-free set. The set becomes the optional
//! [`CrossRepoRefs`] trailer, which is present exactly when the set is not empty and whose
//! `omitted` list is sorted, so identical inputs always give identical responses.
use vstd::prelude::*;

use crate::error::strings_view;
use crate::text::{
    chars_eq, chars_less, chars_of, decimal, lemma_str_lt_irreflexive, lemma_str_lt_total,
    lemma_str_lt_transitive, push_decimal, push_str, str_lt, string_of,
};

verus! {

// ------------------------------------------------------------------------------------------
// Issue references
// ------------------------------------------------------------------------------------------

/// A fully-qualified issue reference: `owner/repo#number`.
#[derive(Debug, Clone, PartialEq, Eq)]
pub struct QualifiedId {
    pub owner: String,
    pub repo: String,
    pub number: u64,
}

/// The display text of a reference: `owner/repo#number`.
pub open spec fn qid_text(owner: Seq<char>, repo: Seq<char>, number: nat) -> Seq<char> {
    owner + "/"@ + repo + "#"@ + decimal(number)
}

/// The display text of `q`.
pub open spec fn qid_display(q: QualifiedId) -> Seq<char> {
    qid_text(q.owner@, q.repo@, q.number as nat)
}

/// Whether `q` lives in the repository `owner/repo`.
pub open spec fn is_local(q: QualifiedId, owner: Seq<char>, repo: Seq<char>) -> bool {
    q.owner@ == owner && q.repo@ == repo
}

/// Whether two strings have the same characters.
pub fn same_text(a: &str, b: &str) -> (r: bool)
    ensures
        r == (a@ == b@),
{
    let x = chars_of(a);
    let y = chars_of(b);
    chars_eq(&x, &y)
}

impl QualifiedId {
    /// The reference `owner/repo#number`.
    pub fn new(owner: &str, repo: &str, number: u64) -> (q: QualifiedId)
        ensures
            q.owner@ == owner@,
            q.repo@ == repo@,
            q.number == number,
    {
        QualifiedId {
            owner: string_of(&chars_of(owner)),
            repo: string_of(&chars_of(repo)),
            number,
        }
    }

    /// The display text `owner/repo#number`.
    pub fn to_string(&self) -> (s: String)
        ensures
            s@ == qid_display(*self),
    {
        let mut v = chars_of(self.owner.as_str());
        push_str(&mut v, "/");
        let r = chars_of(self.repo.as_str());
        crate::text::push_all(&mut v, &r);
        push_str(&mut v, "#");
        push_decimal(&mut v, self.number);
        string_of(&v)
    }

    /// Whether this reference lives in `owner/repo`.
    pub fn is_in(&self, owner: &str, repo: &str) -> (r: bool)
        ensures
            r == is_local(*self, owner@, repo@),
    {
        same_text(self.owner.as_str(), owner) && same_text(self.repo.as_str(), repo)
    }

    /// Whether two references are the same issue.
    pub fn same_as(&self, other: &QualifiedId) -> (r: bool)
        ensures
            r == (self.owner@ == other.owner@ && self.repo@ == other.repo@ && self.number
                == other.number),
    {
        self.number == other.number && same_text(self.owner.as_str(), other.owner.as_str())
            && same_text(self.repo.as_str(), other.repo.as_str())
    }
}

// ------------------------------------------------------------------------------------------
// The sorted set of display texts
// ------------------------------------------------------------------------------------------

/// Whether `s` is strictly increasing.
pub open spec fn strictly_sorted(s: Seq<Seq<char>>) -> bool {
    forall|i: int, j: int| 0 <= i < j < s.len() ==> str_lt(#[trigger] s[i], #[trigger] s[j])
}

/// A sorted set of strings, iterated in increasing order.
pub struct SortedStrings {
    items: Vec<String>,
}

impl SortedStrings {
    #[verifier::type_invariant]
    spec fn inv(self) -> bool {
        strictly_sorted(strings_view(self.items))
    }

    /// The members, in increasing order.
    pub closed spec fn seq(self) -> Seq<Seq<char>> {
        strings_view(self.items)
    }

    /// The members.
    pub open spec fn members(self) -> Set<Seq<char>> {
        self.seq().to_set()
    }

    /// An empty set.
    pub fn new() -> (s: SortedStrings)
        ensures
            s.seq() == Seq::<Seq<char>>::empty(),
    {
        let s = SortedStrings { items: Vec::new() };
        assert(strings_view(s.items) =~= Seq::<Seq<char>>::empty());
        s
    }

    /// The number of members.
    pub fn len(&self) -> (n: usize)
        ensures
            n == self.seq().len(),
    {
        self.items.len()
    }

    /// Whether there are no members.
    pub fn is_empty(&self) -> (b: bool)
        ensures
            b == (self.seq().len() == 0),
    {
        self.items.len() == 0
    }

    /// Whether `s` is a member.
    pub fn contains(&self, s: &str) -> (b: bool)
        ensures
            b == self.seq().contains(s@),
    {
        let c = chars_of(s);
        let mut i: usize = 0;
        while i < self.items.len()
            invariant
                0 <= i <= self.items@.len(),
                c@ == s@,
                forall|j: int| 0 <= j < i ==> self.items@[j]@ != s@,
            decreases self.items@.len() - i,
        {
            let x = chars_of(self.items[i].as_str());
            if chars_eq(&x, &c) {
                assert(self.seq()[i as int] == s@);
                return true;
            }
            i = i + 1;
        }
        proof {
            if self.seq().contains(s@) {
                let k = choose|k: int| 0 <= k < self.seq().len() && self.seq()[k] == s@;
                assert(self.items@[k]@ == s@);
            }
        }
        false
    }

    fn item_below(&self, i: usize, c: &Vec<char>) -> (r: bool)
        requires
            i < self.seq().len(),
        ensures
            r == str_lt(self.seq()[i as int], c@),
    {
        let x = chars_of(self.items[i].as_str());
        chars_less(&x, c)
    }

    fn item_equals(&self, i: usize, c: &Vec<char>) -> (r: bool)
        requires
            i < self.seq().len(),
        ensures
            r == (self.seq()[i as int] == c@),
    {
        let x = chars_of(self.items[i].as_str());
        chars_eq(&x, c)
    }

    /// Add `s`; a member already present is not added twice.
    pub fn insert(&mut self, s: String)
        ensures
            final(self).members() == old(self).members().insert(s@),
    {
        proof {
            use_type_invariant(&*self);
        }
        let c = chars_of(s.as_str());
        let ghost old_seq = strings_view(self.items);
        let mut i: usize = 0;
        while i < self.items.len() && self.item_below(i, &c)
            invariant
                0 <= i <= self.items@.len(),
                c@ == s@,
                old_seq == strings_view(self.items),
                strictly_sorted(old_seq),
                forall|j: int| 0 <= j < i ==> str_lt(#[trigger] old_seq[j], s@),
            decreases self.items@.len() - i,
        {
            i = i + 1;
        }
        if i < self.items.len() && self.item_equals(i, &c) {
            proof {
                assert(old_seq[i as int] == s@);
                assert(old_seq.to_set().insert(s@) =~= old_seq.to_set());
            }
            return;
        }
        proof {
            if i < old_seq.len() {
                lemma_str_lt_total(old_seq[i as int], s@);
                assert forall|j: int| i <= j < old_seq.len() implies str_lt(
                    s@,
                    #[trigger] old_seq[j],
                ) by {
                    if j > i {
                        lemma_str_lt_transitive(s@, old_seq[i as int], old_seq[j]);
                    }
                }
            }
        }
        let mut items = Vec::new();
        std::mem::swap(&mut items, &mut self.items);
        items.insert(i, s);
        let ghost new_seq = strings_view(items);
        proof {
            assert(new_seq =~= old_seq.insert(i as int, s@));
            assert(strictly_sorted(new_seq)) by {
                assert forall|a: int, b: int| 0 <= a < b < new_seq.len() implies str_lt(
                    #[trigger] new_seq[a],
                    #[trigger] new_seq[b],
                ) by {
                    if a < i && b == i {
                    } else if a < i && b > i {
                        assert(new_seq[b] == old_seq[b - 1]);
                    } else if a == i {
                        assert(new_seq[b] == old_seq[b - 1]);
                    } else if a > i {
                        assert(new_seq[a] == old_seq[a - 1]);
                        assert(new_seq[b] == old_seq[b - 1]);
                    }
                }
            }
            assert(new_seq.to_set() =~= old_seq.to_set().insert(s@)) by {
                assert forall|x: Seq<char>| new_seq.to_set().contains(x) implies old_seq.to_set().insert(
                    s@,
                ).contains(x) by {
                    let k = choose|k: int| 0 <= k < new_seq.len() && new_seq[k] == x;
                    if k < i {
                        assert(old_seq[k] == x);
                    } else if k > i {
                        assert(old_seq[k - 1] == x);
                    }
                }
                assert forall|x: Seq<char>| old_seq.to_set().insert(s@).contains(x) implies new_seq.to_set().contains(
                    x,
                ) by {
                    if x == s@ {
                        assert(new_seq[i as int] == x);
                    } else {
                        let k = choose|k: int| 0 <= k < old_seq.len() && old_seq[k] == x;
                        if k < i {
                            assert(new_seq[k] == x);
                        } else {
                            assert(new_seq[k + 1] == x);
                        }
                    }
                }
            }
        }
        self.items = items;
    }

    /// The members, in increasing order.
    pub fn into_vec(self) -> (v: Vec<String>)
        ensures
            strings_view(v) == self.seq(),
            strictly_sorted(self.seq()),
    {
        proof {
            use_type_invariant(&self);
        }
        self.items
    }
}

/// Two strictly increasing sequences with the same members are the same sequence: the sorted
/// listing of a set does not depend on the order in which its members were added.
pub proof fn lemma_sorted_listing_unique(a: Seq<Seq<char>>, b: Seq<Seq<char>>)
    requires
        strictly_sorted(a),
        strictly_sorted(b),
        a.to_set() == b.to_set(),
    ensures
        a == b,
    decreases a.len() + b.len(),
{
    if a.len() == 0 {
        if b.len() > 0 {
            assert(b.to_set().contains(b[0]));
        }
        assert(a =~= b);
    } else if b.len() == 0 {
        assert(a.to_set().contains(a[0]));
    } else {
        // the first members agree: each is the least member of the common set
        assert(b.to_set().contains(a[0]));
        assert(a.to_set().contains(b[0]));
        let ka = choose|k: int| 0 <= k < b.len() && b[k] == a[0];
        let kb = choose|k: int| 0 <= k < a.len() && a[k] == b[0];
        if ka > 0 {
            assert(str_lt(b[0], b[ka]));
            if kb > 0 {
                assert(str_lt(a[0], a[kb]));
                lemma_str_lt_total(a[0], b[0]);
            } else {
                lemma_str_lt_irreflexive(a[0]);
            }
        } else if kb > 0 {
            lemma_str_lt_irreflexive(b[0]);
            assert(str_lt(a[0], a[kb]));
        }
        assert(a[0] == b[0]);
        let ra = a.drop_first();
        let rb = b.drop_first();
        assert(ra.to_set() == rb.to_set()) by {
            assert forall|x: Seq<char>| ra.to_set().contains(x) implies rb.to_set().contains(x) by {
                let k = choose|k: int| 0 <= k < ra.len() && ra[k] == x;
                assert(a[k + 1] == x);
                assert(str_lt(a[0], x));
                assert(b.to_set().contains(x));
                let m = choose|m: int| 0 <= m < b.len() && b[m] == x;
                if m == 0 {
                    lemma_str_lt_irreflexive(x);
                }
                assert(rb[m - 1] == x);
            }
            assert forall|x: Seq<char>| rb.to_set().contains(x) implies ra.to_set().contains(x) by {
                let k = choose|k: int| 0 <= k < rb.len() && rb[k] == x;
                assert(b[k + 1] == x);
                assert(str_lt(b[0], x));
                assert(a.to_set().contains(x));
                let m = choose|m: int| 0 <= m < a.len() && a[m] == x;
                if m == 0 {
                    lemma_str_lt_irreflexive(x);
                }
                assert(ra[m - 1] == x);
            }
            assert(ra.to_set() =~= rb.to_set());
        }
        lemma_sorted_listing_unique(ra, rb);
        assert(a =~= seq![a[0]] + ra);
        assert(b =~= seq![b[0]] + rb);
    }
}

// ------------------------------------------------------------------------------------------
// Projection
// ------------------------------------------------------------------------------------------

/// The cross-repo references a projection left out, with a summary line.
#[derive(Debug, Clone, PartialEq, Eq)]
pub struct CrossRepoRefs {
    /// The omitted references' display texts, sorted, each once.
    pub omitted: Vec<String>,
    /// The italic summary line.
    pub summary: Option<String>,
}

/// The numbers of the local members of `refs`, in order.
pub open spec fn local_numbers(refs: Seq<QualifiedId>, owner: Seq<char>, repo: Seq<char>) -> Seq<u64>
    decreases refs.len(),
{
    if refs.len() == 0 {
        seq![]
    } else {
        let prev = local_numbers(refs.drop_last(), owner, repo);
        if is_local(refs.last(), owner, repo) {
            prev.push(refs.last().number)
        } else {
            prev
        }
    }
}

/// The display texts of the cross-repo members of `refs`.
pub open spec fn cross_texts(refs: Seq<QualifiedId>, owner: Seq<char>, repo: Seq<char>) -> Set<Seq<char>> {
    Set::new(|t: Seq<char>| exists|i: int| #[trigger] is_cross_member(refs, i, owner, repo, t))
}

/// Whether `refs[i]` is a cross-repo member whose display text is `t`.
pub open spec fn is_cross_member(
    refs: Seq<QualifiedId>,
    i: int,
    owner: Seq<char>,
    repo: Seq<char>,
    t: Seq<char>,
) -> bool {
    0 <= i < refs.len() && !is_local(refs[i], owner, repo) && qid_display(refs[i]) == t
}

/// The display texts of the cross-repo members of every cycle in `cycles`.
pub open spec fn all_cross_texts(cycles: Seq<Vec<QualifiedId>>, owner: Seq<char>, repo: Seq<char>) -> Set<Seq<char>> {
    Set::new(
        |t: Seq<char>|
            exists|c: int| 0 <= c < cycles.len() && #[trigger] cross_texts(cycles[c]@, owner, repo).contains(t),
    )
}

/// Adding one more cycle adds its cross-repo texts.
pub proof fn lemma_all_cross_texts_step(cycles: Seq<Vec<QualifiedId>>, c: int, o: Seq<char>, p: Seq<char>)
    requires
        0 <= c < cycles.len(),
    ensures
        all_cross_texts(cycles.take(c + 1), o, p) == all_cross_texts(cycles.take(c), o, p).union(
            cross_texts(cycles[c]@, o, p),
        ),
{
    let prev = cycles.take(c);
    let next = cycles.take(c + 1);
    assert forall|t: Seq<char>| #[trigger] all_cross_texts(next, o, p).contains(t)
        == all_cross_texts(prev, o, p).union(cross_texts(cycles[c]@, o, p)).contains(t) by {
        if all_cross_texts(next, o, p).contains(t) {
            let k = choose|k: int| 0 <= k < next.len() && #[trigger] cross_texts(next[k]@, o, p).contains(t);
            if k < c {
                assert(prev[k] == next[k]);
                assert(cross_texts(prev[k]@, o, p).contains(t));
            }
        }
        if all_cross_texts(prev, o, p).contains(t) {
            let k = choose|k: int| 0 <= k < prev.len() && #[trigger] cross_texts(prev[k]@, o, p).contains(t);
            assert(prev[k] == next[k]);
            assert(cross_texts(next[k]@, o, p).contains(t));
        }
        if cross_texts(cycles[c]@, o, p).contains(t) {
            assert(next[c] == cycles[c]);
            assert(cross_texts(next[c]@, o, p).contains(t));
        }
    }
    assert(all_cross_texts(next, o, p) =~= all_cross_texts(prev, o, p).union(cross_texts(cycles[c]@, o, p)));
}

/// Partition `refs` into the numbers of its local members (returned, in order) and the display
/// texts of its cross-repo members (added to `accum`).
fn partition_refs(refs: &[QualifiedId], owner: &str, repo: &str, accum: &mut SortedStrings) -> (local: Vec<u64>)
    ensures
        local@ == local_numbers(refs@, owner@, repo@),
        final(accum).members() == old(accum).members().union(cross_texts(refs@, owner@, repo@)),
{
    let mut local: Vec<u64> = Vec::new();
    let mut i: usize = 0;
    while i < refs.len()
        invariant
            0 <= i <= refs@.len(),
            local@ == local_numbers(refs@.take(i as int), owner@, repo@),
            accum.members() == old(accum).members().union(
                cross_texts(refs@.take(i as int), owner@, repo@),
            ),
        decreases refs@.len() - i,
    {
        let ghost before = accum.members();
        assert(refs@.take(i + 1).drop_last() =~= refs@.take(i as int));
        if refs[i].is_in(owner, repo) {
            local.push(refs[i].number);
            assert(cross_texts(refs@.take(i + 1), owner@, repo@) =~= cross_texts(
                refs@.take(i as int),
                owner@,
                repo@,
            )) by {
                assert forall|t: Seq<char>| cross_texts(refs@.take(i + 1), owner@, repo@).contains(t)
                    implies cross_texts(refs@.take(i as int), owner@, repo@).contains(t) by {
                    let k = choose|k: int| #[trigger] is_cross_member(refs@.take(i + 1), k, owner@, repo@, t);
                    assert(refs@.take(i + 1)[i as int] == refs@[i as int]);
                    assert(refs@.take(i as int)[k] == refs@.take(i + 1)[k]);
                    assert(is_cross_member(refs@.take(i as int), k, owner@, repo@, t));
                }
                assert forall|t: Seq<char>| cross_texts(refs@.take(i as int), owner@, repo@).contains(t)
                    implies cross_texts(refs@.take(i + 1), owner@, repo@).contains(t) by {
                    let k = choose|k: int| #[trigger] is_cross_member(refs@.take(i as int), k, owner@, repo@, t);
                    assert(refs@.take(i + 1)[k] == refs@.take(i as int)[k]);
                    assert(is_cross_member(refs@.take(i + 1), k, owner@, repo@, t));
                }
            }
        } else {
            let text = refs[i].to_string();
            accum.insert(text);
            assert(cross_texts(refs@.take(i + 1), owner@, repo@) =~= cross_texts(
                refs@.take(i as int),
                owner@,
                repo@,
            ).insert(qid_display(refs@[i as int]))) by {
                assert forall|t: Seq<char>| cross_texts(refs@.take(i + 1), owner@, repo@).contains(t)
                    implies cross_texts(refs@.take(i as int), owner@, repo@).insert(
                    qid_display(refs@[i as int]),
                ).contains(t) by {
                    let k = choose|k: int| #[trigger] is_cross_member(refs@.take(i + 1), k, owner@, repo@, t);
                    if k < i {
                        assert(refs@.take(i as int)[k] == refs@.take(i + 1)[k]);
                        assert(is_cross_member(refs@.take(i as int), k, owner@, repo@, t));
                    } else {
                        assert(refs@.take(i + 1)[k] == refs@[i as int]);
                    }
                }
                assert forall|t: Seq<char>| cross_texts(refs@.take(i as int), owner@, repo@).insert(
                    qid_display(refs@[i as int]),
                ).contains(t) implies cross_texts(refs@.take(i + 1), owner@, repo@).contains(t) by {
                    if t == qid_display(refs@[i as int]) {
                        assert(refs@.take(i + 1)[i as int] == refs@[i as int]);
                        assert(is_cross_member(refs@.take(i + 1), i as int, owner@, repo@, t));
                    } else {
                        let k = choose|k: int| #[trigger] is_cross_member(refs@.take(i as int), k, owner@, repo@, t);
                        assert(refs@.take(i + 1)[k] == refs@.take(i as int)[k]);
                        assert(is_cross_member(refs@.take(i + 1), k, owner@, repo@, t));
                    }
                }
            }
            assert(accum.members() =~= old(accum).members().union(
                cross_texts(refs@.take(i + 1), owner@, repo@),
            ));
        }
        i = i + 1;
    }
    assert(refs@.take(refs@.len() as int) =~= refs@);
    local
}

/// Project one cycle: the numbers of its local members, in the cycle's order, are returned, and
/// the display texts of its cross-repo members are added to `cross_repo_accum`.
pub fn project_cycle(
    cycle: &[QualifiedId],
    configured_owner: &str,
    configured_repo: &str,
    cross_repo_accum: &mut SortedStrings,
) -> (local: Vec<u64>)
    ensures
        local@ == local_numbers(cycle@, configured_owner@, configured_repo@),
        final(cross_repo_accum).members() == old(cross_repo_accum).members().union(
            cross_texts(cycle@, configured_owner@, configured_repo@),
        ),
{
    partition_refs(cycle, configured_owner, configured_repo, cross_repo_accum)
}

/// Project every cycle: one local projection per cycle, in order (a cycle whose members are all
/// cross-repo still yields an empty projection), and the display texts of all cross-repo members
/// of all cycles, each once.
pub fn project_all_cycles(raw: &[Vec<QualifiedId>], configured_owner: &str, configured_repo: &str) -> (r: (
    Vec<Vec<u64>>,
    SortedStrings,
))
    ensures
        r.0@.len() == raw@.len(),
        forall|c: int|
            0 <= c < raw@.len() ==> #[trigger] r.0@[c]@ == local_numbers(
                raw@[c]@,
                configured_owner@,
                configured_repo@,
            ),
        r.1.members() == all_cross_texts(raw@, configured_owner@, configured_repo@),
{
    let mut cycles: Vec<Vec<u64>> = Vec::new();
    let mut accum = SortedStrings::new();
    let mut c: usize = 0;
    assert(accum.members() =~= all_cross_texts(raw@.take(0), configured_owner@, configured_repo@));
    while c < raw.len()
        invariant
            0 <= c <= raw@.len(),
            cycles@.len() == c,
            forall|k: int|
                0 <= k < c ==> #[trigger] cycles@[k]@ == local_numbers(
                    raw@[k]@,
                    configured_owner@,
                    configured_repo@,
                ),
            accum.members() == all_cross_texts(raw@.take(c as int), configured_owner@, configured_repo@),
        decreases raw@.len() - c,
    {
        let local = project_cycle(raw[c].as_slice(), configured_owner, configured_repo, &mut accum);
        cycles.push(local);
        proof {
            lemma_all_cross_texts_step(raw@, c as int, configured_owner@, configured_repo@);
        }
        c = c + 1;
    }
    assert(raw@.take(raw@.len() as int) =~= raw@);
    (cycles, accum)
}

/// Project the cascade of a close: the numbers of its local members, in order, and the display
/// texts of its cross-repo members.
pub fn project_cascade(cascade: &[QualifiedId], configured_owner: &str, configured_repo: &str) -> (r: (
    Vec<u64>,
    SortedStrings,
))
    ensures
        r.0@ == local_numbers(cascade@, configured_owner@, configured_repo@),
        r.1.members() == cross_texts(cascade@, configured_owner@, configured_repo@),
{
    let mut accum = SortedStrings::new();
    let local = partition_refs(cascade, configured_owner, configured_repo, &mut accum);
    assert(accum.members() =~= cross_texts(cascade@, configured_owner@, configured_repo@));
    (local, accum)
}

/// The trailer for the accumulated cross-repo texts: `None` when there are none; otherwise
/// their sorted listing and the summary `summary_fn` gives for their count.
pub fn build_cross_repo_refs_with_summary<F>(accum: SortedStrings, summary_fn: F) -> (r: Option<
    CrossRepoRefs,
>) where F: FnOnce(usize) -> String
    requires
        forall|n: usize| call_requires(summary_fn, (n,)),
    ensures
        r is None <==> accum.seq().len() == 0,
        r matches Some(refs) ==> {
            &&& strings_view(refs.omitted) == accum.seq()
            &&& strictly_sorted(strings_view(refs.omitted))
            &&& refs.summary matches Some(s) && call_ensures(summary_fn, (accum.seq().len() as usize,), s)
        },
{
    if accum.is_empty() {
        return None;
    }
    let ghost listing = accum.seq();
    let omitted = accum.into_vec();
    let n = omitted.len();
    let summary = Some(summary_fn(n));
    Some(CrossRepoRefs { omitted, summary })
}

// ------------------------------------------------------------------------------------------
// Summary lines
// ------------------------------------------------------------------------------------------

/// `{n} cross-repo cycle member(s) omitted from `cycles``.
pub open spec fn cycles_summary_text(n: nat) -> Seq<char> {
    decimal(n) + " cross-repo cycle "@ + (if n == 1 {
        "member"@
    } else {
        "members"@
    }) + " omitted from `cycles`"@
}

/// `{n} cross-repo blocker(s) excluded local issue(s) from ready set`.
pub open spec fn ready_summary_text(n: nat) -> Seq<char> {
    decimal(n) + " cross-repo "@ + (if n == 1 {
        "blocker"@
    } else {
        "blockers"@
    }) + " excluded local issue(s) from ready set"@
}

/// `{n} cross-repo dependent(s) cascade-updated but omitted from `unblocked``.
pub open spec fn close_summary_text(n: nat) -> Seq<char> {
    decimal(n) + " cross-repo "@ + (if n == 1 {
        "dependent"@
    } else {
        "dependents"@
    }) + " cascade-updated but omitted from `unblocked`"@
}

/// The summary line of the cycles projection.
pub fn cycles_summary(n: usize) -> (s: String)
    ensures
        s@ == cycles_summary_text(n as nat),
{
    let mut v: Vec<char> = Vec::new();
    push_decimal(&mut v, n as u64);
    push_str(&mut v, " cross-repo cycle ");
    if n == 1 {
        push_str(&mut v, "member");
    } else {
        push_str(&mut v, "members");
    }
    push_str(&mut v, " omitted from `cycles`");
    string_of(&v)
}

/// The summary line of the ready projection.
pub fn ready_summary(n: usize) -> (s: String)
    ensures
        s@ == ready_summary_text(n as nat),
{
    let mut v: Vec<char> = Vec::new();
    push_decimal(&mut v, n as u64);
    push_str(&mut v, " cross-repo ");
    if n == 1 {
        push_str(&mut v, "blocker");
    } else {
        push_str(&mut v, "blockers");
    }
    push_str(&mut v, " excluded local issue(s) from ready set");
    string_of(&v)
}

/// The summary line of the close cascade.
pub fn close_summary(n: usize) -> (s: String)
    ensures
        s@ == close_summary_text(n as nat),
{
    let mut v: Vec<char> = Vec::new();
    push_decimal(&mut v, n as u64);
    push_str(&mut v, " cross-repo ");
    if n == 1 {
        push_str(&mut v, "dependent");
    } else {
        push_str(&mut v, "dependents");
    }
    push_str(&mut v, " cascade-updated but omitted from `unblocked`");
    string_of(&v)
}

} // verus!
