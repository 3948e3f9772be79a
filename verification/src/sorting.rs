//! A stable sort by a strict weak order.
//!
//! [`stable_order`] gives the order in which to visit keys so that they come out sorted, items
//! that rank alike keeping their input order, as a stable sort does.
use vstd::prelude::*;

verus! {

/// A strict weak order on keys.
pub trait Ranked: Sized {
    /// Whether `self` sorts strictly before `other`.
    spec fn ranks_before(&self, other: &Self) -> bool;

    /// Whether `self` sorts strictly before `other`.
    fn before(&self, other: &Self) -> (r: bool)
        ensures
            r == self.ranks_before(other),
    ;

    /// Nothing sorts before itself.
    proof fn lemma_irreflexive(a: &Self)
        ensures
            !a.ranks_before(a),
    ;

    /// Sorting before is transitive.
    proof fn lemma_transitive(a: &Self, b: &Self, c: &Self)
        requires
            a.ranks_before(b),
            b.ranks_before(c),
        ensures
            a.ranks_before(c),
    ;

    /// A key that ranks alike with `b` sorts before what `b` sorts before.
    proof fn lemma_alike_before(a: &Self, b: &Self, c: &Self)
        requires
            !a.ranks_before(b),
            !b.ranks_before(a),
            b.ranks_before(c),
        ensures
            a.ranks_before(c),
    ;
}

/// Whether `ord` visits every position of `keys` exactly once.
pub open spec fn is_permutation(ord: Seq<usize>, n: nat) -> bool {
    &&& ord.len() == n
    &&& ord.no_duplicates()
    &&& forall|i: int| 0 <= i < ord.len() ==> #[trigger] ord[i] < n
}

/// Whether `ord` visits `keys` sorted, keys that rank alike in their input order.
pub open spec fn stably_sorts<K: Ranked>(ord: Seq<usize>, keys: Seq<K>) -> bool {
    &&& is_permutation(ord, keys.len())
    &&& forall|i: int, j: int|
        0 <= i < j < ord.len() ==> !keys[#[trigger] ord[j] as int].ranks_before(
            &keys[#[trigger] ord[i] as int],
        )
    &&& forall|i: int, j: int|
        0 <= i < j < ord.len() && !keys[#[trigger] ord[i] as int].ranks_before(
            &keys[#[trigger] ord[j] as int],
        ) && !keys[ord[j] as int].ranks_before(&keys[ord[i] as int]) ==> ord[i] < ord[j]
}

/// The order that sorts `keys` stably.
pub fn stable_order<K: Ranked>(keys: &Vec<K>) -> (ord: Vec<usize>)
    ensures
        stably_sorts(ord@, keys@),
{
    let mut out: Vec<usize> = Vec::new();
    let mut x: usize = 0;
    while x < keys.len()
        invariant
            0 <= x <= keys@.len(),
            out@.len() == x,
            out@.no_duplicates(),
            forall|i: int| 0 <= i < out@.len() ==> #[trigger] out@[i] < x,
            forall|i: int, j: int|
                0 <= i < j < out@.len() ==> !keys@[#[trigger] out@[j] as int].ranks_before(
                    &keys@[#[trigger] out@[i] as int],
                ),
            forall|i: int, j: int|
                0 <= i < j < out@.len() && !keys@[#[trigger] out@[i] as int].ranks_before(
                    &keys@[#[trigger] out@[j] as int],
                ) && !keys@[out@[j] as int].ranks_before(&keys@[out@[i] as int]) ==> out@[i]
                    < out@[j],
        decreases keys@.len() - x,
    {
        let mut p: usize = 0;
        while p < out.len() && !keys[x].before(&keys[out[p]])
            invariant
                0 <= p <= out@.len(),
                x < keys@.len(),
                forall|i: int| 0 <= i < out@.len() ==> #[trigger] out@[i] < x,
                forall|i: int|
                    0 <= i < p ==> !keys@[x as int].ranks_before(&keys@[#[trigger] out@[i] as int]),
            decreases out@.len() - p,
        {
            p = p + 1;
        }
        let ghost old_out = out@;
        proof {
            if p < old_out.len() {
                assert(keys@[x as int].ranks_before(&keys@[old_out[p as int] as int]));
                assert forall|j: int| p <= j < old_out.len() implies !keys@[old_out[j] as int].ranks_before(
                    &keys@[x as int],
                ) && !(!keys@[old_out[j] as int].ranks_before(&keys@[x as int])
                    && !keys@[x as int].ranks_before(&keys@[old_out[j] as int])) by {
                    let e = &keys@[old_out[j] as int];
                    let xp = &keys@[x as int];
                    let q = &keys@[old_out[p as int] as int];
                    if j > p {
                        assert(!e.ranks_before(q));
                    }
                    if e.ranks_before(xp) {
                        K::lemma_transitive(e, xp, q);
                        if j == p {
                            K::lemma_irreflexive(e);
                        }
                    } else if !xp.ranks_before(e) {
                        K::lemma_alike_before(e, xp, q);
                        if j == p {
                            K::lemma_irreflexive(e);
                        }
                    }
                }
            }
        }
        out.insert(p, x);
        proof {
            let new_out = out@;
            assert(new_out =~= old_out.insert(p as int, x));
            assert forall|i: int, j: int| 0 <= i < j < new_out.len() implies !keys@[#[trigger] new_out[j] as int].ranks_before(
                &keys@[#[trigger] new_out[i] as int],
            ) by {
                if i < p && j > p {
                    assert(new_out[j] == old_out[j - 1]);
                } else if i == p {
                    assert(new_out[j] == old_out[j - 1]);
                } else if i > p {
                    assert(new_out[i] == old_out[i - 1]);
                    assert(new_out[j] == old_out[j - 1]);
                }
            }
            assert forall|i: int, j: int|
                0 <= i < j < new_out.len() && !keys@[#[trigger] new_out[i] as int].ranks_before(
                    &keys@[#[trigger] new_out[j] as int],
                ) && !keys@[new_out[j] as int].ranks_before(
                    &keys@[new_out[i] as int],
                ) implies new_out[i] < new_out[j] by {
                if i < p && j > p {
                    assert(new_out[j] == old_out[j - 1]);
                } else if i == p {
                    assert(new_out[j] == old_out[j - 1]);
                } else if i > p {
                    assert(new_out[i] == old_out[i - 1]);
                    assert(new_out[j] == old_out[j - 1]);
                }
            }
            assert(new_out.no_duplicates()) by {
                assert forall|i: int, j: int| 0 <= i < j < new_out.len() implies new_out[i]
                    != new_out[j] by {
                    if i < p && j > p {
                        assert(new_out[j] == old_out[j - 1]);
                    } else if i == p && j > p {
                        assert(new_out[j] == old_out[j - 1]);
                    } else if i < p && j == p {
                        assert(old_out[i] < x);
                    } else if i > p {
                        assert(new_out[i] == old_out[i - 1]);
                        assert(new_out[j] == old_out[j - 1]);
                    }
                }
            }
            assert forall|i: int| 0 <= i < new_out.len() implies #[trigger] new_out[i] < x + 1 by {
                if i < p {
                } else if i > p {
                    assert(new_out[i] == old_out[i - 1]);
                }
            }
        }
        x = x + 1;
    }
    out
}

} // verus!
