use vstd::prelude::*;

use crate::text::{is_text_before, lemma_text_before_irreflexive, lemma_text_before_total,
    lemma_text_before_transitive, text_before};

verus! {

/// What one item is ranked by: two numbers, then a text, then the place it
/// came from, so that no two items of one list rank equal.
pub struct Rank {
    pub major: u64,
    pub minor: u64,
    pub text: String,
    pub index: usize,
}

/// The strict order on ranks.
pub open spec fn rank_before(left: Rank, right: Rank) -> bool {
    if left.major != right.major {
        left.major < right.major
    } else if left.minor != right.minor {
        left.minor < right.minor
    } else if left.text@ != right.text@ {
        text_before(left.text@, right.text@)
    } else {
        left.index < right.index
    }
}

/// Ranks stand in order.
pub open spec fn is_ranked(ranks: Seq<Rank>) -> bool {
    forall|i: int, j: int| 0 <= i < j < ranks.len() ==> rank_before(ranks[i], ranks[j])
}

/// No two ranks came from one place.
pub open spec fn is_distinct(ranks: Seq<Rank>) -> bool {
    forall|i: int, j: int| 0 <= i < j < ranks.len() ==> ranks[i].index != ranks[j].index
}

pub proof fn lemma_rank_transitive(a: Rank, b: Rank, c: Rank)
    requires
        rank_before(a, b),
        rank_before(b, c),
    ensures
        rank_before(a, c),
{
    if a.major == b.major && b.major == c.major && a.minor == b.minor && b.minor == c.minor {
        if a.text@ != b.text@ && b.text@ != c.text@ {
            lemma_text_before_transitive(a.text@, b.text@, c.text@);
            lemma_text_before_irreflexive(a.text@);
        }
    }
}

pub proof fn lemma_rank_irreflexive(rank: Rank)
    ensures
        !rank_before(rank, rank),
{
}

pub proof fn lemma_rank_total(a: Rank, b: Rank)
    requires
        a.index != b.index,
    ensures
        rank_before(a, b) != rank_before(b, a),
{
    if a.major == b.major && a.minor == b.minor && a.text@ != b.text@ {
        lemma_text_before_total(a.text@, b.text@);
        if text_before(a.text@, b.text@) && text_before(b.text@, a.text@) {
            lemma_text_before_transitive(a.text@, b.text@, a.text@);
            lemma_text_before_irreflexive(a.text@);
        }
    }
}

/// Does `left` rank before `right`?
pub fn is_rank_before(left: &Rank, right: &Rank) -> (before: bool)
    ensures
        before == rank_before(*left, *right),
{
    if left.major != right.major {
        left.major < right.major
    } else if left.minor != right.minor {
        left.minor < right.minor
    } else if left.text != right.text {
        is_text_before(left.text.as_str(), right.text.as_str())
    } else {
        left.index < right.index
    }
}

/// Puts one rank where it belongs among ranks already in order.
fn place(ranks: &mut Vec<Rank>, rank: Rank)
    requires
        is_ranked(old(ranks)@),
        forall|i: int| 0 <= i < old(ranks)@.len() ==> (#[trigger] old(ranks)@[i]).index != rank.index,
    ensures
        is_ranked(final(ranks)@),
        exists|at: int|
            0 <= at <= old(ranks)@.len() && final(ranks)@ == #[trigger] old(ranks)@.insert(at, rank),
{
    let mut at: usize = 0;
    while at < ranks.len() && is_rank_before(&ranks[at], &rank)
        invariant
            at <= ranks@.len(),
            ranks@ == old(ranks)@,
            forall|k: int| 0 <= k < at ==> rank_before(#[trigger] ranks@[k], rank),
        decreases ranks@.len() - at,
    {
        at = at + 1;
    }
    let ghost before: Seq<Rank> = ranks@;
    ranks.insert(at, rank);
    proof {
        let after: Seq<Rank> = ranks@;
        assert(after == before.insert(at as int, rank));
        assert forall|i: int, j: int| 0 <= i < j < after.len() implies rank_before(
            after[i],
            after[j],
        ) by {
            if at < before.len() {
                lemma_rank_total(before[at as int], rank);
            }
            if i == at as int && at < before.len() {
                if j - 1 > at {
                    lemma_rank_transitive(rank, before[at as int], before[j - 1]);
                }
            }
        }
    }
}

/// Two lists hold the same ranks, whatever their order.
pub open spec fn is_reordering(left: Seq<Rank>, right: Seq<Rank>) -> bool {
    &&& left.len() == right.len()
    &&& forall|i: int| 0 <= i < left.len() ==> #[trigger] right.contains(left[i])
    &&& forall|i: int| 0 <= i < right.len() ==> #[trigger] left.contains(right[i])
}

/// The ranks in their order; there is one such list.
pub open spec fn in_order(ranks: Seq<Rank>) -> Seq<Rank> {
    choose|result: Seq<Rank>| is_ranked(result) && is_reordering(result, ranks)
}

/// Two lists of the same ranks, both in order, are one list.
pub proof fn lemma_order_unique(ranks: Seq<Rank>, left: Seq<Rank>, right: Seq<Rank>)
    requires
        is_ranked(left),
        is_ranked(right),
        is_reordering(left, ranks),
        is_reordering(right, ranks),
    ensures
        left == right,
{
    assert forall|k: int| 0 <= k < left.len() implies left[k] == right[k] by {
        lemma_order_agrees(ranks, left, right, k);
    }
    assert(left =~= right);
}

proof fn lemma_order_agrees(ranks: Seq<Rank>, left: Seq<Rank>, right: Seq<Rank>, k: int)
    requires
        is_ranked(left),
        is_ranked(right),
        is_reordering(left, ranks),
        is_reordering(right, ranks),
        0 <= k < left.len(),
    ensures
        left[k] == right[k],
    decreases k,
{
    assert forall|i: int| 0 <= i < k implies left[i] == right[i] by {
        lemma_order_agrees(ranks, left, right, i);
    }
    if left[k] != right[k] {
        lemma_order_ahead(ranks, left, right, k);
        lemma_order_ahead(ranks, right, left, k);
        lemma_rank_transitive(left[k], right[k], left[k]);
        lemma_rank_irreflexive(left[k]);
    }
}

proof fn lemma_order_ahead(ranks: Seq<Rank>, left: Seq<Rank>, right: Seq<Rank>, k: int)
    requires
        is_ranked(left),
        is_ranked(right),
        is_reordering(left, ranks),
        is_reordering(right, ranks),
        0 <= k < left.len(),
        forall|i: int| 0 <= i < k ==> left[i] == right[i],
        left[k] != right[k],
    ensures
        rank_before(right[k], left[k]),
{
    assert(ranks.contains(left[k]));
    let j: int = choose|j: int| 0 <= j < ranks.len() && ranks[j] == left[k];
    assert(right.contains(ranks[j]));
    let m: int = choose|m: int| 0 <= m < right.len() && right[m] == left[k];
    if m < k {
        assert(left[m] == left[k]);
        assert(rank_before(left[m], left[k]));
        lemma_rank_irreflexive(left[k]);
    }
    assert(rank_before(right[k], right[m]));
}

/// Sorts ranks into their order.
pub fn sorted(ranks: Vec<Rank>) -> (result: Vec<Rank>)
    requires
        is_distinct(ranks@),
    ensures
        is_ranked(result@),
        is_reordering(result@, ranks@),
        result@ == in_order(ranks@),
{
    let ghost all: Seq<Rank> = ranks@;
    let mut rest: Vec<Rank> = ranks;
    let mut result: Vec<Rank> = Vec::new();
    while rest.len() > 0
        invariant
            is_distinct(all),
            rest@ == all.take(rest@.len() as int),
            rest@.len() <= all.len(),
            result@.len() + rest@.len() == all.len(),
            is_ranked(result@),
            forall|i: int|
                0 <= i < result@.len() ==> exists|k: int|
                    rest@.len() <= k < all.len() && #[trigger] result@[i] == #[trigger] all[k],
            forall|k: int| rest@.len() <= k < all.len() ==> result@.contains(#[trigger] all[k]),
        decreases rest@.len(),
    {
        let ghost held: Seq<Rank> = result@;
        let ghost left: Seq<Rank> = rest@;
        let taken: Option<Rank> = rest.pop();
        if let Some(rank) = taken {
            assert(rank == all[left.len() - 1]);
            assert forall|i: int| 0 <= i < held.len() implies (#[trigger] held[i]).index
                != rank.index by {
                let k: int = choose|k: int|
                    left.len() <= k < all.len() && #[trigger] held[i] == #[trigger] all[k];
                assert(all[left.len() - 1].index != all[k].index);
            }
            place(&mut result, rank);
            proof {
                let at: int = choose|at: int|
                    0 <= at <= held.len() && result@ == #[trigger] held.insert(at, rank);
                held.insert_ensures(at, rank);
                assert forall|i: int| 0 <= i < result@.len() implies exists|k: int|
                    rest@.len() <= k < all.len() && #[trigger] result@[i] == #[trigger] all[k] by {
                    if i == at {
                        assert(result@[i] == all[left.len() - 1]);
                    } else {
                        let h: int = if i < at { i } else { i - 1 };
                        assert(result@[i] == held[h]);
                        let k: int = choose|k: int|
                            left.len() <= k < all.len() && #[trigger] held[h] == #[trigger] all[k];
                        assert(result@[i] == all[k]);
                    }
                }
                assert forall|k: int| rest@.len() <= k < all.len() implies result@.contains(
                    #[trigger] all[k],
                ) by {
                    if k == left.len() - 1 {
                        assert(result@[at] == all[k]);
                    } else {
                        assert(held.contains(all[k]));
                        let h: int = choose|h: int| 0 <= h < held.len() && held[h] == all[k];
                        let i: int = if h < at { h } else { h + 1 };
                        assert(result@[i] == all[k]);
                    }
                }
            }
        }
    }
    proof {
        lemma_order_unique(all, result@, in_order(all));
    }
    result
}

/// Distinct ranks have an order.
pub proof fn lemma_order_exists(ranks: Seq<Rank>)
    requires
        is_distinct(ranks),
    ensures
        is_ranked(in_order(ranks)),
        is_reordering(in_order(ranks), ranks),
{
    let result: Seq<Rank> = lemma_order_built(ranks);
    assert(is_ranked(result) && is_reordering(result, ranks));
}

proof fn lemma_order_built(ranks: Seq<Rank>) -> (result: Seq<Rank>)
    requires
        is_distinct(ranks),
    ensures
        is_ranked(result),
        is_reordering(result, ranks),
    decreases ranks.len(),
{
    if ranks.len() == 0 {
        ranks
    } else {
        let rest: Seq<Rank> = ranks.drop_last();
        let rank: Rank = ranks.last();
        let held: Seq<Rank> = lemma_order_built(rest);
        assert forall|i: int| 0 <= i < held.len() implies (#[trigger] held[i]).index
            != rank.index by {
            assert(rest.contains(held[i]));
            let k: int = choose|k: int| 0 <= k < rest.len() && rest[k] == held[i];
            assert(ranks[k].index != ranks[ranks.len() - 1].index);
        }
        let at: int = lemma_place_exists(held, rank, held.len() as int);
        let result: Seq<Rank> = held.insert(at, rank);
        held.insert_ensures(at, rank);
        assert forall|i: int, j: int| 0 <= i < j < result.len() implies rank_before(
            result[i],
            result[j],
        ) by {
            if at < held.len() {
                lemma_rank_total(held[at], rank);
            }
            if i == at && j - 1 > at {
                lemma_rank_transitive(rank, held[at], held[j - 1]);
            }
        }
        assert forall|i: int| 0 <= i < result.len() implies #[trigger] ranks.contains(
            result[i],
        ) by {
            if i == at {
                assert(ranks[ranks.len() - 1] == result[i]);
            } else {
                let h: int = if i < at { i } else { i - 1 };
                assert(rest.contains(held[h]));
                let k: int = choose|k: int| 0 <= k < rest.len() && rest[k] == held[h];
                assert(ranks[k] == result[i]);
            }
        }
        assert forall|i: int| 0 <= i < ranks.len() implies #[trigger] result.contains(
            ranks[i],
        ) by {
            if i == ranks.len() - 1 {
                assert(result[at] == ranks[i]);
            } else {
                assert(held.contains(rest[i]));
                let h: int = choose|h: int| 0 <= h < held.len() && held[h] == rest[i];
                let k: int = if h < at { h } else { h + 1 };
                assert(result[k] == ranks[i]);
            }
        }
        result
    }
}

/// Ranks in order have one place for one more: behind all that come before it.
proof fn lemma_place_exists(held: Seq<Rank>, rank: Rank, bound: int) -> (at: int)
    requires
        is_ranked(held),
        0 <= bound <= held.len(),
        forall|i: int| 0 <= i < held.len() ==> (#[trigger] held[i]).index != rank.index,
        forall|i: int| bound <= i < held.len() ==> !rank_before(#[trigger] held[i], rank),
    ensures
        0 <= at <= held.len(),
        forall|i: int| 0 <= i < at ==> rank_before(#[trigger] held[i], rank),
        at < held.len() ==> !rank_before(held[at], rank),
    decreases bound,
{
    if bound == 0 {
        0
    } else if rank_before(held[bound - 1], rank) {
        assert forall|i: int| 0 <= i < bound implies rank_before(#[trigger] held[i], rank) by {
            if i < bound - 1 {
                lemma_rank_transitive(held[i], held[bound - 1], rank);
            }
        }
        bound
    } else {
        lemma_place_exists(held, rank, bound - 1)
    }
}

/// Ranks in order stand in distinct places, and so does each of their lists.
pub proof fn lemma_reordering_distinct(left: Seq<Rank>, right: Seq<Rank>)
    requires
        is_ranked(left),
        is_reordering(left, right),
        is_distinct(right),
    ensures
        is_distinct(left),
{
    assert forall|i: int, j: int| 0 <= i < j < left.len() implies left[i].index
        != left[j].index by {
        assert(right.contains(left[i]));
        assert(right.contains(left[j]));
        let a: int = choose|a: int| 0 <= a < right.len() && right[a] == left[i];
        let b: int = choose|b: int| 0 <= b < right.len() && right[b] == left[j];
        if a == b {
            assert(rank_before(left[i], left[j]));
            lemma_rank_irreflexive(left[i]);
        } else if a < b {
            assert(right[a].index != right[b].index);
        } else {
            assert(right[b].index != right[a].index);
        }
    }
}

/// Each rank says where it stands in its own list.
pub open spec fn is_placed(ranks: Seq<Rank>) -> bool {
    forall|i: int| 0 <= i < ranks.len() ==> (#[trigger] ranks[i]).index == i
}

/// `order` walks every place of `ranks` once, in rank order.
pub open spec fn orders(order: Seq<usize>, ranks: Seq<Rank>) -> bool {
    &&& order.len() == ranks.len()
    &&& forall|k: int| 0 <= k < order.len() ==> (#[trigger] order[k]) < ranks.len()
    &&& forall|a: int, b: int|
        0 <= a < b < order.len() ==> rank_before(
            ranks[#[trigger] order[a] as int],
            ranks[#[trigger] order[b] as int],
        )
    &&& forall|i: usize| i < ranks.len() ==> #[trigger] order.contains(i)
}

/// The places of a list in rank order.
pub fn ranked_order(ranks: Vec<Rank>) -> (order: Vec<usize>)
    requires
        is_placed(ranks@),
    ensures
        orders(order@, ranks@),
{
    let ghost all: Seq<Rank> = ranks@;
    let in_order: Vec<Rank> = sorted(ranks);
    let mut order: Vec<usize> = Vec::new();
    let mut k: usize = 0;
    proof {
        assert forall|i: int| 0 <= i < in_order@.len() implies all[(
        #[trigger] in_order@[i]).index as int] == in_order@[i] && in_order@[i].index
            < all.len() by {
            assert(all.contains(in_order@[i]));
            let j: int = choose|j: int| 0 <= j < all.len() && all[j] == in_order@[i];
            assert(all[j].index == j);
        }
    }
    while k < in_order.len()
        invariant
            k <= in_order@.len(),
            order@.len() == k,
            forall|i: int| 0 <= i < k ==> #[trigger] order@[i] == in_order@[i].index,
        decreases in_order@.len() - k,
    {
        order.push(in_order[k].index);
        k = k + 1;
    }
    proof {
        assert forall|a: int, b: int| 0 <= a < b < order@.len() implies rank_before(
            all[#[trigger] order@[a] as int],
            all[#[trigger] order@[b] as int],
        ) by {
            assert(in_order@[a].index == order@[a]);
            assert(in_order@[b].index == order@[b]);
        }
        assert forall|k: int| 0 <= k < order@.len() implies (#[trigger] order@[k]) < all.len() by {
            assert(in_order@[k].index == order@[k]);
        }
        assert forall|i: usize| i < all.len() implies #[trigger] order@.contains(i) by {
            assert(in_order@.contains(all[i as int]));
            let j: int = choose|j: int| 0 <= j < in_order@.len() && in_order@[j] == all[i as int];
            assert(order@[j] == in_order@[j].index);
            assert(all[i as int].index == i);
        }
    }
    order
}

/// What ranks first: the smaller first number; where these are equal the smaller
/// second one; where both are, the earlier text; and only for equal texts the
/// earlier place.
pub proof fn law_rank_goes_by_numbers_then_text(a: Rank, b: Rank)
    ensures
        a.major < b.major ==> rank_before(a, b) && !rank_before(b, a),
        a.major == b.major && a.minor < b.minor ==> rank_before(a, b) && !rank_before(b, a),
        a.major == b.major && a.minor == b.minor && a.text@ != b.text@ ==> (rank_before(a, b)
            <==> text_before(a.text@, b.text@)),
        a.major == b.major && a.minor == b.minor && a.text@ == b.text@ ==> (rank_before(a, b)
            <==> a.index < b.index),
{
}

} // verus!
