//! Which items a query keeps, and in what order.
use vstd::prelude::*;

use super::MenuItem;
use crate::tui::fuzzy::{fuzzy_score, score_of};

verus! {

/// The lower of two scores, where there is any.
pub open spec fn better(a: Option<int>, b: Option<int>) -> Option<int> {
    match (a, b) {
        (Some(x), Some(y)) => Some(
            if x <= y {
                x
            } else {
                y
            },
        ),
        (Some(x), None) => Some(x),
        (None, _) => b,
    }
}

/// The score of an item: the better one of its label and its description.
pub open spec fn item_score(query: Seq<char>, item: MenuItem) -> Option<int> {
    better(score_of(query, item.label@), score_of(query, item.description@))
}

/// Whether the query keeps the item at an index.
pub open spec fn kept(query: Seq<char>, items: Seq<MenuItem>, index: int) -> bool {
    0 <= index < items.len() && item_score(query, items[index]) is Some
}

/// Whether one item stands before another: by its score, and by its index where both score
/// alike.
pub open spec fn stands_before(
    query: Seq<char>,
    items: Seq<MenuItem>,
    one: int,
    other: int,
) -> bool {
    let a = item_score(query, items[one])->0;
    let b = item_score(query, items[other])->0;
    a < b || (a == b && one < other)
}

/// Whether `order` lists the items that the query keeps, each once, the best first.
pub open spec fn ranks(query: Seq<char>, items: Seq<MenuItem>, order: Seq<usize>) -> bool {
    &&& forall|k: int|
        0 <= k < order.len() ==> kept(query, items, #[trigger] order[k] as int)
    &&& forall|index: usize| #[trigger]
        kept(query, items, index as int) ==> order.contains(index)
    &&& forall|j: int, k: int|
        0 <= j < k < order.len() ==> stands_before(
            query,
            items,
            #[trigger] order[j] as int,
            #[trigger] order[k] as int,
        )
}

/// Whether `scored` ranks the first `n` items, with their scores.
spec fn ranks_first(
    query: Seq<char>,
    items: Seq<MenuItem>,
    n: int,
    scored: Seq<(usize, usize)>,
) -> bool {
    &&& forall|k: int|
        0 <= k < scored.len() ==> {
            &&& (#[trigger] scored[k]).1 < n
            &&& kept(query, items, scored[k].1 as int)
            &&& item_score(query, items[scored[k].1 as int]) == Some(scored[k].0 as int)
        }
    &&& forall|index: int| #[trigger]
        kept(query, items, index) && index < n ==> exists|k: int|
            0 <= k < scored.len() && (#[trigger] scored[k]).1 == index
    &&& forall|j: int, k: int|
        0 <= j < k < scored.len() ==> {
            ||| (#[trigger] scored[j]).0 < (#[trigger] scored[k]).0
            ||| scored[j].0 == scored[k].0 && scored[j].1 < scored[k].1
        }
}

/// The score of an item.
fn best_score(query: &str, item: &MenuItem) -> (best: Option<usize>)
    ensures
        match best {
            Some(best) => item_score(query@, *item) == Some(best as int),
            None => item_score(query@, *item) is None,
        },
{
    let label = fuzzy_score(query, item.label.as_str());
    let description = fuzzy_score(query, item.description.as_str());
    match (label, description) {
        (Some(a), Some(b)) => Some(
            if a <= b {
                a
            } else {
                b
            },
        ),
        (Some(a), None) => Some(a),
        (None, b) => b,
    }
}

proof fn lemma_insert_ranked(
    query: Seq<char>,
    items: Seq<MenuItem>,
    n: int,
    scored: Seq<(usize, usize)>,
    at: int,
    best: usize,
    index: usize,
)
    requires
        ranks_first(query, items, n, scored),
        index == n,
        0 <= n < items.len(),
        0 <= at <= scored.len(),
        item_score(query, items[n]) == Some(best as int),
        forall|k: int| 0 <= k < at ==> (#[trigger] scored[k]).0 <= best,
        forall|k: int| at <= k < scored.len() ==> (#[trigger] scored[k]).0 > best,
    ensures
        ranks_first(query, items, n + 1, scored.insert(at, (best, index))),
{
    let next = scored.insert(at, (best, index));
    assert forall|k: int| 0 <= k < next.len() implies {
        &&& (#[trigger] next[k]).1 < n + 1
        &&& kept(query, items, next[k].1 as int)
        &&& item_score(query, items[next[k].1 as int]) == Some(next[k].0 as int)
    } by {
        if k < at {
            assert(next[k] == scored[k]);
        } else if k > at {
            assert(next[k] == scored[k - 1]);
        }
    }
    assert forall|i: int| #[trigger] kept(query, items, i) && i < n + 1 implies exists|k: int|
        0 <= k < next.len() && (#[trigger] next[k]).1 == i by {
        if i == n {
            assert(next[at].1 == i);
        } else {
            let k = choose|k: int| 0 <= k < scored.len() && (#[trigger] scored[k]).1 == i;
            if k < at {
                assert(next[k] == scored[k]);
            } else {
                assert(next[k + 1] == scored[k]);
            }
        }
    }
    assert forall|j: int, k: int| 0 <= j < k < next.len() implies {
        ||| (#[trigger] next[j]).0 < (#[trigger] next[k]).0
        ||| next[j].0 == next[k].0 && next[j].1 < next[k].1
    } by {
        let a = if j < at {
            j
        } else {
            j - 1
        };
        let b = if k < at {
            k
        } else {
            k - 1
        };
        if j != at {
            assert(next[j] == scored[a]);
        }
        if k != at {
            assert(next[k] == scored[b]);
        }
    }
}

/// Lists the items that the query keeps, the best first.
pub fn rank(query: &str, items: &Vec<MenuItem>) -> (order: Vec<usize>)
    ensures
        ranks(query@, items@, order@),
{
    let mut scored: Vec<(usize, usize)> = Vec::new();
    let mut i: usize = 0;
    while i < items.len()
        invariant
            i <= items@.len(),
            ranks_first(query@, items@, i as int, scored@),
        decreases items.len() - i,
    {
        match best_score(query, &items[i]) {
            Some(best) => {
                let mut at: usize = scored.len();
                while at > 0 && scored[at - 1].0 > best
                    invariant
                        at <= scored@.len(),
                        forall|k: int|
                            at <= k < scored@.len() ==> (#[trigger] scored@[k]).0 > best,
                    decreases at,
                {
                    at = at - 1;
                }
                proof {
                    assert forall|k: int| 0 <= k < at implies (#[trigger] scored@[k]).0 <= best by {
                        if k < at - 1 {
                            let closest = scored@[at - 1];
                        }
                    }
                    lemma_insert_ranked(query@, items@, i as int, scored@, at as int, best, i);
                }
                scored.insert(at, (best, i));
            },
            None => {},
        }
        i = i + 1;
    }
    let mut order: Vec<usize> = Vec::new();
    let mut k: usize = 0;
    while k < scored.len()
        invariant
            k <= scored@.len(),
            order@ == scored@.take(k as int).map_values(|pair: (usize, usize)| pair.1),
        decreases scored.len() - k,
    {
        order.push(scored[k].1);
        k = k + 1;
        assert(order@ =~= scored@.take(k as int).map_values(|pair: (usize, usize)| pair.1));
    }
    proof {
        assert forall|index: usize| #[trigger]
            kept(query@, items@, index as int) implies order@.contains(index) by {
            let k = choose|k: int| 0 <= k < scored@.len() && (#[trigger] scored@[k]).1 == index;
            assert(order@[k] == index);
        }
    }
    order
}

proof fn lemma_common_beginning(
    query: Seq<char>,
    items: Seq<MenuItem>,
    one: Seq<usize>,
    other: Seq<usize>,
    n: int,
)
    requires
        ranks(query, items, one),
        ranks(query, items, other),
        0 <= n <= one.len(),
    ensures
        n <= other.len(),
        forall|k: int| 0 <= k < n ==> one[k] == other[k],
    decreases n,
{
    if n > 0 {
        let k = n - 1;
        lemma_common_beginning(query, items, one, other, k);
        assert(kept(query, items, one[k] as int));
        let m = other.index_of(one[k]);
        assert(other.contains(one[k]));
        assert(other[m] == one[k]);
        if m < k {
            assert(stands_before(query, items, one[m] as int, one[k] as int));
        }
        assert(kept(query, items, other[k] as int));
        let l = one.index_of(other[k]);
        assert(one.contains(other[k]));
        assert(one[l] == other[k]);
        if l < k {
            assert(stands_before(query, items, other[l] as int, other[k] as int));
        }
        if k < m {
            assert(stands_before(query, items, other[k] as int, other[m] as int));
        }
        if k < l {
            assert(stands_before(query, items, one[k] as int, one[l] as int));
        }
    }
}

/// A query has one ranking of the items only.
pub proof fn law_ranking_is_unique(
    query: Seq<char>,
    items: Seq<MenuItem>,
    one: Seq<usize>,
    other: Seq<usize>,
)
    requires
        ranks(query, items, one),
        ranks(query, items, other),
    ensures
        one == other,
{
    lemma_common_beginning(query, items, one, other, one.len() as int);
    lemma_common_beginning(query, items, other, one, other.len() as int);
    assert(one =~= other);
}

/// No item is listed twice, and no more items than there are.
pub proof fn law_ranking_lists_each_item_once(
    query: Seq<char>,
    items: Seq<MenuItem>,
    order: Seq<usize>,
)
    requires
        ranks(query, items, order),
    ensures
        order.no_duplicates(),
        order.len() <= items.len(),
{
    assert forall|i: int, j: int| 0 <= i < order.len() && 0 <= j < order.len() && i
        != j implies order[i] != order[j] by {
        if i < j {
            assert(stands_before(query, items, order[i] as int, order[j] as int));
        } else {
            assert(stands_before(query, items, order[j] as int, order[i] as int));
        }
    }
    lemma_distinct_below(order, items.len());
}

/// Distinct numbers below a bound are no more than the bound.
proof fn lemma_distinct_below(order: Seq<usize>, bound: nat)
    requires
        order.no_duplicates(),
        forall|k: int| 0 <= k < order.len() ==> (#[trigger] order[k]) < bound,
    ensures
        order.len() <= bound,
    decreases bound,
{
    if bound == 0 {
        if order.len() > 0 {
            assert(order[0] < bound);
        }
    } else if exists|k: int| 0 <= k < order.len() && order[k] == bound - 1 {
        let k = choose|k: int| 0 <= k < order.len() && order[k] == bound - 1;
        let rest = order.remove(k);
        assert forall|i: int| 0 <= i < rest.len() implies (#[trigger] rest[i]) < bound - 1 by {
            if i < k {
                assert(rest[i] == order[i]);
            } else {
                assert(rest[i] == order[i + 1]);
            }
        }
        assert forall|i: int, j: int| 0 <= i < rest.len() && 0 <= j < rest.len() && i
            != j implies rest[i] != rest[j] by {
            let a = if i < k {
                i
            } else {
                i + 1
            };
            let b = if j < k {
                j
            } else {
                j + 1
            };
            assert(rest[i] == order[a] && rest[j] == order[b]);
        }
        lemma_distinct_below(rest, (bound - 1) as nat);
    } else {
        lemma_distinct_below(order, (bound - 1) as nat);
    }
}

/// An empty query keeps everything, in the order it came.
pub proof fn law_empty_query_keeps_everything(
    query: Seq<char>,
    items: Seq<MenuItem>,
    order: Seq<usize>,
)
    requires
        query.len() == 0,
        items.len() <= usize::MAX,
        ranks(query, items, order),
    ensures
        order == Seq::new(items.len(), |i: int| i as usize),
{
    let plain = Seq::new(items.len(), |i: int| i as usize);
    assert(ranks(query, items, plain)) by {
        assert forall|index: usize| #[trigger]
            kept(query, items, index as int) implies plain.contains(index) by {
            assert(plain[index as int] == index);
        }
    }
    law_ranking_is_unique(query, items, order, plain);
}

/// Items that score alike keep the order in which they came.
pub proof fn law_ties_keep_their_order(
    query: Seq<char>,
    items: Seq<MenuItem>,
    order: Seq<usize>,
    one: usize,
    other: usize,
)
    requires
        ranks(query, items, order),
        one < other,
        kept(query, items, one as int),
        kept(query, items, other as int),
        item_score(query, items[one as int]) == item_score(query, items[other as int]),
    ensures
        order.index_of(one) < order.index_of(other),
{
    let a = order.index_of(one);
    let b = order.index_of(other);
    assert(order.contains(one) && order.contains(other));
    assert(order[a] == one && order[b] == other);
    if b < a {
        assert(stands_before(query, items, order[b] as int, order[a] as int));
    }
}

/// Whether a score is the better one of an item's label and description: the score of one of
/// them, and no more than that of either.
pub open spec fn is_better_of_both(query: Seq<char>, item: MenuItem, score: int) -> bool {
    let label = score_of(query, item.label@);
    let description = score_of(query, item.description@);
    &&& label == Some(score) || description == Some(score)
    &&& label is Some ==> score <= label->0
    &&& description is Some ==> score <= description->0
}

/// An item is ranked by the better one of its two scores, so it never falls behind for also
/// matching in its other text; it is kept where either text matches.
pub proof fn law_item_scores_by_its_better_text(query: Seq<char>, item: MenuItem)
    ensures
        item_score(query, item) is Some <==> score_of(query, item.label@) is Some || score_of(
            query,
            item.description@,
        ) is Some,
        item_score(query, item) is Some ==> is_better_of_both(
            query,
            item,
            item_score(query, item)->0,
        ),
{
}

/// A ranking holds the items of which a text matches, and no others. Of two of them the one with
/// the better text stands first, and of two that are alike the one that came first.
pub proof fn law_ranking_goes_by_the_better_text(
    query: Seq<char>,
    items: Seq<MenuItem>,
    order: Seq<usize>,
)
    requires
        ranks(query, items, order),
    ensures
        forall|index: usize|
            index < items.len() ==> (#[trigger] order.contains(index) <==> score_of(
                query,
                items[index as int].label@,
            ) is Some || score_of(query, items[index as int].description@) is Some),
        forall|index: usize| #[trigger] order.contains(index) ==> index < items.len(),
        forall|j: int, k: int, a: int, b: int|
            0 <= j < k < order.len() && #[trigger] is_better_of_both(
                query,
                items[order[j] as int],
                a,
            ) && #[trigger] is_better_of_both(query, items[order[k] as int], b) ==> a < b || (a == b
                && order[j] < order[k]),
{
    assert forall|index: usize| index < items.len() implies (#[trigger] order.contains(index)
        <==> score_of(query, items[index as int].label@) is Some || score_of(
        query,
        items[index as int].description@,
    ) is Some) by {
        if order.contains(index) {
            let k = order.index_of(index);
            assert(order[k] == index);
            assert(kept(query, items, order[k] as int));
        } else {
            assert(!kept(query, items, index as int));
        }
    }
    assert forall|index: usize| #[trigger] order.contains(index) implies index < items.len() by {
        let k = order.index_of(index);
        assert(kept(query, items, order[k] as int));
    }
    assert forall|j: int, k: int, a: int, b: int|
        0 <= j < k < order.len() && #[trigger] is_better_of_both(query, items[order[j] as int], a)
            && #[trigger] is_better_of_both(query, items[order[k] as int], b) implies a < b || (a
        == b && order[j] < order[k]) by {
        assert(stands_before(query, items, order[j] as int, order[k] as int));
        assert(kept(query, items, order[j] as int));
        assert(kept(query, items, order[k] as int));
    }
}

} // verus!
