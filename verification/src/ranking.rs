//! The order in which scored candidates are returned: larger scores first,
//! and among equal scores the candidate that was read first.
use vstd::prelude::*;
use vstd::seq_lib::seq_to_set_is_finite;
use vstd::set_lib::{lemma_int_range, lemma_subset_equality, set_int_range};
use crate::score::{key_of, order_key};

verus! {

/// Whether candidate `i` is returned before candidate `j`: its score is
/// larger, or the scores are equal in the numeric order and it was read first.
pub open spec fn precedes(scores: Seq<u32>, i: int, j: int) -> bool {
    order_key(scores[i]) > order_key(scores[j]) || (order_key(scores[i]) == order_key(scores[j])
        && i < j)
}

/// Whether `order` lists positions of `scores`, each within bounds, so that
/// every position listed earlier precedes every position listed later.
pub open spec fn is_ordered(scores: Seq<u32>, order: Seq<usize>) -> bool {
    &&& forall|k: int| 0 <= k < order.len() ==> (#[trigger] order[k]) < scores.len()
    &&& forall|k: int, l: int|
        0 <= k < l < order.len() ==> precedes(
            scores,
            #[trigger] order[k] as int,
            #[trigger] order[l] as int,
        )
}

/// Whether `order` is the ranking of `scores`: it lists every position once,
/// by descending score, positions of equal score in ascending order.
pub open spec fn is_ranking(scores: Seq<u32>, order: Seq<usize>) -> bool {
    order.len() == scores.len() && is_ordered(scores, order)
}

/// The ranking of `scores`.
pub open spec fn ranking(scores: Seq<u32>) -> Seq<usize> {
    choose|order: Seq<usize>| is_ranking(scores, order)
}

/// A ranking lists every position of the scores.
pub proof fn lemma_ranking_lists_all(scores: Seq<u32>, order: Seq<usize>, position: int)
    requires
        is_ranking(scores, order),
        0 <= position < scores.len(),
    ensures
        exists|k: int| 0 <= k < order.len() && order[k] == position,
{
    let n = scores.len() as int;
    let places = order.map_values(|p: usize| p as int);
    assert(places.no_duplicates()) by {
        assert forall|i: int, j: int|
            0 <= i < places.len() && 0 <= j < places.len() && i != j implies places[i]
            != places[j] by {
            if i < j {
                assert(precedes(scores, order[i] as int, order[j] as int));
            } else {
                assert(precedes(scores, order[j] as int, order[i] as int));
            }
        }
    }
    places.unique_seq_to_set();
    seq_to_set_is_finite(places);
    lemma_int_range(0, n);
    assert(places.to_set().subset_of(set_int_range(0, n))) by {
        assert forall|p: int| places.to_set().contains(p) implies set_int_range(0, n).contains(
            p,
        ) by {
            let k = choose|k: int| 0 <= k < places.len() && places[k] == p;
            assert(order[k] < scores.len());
        }
    }
    lemma_subset_equality(places.to_set(), set_int_range(0, n));
    assert(set_int_range(0, n).contains(position));
    assert(places.to_set().contains(position));
    let k = choose|k: int| 0 <= k < places.len() && places[k] == position;
    assert(order[k] == position);
}

/// The scores have one ranking only: two runs of a search over the same
/// scores return the candidates in the same order.
pub proof fn lemma_ranking_unique(scores: Seq<u32>, first: Seq<usize>, second: Seq<usize>)
    requires
        is_ranking(scores, first),
        is_ranking(scores, second),
    ensures
        first == second,
{
    assert forall|k: int| 0 <= k < first.len() implies first[k] == second[k] by {
        lemma_ranking_agree_to(scores, first, second, k);
    }
    assert(first =~= second);
}

proof fn lemma_ranking_agree_to(scores: Seq<u32>, first: Seq<usize>, second: Seq<usize>, k: int)
    requires
        is_ranking(scores, first),
        is_ranking(scores, second),
        0 <= k < first.len(),
    ensures
        forall|m: int| 0 <= m <= k ==> first[m] == second[m],
    decreases k,
{
    if k > 0 {
        lemma_ranking_agree_to(scores, first, second, k - 1);
    }
    let a = first[k];
    let b = second[k];
    if a != b {
        lemma_ranking_lists_all(scores, second, a as int);
        let m = choose|m: int| 0 <= m < second.len() && second[m] == a as int;
        lemma_ranking_lists_all(scores, first, b as int);
        let l = choose|l: int| 0 <= l < first.len() && first[l] == b as int;
        // `a` stands after place `k` in `second`, and `b` after place `k` in `first`.
        if m < k {
            assert(first[m] == second[m]);
            assert(precedes(scores, first[m] as int, first[k] as int));
        }
        if l < k {
            assert(first[l] == second[l]);
            assert(precedes(scores, second[l] as int, second[k] as int));
        }
        assert(precedes(scores, second[k] as int, second[m] as int));
        assert(precedes(scores, first[k] as int, first[l] as int));
    }
}

/// Whether `run` lists `hi - lo` positions, each from `lo` up to `hi`, every
/// earlier one preceding every later one.
spec fn is_run(scores: Seq<u32>, run: Seq<usize>, lo: int, hi: int) -> bool {
    &&& run.len() == hi - lo
    &&& is_ordered(scores, run)
    &&& forall|k: int| 0 <= k < run.len() ==> lo <= (#[trigger] run[k]) < hi
}

fn goes_first(scores: &Vec<u32>, i: usize, j: usize) -> (r: bool)
    requires
        i < scores.len(),
        j < scores.len(),
    ensures
        r == precedes(scores@, i as int, j as int),
{
    let a = key_of(scores[i]);
    let b = key_of(scores[j]);
    a > b || (a == b && i < j)
}

fn merge_runs(
    scores: &Vec<u32>,
    left: &Vec<usize>,
    right: &Vec<usize>,
    Ghost(lo): Ghost<int>,
    Ghost(mid): Ghost<int>,
    Ghost(hi): Ghost<int>,
) -> (out: Vec<usize>)
    requires
        0 <= lo <= mid <= hi <= scores.len(),
        is_run(scores@, left@, lo, mid),
        is_run(scores@, right@, mid, hi),
    ensures
        is_run(scores@, out@, lo, hi),
{
    let mut out: Vec<usize> = Vec::new();
    let mut i: usize = 0;
    let mut j: usize = 0;
    while i < left.len() || j < right.len()
        invariant
            0 <= lo <= mid <= hi <= scores.len(),
            is_run(scores@, left@, lo, mid),
            is_run(scores@, right@, mid, hi),
            i <= left.len(),
            j <= right.len(),
            out.len() == i + j,
            is_ordered(scores@, out@),
            forall|k: int| 0 <= k < out.len() ==> lo <= (#[trigger] out@[k]) < hi,
            forall|k: int, m: int|
                0 <= k < out.len() && i <= m < left.len() ==> precedes(
                    scores@,
                    #[trigger] out@[k] as int,
                    #[trigger] left@[m] as int,
                ),
            forall|k: int, m: int|
                0 <= k < out.len() && j <= m < right.len() ==> precedes(
                    scores@,
                    #[trigger] out@[k] as int,
                    #[trigger] right@[m] as int,
                ),
        decreases left.len() - i + right.len() - j,
    {
        let ghost before = out@;
        let take_left = if i >= left.len() {
            false
        } else if j >= right.len() {
            true
        } else {
            !goes_first(scores, right[j], left[i])
        };
        if take_left {
            let p = left[i];
            out.push(p);
            i = i + 1;
            proof {
                assert forall|k: int, l: int| 0 <= k < l < out.len() implies precedes(
                    scores@,
                    #[trigger] out@[k] as int,
                    #[trigger] out@[l] as int,
                ) by {
                    if l < before.len() {
                        assert(out@[k] == before[k] && out@[l] == before[l]);
                    } else {
                        assert(out@[k] == before[k]);
                        assert(out@[l] == left@[i - 1]);
                    }
                }
                assert forall|k: int, m: int|
                    0 <= k < out.len() && i <= m < left.len() implies precedes(
                    scores@,
                    #[trigger] out@[k] as int,
                    #[trigger] left@[m] as int,
                ) by {
                    if k < before.len() {
                        assert(out@[k] == before[k]);
                    } else {
                        assert(out@[k] == left@[i - 1]);
                    }
                }
                assert forall|k: int, m: int|
                    0 <= k < out.len() && j <= m < right.len() implies precedes(
                    scores@,
                    #[trigger] out@[k] as int,
                    #[trigger] right@[m] as int,
                ) by {
                    if k < before.len() {
                        assert(out@[k] == before[k]);
                    } else {
                        assert(out@[k] == left@[i - 1]);
                        assert(precedes(scores@, left@[i - 1] as int, right@[j as int] as int));
                        if m > j {
                            assert(precedes(scores@, right@[j as int] as int, right@[m] as int));
                        }
                    }
                }
            }
        } else {
            let p = right[j];
            out.push(p);
            j = j + 1;
            proof {
                assert forall|k: int, l: int| 0 <= k < l < out.len() implies precedes(
                    scores@,
                    #[trigger] out@[k] as int,
                    #[trigger] out@[l] as int,
                ) by {
                    if l < before.len() {
                        assert(out@[k] == before[k] && out@[l] == before[l]);
                    } else {
                        assert(out@[k] == before[k]);
                        assert(out@[l] == right@[j - 1]);
                    }
                }
                assert forall|k: int, m: int|
                    0 <= k < out.len() && j <= m < right.len() implies precedes(
                    scores@,
                    #[trigger] out@[k] as int,
                    #[trigger] right@[m] as int,
                ) by {
                    if k < before.len() {
                        assert(out@[k] == before[k]);
                    } else {
                        assert(out@[k] == right@[j - 1]);
                    }
                }
                assert forall|k: int, m: int|
                    0 <= k < out.len() && i <= m < left.len() implies precedes(
                    scores@,
                    #[trigger] out@[k] as int,
                    #[trigger] left@[m] as int,
                ) by {
                    if k < before.len() {
                        assert(out@[k] == before[k]);
                    } else {
                        assert(out@[k] == right@[j - 1]);
                        assert(precedes(scores@, right@[j - 1] as int, left@[i as int] as int));
                        if m > i {
                            assert(precedes(scores@, left@[i as int] as int, left@[m] as int));
                        }
                    }
                }
            }
        }
    }
    out
}

fn sort_span(scores: &Vec<u32>, lo: usize, hi: usize) -> (run: Vec<usize>)
    requires
        lo <= hi <= scores.len(),
    ensures
        is_run(scores@, run@, lo as int, hi as int),
    decreases hi - lo,
{
    let mut run: Vec<usize> = Vec::new();
    if hi - lo == 0 {
        run
    } else if hi - lo == 1 {
        run.push(lo);
        run
    } else {
        let mid = lo + (hi - lo) / 2;
        let left = sort_span(scores, lo, mid);
        let right = sort_span(scores, mid, hi);
        merge_runs(scores, &left, &right, Ghost(lo as int), Ghost(mid as int), Ghost(hi as int))
    }
}

/// Ranks the scores: returns their positions by descending score, positions
/// of equal score in the order in which they stand.
pub fn rank_order(scores: &Vec<u32>) -> (order: Vec<usize>)
    ensures
        is_ranking(scores@, order@),
        order@ == ranking(scores@),
{
    let order = sort_span(scores, 0, scores.len());
    proof {
        assert(is_ranking(scores@, order@));
        lemma_ranking_unique(scores@, order@, ranking(scores@));
    }
    order
}

/// Every sequence of scores has a ranking, and `ranking` names it.
pub proof fn lemma_ranking_exists(scores: Seq<u32>)
    requires
        scores.len() <= usize::MAX,
    ensures
        is_ranking(scores, ranking(scores)),
    decreases scores.len(),
{
    if scores.len() == 0 {
        assert(is_ranking(scores, Seq::<usize>::empty()));
    } else {
        let n = (scores.len() - 1) as int;
        let head = scores.take(n);
        assert(head.len() == n);
        lemma_ranking_exists(head);
        let rest = ranking(head);
        // The last position goes behind every position that precedes it.
        let at = first_behind(scores, rest, n, 0);
        lemma_first_behind(scores, rest, n, 0);
        let order = rest.take(at) + seq![n as usize] + rest.skip(at);
        assert(order.len() == scores.len());
        assert forall|k: int| 0 <= k < order.len() implies (#[trigger] order[k]) < scores.len() by {
            if k < at {
                assert(order[k] == rest[k]);
            } else if k > at {
                assert(order[k] == rest[k - 1]);
            }
        }
        assert forall|k: int, l: int| 0 <= k < l < order.len() implies precedes(
            scores,
            #[trigger] order[k] as int,
            #[trigger] order[l] as int,
        ) by {
            let a = if k < at { k } else { k - 1 };
            let b = if l < at { l } else { l - 1 };
            if k != at && l != at {
                assert(order[k] == rest[a] && order[l] == rest[b]);
                assert(precedes(head, rest[a] as int, rest[b] as int));
                assert(head[rest[a] as int] == scores[rest[a] as int]);
                assert(head[rest[b] as int] == scores[rest[b] as int]);
            } else if k == at {
                assert(order[l] == rest[b]);
                assert(rest[b] < n);
            } else {
                assert(order[k] == rest[a]);
                assert(rest[a] < n);
            }
        }
        assert(is_ranking(scores, order));
    }
}

/// The first place from `from` on in `order` whose position does not precede
/// position `n`, or the length of `order` if there is none.
spec fn first_behind(scores: Seq<u32>, order: Seq<usize>, n: int, from: int) -> int
    decreases order.len() - from,
{
    if from >= order.len() || !precedes(scores, order[from] as int, n) {
        from
    } else {
        first_behind(scores, order, n, from + 1)
    }
}

proof fn lemma_first_behind(scores: Seq<u32>, order: Seq<usize>, n: int, from: int)
    requires
        0 <= from <= order.len(),
        0 <= n == scores.len() - 1,
        is_ranking(scores.take(n), order),
        forall|k: int| 0 <= k < from ==> precedes(scores, #[trigger] order[k] as int, n),
    ensures
        from <= first_behind(scores, order, n, from) <= order.len(),
        forall|k: int|
            0 <= k < first_behind(scores, order, n, from) ==> precedes(
                scores,
                #[trigger] order[k] as int,
                n,
            ),
        forall|k: int|
            first_behind(scores, order, n, from) <= k < order.len() ==> precedes(
                scores,
                n,
                #[trigger] order[k] as int,
            ),
    decreases order.len() - from,
{
    let head = scores.take(n);
    assert(head.len() == n);
    if from >= order.len() {
    } else if !precedes(scores, order[from] as int, n) {
        assert forall|k: int| from <= k < order.len() implies precedes(
            scores,
            n,
            #[trigger] order[k] as int,
        ) by {
            assert(order[k] < n);
            assert(order[from] < n);
            if k > from {
                assert(precedes(head, order[from] as int, order[k] as int));
                assert(head[order[from] as int] == scores[order[from] as int]);
                assert(head[order[k] as int] == scores[order[k] as int]);
            }
        }
    } else {
        lemma_first_behind(scores, order, n, from + 1);
    }
}

} // verus!
