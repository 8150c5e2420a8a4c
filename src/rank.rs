use vstd::prelude::*;

use crate::score::{TestcaseScore, bool_lt, bytes_lt, is_minimum, same_score, score_lt};

verus! {

/// `order` lists every index of `scores` exactly once, and no case is listed
/// after one that ranks strictly below it.
pub open spec fn is_ranking(scores: Seq<TestcaseScore>, order: Seq<usize>) -> bool {
    &&& order.len() == scores.len()
    &&& forall|i: int| 0 <= i < order.len() ==> (#[trigger] order[i]) < scores.len()
    &&& forall|i: int, j: int| 0 <= i < j < order.len() ==> #[trigger] order[i] != #[trigger] order[j]
    &&& forall|i: int, j: int|
        0 <= i < j < order.len() ==> !score_lt(
            #[trigger] scores[order[i] as int],
            #[trigger] scores[order[j] as int],
        )
}

proof fn lemma_bytes_lt_irrefl(a: Seq<u8>)
    ensures
        !bytes_lt(a, a),
    decreases a.len(),
{
    if a.len() > 0 {
        lemma_bytes_lt_irrefl(a.drop_first());
    }
}

/// No score ranks strictly below itself.
pub proof fn lemma_score_lt_irrefl(a: TestcaseScore)
    ensures
        !score_lt(a, a),
{
    lemma_bytes_lt_irrefl(a.base_name@);
}

/// Ranking strictly below is transitive.
pub proof fn lemma_score_lt_trans(a: TestcaseScore, b: TestcaseScore, c: TestcaseScore)
    requires
        score_lt(a, b),
        score_lt(b, c),
    ensures
        score_lt(a, c),
{
    if a.new_coverage == c.new_coverage && a.derived_from_seed == c.derived_from_seed
        && a.file_size == c.file_size && bytes_lt(a.base_name@, b.base_name@)
        && bytes_lt(b.base_name@, c.base_name@) {
        crate::score::lemma_bytes_lt_trans(a.base_name@, b.base_name@, c.base_name@);
    }
}

/// Of two scores that differ, exactly one ranks below the other.
pub proof fn lemma_score_lt_total(a: TestcaseScore, b: TestcaseScore)
    ensures
        !same_score(a, b) ==> (score_lt(a, b) || score_lt(b, a)),
        !(score_lt(a, b) && score_lt(b, a)),
        same_score(a, b) ==> !score_lt(a, b),
{
    crate::score::lemma_bytes_lt_total(a.base_name@, b.base_name@);
    crate::score::lemma_bytes_lt_asym(a.base_name@, b.base_name@);
    lemma_bytes_lt_irrefl(a.base_name@);
}

/// Orders a batch, highest score first: the result holds the positions of
/// `scores`, each once.
pub fn rank_batch(scores: &Vec<TestcaseScore>) -> (order: Vec<usize>)
    ensures
        is_ranking(scores@, order@),
{
    let n = scores.len();
    let mut order: Vec<usize> = Vec::new();
    let mut i: usize = 0;
    while i < n
        invariant
            n == scores@.len(),
            i <= n,
            order@.len() == i,
            forall|j: int| 0 <= j < i ==> order@[j] == j,
        decreases n - i,
    {
        order.push(i);
        i = i + 1;
    }
    let mut k: usize = 0;
    while k < n
        invariant
            n == scores@.len(),
            k <= n,
            order@.len() == n,
            forall|i: int| 0 <= i < n ==> (#[trigger] order@[i]) < n,
            forall|i: int, j: int| 0 <= i < j < n ==> #[trigger] order@[i] != #[trigger] order@[j],
            forall|i: int, j: int|
                0 <= i < j < n && i < k ==> !score_lt(
                    #[trigger] scores@[order@[i] as int],
                    #[trigger] scores@[order@[j] as int],
                ),
        decreases n - k,
    {
        let mut best: usize = k;
        let mut j: usize = k + 1;
        proof {
            lemma_score_lt_irrefl(scores@[order@[k as int] as int]);
        }
        while j < n
            invariant
                n == scores@.len(),
                order@.len() == n,
                forall|i: int| 0 <= i < n ==> (#[trigger] order@[i]) < n,
                k < j <= n,
                k <= best < j,
                forall|m: int|
                    k <= m < j ==> !score_lt(
                        scores@[order@[best as int] as int],
                        #[trigger] scores@[order@[m] as int],
                    ),
            decreases n - j,
        {
            if scores[order[best]].ranks_below(&scores[order[j]]) {
                proof {
                    let b = scores@[order@[best as int] as int];
                    let c = scores@[order@[j as int] as int];
                    lemma_score_lt_irrefl(c);
                    assert forall|m: int| k <= m < j + 1 implies !score_lt(
                        c,
                        #[trigger] scores@[order@[m] as int],
                    ) by {
                        if m < j && score_lt(c, scores@[order@[m] as int]) {
                            lemma_score_lt_trans(b, c, scores@[order@[m] as int]);
                        }
                    }
                }
                best = j;
            }
            j = j + 1;
        }
        let ghost before = order@;
        let picked = order[best];
        let displaced = order[k];
        order.set(k, picked);
        order.set(best, displaced);
        proof {
            assert forall|m: int| 0 <= m < n implies #[trigger] order@[m] == (if m == k {
                before[best as int]
            } else if m == best {
                before[k as int]
            } else {
                before[m]
            }) by {}
            assert forall|i: int, j: int| 0 <= i < j < n implies #[trigger] order@[i]
                != #[trigger] order@[j] by {
                let pi = if i == k { best as int } else if i == best { k as int } else { i };
                let pj = if j == k { best as int } else if j == best { k as int } else { j };
                assert(order@[i] == before[pi] && order@[j] == before[pj]);
                assert(pi != pj);
                if pi < pj {
                    assert(before[pi] != before[pj]);
                } else {
                    assert(before[pj] != before[pi]);
                }
            }
            assert forall|i: int, j: int| 0 <= i < j < n && i < k + 1 implies !score_lt(
                #[trigger] scores@[order@[i] as int],
                #[trigger] scores@[order@[j] as int],
            ) by {
                let pj = if j == k { best as int } else if j == best { k as int } else { j };
                assert(order@[j] == before[pj]);
                if j < k {
                    assert(order@[i] == before[i]);
                    assert(!score_lt(scores@[before[i] as int], scores@[before[j] as int]));
                } else if i < k {
                    assert(order@[i] == before[i]);
                    assert(!score_lt(scores@[before[i] as int], scores@[before[pj] as int]));
                } else {
                    assert(order@[i] == before[best as int]);
                    assert(!score_lt(scores@[before[best as int] as int], scores@[before[pj] as int]));
                }
            }
        }
        k = k + 1;
    }
    order
}


/// The processing order depends on the scores alone: in any ranking of a
/// batch, of two cases whose scores differ, the higher one comes first,
/// whatever order the batch was listed in.
pub proof fn lemma_ranking_follows_scores(scores: Seq<TestcaseScore>, order: Seq<usize>, p: int, q: int)
    requires
        is_ranking(scores, order),
        0 <= p < order.len(),
        0 <= q < order.len(),
        score_lt(scores[order[q] as int], scores[order[p] as int]),
    ensures
        p < q,
{
    if q < p {
        assert(!score_lt(scores[order[q] as int], scores[order[p] as int]));
    } else if p == q {
        lemma_score_lt_irrefl(scores[order[p] as int]);
    }
}

/// Two cases that agree on coverage, seed origin and size are ordered by
/// their names alone, and that order is strict and the same every time.
pub proof fn lemma_tie_break_by_name(a: TestcaseScore, b: TestcaseScore)
    requires
        a.new_coverage == b.new_coverage,
        a.derived_from_seed == b.derived_from_seed,
        a.file_size == b.file_size,
    ensures
        score_lt(a, b) == bytes_lt(a.base_name@, b.base_name@),
        score_lt(b, a) == bytes_lt(b.base_name@, a.base_name@),
        a.base_name@ != b.base_name@ ==> (score_lt(a, b) != score_lt(b, a)),
        a.base_name@ == b.base_name@ ==> (!score_lt(a, b) && !score_lt(b, a)),
{
    lemma_score_lt_total(a, b);
}

/// The minimum score ranks below every other score, and nothing ranks below it.
pub proof fn lemma_minimum_ranks_lowest(m: TestcaseScore, s: TestcaseScore)
    requires
        is_minimum(m),
    ensures
        !score_lt(s, m),
        !is_minimum(s) ==> score_lt(m, s),
{
    lemma_score_lt_total(m, s);
    if !is_minimum(s) && !score_lt(m, s) {
        assert(!same_score(m, s));
        assert(!(s.base_name@.len() == 0)) by {
            if s.base_name@.len() == 0 {
                assert(s.base_name@ =~= m.base_name@);
            }
        }
    }
}

/// A case that could not be examined, and so got the minimum score, comes
/// after every case with a proper score in a ranking of the batch.
pub proof fn lemma_unreadable_ranked_last(scores: Seq<TestcaseScore>, order: Seq<usize>, p: int, q: int)
    requires
        is_ranking(scores, order),
        0 <= p < order.len(),
        0 <= q < order.len(),
        is_minimum(scores[order[p] as int]),
        !is_minimum(scores[order[q] as int]),
    ensures
        q < p,
{
    lemma_minimum_ranks_lowest(scores[order[p] as int], scores[order[q] as int]);
    lemma_ranking_follows_scores(scores, order, q, p);
}

} // verus!
