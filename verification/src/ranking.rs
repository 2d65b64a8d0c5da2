//! The ranking of the models by the scores that they gave to one test case.

use vstd::prelude::*;
use crate::score::{is_incomparable, score_key, spec_score_key};

verus! {

/// Model `a` ranks below model `b`: its key is smaller, or the keys are equal
/// and `a` comes first.
pub open spec fn precedes(keys: Seq<u64>, a: int, b: int) -> bool {
    keys[a] < keys[b] || (keys[a] == keys[b] && a < b)
}

/// Model `p` ranks above every other model.
pub open spec fn is_top(keys: Seq<u64>, p: int) -> bool {
    &&& 0 <= p < keys.len()
    &&& forall|j: int| 0 <= j < keys.len() && j != p ==> precedes(keys, j, p)
}

/// Number of models among the first `upto` that rank above model `c`.
pub open spec fn count_above(keys: Seq<u64>, c: int, upto: int) -> int
    decreases upto,
{
    if upto <= 0 {
        0
    } else {
        count_above(keys, c, upto - 1) + if precedes(keys, c, upto - 1) {
            1int
        } else {
            0int
        }
    }
}

/// Place of model `c` from the top: 1 for the best candidate.
pub open spec fn rank_of(keys: Seq<u64>, c: int) -> int {
    count_above(keys, c, keys.len() as int) + 1
}

/// No score is incomparable.
pub open spec fn comparable(score_bits: Seq<u64>) -> bool {
    forall|i: int| 0 <= i < score_bits.len() ==> !is_incomparable(#[trigger] score_bits[i])
}

/// The order keys of comparable scores.
pub open spec fn keys_of(score_bits: Seq<u64>) -> Seq<u64> {
    Seq::new(score_bits.len(), |i: int| spec_score_key(score_bits[i]))
}

/// The count is never negative and never more than the models counted.
pub proof fn lemma_count_above_bounds(keys: Seq<u64>, c: int, upto: int)
    requires
        0 <= upto,
    ensures
        0 <= count_above(keys, c, upto) <= upto,
        0 <= c < upto ==> count_above(keys, c, upto) < upto,
    decreases upto,
{
    if upto > 0 {
        lemma_count_above_bounds(keys, c, upto - 1);
    }
}

/// The best candidate, and no other, has rank 1.
pub proof fn lemma_top_has_rank_one(keys: Seq<u64>, c: int)
    requires
        0 <= c < keys.len(),
    ensures
        is_top(keys, c) <==> rank_of(keys, c) == 1,
{
    lemma_count_zero(keys, c, keys.len() as int);
}

/// The count is zero exactly where none of the models counted ranks above.
pub proof fn lemma_count_zero(keys: Seq<u64>, c: int, upto: int)
    requires
        0 <= c < keys.len(),
        0 <= upto <= keys.len(),
    ensures
        count_above(keys, c, upto) == 0 <==> forall|j: int|
            0 <= j < upto && j != c ==> precedes(keys, j, c),
    decreases upto,
{
    if upto > 0 {
        lemma_count_zero(keys, c, upto - 1);
        lemma_count_above_bounds(keys, c, upto - 1);
        if count_above(keys, c, upto) == 0 {
            assert forall|j: int| 0 <= j < upto && j != c implies precedes(keys, j, c) by {
                if j < upto - 1 {
                } else {
                    assert(!precedes(keys, c, upto - 1));
                }
            }
        } else {
            if count_above(keys, c, upto - 1) == 0 {
                assert(precedes(keys, c, upto - 1));
                assert(!precedes(keys, upto - 1, c));
            } else {
                let j = choose|j: int| 0 <= j < upto - 1 && j != c && !precedes(keys, j, c);
                assert(0 <= j < upto && j != c && !precedes(keys, j, c));
            }
        }
    }
}

/// The order keys of the scores, or `None` where one cannot be compared.
pub fn score_keys(score_bits: &Vec<u64>) -> (r: Option<Vec<u64>>)
    ensures
        r is Some <==> comparable(score_bits@),
        r is Some ==> r->Some_0@ == keys_of(score_bits@),
{
    let mut keys: Vec<u64> = Vec::new();
    let mut i: usize = 0;
    while i < score_bits.len()
        invariant
            i <= score_bits.len(),
            keys.len() == i,
            forall|k: int| 0 <= k < i ==> !is_incomparable(#[trigger] score_bits[k]),
            forall|k: int| 0 <= k < i ==> #[trigger] keys[k] == spec_score_key(score_bits[k]),
        decreases score_bits.len() - i,
    {
        match score_key(score_bits[i]) {
            Some(key) => {
                keys.push(key);
            },
            None => {
                assert(is_incomparable(score_bits[i as int]));
                return None;
            },
        }
        i += 1;
    }
    assert(keys@ =~= keys_of(score_bits@));
    Some(keys)
}

/// The model that ranks above all others.
pub fn top_ranked(keys: &Vec<u64>) -> (p: usize)
    requires
        keys.len() >= 1,
    ensures
        is_top(keys@, p as int),
{
    let mut best: usize = 0;
    let mut i: usize = 1;
    while i < keys.len()
        invariant
            1 <= i <= keys.len(),
            best < i,
            forall|j: int| 0 <= j < i && j != best ==> precedes(keys@, j, best as int),
        decreases keys.len() - i,
    {
        let ghost before = best as int;
        if keys[i] >= keys[best] {
            best = i;
        }
        proof {
            assert forall|j: int| 0 <= j < i + 1 && j != best implies precedes(
                keys@,
                j,
                best as int,
            ) by {
                if j != before && j < i {
                    assert(precedes(keys@, j, before));
                }
            }
        }
        i += 1;
    }
    best
}

/// The place of model `c` from the top.
pub fn candidate_rank(keys: &Vec<u64>, c: usize) -> (r: usize)
    requires
        c < keys.len(),
    ensures
        r == rank_of(keys@, c as int),
        1 <= r <= keys.len(),
{
    let mut above: usize = 0;
    let mut j: usize = 0;
    while j < keys.len()
        invariant
            j <= keys.len(),
            c < keys.len(),
            above == count_above(keys@, c as int, j as int),
            above <= j,
        decreases keys.len() - j,
    {
        if keys[c] < keys[j] || (keys[c] == keys[j] && c < j) {
            above += 1;
        }
        j += 1;
    }
    proof {
        lemma_count_above_bounds(keys@, c as int, keys.len() as int);
    }
    above + 1
}

/// Model `j` stands somewhere in `order`.
pub open spec fn lists(order: Seq<usize>, j: int) -> bool {
    exists|a: int| 0 <= a < order.len() && #[trigger] order[a] == j
}

/// `order` lists every model once, each one ranking below the next: the
/// models sorted by ascending score, equal scores in the order of the models.
pub open spec fn is_ranking(keys: Seq<u64>, order: Seq<usize>) -> bool {
    &&& order.len() == keys.len()
    &&& forall|a: int| 0 <= a < order.len() ==> (#[trigger] order[a]) < keys.len()
    &&& forall|a: int, b: int|
        0 <= a < b < order.len() ==> precedes(keys, #[trigger] order[a] as int, #[trigger] order[b] as int)
    &&& forall|j: int| 0 <= j < keys.len() ==> #[trigger] lists(order, j)
}

/// The last model of a ranking is the best candidate.
pub proof fn lemma_ranking_ends_with_top(keys: Seq<u64>, order: Seq<usize>)
    requires
        is_ranking(keys, order),
        keys.len() >= 1,
    ensures
        is_top(keys, order.last() as int),
{
    let p = order.last() as int;
    assert(order[order.len() - 1] < keys.len());
    assert forall|j: int| 0 <= j < keys.len() && j != p implies precedes(keys, j, p) by {
        assert(lists(order, j));
        let a = choose|a: int| 0 <= a < order.len() && #[trigger] order[a] == j;
        assert(precedes(keys, order[a] as int, order[order.len() - 1] as int));
    }
}

/// Two rankings of the same scores are the same list.
pub proof fn lemma_ranking_unique(keys: Seq<u64>, first: Seq<usize>, second: Seq<usize>)
    requires
        is_ranking(keys, first),
        is_ranking(keys, second),
    ensures
        first == second,
    decreases keys.len(),
{
    if keys.len() > 0 {
        let n = keys.len() as int;
        lemma_ranking_ends_with_top(keys, first);
        lemma_ranking_ends_with_top(keys, second);
        assert forall|a: int| 0 <= a < n implies first[a] == second[a] by {
            lemma_ranking_place(keys, first, second, a);
        }
    }
    assert(first =~= second);
}

/// In two rankings of the same scores the models at one place are equal.
proof fn lemma_ranking_place(keys: Seq<u64>, first: Seq<usize>, second: Seq<usize>, a: int)
    requires
        is_ranking(keys, first),
        is_ranking(keys, second),
        0 <= a < keys.len(),
    ensures
        first[a] == second[a],
    decreases keys.len() - a,
{
    let n = keys.len() as int;
    if a + 1 < n {
        lemma_ranking_place(keys, first, second, a + 1);
    }
    // Every place above `a` holds the same model in both lists, so the model
    // at `a` of one list stands at or below `a` in the other.
    let x = first[a] as int;
    let y = second[a] as int;
    assert(first[a] < keys.len());
    assert(second[a] < keys.len());
    assert(lists(second, x));
    assert(lists(first, y));
    let b = choose|b: int| 0 <= b < second.len() && #[trigger] second[b] == x;
    let c = choose|c: int| 0 <= c < first.len() && #[trigger] first[c] == y;
    if b > a {
        lemma_ranking_place_above(keys, first, second, a, b);
        assert(first[b] == second[b]);
        assert(precedes(keys, first[a] as int, first[b] as int));
    }
    if c > a {
        lemma_ranking_place_above(keys, first, second, a, c);
        assert(first[c] == second[c]);
        assert(precedes(keys, second[a] as int, second[c] as int));
    }
    if b < a {
        assert(precedes(keys, second[b] as int, second[a] as int));
    }
    if c < a {
        assert(precedes(keys, first[c] as int, first[a] as int));
    }
}

/// In two rankings of the same scores the models at each place above `a`
/// are equal.
proof fn lemma_ranking_place_above(
    keys: Seq<u64>,
    first: Seq<usize>,
    second: Seq<usize>,
    a: int,
    b: int,
)
    requires
        is_ranking(keys, first),
        is_ranking(keys, second),
        0 <= a < b < keys.len(),
    ensures
        first[b] == second[b],
    decreases keys.len() - a, 0int,
{
    lemma_ranking_place(keys, first, second, b);
}

/// Where exactly the models that rank above `c2`, and `c2` itself, rank
/// above `c`, one more model ranks above `c` than above `c2`.
proof fn lemma_count_step(keys: Seq<u64>, c: int, c2: int, upto: int)
    requires
        0 <= c2 < keys.len(),
        0 <= upto <= keys.len(),
        forall|j: int|
            0 <= j < keys.len() ==> (precedes(keys, c, j) <==> precedes(keys, c2, j) || j == c2),
    ensures
        count_above(keys, c, upto) == count_above(keys, c2, upto) + if c2 < upto {
            1int
        } else {
            0int
        },
    decreases upto,
{
    if upto > 0 {
        lemma_count_step(keys, c, c2, upto - 1);
        assert(precedes(keys, c, upto - 1) <==> precedes(keys, c2, upto - 1) || upto - 1 == c2);
    }
}

/// The place of a model in the ranking gives its rank: the model at the last
/// place has rank 1, the one before it rank 2, and so on down to the first
/// place.
pub proof fn lemma_rank_of_place(keys: Seq<u64>, order: Seq<usize>, a: int)
    requires
        is_ranking(keys, order),
        0 <= a < order.len(),
    ensures
        rank_of(keys, order[a] as int) == order.len() - a,
    decreases order.len() - a,
{
    let n = keys.len() as int;
    let c = order[a] as int;
    assert(order[a] < keys.len());
    if a == n - 1 {
        lemma_ranking_ends_with_top(keys, order);
        lemma_top_has_rank_one(keys, c);
    } else {
        let c2 = order[a + 1] as int;
        assert(order[a + 1] < keys.len());
        lemma_rank_of_place(keys, order, a + 1);
        assert(precedes(keys, order[a] as int, order[a + 1] as int));
        assert forall|j: int| 0 <= j < keys.len() implies (precedes(keys, c, j) <==> precedes(
            keys,
            c2,
            j,
        ) || j == c2) by {
            assert(lists(order, j));
            let b = choose|b: int| 0 <= b < order.len() && #[trigger] order[b] == j;
            if b > a + 1 {
                assert(precedes(keys, order[a] as int, order[b] as int));
                assert(precedes(keys, order[a + 1] as int, order[b] as int));
            } else if b < a {
                assert(precedes(keys, order[b] as int, order[a] as int));
                assert(precedes(keys, order[b] as int, order[a + 1] as int));
            }
        }
        lemma_count_step(keys, c, c2, n);
    }
}

/// The models sorted by ascending score, equal scores in the order of the
/// models: the best candidate stands last.
pub fn rank_models(keys: &Vec<u64>) -> (order: Vec<usize>)
    ensures
        is_ranking(keys@, order@),
{
    let mut order: Vec<usize> = Vec::new();
    let mut i: usize = 0;
    while i < keys.len()
        invariant
            i <= keys.len(),
            order.len() == i,
            forall|a: int| 0 <= a < order.len() ==> (#[trigger] order[a]) < i,
            forall|a: int, b: int|
                0 <= a < b < order.len() ==> precedes(
                    keys@,
                    #[trigger] order[a] as int,
                    #[trigger] order[b] as int,
                ),
            forall|j: int| 0 <= j < i ==> #[trigger] lists(order@, j),
        decreases keys.len() - i,
    {
        let mut pos: usize = 0;
        while pos < order.len() && keys[order[pos]] <= keys[i]
            invariant
                pos <= order.len(),
                order.len() == i,
                i < keys.len(),
                forall|a: int| 0 <= a < order.len() ==> (#[trigger] order[a]) < i,
                forall|a: int| 0 <= a < pos ==> keys[(#[trigger] order[a]) as int] <= keys[i as int],
            decreases order.len() - pos,
        {
            pos += 1;
        }
        let ghost before = order@;
        order.insert(pos, i);
        proof {
            assert(order@ =~= before.insert(pos as int, i));
            assert forall|a: int| 0 <= a < order.len() implies (#[trigger] order[a]) < i + 1 by {
                if a < pos {
                    assert(order[a] == before[a]);
                } else if a > pos {
                    assert(order[a] == before[a - 1]);
                }
            }
            assert forall|a: int, b: int| 0 <= a < b < order.len() implies precedes(
                keys@,
                #[trigger] order[a] as int,
                #[trigger] order[b] as int,
            ) by {
                if b < pos {
                    assert(order[a] == before[a] && order[b] == before[b]);
                } else if b == pos {
                    assert(order[a] == before[a]);
                    assert(before[a] < i);
                } else if a < pos {
                    assert(order[a] == before[a] && order[b] == before[b - 1]);
                } else if a == pos {
                    assert(order[b] == before[b - 1]);
                    assert(before[b - 1] < i);
                    if pos < b - 1 {
                        assert(precedes(keys@, before[pos as int] as int, before[b - 1] as int));
                    }
                } else {
                    assert(order[a] == before[a - 1] && order[b] == before[b - 1]);
                }
            }
            assert forall|j: int| 0 <= j < i + 1 implies #[trigger] lists(order@, j) by {
                if j == i {
                    assert(order[pos as int] == j);
                } else {
                    assert(lists(before, j));
                    let a = choose|a: int| 0 <= a < before.len() && #[trigger] before[a] == j;
                    if a < pos {
                        assert(order[a] == j);
                    } else {
                        assert(order[a + 1] == before[a]);
                    }
                }
            }
        }
        i += 1;
    }
    order
}

/// The best candidate among the models with the given keys.
pub open spec fn top_of(keys: Seq<u64>) -> int {
    choose|p: int| is_top(keys, p)
}

/// There is one best candidate at most.
pub proof fn lemma_top_unique(keys: Seq<u64>, p: int)
    requires
        is_top(keys, p),
    ensures
        top_of(keys) == p,
{
    let q = top_of(keys);
    if q != p {
        assert(precedes(keys, q, p));
        assert(precedes(keys, p, q));
    }
}

} // verus!
