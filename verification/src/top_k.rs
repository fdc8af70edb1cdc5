//! The best-scoring tokens of two parallel sequences.
//!
//! Scores are listed from the highest rank to the lowest, equal ranks in
//! the order of their positions. The first `k` positions of that listing
//! are picked. Each pick is paired with the token id at the first position
//! that holds a score of the same rank, so two picks of equal rank carry
//! the same token id.

use crate::score::Score;
use vstd::prelude::*;
use vstd::set_lib::{lemma_int_range, lemma_len_subset, set_int_range};

verus! {

/// The two sequences of a record differ in length.
#[derive(Clone, Copy, Debug, PartialEq, Eq, Structural)]
pub struct DimensionMismatch {
    pub token_ids: usize,
    pub scores: usize,
}

/// Whether position `i` comes before position `j` in the listing of
/// `scores`: its rank is higher, or the ranks are equal and `i` is the
/// earlier position.
pub open spec fn listed_before(scores: Seq<Score>, i: int, j: int) -> bool {
    scores[i].rank() > scores[j].rank() || (scores[i].rank() == scores[j].rank() && i < j)
}

/// Whether `picks` is the start of the listing of `scores`: its entries are
/// positions of `scores`, each comes before the next, and whatever comes
/// before a pick was picked earlier.
pub open spec fn is_listing_prefix(scores: Seq<Score>, picks: Seq<int>) -> bool {
    &&& forall|t: int| 0 <= t < picks.len() ==> 0 <= #[trigger] picks[t] < scores.len()
    &&& forall|s: int, t: int|
        0 <= s < t < picks.len() ==> listed_before(scores, #[trigger] picks[s], #[trigger] picks[t])
    &&& forall|t: int, i: int|
        0 <= t < picks.len() && 0 <= i < scores.len() && #[trigger] listed_before(
            scores,
            i,
            picks[t],
        ) ==> exists|s: int| 0 <= s < t && #[trigger] picks[s] == i
}

/// Whether `first` is the first position of `scores` whose score has the
/// rank of the score at `i`.
pub open spec fn is_first_of_rank(scores: Seq<Score>, i: int, first: int) -> bool {
    &&& 0 <= first <= i
    &&& scores[first].rank() == scores[i].rank()
    &&& forall|h: int| 0 <= h < first ==> (#[trigger] scores[h]).rank() != scores[i].rank()
}

/// The first position of `scores` whose score has the rank of the score
/// at `i`.
pub open spec fn first_of_rank(scores: Seq<Score>, i: int) -> int {
    choose|first: int| is_first_of_rank(scores, i, first)
}

/// The pair reported for a pick of position `i`: the token id at the first
/// position of equal rank, and the score at `i` itself.
pub open spec fn pair_of(token_ids: Seq<u32>, scores: Seq<Score>, i: int) -> (u32, Score) {
    (token_ids[first_of_rank(scores, i)], scores[i])
}

/// Whether `picks` is a start of the listing of `scores` and `pairs` are
/// the pairs of its positions, one for one.
pub open spec fn picks_yield(
    token_ids: Seq<u32>,
    scores: Seq<Score>,
    picks: Seq<int>,
    pairs: Seq<(u32, Score)>,
) -> bool {
    &&& is_listing_prefix(scores, picks)
    &&& picks.len() == pairs.len()
    &&& forall|t: int|
        0 <= t < pairs.len() ==> #[trigger] pairs[t] == pair_of(token_ids, scores, picks[t])
}

/// Whether `pairs` are the pairs of the first `k` positions of the listing
/// of `scores`, or of all of them where there are fewer than `k`.
pub open spec fn is_top_k(
    token_ids: Seq<u32>,
    scores: Seq<Score>,
    k: nat,
    pairs: Seq<(u32, Score)>,
) -> bool {
    &&& pairs.len() == if k < scores.len() {
        k
    } else {
        scores.len()
    }
    &&& exists|picks: Seq<int>| picks_yield(token_ids, scores, picks, pairs)
}

/// Two starts of the listing of the same scores agree as far as the
/// shorter one goes, so the listing is determined by the scores alone.
pub proof fn lemma_listing_prefix_unique(scores: Seq<Score>, p: Seq<int>, q: Seq<int>)
    requires
        is_listing_prefix(scores, p),
        is_listing_prefix(scores, q),
        p.len() <= q.len(),
    ensures
        p == q.take(p.len() as int),
{
    lemma_listing_agrees(scores, p, q, p.len());
    assert(p =~= q.take(p.len() as int));
}

proof fn lemma_listing_agrees(scores: Seq<Score>, p: Seq<int>, q: Seq<int>, upto: nat)
    requires
        is_listing_prefix(scores, p),
        is_listing_prefix(scores, q),
        upto <= p.len() <= q.len(),
    ensures
        forall|t: int| 0 <= t < upto ==> p[t] == q[t],
    decreases upto,
{
    if upto > 0 {
        let t = upto - 1;
        lemma_listing_agrees(scores, p, q, t as nat);
        if p[t] != q[t] {
            if listed_before(scores, p[t], q[t]) {
                let s = choose|s: int| 0 <= s < t && q[s] == p[t];
                assert(listed_before(scores, p[s], p[t]));
            } else {
                assert(listed_before(scores, q[t], p[t]));
                let s = choose|s: int| 0 <= s < t && p[s] == q[t];
                assert(listed_before(scores, q[s], q[t]));
            }
        }
    }
}

/// For given token ids, scores and `k` there is one sequence of pairs at
/// most: the contract of the selection leaves no choice.
pub proof fn lemma_top_k_unique(
    token_ids: Seq<u32>,
    scores: Seq<Score>,
    k: nat,
    a: Seq<(u32, Score)>,
    b: Seq<(u32, Score)>,
)
    requires
        is_top_k(token_ids, scores, k, a),
        is_top_k(token_ids, scores, k, b),
    ensures
        a == b,
{
    let p = choose|picks: Seq<int>| picks_yield(token_ids, scores, picks, a);
    let q = choose|picks: Seq<int>| picks_yield(token_ids, scores, picks, b);
    lemma_listing_prefix_unique(scores, p, q);
    assert(a =~= b);
}

/// The scores of the pairs never rise from one pair to the next.
pub proof fn lemma_top_k_descends(
    token_ids: Seq<u32>,
    scores: Seq<Score>,
    k: nat,
    pairs: Seq<(u32, Score)>,
)
    requires
        is_top_k(token_ids, scores, k, pairs),
    ensures
        forall|s: int, t: int|
            0 <= s < t < pairs.len() ==> (#[trigger] pairs[s]).1.rank() >= (#[trigger] pairs[t]).1.rank(),
{
    let p = choose|picks: Seq<int>| picks_yield(token_ids, scores, picks, pairs);
    assert forall|s: int, t: int| 0 <= s < t < pairs.len() implies (#[trigger] pairs[s]).1.rank() >= (
    #[trigger] pairs[t]).1.rank() by {
        assert(listed_before(scores, p[s], p[t]));
    }
}

/// Where no two scores have the same rank, the token id of a pair is the
/// one at the position of its score.
pub proof fn lemma_pair_of_distinct(token_ids: Seq<u32>, scores: Seq<Score>, i: int)
    requires
        0 <= i < scores.len(),
        forall|a: int, b: int|
            0 <= a < b < scores.len() ==> (#[trigger] scores[a]).rank() != (#[trigger] scores[b]).rank(),
    ensures
        first_of_rank(scores, i) == i,
        pair_of(token_ids, scores, i) == (token_ids[i], scores[i]),
{
    assert(is_first_of_rank(scores, i, i));
    let first = first_of_rank(scores, i);
    assert(is_first_of_rank(scores, i, first));
    if first < i {
        assert(scores[first].rank() != scores[i].rank());
    }
}

/// Whether position `i` is still to be listed after the pick `after`:
/// every position is, where nothing was picked yet.
pub open spec fn listed_after(scores: Seq<Score>, after: Option<usize>, i: int) -> bool {
    match after {
        None => true,
        Some(last) => listed_before(scores, last as int, i),
    }
}

/// Fewer picks than positions leave a position that no pick names.
proof fn lemma_room(scores: Seq<Score>, picks: Seq<int>) -> (free: int)
    requires
        is_listing_prefix(scores, picks),
        picks.len() < scores.len(),
    ensures
        0 <= free < scores.len(),
        !picks.contains(free),
{
    let all = set_int_range(0, scores.len() as int);
    lemma_int_range(0, scores.len() as int);
    assert forall|s: int, t: int| 0 <= s < picks.len() && 0 <= t < picks.len() && s != t implies picks[s]
        != picks[t] by {
        if s < t {
            assert(listed_before(scores, picks[s], picks[t]));
        } else {
            assert(listed_before(scores, picks[t], picks[s]));
        }
    }
    picks.unique_seq_to_set();
    if forall|i: int| 0 <= i < scores.len() ==> picks.contains(i) {
        assert(all.subset_of(picks.to_set())) by {
            assert forall|i: int| all.contains(i) implies picks.to_set().contains(i) by {
                assert(picks.contains(i));
            }
        }
        vstd::seq_lib::seq_to_set_is_finite(picks);
        lemma_len_subset(all, picks.to_set());
        assert(false);
    }
    choose|i: int| 0 <= i < scores.len() && !picks.contains(i)
}

/// The position that is listed next after the pick `after`, if any is left.
fn next_listed(scores: &Vec<Score>, after: Option<usize>) -> (next: Option<usize>)
    requires
        after matches Some(last) ==> last < scores.len(),
    ensures
        match next {
            Some(best) => {
                &&& best < scores.len()
                &&& listed_after(scores@, after, best as int)
                &&& forall|i: int|
                    0 <= i < scores.len() && listed_after(scores@, after, i) && i != best
                        ==> #[trigger] listed_before(scores@, best as int, i)
            },
            None => forall|i: int| 0 <= i < scores.len() ==> !#[trigger] listed_after(scores@, after, i),
        },
{
    let n: usize = scores.len();
    let mut best: Option<usize> = None;
    let mut i: usize = 0;
    while i < n
        invariant
            n == scores.len(),
            i <= n,
            after matches Some(last) ==> last < scores.len(),
            match best {
                Some(b) => {
                    &&& b < i
                    &&& listed_after(scores@, after, b as int)
                    &&& forall|j: int|
                        0 <= j < i && listed_after(scores@, after, j) && j != b
                            ==> #[trigger] listed_before(scores@, b as int, j)
                },
                None => forall|j: int| 0 <= j < i ==> !#[trigger] listed_after(scores@, after, j),
            },
        decreases n - i,
    {
        let rank: i64 = scores[i].ranked();
        let open: bool = match after {
            None => true,
            Some(last) => {
                let last_rank: i64 = scores[last].ranked();
                last_rank > rank || (last_rank == rank && last < i)
            },
        };
        if open {
            let better: bool = match best {
                None => true,
                Some(b) => rank > scores[b].ranked(),
            };
            if better {
                proof {
                    if let Some(b) = best {
                        assert forall|j: int|
                            0 <= j < i && listed_after(scores@, after, j) implies #[trigger] listed_before(
                            scores@,
                            i as int,
                            j,
                        ) by {
                            if j != b {
                                assert(listed_before(scores@, b as int, j));
                            }
                        }
                    }
                }
                best = Some(i);
            }
        }
        i += 1;
    }
    best
}

/// The first position of `scores` whose score has the rank of the score
/// at `i`.
fn first_position_of_rank(scores: &Vec<Score>, i: usize) -> (first: usize)
    requires
        i < scores.len(),
    ensures
        first == first_of_rank(scores@, i as int),
        first <= i,
{
    let rank: i64 = scores[i].ranked();
    let mut first: usize = 0;
    while scores[first].ranked() != rank
        invariant
            first <= i < scores.len(),
            rank == scores@[i as int].rank(),
            forall|h: int| 0 <= h < first ==> (#[trigger] scores@[h]).rank() != rank,
        decreases i - first,
    {
        first += 1;
    }
    proof {
        assert(is_first_of_rank(scores@, i as int, first as int));
        let chosen = first_of_rank(scores@, i as int);
        assert(is_first_of_rank(scores@, i as int, chosen));
        if chosen < first {
            assert(scores@[chosen].rank() != rank);
        }
        if first < chosen {
            assert(scores@[first as int].rank() != scores@[i as int].rank());
        }
    }
    first
}

/// The `k` best-scoring tokens: the pairs of the first `k` positions of the
/// listing of `scores`, or of all positions where there are fewer. Fails
/// where the two sequences differ in length, and only there.
pub fn top_k(token_ids: &Vec<u32>, scores: &Vec<Score>, k: u64) -> (r: Result<
    Vec<(u32, Score)>,
    DimensionMismatch,
>)
    ensures
        match r {
            Ok(pairs) => token_ids.len() == scores.len() && is_top_k(
                token_ids@,
                scores@,
                k as nat,
                pairs@,
            ),
            Err(e) => token_ids.len() != scores.len() && e.token_ids == token_ids.len() && e.scores
                == scores.len(),
        },
{
    let n: usize = scores.len();
    if token_ids.len() != n {
        return Err(DimensionMismatch { token_ids: token_ids.len(), scores: n });
    }
    let limit: usize = if k < n as u64 {
        k as usize
    } else {
        n
    };
    let mut pairs: Vec<(u32, Score)> = Vec::new();
    let ghost mut picks: Seq<int> = Seq::empty();
    let mut after: Option<usize> = None;
    while pairs.len() < limit
        invariant
            n == scores.len(),
            n == token_ids.len(),
            limit <= n,
            pairs.len() == picks.len(),
            picks.len() <= limit,
            is_listing_prefix(scores@, picks),
            match after {
                None => picks.len() == 0,
                Some(last) => picks.len() > 0 && picks.last() == last,
            },
            forall|t: int|
                0 <= t < pairs.len() ==> #[trigger] pairs@[t] == pair_of(token_ids@, scores@, picks[t]),
        decreases limit - pairs.len(),
    {
        let next = next_listed(scores, after);
        proof {
            let free = lemma_room(scores@, picks);
            if picks.len() > 0 {
                let last = picks.last();
                assert(picks[picks.len() - 1] == last);
                if !listed_before(scores@, last, free) {
                    assert(listed_before(scores@, free, picks[picks.len() - 1]));
                    let s = choose|s: int| 0 <= s < picks.len() - 1 && picks[s] == free;
                    assert(picks.contains(free));
                }
            }
            assert(listed_after(scores@, after, free));
        }
        match next {
            None => {
                // Not reached: fewer picks than positions leave one to list.
                proof {
                    assert(false);
                }
                return Ok(pairs);
            },
            Some(best) => {
                let first: usize = first_position_of_rank(scores, best);
                let ghost longer = picks.push(best as int);
                proof {
                    lemma_extend(scores@, picks, after, best as int);
                }
                pairs.push((token_ids[first], scores[best]));
                proof {
                    picks = longer;
                }
                after = Some(best);
            },
        }
    }
    proof {
        assert(picks_yield(token_ids@, scores@, picks, pairs@));
    }
    Ok(pairs)
}

/// A start of the listing, extended by the position listed next, is a
/// start of the listing.
proof fn lemma_extend(scores: Seq<Score>, picks: Seq<int>, after: Option<usize>, best: int)
    requires
        is_listing_prefix(scores, picks),
        match after {
            None => picks.len() == 0,
            Some(last) => picks.len() > 0 && picks.last() == last,
        },
        0 <= best < scores.len(),
        listed_after(scores, after, best),
        forall|i: int|
            0 <= i < scores.len() && listed_after(scores, after, i) && i != best
                ==> #[trigger] listed_before(scores, best, i),
    ensures
        is_listing_prefix(scores, picks.push(best)),
{
    let longer = picks.push(best);
    let n = picks.len() as int;
    assert forall|s: int, t: int| 0 <= s < t < longer.len() implies listed_before(
        scores,
        #[trigger] longer[s],
        #[trigger] longer[t],
    ) by {
        if t == n {
            if s < n - 1 {
                assert(listed_before(scores, picks[s], picks[n - 1]));
            }
        }
    }
    assert forall|t: int, i: int|
        0 <= t < longer.len() && 0 <= i < scores.len() && #[trigger] listed_before(
            scores,
            i,
            longer[t],
        ) implies exists|s: int| 0 <= s < t && #[trigger] longer[s] == i by {
        if t < n {
            assert(listed_before(scores, i, picks[t]));
            let s = choose|s: int| 0 <= s < t && #[trigger] picks[s] == i;
            assert(longer[s] == i);
        } else {
            if listed_after(scores, after, i) {
                assert(listed_before(scores, best, i));
                assert(false);
            }
            let last = picks[n - 1];
            if i == last {
                assert(longer[n - 1] == i);
            } else {
                assert(listed_before(scores, i, picks[n - 1]));
                let s = choose|s: int| 0 <= s < n - 1 && #[trigger] picks[s] == i;
                assert(longer[s] == i);
            }
        }
    }
}

} // verus!
