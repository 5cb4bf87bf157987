//! Choice of the denomination in which an order's performance is reported.

use vstd::prelude::*;
use crate::performance::{denomination_views, DenominatedPerformance, DenominationView};
use crate::ranking::{contributions, Contribution, TokenDenominationVol};
use crate::types::{SgErc20, TokenView};

verus! {

/// Whether position `i` comes before position `j` when the list is sorted by
/// rising rank, contributions of equal rank keeping their order.
pub open spec fn ranks_before(list: Seq<Contribution>, i: int, j: int) -> bool {
    list[i].rank() < list[j].rank() || (list[i].rank() == list[j].rank() && i < j)
}

/// Whether position `i` occurs in `order`.
pub open spec fn lists_position(order: Seq<usize>, i: int) -> bool {
    exists|k: int| 0 <= k < order.len() && #[trigger] order[k] == i
}

/// Whether `order` lists every position of `list` once, sorted by rising
/// rank, contributions of equal rank keeping their order.
pub open spec fn is_rank_order(list: Seq<Contribution>, order: Seq<usize>) -> bool {
    &&& order.len() == list.len()
    &&& forall|k: int| 0 <= k < order.len() ==> #[trigger] order[k] < list.len()
    &&& forall|k: int, l: int|
        0 <= k < l < order.len() ==> ranks_before(
            list,
            #[trigger] order[k] as int,
            #[trigger] order[l] as int,
        )
    &&& forall|i: int| 0 <= i < list.len() ==> #[trigger] lists_position(order, i)
}

/// Whether some candidate is denominated in token `t`.
pub open spec fn has_candidate(candidates: Seq<DenominationView>, t: TokenView) -> bool {
    exists|i: int| 0 <= i < candidates.len() && #[trigger] candidates[i].token == t
}

/// The first candidate denominated in token `t`.
pub open spec fn first_candidate(candidates: Seq<DenominationView>, t: TokenView) -> Option<
    DenominationView,
>
    decreases candidates.len(),
{
    if candidates.len() == 0 {
        None
    } else if candidates.first().token == t {
        Some(candidates.first())
    } else {
        first_candidate(candidates.drop_first(), t)
    }
}

/// Among the first `n` contributions whose token has a candidate, the
/// position of the one that ranks highest, the later one on a tie.
pub open spec fn best_supported(
    list: Seq<Contribution>,
    candidates: Seq<DenominationView>,
    n: nat,
) -> Option<int>
    decreases n,
{
    if n == 0 {
        None
    } else {
        let i = n - 1;
        let earlier = best_supported(list, candidates, (n - 1) as nat);
        if !has_candidate(candidates, list[i].token) {
            earlier
        } else {
            match earlier {
                Some(p) => if list[p].rank() > list[i].rank() {
                    Some(p)
                } else {
                    Some(i)
                },
                None => Some(i),
            }
        }
    }
}

/// The candidate of the token whose contribution ranks highest among those
/// that have a candidate; none where no contribution has one.
pub open spec fn select_spec(
    list: Seq<Contribution>,
    candidates: Seq<DenominationView>,
) -> Option<DenominationView> {
    match best_supported(list, candidates, list.len()) {
        None => None,
        Some(i) => first_candidate(candidates, list[i].token),
    }
}

/// The content of an optional denominated performance.
pub open spec fn denomination_option(r: Option<DenominatedPerformance>) -> Option<
    DenominationView,
> {
    match r {
        Some(d) => Some(d@),
        None => None,
    }
}

/// Candidates of other tokens can be dropped from the front.
pub proof fn lemma_first_candidate_skip(candidates: Seq<DenominationView>, t: TokenView, k: int)
    requires
        0 <= k <= candidates.len(),
        forall|j: int| 0 <= j < k ==> (#[trigger] candidates[j]).token != t,
    ensures
        first_candidate(candidates, t) == first_candidate(candidates.skip(k), t),
    decreases k,
{
    if k == 0 {
        assert(candidates.skip(0) =~= candidates);
    } else {
        assert(candidates[0].token != t);
        assert forall|j: int| 0 <= j < k - 1 implies (#[trigger] candidates.drop_first()[j]).token
            != t by {
            assert(candidates.drop_first()[j] == candidates[j + 1]);
        }
        lemma_first_candidate_skip(candidates.drop_first(), t, k - 1);
        assert(candidates.drop_first().skip(k - 1) =~= candidates.skip(k));
    }
}

/// What the best supported position is: none where no contribution among the
/// first `n` has a candidate; else a position with a candidate that every
/// other such position ranks before.
pub proof fn lemma_best_supported(
    list: Seq<Contribution>,
    candidates: Seq<DenominationView>,
    n: nat,
)
    requires
        n <= list.len(),
    ensures
        match best_supported(list, candidates, n) {
            None => forall|j: int|
                0 <= j < n ==> !has_candidate(candidates, #[trigger] list[j].token),
            Some(i) => 0 <= i < n && has_candidate(candidates, list[i].token) && forall|j: int|
                0 <= j < n && j != i && has_candidate(candidates, #[trigger] list[j].token)
                    ==> ranks_before(list, j, i),
        },
    decreases n,
{
    if n > 0 {
        lemma_best_supported(list, candidates, (n - 1) as nat);
    }
}

/// A position with a candidate that every other position with a candidate
/// ranks before is the best supported one.
pub proof fn lemma_best_supported_unique(
    list: Seq<Contribution>,
    candidates: Seq<DenominationView>,
    i: int,
)
    requires
        0 <= i < list.len(),
        has_candidate(candidates, list[i].token),
        forall|j: int|
            0 <= j < list.len() && j != i && has_candidate(candidates, #[trigger] list[j].token)
                ==> ranks_before(list, j, i),
    ensures
        best_supported(list, candidates, list.len()) == Some(i),
{
    lemma_best_supported(list, candidates, list.len());
    let b = best_supported(list, candidates, list.len());
    assert(b.is_some());
    let p = b->Some_0;
    if p != i {
        assert(has_candidate(candidates, list[p].token));
        assert(ranks_before(list, p, i));
        assert(has_candidate(candidates, list[i].token));
        assert(ranks_before(list, i, p));
    }
}

/// A contribution that ranks strictly above every other one decides the
/// denomination whenever its token has a candidate: that candidate is chosen,
/// whatever candidates the other tokens have.
pub proof fn lemma_strictly_largest_is_selected(
    list: Seq<Contribution>,
    candidates: Seq<DenominationView>,
    i: int,
)
    requires
        0 <= i < list.len(),
        forall|j: int|
            0 <= j < list.len() && j != i ==> (#[trigger] list[j]).rank() < list[i].rank(),
        has_candidate(candidates, list[i].token),
    ensures
        select_spec(list, candidates) == first_candidate(candidates, list[i].token),
        select_spec(list, candidates) is Some,
        select_spec(list, candidates)->Some_0.token == list[i].token,
{
    lemma_best_supported_unique(list, candidates, i);
    lemma_first_candidate_found(candidates, list[i].token);
}

/// A token that has a candidate has a first one, and that one is denominated
/// in it; a token without has none.
pub proof fn lemma_first_candidate_found(candidates: Seq<DenominationView>, t: TokenView)
    ensures
        has_candidate(candidates, t) <==> first_candidate(candidates, t) is Some,
        first_candidate(candidates, t) matches Some(c) ==> c.token == t && candidates.contains(c),
    decreases candidates.len(),
{
    if candidates.len() > 0 {
        let rest = candidates.drop_first();
        lemma_first_candidate_found(rest, t);
        if candidates.first().token == t {
            assert(candidates[0].token == t);
            assert(candidates[0] == candidates.first());
        } else {
            if has_candidate(candidates, t) {
                let i = choose|i: int|
                    0 <= i < candidates.len() && #[trigger] candidates[i].token == t;
                assert(rest[i - 1].token == t);
            }
            if has_candidate(rest, t) {
                let i = choose|i: int| 0 <= i < rest.len() && #[trigger] rest[i].token == t;
                assert(candidates[i + 1].token == t);
            }
            if first_candidate(rest, t) is Some {
                let c = first_candidate(rest, t)->Some_0;
                let i = choose|i: int| 0 <= i < rest.len() && rest[i] == c;
                assert(candidates[i + 1] == c);
            }
        }
    }
}

/// The positions of the list sorted by rising rank, contributions of equal
/// rank in the order in which the list holds them.
pub fn rank_order(list: &[TokenDenominationVol]) -> (order: Vec<usize>)
    ensures
        is_rank_order(contributions(list@), order@),
{
    let ghost views = contributions(list@);
    let mut order: Vec<usize> = Vec::new();
    let mut m: usize = 0;
    while m < list.len()
        invariant
            m <= list@.len(),
            views == contributions(list@),
            order@.len() == m,
            forall|k: int| 0 <= k < order@.len() ==> #[trigger] order@[k] < m,
            forall|k: int, l: int|
                0 <= k < l < order@.len() ==> ranks_before(
                    views,
                    #[trigger] order@[k] as int,
                    #[trigger] order@[l] as int,
                ),
            forall|i: int| 0 <= i < m ==> #[trigger] lists_position(order@, i),
        decreases list.len() - m,
    {
        let mut p: usize = order.len();
        while p > 0 && list[order[p - 1]].gt(&list[m])
            invariant
                p <= order@.len(),
                order@.len() == m,
                m < list@.len(),
                views == contributions(list@),
                forall|k: int| 0 <= k < order@.len() ==> #[trigger] order@[k] < m,
                forall|k: int|
                    p <= k < order@.len() ==> views[#[trigger] order@[k] as int].rank()
                        > views[m as int].rank(),
            decreases p,
        {
            p = p - 1;
        }
        let ghost before = order@;
        order.insert(p, m);
        proof {
            let after = order@;
            assert(after =~= before.insert(p as int, m));
            assert forall|k: int| 0 <= k < p implies views[#[trigger] before[k] as int].rank()
                <= views[m as int].rank() by {
                if k < p - 1 {
                    assert(ranks_before(views, before[k] as int, before[p - 1] as int));
                }
            }
            assert forall|k: int, l: int| 0 <= k < l < after.len() implies ranks_before(
                views,
                #[trigger] after[k] as int,
                #[trigger] after[l] as int,
            ) by {
                if l < p {
                    assert(after[k] == before[k] && after[l] == before[l]);
                } else if l == p {
                    assert(after[k] == before[k]);
                    assert(before[k] < m);
                } else if k < p {
                    assert(after[k] == before[k] && after[l] == before[l - 1]);
                    if k != l - 1 {
                        assert(ranks_before(views, before[k] as int, before[l - 1] as int));
                    }
                } else if k == p {
                    assert(after[l] == before[l - 1]);
                } else {
                    assert(after[k] == before[k - 1] && after[l] == before[l - 1]);
                }
            }
            assert forall|i: int| 0 <= i < m + 1 implies #[trigger] lists_position(after, i) by {
                if i == m {
                    assert(after[p as int] == i);
                } else {
                    assert(lists_position(before, i));
                    let k = choose|k: int| 0 <= k < before.len() && #[trigger] before[k] == i;
                    if k < p {
                        assert(after[k] == i);
                    } else {
                        assert(after[k + 1] == i);
                    }
                }
            }
        }
        m = m + 1;
    }
    order
}

/// The position of the first candidate denominated in `token`.
pub fn find_candidate(candidates: &[DenominatedPerformance], token: &SgErc20) -> (r: Option<usize>)
    ensures
        match r {
            Some(i) => i < candidates@.len() && first_candidate(
                denomination_views(candidates@),
                token@,
            ) == Some(candidates@[i as int]@),
            None => !has_candidate(denomination_views(candidates@), token@),
        },
{
    let ghost views = denomination_views(candidates@);
    let mut i: usize = 0;
    while i < candidates.len()
        invariant
            i <= candidates@.len(),
            views == denomination_views(candidates@),
            forall|j: int| 0 <= j < i ==> (#[trigger] views[j]).token != token@,
        decreases candidates.len() - i,
    {
        if candidates[i].token.same_token(token) {
            proof {
                lemma_first_candidate_skip(views, token@, i as int);
                assert(views.skip(i as int).first() == candidates@[i as int]@);
            }
            return Some(i);
        }
        i = i + 1;
    }
    None
}

/// Picks the denomination: walks the contributions from the highest rank
/// down and takes the first whose token has a candidate.
pub fn select_denomination(
    ranking: &[TokenDenominationVol],
    candidates: &[DenominatedPerformance],
) -> (r: Option<DenominatedPerformance>)
    ensures
        denomination_option(r) == select_spec(
            contributions(ranking@),
            denomination_views(candidates@),
        ),
{
    let ghost list = contributions(ranking@);
    let ghost views = denomination_views(candidates@);
    let order = rank_order(ranking);
    let mut k: usize = order.len();
    while k > 0
        invariant
            k <= order@.len(),
            list == contributions(ranking@),
            views == denomination_views(candidates@),
            is_rank_order(list, order@),
            forall|l: int|
                k <= l < order@.len() ==> !has_candidate(
                    views,
                    list[#[trigger] order@[l] as int].token,
                ),
        decreases k,
    {
        k = k - 1;
        let i = order[k];
        match find_candidate(candidates, &ranking[i].token) {
            Some(c) => {
                proof {
                    lemma_first_candidate_found(views, list[i as int].token);
                    assert forall|j: int|
                        0 <= j < list.len() && j != i && has_candidate(
                            views,
                            #[trigger] list[j].token,
                        ) implies ranks_before(list, j, i as int) by {
                        assert(lists_position(order@, j));
                        let l = choose|l: int| 0 <= l < order@.len() && #[trigger] order@[l] == j;
                        if l > k {
                            assert(!has_candidate(views, list[order@[l] as int].token));
                        }
                        assert(ranks_before(list, order@[l] as int, order@[k as int] as int));
                    }
                    lemma_best_supported_unique(list, views, i as int);
                }
                return Some(candidates[c].clone());
            },
            None => {},
        }
    }
    proof {
        lemma_best_supported(list, views, list.len());
        if best_supported(list, views, list.len()) is Some {
            let b = best_supported(list, views, list.len())->Some_0;
            assert(lists_position(order@, b));
            let l = choose|l: int| 0 <= l < order@.len() && #[trigger] order@[l] == b;
            assert(!has_candidate(views, list[order@[l] as int].token));
        }
    }
    None
}

} // verus!
