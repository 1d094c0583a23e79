use vstd::prelude::*;
use crate::opportunity::{Opportunity, OpportunityView};
use crate::store::{first_where, lemma_first_where_found};

verus! {

/// Candidate `i` comes before candidate `j`: a higher geek ratio first, and among
/// equal ratios the earlier candidate first.
pub open spec fn ranks_before(c: Seq<OpportunityView>, i: int, j: int) -> bool {
    c[i].geek_ratio > c[j].geek_ratio || (c[i].geek_ratio == c[j].geek_ratio && i < j)
}

pub open spec fn min_len(cap: nat, n: nat) -> nat {
    if cap < n {
        cap
    } else {
        n
    }
}

/// `sel` lists, best first, the `cap` best candidates of `c` (all of them when
/// there are fewer); every candidate left out ranks after every one chosen.
pub open spec fn is_top_selection(c: Seq<OpportunityView>, sel: Seq<int>, cap: nat) -> bool {
    &&& sel.len() == min_len(cap, c.len())
    &&& forall|k: int| 0 <= k < sel.len() ==> 0 <= #[trigger] sel[k] < c.len()
    &&& forall|k1: int, k2: int|
        0 <= k1 < k2 < sel.len() ==> ranks_before(c, #[trigger] sel[k1], #[trigger] sel[k2])
    &&& forall|j: int, k: int|
        0 <= j < c.len() && !sel.contains(j) && 0 <= k < sel.len() ==> #[trigger] ranks_before(
            c,
            sel[k],
            j,
        )
}

/// The indices of the `cap` best candidates, best first.
pub open spec fn top_selection(c: Seq<OpportunityView>, cap: nat) -> Seq<int> {
    choose|sel: Seq<int>| #[trigger] is_top_selection(c, sel, cap)
}

/// The `cap` best candidates, best first.
pub open spec fn ranked(c: Seq<OpportunityView>, cap: nat) -> Seq<OpportunityView> {
    top_selection(c, cap).map_values(|k: int| c[k])
}

/// `order` lists every index below `n`, each once, best first.
pub open spec fn is_ranking(c: Seq<OpportunityView>, order: Seq<int>, n: int) -> bool {
    &&& order.len() == n
    &&& forall|k: int| 0 <= k < order.len() ==> 0 <= #[trigger] order[k] < n
    &&& forall|k1: int, k2: int|
        0 <= k1 < k2 < order.len() ==> ranks_before(c, #[trigger] order[k1], #[trigger] order[k2])
    &&& forall|x: int| 0 <= x < n ==> #[trigger] order.contains(x)
}

/// There is at most one top selection.
pub proof fn lemma_top_selection_unique(
    c: Seq<OpportunityView>,
    cap: nat,
    s1: Seq<int>,
    s2: Seq<int>,
)
    requires
        is_top_selection(c, s1, cap),
        is_top_selection(c, s2, cap),
    ensures
        s1 == s2,
{
    if s1.len() > 0 {
        lemma_selections_agree(c, cap, s1, s2, s1.len() - 1);
    }
    assert(s1 =~= s2);
}

proof fn lemma_selections_agree(
    c: Seq<OpportunityView>,
    cap: nat,
    s1: Seq<int>,
    s2: Seq<int>,
    k: int,
)
    requires
        is_top_selection(c, s1, cap),
        is_top_selection(c, s2, cap),
        0 <= k < s1.len(),
    ensures
        forall|i: int| 0 <= i <= k ==> s1[i] == s2[i],
    decreases k,
{
    if k > 0 {
        lemma_selections_agree(c, cap, s1, s2, k - 1);
    }
    lemma_position_agrees(c, cap, s1, s2, k);
    lemma_position_agrees(c, cap, s2, s1, k);
}

proof fn lemma_position_agrees(
    c: Seq<OpportunityView>,
    cap: nat,
    s1: Seq<int>,
    s2: Seq<int>,
    k: int,
)
    requires
        is_top_selection(c, s1, cap),
        is_top_selection(c, s2, cap),
        0 <= k < s1.len(),
        forall|i: int| 0 <= i < k ==> s1[i] == s2[i],
    ensures
        !ranks_before(c, s1[k], s2[k]) || s1[k] == s2[k],
{
    let a = s1[k];
    let b = s2[k];
    if a != b && ranks_before(c, a, b) {
        if s2.contains(a) {
            let q = choose|q: int| 0 <= q < s2.len() && s2[q] == a;
            if q < k {
                assert(s1[q] == a);
                assert(ranks_before(c, s1[q], s1[k]));
            } else if q > k {
                assert(ranks_before(c, s2[k], s2[q]));
            }
        } else {
            assert(ranks_before(c, s2[k], a));
        }
    }
}

proof fn lemma_insert_step(c: Seq<OpportunityView>, order: Seq<int>, j: int, p: int)
    requires
        is_ranking(c, order, j),
        0 <= j < c.len(),
        0 <= p <= j,
        forall|k: int| 0 <= k < p ==> c[#[trigger] order[k]].geek_ratio >= c[j].geek_ratio,
        p < j ==> c[order[p]].geek_ratio < c[j].geek_ratio,
    ensures
        is_ranking(c, order.insert(p, j), j + 1),
{
    let o2 = order.insert(p, j);
    assert forall|k: int| 0 <= k < o2.len() implies 0 <= #[trigger] o2[k] < j + 1 by {
        if k > p {
            assert(o2[k] == order[k - 1]);
        }
    }
    assert forall|k1: int, k2: int| 0 <= k1 < k2 < o2.len() implies ranks_before(
        c,
        #[trigger] o2[k1],
        #[trigger] o2[k2],
    ) by {
        if k2 < p {
        } else if k2 == p {
            assert(c[order[k1]].geek_ratio >= c[j].geek_ratio);
        } else if k1 < p {
            assert(o2[k2] == order[k2 - 1]);
            assert(o2[k1] == order[k1]);
        } else if k1 == p {
            assert(o2[k2] == order[k2 - 1]);
            if k2 - 1 > p {
                assert(ranks_before(c, order[p], order[k2 - 1]));
            }
        } else {
            assert(o2[k2] == order[k2 - 1]);
            assert(o2[k1] == order[k1 - 1]);
        }
    }
    assert forall|x: int| 0 <= x < j + 1 implies #[trigger] o2.contains(x) by {
        if x == j {
            assert(o2[p] == j);
        } else {
            assert(order.contains(x));
            let q = choose|q: int| 0 <= q < order.len() && order[q] == x;
            if q < p {
                assert(o2[q] == x);
            } else {
                assert(o2[q + 1] == x);
            }
        }
    }
}

pub open spec fn below_ratio(c: Seq<OpportunityView>, g: u64) -> spec_fn(int) -> bool {
    |x: int| c[x].geek_ratio < g
}

proof fn lemma_ranking_exists(c: Seq<OpportunityView>, n: int)
    requires
        0 <= n <= c.len(),
    ensures
        exists|order: Seq<int>| #[trigger] is_ranking(c, order, n),
    decreases n,
{
    if n == 0 {
        assert(is_ranking(c, Seq::<int>::empty(), 0));
    } else {
        lemma_ranking_exists(c, n - 1);
        let order = choose|order: Seq<int>| #[trigger] is_ranking(c, order, n - 1);
        let f = below_ratio(c, c[n - 1].geek_ratio);
        lemma_first_where_found(order, f);
        let p = match first_where(order, f) {
            Some(i) => i,
            None => order.len() as int,
        };
        assert forall|k: int| 0 <= k < p implies c[#[trigger] order[k]].geek_ratio >= c[n
            - 1].geek_ratio by {
            assert(!f(order[k]));
        }
        lemma_insert_step(c, order, n - 1, p);
    }
}

proof fn lemma_prefix_is_top(c: Seq<OpportunityView>, order: Seq<int>, cap: nat)
    requires
        is_ranking(c, order, c.len() as int),
    ensures
        is_top_selection(c, order.take(min_len(cap, c.len()) as int), cap),
{
    let m = min_len(cap, c.len()) as int;
    let sel = order.take(m);
    assert forall|j: int, k: int|
        0 <= j < c.len() && !sel.contains(j) && 0 <= k < sel.len() implies #[trigger] ranks_before(
        c,
        sel[k],
        j,
    ) by {
        assert(order.contains(j));
        let q = choose|q: int| 0 <= q < order.len() && order[q] == j;
        if q < m {
            assert(sel[q] == j);
        }
        assert(ranks_before(c, order[k], order[q]));
    }
}

/// A top selection exists for every list of candidates and cap.
pub proof fn lemma_top_selection(c: Seq<OpportunityView>, cap: nat)
    ensures
        is_top_selection(c, top_selection(c, cap), cap),
{
    lemma_ranking_exists(c, c.len() as int);
    let order = choose|order: Seq<int>| #[trigger] is_ranking(c, order, c.len() as int);
    lemma_prefix_is_top(c, order, cap);
}

pub open spec fn views(v: Seq<Opportunity>) -> Seq<OpportunityView> {
    v.map_values(|o: Opportunity| o@)
}

/// Orders the candidates by geek ratio, highest first, keeping the given order
/// among equal ratios, and keeps the first `cap`.
pub fn rank_candidates(candidates: &Vec<Opportunity>, cap: usize) -> (r: Vec<Opportunity>)
    ensures
        views(r@) == ranked(views(candidates@), cap as nat),
{
    let ghost c = views(candidates@);
    let n = candidates.len();
    let mut order: Vec<usize> = Vec::new();
    let mut j: usize = 0;
    while j < n
        invariant
            j <= n == candidates@.len() == c.len(),
            c == views(candidates@),
            is_ranking(c, order@.map_values(|x: usize| x as int), j as int),
        decreases n - j,
    {
        let ghost o = order@.map_values(|x: usize| x as int);
        let g = candidates[j].geek_ratio;
        let mut p: usize = 0;
        assert forall|k: int| 0 <= k < order@.len() implies #[trigger] order@[k] < j by {
            assert(o[k] == order@[k] as int);
        }
        while p < order.len() && candidates[order[p]].geek_ratio >= g
            invariant
                j < n == candidates@.len() == c.len(),
                c == views(candidates@),
                o == order@.map_values(|x: usize| x as int),
                is_ranking(c, o, j as int),
                p <= order.len(),
                g == c[j as int].geek_ratio,
                forall|k: int| 0 <= k < p ==> c[#[trigger] o[k]].geek_ratio >= g,
                forall|k: int| 0 <= k < order@.len() ==> #[trigger] order@[k] < j,
            decreases order.len() - p,
        {
            assert(o[p as int] == order@[p as int] as int);
            p = p + 1;
        }
        proof {
            if p < j {
                assert(o[p as int] == order@[p as int] as int);
            }
            lemma_insert_step(c, o, j as int, p as int);
        }
        order.insert(p, j);
        assert(order@.map_values(|x: usize| x as int) =~= o.insert(p as int, j as int));
        j = j + 1;
    }
    let ghost o = order@.map_values(|x: usize| x as int);
    let m = if cap < n {
        cap
    } else {
        n
    };
    proof {
        lemma_prefix_is_top(c, o, cap as nat);
    }
    let mut r: Vec<Opportunity> = Vec::new();
    let mut k: usize = 0;
    while k < m
        invariant
            m == min_len(cap as nat, n as nat) <= n == candidates@.len() == c.len(),
            c == views(candidates@),
            o == order@.map_values(|x: usize| x as int),
            is_ranking(c, o, n as int),
            k <= m,
            views(r@) == o.take(k as int).map_values(|i: int| c[i]),
        decreases m - k,
    {
        assert(o[k as int] == order@[k as int] as int);
        assert(order@[k as int] < n);
        let item = candidates[order[k]].duplicate();
        assert(item@ == c[o[k as int]]);
        let ghost before = r@;
        r.push(item);
        assert(views(r@) =~= views(before).push(c[o[k as int]]));
        assert(o.take(k + 1).map_values(|i: int| c[i]) =~= o.take(k as int).map_values(
            |i: int| c[i],
        ).push(c[o[k as int]]));
        k = k + 1;
    }
    proof {
        let sel = o.take(m as int);
        lemma_top_selection(c, cap as nat);
        lemma_top_selection_unique(c, cap as nat, sel, top_selection(c, cap as nat));
    }
    r
}

} // verus!
