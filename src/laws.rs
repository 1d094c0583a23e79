//! Properties of the opportunity ranking, proved over its specification.
use vstd::prelude::*;
use crate::engine::{candidates, candidates_of, opportunities, RESULT_CAP};
use crate::opportunity::{
    candidate, fees_of, pair_fields_decode, quoted_against, OpportunityView, LIQUIDITY_FLOOR,
};
use crate::ranking::{
    lemma_top_selection, min_len, ranked, ranks_before, top_selection,
};
use crate::store::{
    is_latest, latest_instant, lemma_first_where_found, lemma_latest_instant, measures, metric_at, observes,
    history_at, HistoryRow, MetricRow, PairRow, TokenRow,
};

verus! {

proof fn lemma_candidates_of_source(
    tokens: Seq<TokenRow>,
    history: Seq<HistoryRow>,
    metrics: Seq<MetricRow>,
    reference: Seq<char>,
    t: i64,
    pairs: Seq<PairRow>,
    k: int,
)
    requires
        0 <= k < candidates_of(tokens, history, metrics, reference, t, pairs).len(),
    ensures
        exists|i: int|
            0 <= i < pairs.len() && #[trigger] candidate(
                tokens,
                history,
                metrics,
                reference,
                t,
                pairs[i],
            ) == Some(candidates_of(tokens, history, metrics, reference, t, pairs)[k]),
    decreases pairs.len(),
{
    let rest = candidates_of(tokens, history, metrics, reference, t, pairs.drop_last());
    if k < rest.len() {
        lemma_candidates_of_source(tokens, history, metrics, reference, t, pairs.drop_last(), k);
        let i = choose|i: int|
            0 <= i < pairs.drop_last().len() && #[trigger] candidate(
                tokens,
                history,
                metrics,
                reference,
                t,
                pairs.drop_last()[i],
            ) == Some(rest[k]);
        assert(pairs.drop_last()[i] == pairs[i]);
    } else {
        let i = pairs.len() - 1;
        assert(candidate(tokens, history, metrics, reference, t, pairs[i]) == Some(
            candidates_of(tokens, history, metrics, reference, t, pairs)[k],
        ));
    }
}

proof fn lemma_candidates_of_append(
    tokens: Seq<TokenRow>,
    history: Seq<HistoryRow>,
    metrics: Seq<MetricRow>,
    reference: Seq<char>,
    t: i64,
    a: Seq<PairRow>,
    b: Seq<PairRow>,
)
    ensures
        candidates_of(tokens, history, metrics, reference, t, a + b) == candidates_of(
            tokens,
            history,
            metrics,
            reference,
            t,
            a,
        ) + candidates_of(tokens, history, metrics, reference, t, b),
    decreases b.len(),
{
    if b.len() == 0 {
        assert(a + b =~= a);
        assert(candidates_of(tokens, history, metrics, reference, t, a) + Seq::empty()
            =~= candidates_of(tokens, history, metrics, reference, t, a));
    } else {
        assert((a + b).drop_last() =~= a + b.drop_last());
        assert((a + b).last() == b.last());
        lemma_candidates_of_append(tokens, history, metrics, reference, t, a, b.drop_last());
        let ca = candidates_of(tokens, history, metrics, reference, t, a);
        let cb = candidates_of(tokens, history, metrics, reference, t, b.drop_last());
        match candidate(tokens, history, metrics, reference, t, b.last()) {
            Some(o) => {
                assert((ca + cb).push(o) =~= ca + cb.push(o));
            },
            None => {},
        }
    }
}

/// Each returned opportunity is what some pair of the store yields at the store's
/// latest instant.
proof fn lemma_result_source(
    tokens: Seq<TokenRow>,
    pairs: Seq<PairRow>,
    history: Seq<HistoryRow>,
    metrics: Seq<MetricRow>,
    reference: Seq<char>,
    k: int,
) -> (i: int)
    requires
        0 <= k < opportunities(tokens, pairs, history, metrics, reference).len(),
    ensures
        latest_instant(history) is Some,
        0 <= i < pairs.len(),
        candidate(tokens, history, metrics, reference, latest_instant(history)->0, pairs[i])
            == Some(opportunities(tokens, pairs, history, metrics, reference)[k]),
{
    let c = candidates(tokens, pairs, history, metrics, reference);
    lemma_top_selection(c, RESULT_CAP as nat);
    let sel = top_selection(c, RESULT_CAP as nat);
    assert(0 <= sel[k] < c.len());
    let t = latest_instant(history)->0;
    lemma_candidates_of_source(tokens, history, metrics, reference, t, pairs, sel[k]);
    choose|i: int|
        0 <= i < pairs.len() && #[trigger] candidate(tokens, history, metrics, reference, t, pairs[i])
            == Some(c[sel[k]])
}

/// Latest snapshot: every returned pair was observed at the latest instant of the
/// whole history, and its metric carries that same instant.
pub proof fn lemma_results_at_latest_instant(
    tokens: Seq<TokenRow>,
    pairs: Seq<PairRow>,
    history: Seq<HistoryRow>,
    metrics: Seq<MetricRow>,
    reference: Seq<char>,
    k: int,
)
    requires
        0 <= k < opportunities(tokens, pairs, history, metrics, reference).len(),
    ensures
        ({
            let x = opportunities(tokens, pairs, history, metrics, reference)[k];
            exists|i: int, h: int, m: int|
                0 <= i < pairs.len() && 0 <= h < history.len() && 0 <= m < metrics.len()
                    && pairs[i].pair_address@ == x.pair_address && #[trigger] history[h].pair_id
                    == #[trigger] pairs[i].id && is_latest(history, history[h].created_at)
                    && #[trigger] metrics[m].pair_address@ == x.pair_address && metrics[m].dttm
                    == history[h].created_at
        }),
{
    let i = lemma_result_source(tokens, pairs, history, metrics, reference, k);
    let t = latest_instant(history)->0;
    let p = pairs[i];
    lemma_first_where_found(history, observes(p.id, t));
    lemma_first_where_found(metrics, measures(p.pair_address@, t));
    let h = history_at(history, p.id, t)->0;
    let m = metric_at(metrics, p.pair_address@, t)->0;
    lemma_latest_instant(history);
    assert(is_latest(history, t));
    assert(history[h].pair_id == pairs[i].id);
    assert(metrics[m].pair_address@ == pairs[i].pair_address@);
}

/// Reference-asset filter: every returned pair has both tokens in the store and one
/// of them is the reference asset.
pub proof fn lemma_results_quoted_against_reference(
    tokens: Seq<TokenRow>,
    pairs: Seq<PairRow>,
    history: Seq<HistoryRow>,
    metrics: Seq<MetricRow>,
    reference: Seq<char>,
    k: int,
)
    requires
        0 <= k < opportunities(tokens, pairs, history, metrics, reference).len(),
    ensures
        exists|i: int|
            0 <= i < pairs.len() && #[trigger] pairs[i].pair_address@ == opportunities(
                tokens,
                pairs,
                history,
                metrics,
                reference,
            )[k].pair_address && quoted_against(tokens, pairs[i], reference),
{
    let i = lemma_result_source(tokens, pairs, history, metrics, reference, k);
    assert(pairs[i].pair_address@ == opportunities(tokens, pairs, history, metrics, reference)[k].pair_address);
}

/// Liquidity floor and derived fees: every returned opportunity has liquidity
/// strictly above [`LIQUIDITY_FLOOR`], and its 24h fees are its geek ratio, as a
/// percentage, of its liquidity.
pub proof fn lemma_result_values(
    tokens: Seq<TokenRow>,
    pairs: Seq<PairRow>,
    history: Seq<HistoryRow>,
    metrics: Seq<MetricRow>,
    reference: Seq<char>,
    k: int,
)
    requires
        0 <= k < opportunities(tokens, pairs, history, metrics, reference).len(),
    ensures
        ({
            let x = opportunities(tokens, pairs, history, metrics, reference)[k];
            x.liquidity > LIQUIDITY_FLOOR && x.fees_24h == fees_of(x.geek_ratio, x.liquidity)
        }),
{
    let i = lemma_result_source(tokens, pairs, history, metrics, reference, k);
    let x = opportunities(tokens, pairs, history, metrics, reference)[k];
    let g = x.geek_ratio as nat;
    let l = x.liquidity as nat;
    assert(g * l <= 0xffff_ffff_ffff_ffff * 0xffff_ffff_ffff_ffff) by (nonlinear_arith)
        requires
            g <= 0xffff_ffff_ffff_ffff,
            l <= 0xffff_ffff_ffff_ffff,
    ;
}

/// Ranking order and cap: the result holds the `min(RESULT_CAP, n)` best of the
/// `n` candidates, by geek ratio from highest to lowest, and no candidate left out
/// has a higher ratio than any returned one.
pub proof fn lemma_result_order_and_cap(
    tokens: Seq<TokenRow>,
    pairs: Seq<PairRow>,
    history: Seq<HistoryRow>,
    metrics: Seq<MetricRow>,
    reference: Seq<char>,
)
    ensures
        ({
            let c = candidates(tokens, pairs, history, metrics, reference);
            let r = opportunities(tokens, pairs, history, metrics, reference);
            &&& r.len() == min_len(RESULT_CAP as nat, c.len())
            &&& forall|a: int, b: int|
                0 <= a < b < r.len() ==> #[trigger] r[a].geek_ratio >= #[trigger] r[b].geek_ratio
            &&& forall|j: int, k: int|
                0 <= j < c.len() && !top_selection(c, RESULT_CAP as nat).contains(j) && 0 <= k
                    < r.len() ==> #[trigger] r[k].geek_ratio >= #[trigger] c[j].geek_ratio
        }),
{
    let c = candidates(tokens, pairs, history, metrics, reference);
    let sel = top_selection(c, RESULT_CAP as nat);
    let r = opportunities(tokens, pairs, history, metrics, reference);
    lemma_top_selection(c, RESULT_CAP as nat);
    assert forall|a: int, b: int| 0 <= a < b < r.len() implies #[trigger] r[a].geek_ratio
        >= #[trigger] r[b].geek_ratio by {
        assert(ranks_before(c, sel[a], sel[b]));
    }
    assert forall|j: int, k: int|
        0 <= j < c.len() && !sel.contains(j) && 0 <= k < r.len() implies #[trigger] r[k].geek_ratio
        >= #[trigger] c[j].geek_ratio by {
        assert(ranks_before(c, sel[k], j));
    }
}

/// Partial decode tolerance: a pair row whose own fields do not decode contributes
/// nothing, and the result is the one for the store without that row.
pub proof fn lemma_malformed_pair_dropped(
    tokens: Seq<TokenRow>,
    pairs: Seq<PairRow>,
    history: Seq<HistoryRow>,
    metrics: Seq<MetricRow>,
    reference: Seq<char>,
    i: int,
)
    requires
        0 <= i < pairs.len(),
        !pair_fields_decode(pairs[i]),
    ensures
        opportunities(tokens, pairs, history, metrics, reference) == opportunities(
            tokens,
            pairs.remove(i),
            history,
            metrics,
            reference,
        ),
{
    if let Some(t) = latest_instant(history) {
        let a = pairs.take(i);
        let b = pairs.skip(i + 1);
        let one = seq![pairs[i]];
        assert(pairs =~= (a + one) + b);
        assert(pairs.remove(i) =~= a + b);
        lemma_candidates_of_append(tokens, history, metrics, reference, t, a + one, b);
        lemma_candidates_of_append(tokens, history, metrics, reference, t, a, one);
        lemma_candidates_of_append(tokens, history, metrics, reference, t, a, b);
        assert(one.drop_last() =~= Seq::<PairRow>::empty());
        assert(one.last() == pairs[i]);
        assert(candidates_of(tokens, history, metrics, reference, t, one.drop_last()).len() == 0);
        assert(candidate(tokens, history, metrics, reference, t, pairs[i]) is None);
        assert(candidates_of(tokens, history, metrics, reference, t, one) =~= Seq::empty());
        let ca = candidates_of(tokens, history, metrics, reference, t, a);
        assert(ca + Seq::<OpportunityView>::empty() =~= ca);
    }
}

/// Empty result: where no pair meets every filter at the latest instant, the
/// ranking is empty.
pub proof fn lemma_no_eligible_pair(
    tokens: Seq<TokenRow>,
    pairs: Seq<PairRow>,
    history: Seq<HistoryRow>,
    metrics: Seq<MetricRow>,
    reference: Seq<char>,
)
    requires
        forall|t: i64, i: int|
            latest_instant(history) == Some(t) && 0 <= i < pairs.len() ==> #[trigger] candidate(
                tokens,
                history,
                metrics,
                reference,
                t,
                pairs[i],
            ) is None,
    ensures
        opportunities(tokens, pairs, history, metrics, reference) == Seq::<OpportunityView>::empty(),
{
    let c = candidates(tokens, pairs, history, metrics, reference);
    if c.len() > 0 {
        let t = latest_instant(history)->0;
        lemma_candidates_of_source(tokens, history, metrics, reference, t, pairs, 0);
    }
    lemma_top_selection(c, RESULT_CAP as nat);
    assert(opportunities(tokens, pairs, history, metrics, reference) =~= Seq::<
        OpportunityView,
    >::empty());
}

} // verus!
