use vstd::prelude::*;
use crate::opportunity::{candidate, decode_candidate, Opportunity, OpportunityView};
use crate::ranking::{lemma_top_selection, rank_candidates, ranked, views};
use crate::store::{
    find_latest_instant, latest_instant, HistoryRow, MetricRow, PairRow, Store, TokenRow,
};

verus! {

/// Mint address of the reference asset (wrapped SOL) that ranked pairs are quoted
/// against.
pub const REFERENCE_MINT: &'static str = "So11111111111111111111111111111111111111112";

/// Largest number of opportunities returned.
pub const RESULT_CAP: usize = 100;

/// The candidates that the pairs yield at instant `t`, in the pairs' order.
pub open spec fn candidates_of(
    tokens: Seq<TokenRow>,
    history: Seq<HistoryRow>,
    metrics: Seq<MetricRow>,
    reference: Seq<char>,
    t: i64,
    pairs: Seq<PairRow>,
) -> Seq<OpportunityView>
    decreases pairs.len(),
{
    if pairs.len() == 0 {
        Seq::empty()
    } else {
        let rest = candidates_of(tokens, history, metrics, reference, t, pairs.drop_last());
        match candidate(tokens, history, metrics, reference, t, pairs.last()) {
            Some(o) => rest.push(o),
            None => rest,
        }
    }
}

/// The candidates of the store at its latest instant; none for an empty history.
pub open spec fn candidates(
    tokens: Seq<TokenRow>,
    pairs: Seq<PairRow>,
    history: Seq<HistoryRow>,
    metrics: Seq<MetricRow>,
    reference: Seq<char>,
) -> Seq<OpportunityView> {
    match latest_instant(history) {
        Some(t) => candidates_of(tokens, history, metrics, reference, t, pairs),
        None => Seq::empty(),
    }
}

/// The ranked opportunities of a store: its candidates, highest geek ratio first,
/// at most [`RESULT_CAP`] of them.
pub open spec fn opportunities(
    tokens: Seq<TokenRow>,
    pairs: Seq<PairRow>,
    history: Seq<HistoryRow>,
    metrics: Seq<MetricRow>,
    reference: Seq<char>,
) -> Seq<OpportunityView> {
    ranked(candidates(tokens, pairs, history, metrics, reference), RESULT_CAP as nat)
}

fn collect_candidates(store: &Store, reference: &String, t: i64) -> (r: Vec<Opportunity>)
    ensures
        views(r@) == candidates_of(
            store.tokens@,
            store.history@,
            store.metrics@,
            reference@,
            t,
            store.pairs@,
        ),
{
    let ghost pairs = store.pairs@;
    let n = store.pairs.len();
    let mut out: Vec<Opportunity> = Vec::new();
    let mut i: usize = 0;
    while i < n
        invariant
            i <= n == pairs.len(),
            pairs == store.pairs@,
            views(out@) == candidates_of(
                store.tokens@,
                store.history@,
                store.metrics@,
                reference@,
                t,
                pairs.subrange(0, i as int),
            ),
        decreases n - i,
    {
        let ghost prefix = pairs.subrange(0, i as int + 1);
        assert(prefix.drop_last() =~= pairs.subrange(0, i as int));
        assert(prefix.last() == pairs[i as int]);
        match decode_candidate(
            &store.tokens,
            &store.history,
            &store.metrics,
            reference,
            t,
            &store.pairs[i],
        ) {
            Some(o) => {
                let ghost before = out@;
                out.push(o);
                assert(views(out@) =~= views(before).push(o@));
            },
            None => {},
        }
        i = i + 1;
    }
    assert(pairs.subrange(0, n as int) =~= pairs);
    out
}

/// Ranks the pairs of the store quoted against `reference`: the pairs observed at
/// the store's latest instant with liquidity above the floor and a metric stamped
/// with that instant, highest geek ratio first and, among equal ratios, in the order
/// of `store.pairs`; at most [`RESULT_CAP`]. Rows that do not decode are left out.
pub fn rank_opportunities(store: &Store, reference: &str) -> (r: Vec<Opportunity>)
    ensures
        views(r@) == opportunities(
            store.tokens@,
            store.pairs@,
            store.history@,
            store.metrics@,
            reference@,
        ),
{
    let reference = reference.to_owned();
    match find_latest_instant(&store.history) {
        Some(t) => {
            let c = collect_candidates(store, &reference, t);
            rank_candidates(&c, RESULT_CAP)
        },
        None => {
            proof {
                lemma_top_selection(Seq::<OpportunityView>::empty(), RESULT_CAP as nat);
            }
            let r: Vec<Opportunity> = Vec::new();
            assert(views(r@) =~= ranked(Seq::<OpportunityView>::empty(), RESULT_CAP as nat));
            r
        },
    }
}

/// The opportunity ranking for the reference asset [`REFERENCE_MINT`].
pub fn select_opportunities(store: &Store) -> (r: Vec<Opportunity>)
    ensures
        views(r@) == opportunities(
            store.tokens@,
            store.pairs@,
            store.history@,
            store.metrics@,
            REFERENCE_MINT@,
        ),
{
    rank_opportunities(store, REFERENCE_MINT)
}

} // verus!
