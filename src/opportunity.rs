use vstd::prelude::*;
use vstd::utf8::encode_utf8;
use crate::decimal::{fixed_of, parse_fixed, SCALE};
use crate::store::{
    find_history, find_metric, find_token_mint, history_at, lemma_first_where_found, measures,
    metric_at, observes, token_mint, HistoryRow, MetricRow, PairRow, TokenRow,
};

verus! {

/// Pairs whose liquidity is at or below this many fixed-point steps (20,000 units)
/// are not ranked.
pub const LIQUIDITY_FLOOR: u64 = 20_000_000_000;

/// One ranked pair. `base_fee_percentage`, `liquidity`, `geek_ratio` and `fees_24h`
/// are fixed-point values in steps of 1 / [`SCALE`].
pub struct Opportunity {
    pub name: String,
    pub pair_address: String,
    pub bin_step: i32,
    pub base_fee_percentage: u64,
    pub liquidity: u64,
    pub fees_24h: u128,
    pub geek_ratio: u64,
}

pub struct OpportunityView {
    pub name: Seq<char>,
    pub pair_address: Seq<char>,
    pub bin_step: i32,
    pub base_fee_percentage: u64,
    pub liquidity: u64,
    pub fees_24h: u128,
    pub geek_ratio: u64,
}

impl View for Opportunity {
    type V = OpportunityView;

    open spec fn view(&self) -> OpportunityView {
        OpportunityView {
            name: self.name@,
            pair_address: self.pair_address@,
            bin_step: self.bin_step,
            base_fee_percentage: self.base_fee_percentage,
            liquidity: self.liquidity,
            fees_24h: self.fees_24h,
            geek_ratio: self.geek_ratio,
        }
    }
}

impl Opportunity {
    /// A field-by-field copy.
    pub fn duplicate(&self) -> (r: Opportunity)
        ensures
            r@ == self@,
    {
        Opportunity {
            name: self.name.clone(),
            pair_address: self.pair_address.clone(),
            bin_step: self.bin_step,
            base_fee_percentage: self.base_fee_percentage,
            liquidity: self.liquidity,
            fees_24h: self.fees_24h,
            geek_ratio: self.geek_ratio,
        }
    }
}

/// Estimated 24h fees: `geek_ratio` percent of `liquidity`, rounded down to a step.
pub open spec fn fees_of(geek_ratio: u64, liquidity: u64) -> nat {
    (geek_ratio as nat * liquidity as nat) / (100 * SCALE as nat)
}

/// Reconstructs the absolute 24h fee estimate from the percentage metric.
pub fn fees_24h(geek_ratio: u64, liquidity: u64) -> (r: u128)
    ensures
        r == fees_of(geek_ratio, liquidity),
{
    let g = geek_ratio as u128;
    let l = liquidity as u128;
    assert(g * l <= 0xffff_ffff_ffff_ffffu128 * 0xffff_ffff_ffff_ffffu128) by (nonlinear_arith)
        requires
            g <= 0xffff_ffff_ffff_ffffu128,
            l <= 0xffff_ffff_ffff_ffffu128,
    ;
    g * l / 100_000_000
}

/// The fixed-point value of optional decimal text.
pub open spec fn text_fixed(text: Option<String>) -> Option<u64> {
    match text {
        Some(s) => fixed_of(encode_utf8(s@)),
        None => None,
    }
}

/// Both tokens of the pair are known and one of them is the reference asset.
pub open spec fn quoted_against(tokens: Seq<TokenRow>, p: PairRow, reference: Seq<char>) -> bool {
    &&& token_mint(tokens, p.mint_x_id) is Some
    &&& token_mint(tokens, p.mint_y_id) is Some
    &&& (token_mint(tokens, p.mint_x_id) == Some(reference) || token_mint(tokens, p.mint_y_id)
        == Some(reference))
}

/// The pair's own fields decode: a name, a bin step that fits an `i32` and a
/// well-formed base fee.
pub open spec fn pair_fields_decode(p: PairRow) -> bool {
    &&& p.name is Some
    &&& p.bin_step matches Some(b) && i32::MIN <= b <= i32::MAX
    &&& text_fixed(p.base_fee_percentage) is Some
}

/// The opportunity that pair `p` yields at instant `t`, if any: it must be quoted
/// against the reference asset, observed at `t` with liquidity above the floor, and
/// have its metric stamped `t`; every field must decode.
pub open spec fn candidate(
    tokens: Seq<TokenRow>,
    history: Seq<HistoryRow>,
    metrics: Seq<MetricRow>,
    reference: Seq<char>,
    t: i64,
    p: PairRow,
) -> Option<OpportunityView> {
    if !quoted_against(tokens, p, reference) || !pair_fields_decode(p) {
        None
    } else {
        match (history_at(history, p.id, t), metric_at(metrics, p.pair_address@, t)) {
            (Some(h), Some(m)) => match (
                text_fixed(history[h].liquidity),
                text_fixed(metrics[m].pct_geek_fees_liquidity_24h),
            ) {
                (Some(liquidity), Some(geek_ratio)) => if liquidity > LIQUIDITY_FLOOR {
                    Some(
                        OpportunityView {
                            name: p.name->0@,
                            pair_address: p.pair_address@,
                            bin_step: p.bin_step->0 as i32,
                            base_fee_percentage: text_fixed(p.base_fee_percentage)->0,
                            liquidity,
                            fees_24h: fees_of(geek_ratio, liquidity) as u128,
                            geek_ratio,
                        },
                    )
                } else {
                    None
                },
                _ => None,
            },
            _ => None,
        }
    }
}

fn parse_text(text: &Option<String>) -> (r: Option<u64>)
    ensures
        r == text_fixed(*text),
{
    match text {
        Some(s) => parse_fixed(s.as_str()),
        None => None,
    }
}

/// Builds the opportunity that a pair yields at instant `t` (see [`candidate`]).
pub fn decode_candidate(
    tokens: &Vec<TokenRow>,
    history: &Vec<HistoryRow>,
    metrics: &Vec<MetricRow>,
    reference: &String,
    t: i64,
    p: &PairRow,
) -> (r: Option<Opportunity>)
    ensures
        match r {
            Some(o) => candidate(tokens@, history@, metrics@, reference@, t, *p) == Some(o@),
            None => candidate(tokens@, history@, metrics@, reference@, t, *p) is None,
        },
{
    let mx = find_token_mint(tokens, p.mint_x_id);
    let my = find_token_mint(tokens, p.mint_y_id);
    let quoted = match (mx, my) {
        (Some(x), Some(y)) => *x == *reference || *y == *reference,
        _ => false,
    };
    if !quoted {
        return None;
    }
    let name = match &p.name {
        Some(n) => n,
        None => return None,
    };
    let bin_step: i32 = match p.bin_step {
        Some(b) => if i32::MIN as i64 <= b && b <= i32::MAX as i64 {
            b as i32
        } else {
            return None;
        },
        None => return None,
    };
    let base_fee = match parse_text(&p.base_fee_percentage) {
        Some(v) => v,
        None => return None,
    };
    let h = match find_history(history, p.id, t) {
        Some(h) => h,
        None => return None,
    };
    let m = match find_metric(metrics, &p.pair_address, t) {
        Some(m) => m,
        None => return None,
    };
    proof {
        lemma_first_where_found(history@, observes(p.id, t));
        lemma_first_where_found(metrics@, measures(p.pair_address@, t));
    }
    let liquidity = match parse_text(&history[h].liquidity) {
        Some(v) => v,
        None => return None,
    };
    let geek_ratio = match parse_text(&metrics[m].pct_geek_fees_liquidity_24h) {
        Some(v) => v,
        None => return None,
    };
    if liquidity <= LIQUIDITY_FLOOR {
        return None;
    }
    let fees = fees_24h(geek_ratio, liquidity);
    Some(
        Opportunity {
            name: name.clone(),
            pair_address: p.pair_address.clone(),
            bin_step,
            base_fee_percentage: base_fee,
            liquidity,
            fees_24h: fees,
            geek_ratio,
        },
    )
}

} // verus!
