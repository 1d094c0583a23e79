use opportunity_rank::decimal::SCALE;
use opportunity_rank::engine::{rank_opportunities, select_opportunities, REFERENCE_MINT, RESULT_CAP};
use opportunity_rank::error::QueryError;
use opportunity_rank::opportunity::Opportunity;
use opportunity_rank::store::{find_latest_instant, HistoryRow, MetricRow, PairRow, Store, TokenRow};

const T1: i64 = 1_700_000_000_000_000;
const T2: i64 = 1_700_000_060_000_000;

fn empty_store() -> Store {
    Store {
        tokens: vec![
            TokenRow { id: 1, mint: REFERENCE_MINT.to_string() },
            TokenRow { id: 2, mint: "USDC".to_string() },
            TokenRow { id: 3, mint: "BONK".to_string() },
        ],
        pairs: Vec::new(),
        history: Vec::new(),
        metrics: Vec::new(),
    }
}

fn address(id: i64) -> String {
    format!("pair{:04}", id)
}

/// Adds a pair quoted against the tokens `x` and `y`, observed at `t` with the given
/// liquidity and geek ratio texts.
fn add_pair(s: &mut Store, id: i64, x: i64, y: i64, t: i64, liquidity: &str, ratio: &str) {
    s.pairs.push(PairRow {
        id,
        name: Some(format!("P-{}", id)),
        pair_address: address(id),
        bin_step: Some(25),
        base_fee_percentage: Some("0.25".to_string()),
        mint_x_id: x,
        mint_y_id: y,
    });
    s.history.push(HistoryRow { pair_id: id, liquidity: Some(liquidity.to_string()), created_at: t });
    s.metrics.push(MetricRow {
        pair_address: address(id),
        dttm: t,
        pct_geek_fees_liquidity_24h: Some(ratio.to_string()),
    });
}

fn addresses(r: &[Opportunity]) -> Vec<String> {
    r.iter().map(|o| o.pair_address.clone()).collect()
}

#[test]
fn only_pairs_at_latest_instant_appear() {
    let mut s = empty_store();
    add_pair(&mut s, 1, 1, 2, T1, "90000", "9");
    for k in 0..5 {
        s.history.push(HistoryRow { pair_id: 1, liquidity: Some("90000".to_string()), created_at: T1 - k });
    }
    add_pair(&mut s, 2, 2, 1, T2, "30000", "1");
    let r = select_opportunities(&s);
    assert_eq!(addresses(&r), vec![address(2)]);
}

#[test]
fn metric_must_match_the_instant() {
    let mut s = empty_store();
    add_pair(&mut s, 1, 1, 2, T2, "90000", "9");
    s.metrics[0].dttm = T1;
    assert!(select_opportunities(&s).is_empty());
}

#[test]
fn pairs_without_reference_asset_are_excluded() {
    let mut s = empty_store();
    add_pair(&mut s, 1, 2, 3, T2, "1000000000", "99");
    add_pair(&mut s, 2, 3, 1, T2, "30000", "1");
    let r = select_opportunities(&s);
    assert_eq!(addresses(&r), vec![address(2)]);
}

#[test]
fn reference_asset_can_be_given() {
    let mut s = empty_store();
    add_pair(&mut s, 1, 2, 3, T2, "30000", "2");
    add_pair(&mut s, 2, 3, 1, T2, "30000", "1");
    let r = rank_opportunities(&s, "USDC");
    assert_eq!(addresses(&r), vec![address(1)]);
}

#[test]
fn pair_with_unknown_token_is_excluded() {
    let mut s = empty_store();
    add_pair(&mut s, 1, 1, 9, T2, "30000", "2");
    assert!(select_opportunities(&s).is_empty());
}

#[test]
fn liquidity_floor_is_strict() {
    let mut s = empty_store();
    add_pair(&mut s, 1, 1, 2, T2, "20000", "5");
    add_pair(&mut s, 2, 1, 2, T2, "20000.01", "4");
    let r = select_opportunities(&s);
    assert_eq!(addresses(&r), vec![address(2)]);
    assert_eq!(r[0].liquidity, 20_000_010_000);
}

#[test]
fn derived_values_are_exact() {
    let mut s = empty_store();
    add_pair(&mut s, 1, 1, 2, T2, "50000", "10.0");
    let r = select_opportunities(&s);
    assert_eq!(r.len(), 1);
    let o = &r[0];
    assert_eq!(o.name, "P-1");
    assert_eq!(o.bin_step, 25);
    assert_eq!(o.base_fee_percentage, 250_000);
    assert_eq!(o.liquidity, 50_000 * SCALE);
    assert_eq!(o.geek_ratio, 10 * SCALE);
    assert_eq!(o.fees_24h, 5_000 * SCALE as u128);
    assert!(((o.fees_24h as f64) / (SCALE as f64) - 5000.0).abs() < 1e-9);
}

#[test]
fn ranked_by_geek_ratio_descending() {
    let mut s = empty_store();
    add_pair(&mut s, 1, 1, 2, T2, "30000", "5.0");
    add_pair(&mut s, 2, 1, 2, T2, "30000", "9.0");
    add_pair(&mut s, 3, 1, 2, T2, "30000", "7.0");
    let r = select_opportunities(&s);
    let ratios: Vec<u64> = r.iter().map(|o| o.geek_ratio).collect();
    assert_eq!(ratios, vec![9 * SCALE, 7 * SCALE, 5 * SCALE]);
}

#[test]
fn equal_ratios_keep_pair_order() {
    let mut s = empty_store();
    add_pair(&mut s, 3, 1, 2, T2, "30000", "2");
    add_pair(&mut s, 1, 1, 2, T2, "30000", "2");
    add_pair(&mut s, 2, 1, 2, T2, "30000", "3");
    let r = select_opportunities(&s);
    assert_eq!(addresses(&r), vec![address(2), address(3), address(1)]);
}

#[test]
fn result_is_capped_at_the_best_hundred() {
    let mut s = empty_store();
    for id in 0..150 {
        add_pair(&mut s, id, 1, 2, T2, "30000", &format!("{}", id));
    }
    let r = select_opportunities(&s);
    assert_eq!(r.len(), RESULT_CAP);
    assert_eq!(r.len(), 100);
    for (k, o) in r.iter().enumerate() {
        assert_eq!(o.geek_ratio, (149 - k as u64) * SCALE);
    }
}

#[test]
fn malformed_row_is_dropped() {
    let mut s = empty_store();
    for id in 0..5 {
        add_pair(&mut s, id, 1, 2, T2, "30000", "1");
    }
    s.history[2].liquidity = Some("not a number".to_string());
    s.pairs[4].name = None;
    s.pairs[3].bin_step = Some(1 << 40);
    let r = select_opportunities(&s);
    assert_eq!(addresses(&r), vec![address(0), address(1)]);
}

#[test]
fn one_malformed_field_among_many() {
    let mut s = empty_store();
    for id in 0..10 {
        add_pair(&mut s, id, 1, 2, T2, "30000", "1");
    }
    s.metrics[6].pct_geek_fees_liquidity_24h = Some("1,5".to_string());
    let r = select_opportunities(&s);
    assert_eq!(r.len(), 9);
    assert!(!addresses(&r).contains(&address(6)));
}

#[test]
fn no_eligible_pair_gives_empty_result() {
    let mut s = empty_store();
    add_pair(&mut s, 1, 2, 3, T2, "30000", "1");
    add_pair(&mut s, 2, 1, 2, T2, "100", "1");
    assert!(select_opportunities(&s).is_empty());
    assert!(select_opportunities(&empty_store()).is_empty());
}

#[test]
fn latest_instant_is_global_maximum() {
    let h = vec![
        HistoryRow { pair_id: 1, liquidity: None, created_at: T1 },
        HistoryRow { pair_id: 2, liquidity: None, created_at: T2 },
        HistoryRow { pair_id: 1, liquidity: None, created_at: T1 + 1 },
    ];
    assert_eq!(find_latest_instant(&h), Some(T2));
    assert_eq!(find_latest_instant(&Vec::new()), None);
}

#[test]
fn error_labels() {
    assert_eq!(QueryError::ConnectionFailed.label(), "DB Connection Error");
    assert_eq!(QueryError::QueryPreparationFailed.label(), "Query Prep Error");
    assert_eq!(QueryError::QueryExecutionFailed.label(), "Query Exec Error");
}
