use vstd::prelude::*;

verus! {

/// A row of `tokens`: surrogate id and mint address.
pub struct TokenRow {
    pub id: i64,
    pub mint: String,
}

/// A row of `pairs`. Fields that may fail to decode are optional; numeric ones are
/// kept as the store's decimal text.
pub struct PairRow {
    pub id: i64,
    pub name: Option<String>,
    pub pair_address: String,
    pub bin_step: Option<i64>,
    pub base_fee_percentage: Option<String>,
    pub mint_x_id: i64,
    pub mint_y_id: i64,
}

/// A row of `pair_history`: one observation of a pair; `created_at` is an instant
/// in microseconds.
pub struct HistoryRow {
    pub pair_id: i64,
    pub liquidity: Option<String>,
    pub created_at: i64,
}

/// A row of the derived-metric view, keyed by pair address and instant.
pub struct MetricRow {
    pub pair_address: String,
    pub dttm: i64,
    pub pct_geek_fees_liquidity_24h: Option<String>,
}

/// The rows of one read of the store.
pub struct Store {
    pub tokens: Vec<TokenRow>,
    pub pairs: Vec<PairRow>,
    pub history: Vec<HistoryRow>,
    pub metrics: Vec<MetricRow>,
}

/// Index of the first element of `s` that satisfies `f`.
pub open spec fn first_where<A>(s: Seq<A>, f: spec_fn(A) -> bool) -> Option<int>
    decreases s.len(),
{
    if s.len() == 0 {
        None
    } else if f(s[0]) {
        Some(0)
    } else {
        match first_where(s.drop_first(), f) {
            Some(i) => Some(i + 1),
            None => None,
        }
    }
}

pub proof fn lemma_first_where<A>(s: Seq<A>, f: spec_fn(A) -> bool, i: int)
    requires
        0 <= i <= s.len(),
        forall|j: int| 0 <= j < i ==> !f(#[trigger] s[j]),
    ensures
        i < s.len() && f(s[i]) ==> first_where(s, f) == Some(i),
        i == s.len() ==> first_where(s, f) is None,
    decreases s.len(),
{
    if s.len() > 0 && i > 0 {
        assert forall|j: int| 0 <= j < i - 1 implies !f(#[trigger] s.drop_first()[j]) by {
            assert(s.drop_first()[j] == s[j + 1]);
        }
        assert(!f(s[0]));
        lemma_first_where(s.drop_first(), f, i - 1);
    }
}

pub proof fn lemma_first_where_found<A>(s: Seq<A>, f: spec_fn(A) -> bool)
    ensures
        first_where(s, f) matches Some(i) ==> 0 <= i < s.len() && f(s[i]) && forall|j: int|
            0 <= j < i ==> !f(#[trigger] s[j]),
        first_where(s, f) is None ==> forall|j: int| 0 <= j < s.len() ==> !f(#[trigger] s[j]),
    decreases s.len(),
{
    if s.len() > 0 {
        lemma_first_where_found(s.drop_first(), f);
        assert forall|j: int| 1 <= j < s.len() implies s[j] == #[trigger] s.drop_first()[j - 1] by {}
        if first_where(s, f) is None {
            assert forall|j: int| 0 <= j < s.len() implies !f(#[trigger] s[j]) by {
                if j > 0 {
                    assert(s[j] == s.drop_first()[j - 1]);
                }
            }
        }
        if let Some(i) = first_where(s, f) {
            if i > 0 {
                assert forall|j: int| 0 <= j < i implies !f(#[trigger] s[j]) by {
                    if j > 0 {
                        assert(s[j] == s.drop_first()[j - 1]);
                    }
                }
            }
        }
    }
}

/// `t` is the largest `created_at` of the history rows.
pub open spec fn is_latest(history: Seq<HistoryRow>, t: i64) -> bool {
    &&& exists|i: int| 0 <= i < history.len() && #[trigger] history[i].created_at == t
    &&& forall|i: int| 0 <= i < history.len() ==> #[trigger] history[i].created_at <= t
}

/// The latest observation instant over the whole history; `None` when it is empty.
pub open spec fn latest_instant(history: Seq<HistoryRow>) -> Option<i64> {
    if history.len() == 0 {
        None
    } else {
        Some(choose|t: i64| is_latest(history, t))
    }
}

/// A non-empty history has a latest instant.
pub proof fn lemma_latest_instant(history: Seq<HistoryRow>)
    ensures
        latest_instant(history) matches Some(t) ==> is_latest(history, t),
{
    if history.len() > 0 {
        lemma_latest_exists(history);
    }
}

proof fn lemma_latest_exists(history: Seq<HistoryRow>)
    requires
        history.len() > 0,
    ensures
        exists|t: i64| is_latest(history, t),
    decreases history.len(),
{
    if history.len() == 1 {
        assert(is_latest(history, history[0].created_at));
    } else {
        let h0 = history.drop_last();
        lemma_latest_exists(h0);
        let t0 = choose|t: i64| is_latest(h0, t);
        let last = history.last().created_at;
        let t = if last > t0 {
            last
        } else {
            t0
        };
        assert forall|i: int| 0 <= i < history.len() implies #[trigger] history[i].created_at
            <= t by {
            if i < history.len() - 1 {
                assert(history[i] == h0[i]);
            }
        }
        if last <= t0 {
            let j = choose|j: int| 0 <= j < h0.len() && #[trigger] h0[j].created_at == t0;
            assert(history[j] == h0[j]);
        }
        assert(is_latest(history, t));
    }
}

/// Finds the latest observation instant of the store, across all pairs.
pub fn find_latest_instant(history: &Vec<HistoryRow>) -> (r: Option<i64>)
    ensures
        r == latest_instant(history@),
{
    let n = history.len();
    if n == 0 {
        return None;
    }
    let mut best: i64 = history[0].created_at;
    let mut i: usize = 1;
    while i < n
        invariant
            1 <= i <= n == history@.len(),
            exists|j: int| 0 <= j < i && #[trigger] history@[j].created_at == best,
            forall|j: int| 0 <= j < i ==> #[trigger] history@[j].created_at <= best,
        decreases n - i,
    {
        if history[i].created_at > best {
            best = history[i].created_at;
        }
        i = i + 1;
    }
    proof {
        assert(is_latest(history@, best));
        let t = choose|t: i64| is_latest(history@, t);
        assert(is_latest(history@, t));
        let j = choose|j: int| 0 <= j < history@.len() && #[trigger] history@[j].created_at == t;
        assert(history@[j].created_at <= best);
    }
    Some(best)
}

pub open spec fn token_has_id(id: i64) -> spec_fn(TokenRow) -> bool {
    |t: TokenRow| t.id == id
}

/// The mint of the first token with surrogate id `id`.
pub open spec fn token_mint(tokens: Seq<TokenRow>, id: i64) -> Option<Seq<char>> {
    match first_where(tokens, token_has_id(id)) {
        Some(i) => Some(tokens[i].mint@),
        None => None,
    }
}

/// Looks up the mint address of a token by its surrogate id.
pub fn find_token_mint(tokens: &Vec<TokenRow>, id: i64) -> (r: Option<&String>)
    ensures
        match r {
            Some(m) => token_mint(tokens@, id) == Some(m@),
            None => token_mint(tokens@, id) is None,
        },
{
    let n = tokens.len();
    let mut i: usize = 0;
    while i < n
        invariant
            i <= n == tokens@.len(),
            forall|j: int| 0 <= j < i ==> !token_has_id(id)(#[trigger] tokens@[j]),
        decreases n - i,
    {
        if tokens[i].id == id {
            proof {
                lemma_first_where(tokens@, token_has_id(id), i as int);
            }
            return Some(&tokens[i].mint);
        }
        i = i + 1;
    }
    proof {
        lemma_first_where(tokens@, token_has_id(id), i as int);
    }
    None
}

pub open spec fn observes(pair_id: i64, t: i64) -> spec_fn(HistoryRow) -> bool {
    |h: HistoryRow| h.pair_id == pair_id && h.created_at == t
}

/// The first history row of pair `pair_id` observed at instant `t`.
pub open spec fn history_at(history: Seq<HistoryRow>, pair_id: i64, t: i64) -> Option<int> {
    first_where(history, observes(pair_id, t))
}

/// Finds the observation of a pair at an instant.
pub fn find_history(history: &Vec<HistoryRow>, pair_id: i64, t: i64) -> (r: Option<usize>)
    ensures
        match r {
            Some(i) => history_at(history@, pair_id, t) == Some(i as int),
            None => history_at(history@, pair_id, t) is None,
        },
{
    let n = history.len();
    let mut i: usize = 0;
    while i < n
        invariant
            i <= n == history@.len(),
            forall|j: int| 0 <= j < i ==> !observes(pair_id, t)(#[trigger] history@[j]),
        decreases n - i,
    {
        if history[i].pair_id == pair_id && history[i].created_at == t {
            proof {
                lemma_first_where(history@, observes(pair_id, t), i as int);
            }
            return Some(i);
        }
        i = i + 1;
    }
    proof {
        lemma_first_where(history@, observes(pair_id, t), i as int);
    }
    None
}

pub open spec fn measures(address: Seq<char>, t: i64) -> spec_fn(MetricRow) -> bool {
    |m: MetricRow| m.pair_address@ == address && m.dttm == t
}

/// The first metric row of the pair at `address` stamped with instant `t`.
pub open spec fn metric_at(metrics: Seq<MetricRow>, address: Seq<char>, t: i64) -> Option<int> {
    first_where(metrics, measures(address, t))
}

/// Finds the derived metric of a pair at an instant; the instant must match exactly.
pub fn find_metric(metrics: &Vec<MetricRow>, address: &String, t: i64) -> (r: Option<usize>)
    ensures
        match r {
            Some(i) => metric_at(metrics@, address@, t) == Some(i as int),
            None => metric_at(metrics@, address@, t) is None,
        },
{
    let n = metrics.len();
    let mut i: usize = 0;
    while i < n
        invariant
            i <= n == metrics@.len(),
            forall|j: int| 0 <= j < i ==> !measures(address@, t)(#[trigger] metrics@[j]),
        decreases n - i,
    {
        if metrics[i].dttm == t && metrics[i].pair_address == *address {
            proof {
                lemma_first_where(metrics@, measures(address@, t), i as int);
            }
            return Some(i);
        }
        i = i + 1;
    }
    proof {
        lemma_first_where(metrics@, measures(address@, t), i as int);
    }
    None
}

} // verus!
