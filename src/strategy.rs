//! Signals, strategy context, and the quoting rules shared by the market makers.

use vstd::prelude::*;
use crate::decimal::{Decimal, MAX_RAW, SCALE, div_raw, mul_raw, min_int, lemma_mul_raw_bound, lemma_trunc_div_bound};
use crate::orderbook::OrderBook;
use crate::position::PositionTracker;

verus! {

/// Opaque priority tag carried with an order signal.
#[derive(Clone, Copy, Debug, PartialEq, Eq, Structural)]
pub enum Urgency {
    Low,
    Medium,
    High,
}

/// What a strategy asks the engine to do.
#[derive(Clone, Debug)]
pub enum Signal {
    Hold,
    Cancel { token_id: String },
    Buy { token_id: String, price: Decimal, size: Decimal, urgency: Urgency },
    Sell { token_id: String, price: Decimal, size: Decimal, urgency: Urgency },
    Shutdown { reason: String },
}

impl Signal {
    /// A copy of the signal.
    pub fn copy(&self) -> (r: Signal)
        ensures
            r == *self,
    {
        match self {
            Signal::Hold => Signal::Hold,
            Signal::Cancel { token_id } => Signal::Cancel { token_id: token_id.clone() },
            Signal::Buy { token_id, price, size, urgency } => Signal::Buy {
                token_id: token_id.clone(),
                price: *price,
                size: *size,
                urgency: *urgency,
            },
            Signal::Sell { token_id, price, size, urgency } => Signal::Sell {
                token_id: token_id.clone(),
                price: *price,
                size: *size,
                urgency: *urgency,
            },
            Signal::Shutdown { reason } => Signal::Shutdown { reason: reason.clone() },
        }
    }
}

/// Metadata of a discovered market, passed to strategies.
#[derive(Clone, Debug)]
pub struct MarketInfo {
    pub question: String,
    pub outcome: String,
    pub slug: String,
    /// Resolution time, Unix milliseconds.
    pub end_date: Option<i64>,
    /// Total liquidity in quote currency.
    pub liquidity: Option<Decimal>,
    pub hours_until_expiry: Option<Decimal>,
}

/// Milliseconds in an hour.
pub const MS_PER_HOUR: i128 = 3_600_000;

/// Hours (fixed-point) from `now_ms` until `end_ms`, truncated toward zero.
pub open spec fn hours_between(now_ms: int, end_ms: int) -> int {
    crate::decimal::trunc_div((end_ms - now_ms) * SCALE, MS_PER_HOUR as int)
}

impl MarketInfo {
    /// Market metadata with its time to expiry measured from `now_ms`.
    pub fn with_liquidity(
        question: String,
        outcome: String,
        slug: String,
        end_date: Option<i64>,
        liquidity: Option<Decimal>,
        now_ms: i64,
    ) -> (r: MarketInfo)
        ensures
            r.question == question,
            r.outcome == outcome,
            r.slug == slug,
            r.end_date == end_date,
            r.liquidity == liquidity,
            match end_date {
                Some(e) => r.hours_until_expiry == Some(Decimal { raw: hours_between(now_ms as int, e as int) as i128 }),
                None => r.hours_until_expiry.is_none(),
            },
    {
        let hours = match end_date {
            Some(e) => {
                let diff = (e as i128) - (now_ms as i128);
                assert(crate::decimal::fits(diff * SCALE)) by (nonlinear_arith)
                    requires -20_000_000_000_000_000_000 <= diff <= 20_000_000_000_000_000_000;
                Some(Decimal { raw: crate::decimal::div_trunc(diff * SCALE, MS_PER_HOUR) })
            },
            None => None,
        };
        MarketInfo { question, outcome, slug, end_date, liquidity, hours_until_expiry: hours }
    }
}

/// A per-tick snapshot handed to strategies.
pub struct StrategyContext {
    /// Unix milliseconds.
    pub timestamp: i64,
    pub order_books: Vec<OrderBook>,
    pub positions: PositionTracker,
    /// Discovered markets keyed by token id, in discovery order.
    pub markets: Vec<(String, MarketInfo)>,
    pub unrealized_pnl: Decimal,
    pub realized_pnl: Decimal,
    pub usdc_balance: Decimal,
}

/// Each token keys at most one market.
pub open spec fn markets_unique(m: Seq<(String, MarketInfo)>) -> bool {
    forall|i: int, j: int| 0 <= i < j < m.len() ==> (#[trigger] m[i]).0@ != (#[trigger] m[j]).0@
}

/// One well-formed book per token.
pub open spec fn books_ok(books: Seq<OrderBook>) -> bool {
    &&& forall|i: int| 0 <= i < books.len() ==> (#[trigger] books[i]).wf()
    &&& forall|i: int, j: int|
        0 <= i < j < books.len() ==> (#[trigger] books[i]).token_id@ != (#[trigger] books[j]).token_id@
}

/// The book of token `t`, if any.
pub open spec fn book_for(books: Seq<OrderBook>, t: Seq<char>) -> Option<OrderBook> {
    if exists|i: int| 0 <= i < books.len() && (#[trigger] books[i]).token_id@ == t {
        Some(books[choose|i: int| 0 <= i < books.len() && (#[trigger] books[i]).token_id@ == t])
    } else {
        None
    }
}

/// Finds the book of a token among books with unique tokens.
pub fn find_book<'a>(books: &'a Vec<OrderBook>, token_id: &String) -> (r: Option<&'a OrderBook>)
    requires
        books_ok(books@),
    ensures
        match r {
            Some(b) => book_for(books@, token_id@) == Some(*b),
            None => book_for(books@, token_id@).is_none(),
        },
        r.is_some() ==> r.unwrap().wf(),
{
    let mut i: usize = 0;
    while i < books.len()
        invariant
            books_ok(books@),
            0 <= i <= books@.len(),
            forall|k: int| 0 <= k < i ==> (#[trigger] books@[k]).token_id@ != token_id@,
        decreases books@.len() - i,
    {
        if books[i].token_id == *token_id {
            proof {
                let s = books@;
                let j = choose|j: int| 0 <= j < s.len() && (#[trigger] s[j]).token_id@ == token_id@;
                if j != i as int {
                    if j < i as int {
                        assert(s[j].token_id@ != s[i as int].token_id@);
                    } else {
                        assert(s[i as int].token_id@ != s[j].token_id@);
                    }
                }
            }
            return Some(&books[i]);
        }
        i = i + 1;
    }
    None
}

impl StrategyContext {
    /// Books unique and well-formed, positions well-formed, each market's
    /// token listed once.
    pub open spec fn wf(&self) -> bool {
        &&& books_ok(self.order_books@)
        &&& self.positions.wf()
        &&& markets_unique(self.markets@)
    }

    /// The book of a token.
    pub fn book(&self, token_id: &String) -> (r: Option<&OrderBook>)
        requires
            self.wf(),
        ensures
            match r {
                Some(b) => book_for(self.order_books@, token_id@) == Some(*b),
                None => book_for(self.order_books@, token_id@).is_none(),
            },
            r.is_some() ==> r.unwrap().wf(),
    {
        find_book(&self.order_books, token_id)
    }
}

/// Quoting parameters of a market maker, as raw fixed-point amounts.
pub struct QuoteParams {
    pub spread_bps: i128,
    pub skew_factor: i128,
    pub max_position: i128,
    pub order_size: i128,
    pub min_edge: i128,
}

impl QuoteParams {
    pub open spec fn wf(&self) -> bool {
        &&& 0 <= self.spread_bps <= 10_000 * SCALE
        &&& 0 <= self.skew_factor <= SCALE
        &&& 0 <= self.max_position <= MAX_RAW
        &&& 0 <= self.order_size <= MAX_RAW
        &&& 0 <= self.min_edge <= SCALE
    }
}

/// Lowest bid a market maker quotes: 0.01.
pub const MIN_QUOTE: i128 = 10_000_000;

/// Highest ask a market maker quotes: 0.99.
pub const MAX_QUOTE: i128 = 990_000_000;

pub open spec fn mid_of(bid: int, ask: int) -> int {
    div_raw(bid + ask, 2 * SCALE)
}

/// Bid and ask quoted around the mid, skewed against the position, before clamping.
pub open spec fn raw_quotes(bid: int, ask: int, pos: int, p: QuoteParams) -> (int, int) {
    let mid = mid_of(bid, ask);
    let half = mul_raw(mid, div_raw(p.spread_bps as int, 20000 * SCALE));
    let skew = mul_raw(pos, p.skew_factor as int);
    ((mid - half) - skew, (mid + half) - skew)
}

/// The clamped quotes, or none when the quoted edge is below twice the minimum edge.
pub open spec fn quotes(bid: int, ask: int, pos: int, p: QuoteParams) -> Option<(int, int)> {
    let q = raw_quotes(bid, ask, pos, p);
    if q.1 - q.0 < mul_raw(p.min_edge as int, 2 * SCALE) {
        None
    } else {
        Some((if q.0 < MIN_QUOTE { MIN_QUOTE as int } else { q.0 }, if q.1 > MAX_QUOTE { MAX_QUOTE as int } else { q.1 }))
    }
}

pub open spec fn buy_size(pos: int, p: QuoteParams) -> int {
    min_int(p.order_size as int, p.max_position - pos)
}

pub open spec fn sell_size(pos: int, p: QuoteParams) -> int {
    min_int(p.order_size as int, p.max_position + pos)
}

/// Cancel, then a buy at the bid unless at the long limit, then a sell at
/// the ask unless at the short limit.
pub open spec fn quote_block(t: String, qb: int, qa: int, pos: int, p: QuoteParams) -> Seq<Signal> {
    let c = seq![Signal::Cancel { token_id: t }];
    let b = if pos < p.max_position && buy_size(pos, p) > 0 {
        seq![Signal::Buy { token_id: t, price: Decimal { raw: qb as i128 }, size: Decimal { raw: buy_size(pos, p) as i128 }, urgency: Urgency::Low }]
    } else {
        Seq::empty()
    };
    let s = if pos > -p.max_position && sell_size(pos, p) > 0 {
        seq![Signal::Sell { token_id: t, price: Decimal { raw: qa as i128 }, size: Decimal { raw: sell_size(pos, p) as i128 }, urgency: Urgency::Low }]
    } else {
        Seq::empty()
    };
    c + b + s
}

/// Computes the clamped quotes for a book's best bid and ask and a position.
pub fn compute_quotes(bid: Decimal, ask: Decimal, pos: Decimal, p: &QuoteParams) -> (r: Option<(Decimal, Decimal)>)
    requires
        0 <= bid.raw <= MAX_RAW,
        0 <= ask.raw <= MAX_RAW,
        -MAX_RAW <= pos.raw <= MAX_RAW,
        p.wf(),
    ensures
        match quotes(bid.raw as int, ask.raw as int, pos.raw as int, *p) {
            Some(q) => r == Some((Decimal { raw: q.0 as i128 }, Decimal { raw: q.1 as i128 })),
            None => r.is_none(),
        },
{
    let two = Decimal::from_int(2);
    assert(crate::decimal::fits((bid.raw + ask.raw) * SCALE)) by (nonlinear_arith)
        requires 0 <= bid.raw + ask.raw <= 2 * MAX_RAW;
    let mid = bid.add(ask).div(two);
    proof {
        lemma_trunc_div_bound((bid.raw + ask.raw) * SCALE, 2 * SCALE, 2 * MAX_RAW * SCALE);
        assert((bid.raw + ask.raw) * SCALE <= 2 * MAX_RAW * SCALE) by (nonlinear_arith)
            requires 0 <= bid.raw + ask.raw <= 2 * MAX_RAW;
        assert(2_000_000_000_000_000_000_000_000_000int / 2_000_000_000int == 1_000_000_000_000_000_000int)
            by (nonlinear_arith);
    }
    let denom = Decimal::from_int(20000);
    assert(crate::decimal::fits(p.spread_bps * SCALE)) by (nonlinear_arith)
        requires 0 <= p.spread_bps <= 10_000 * SCALE;
    let half_pct = Decimal { raw: p.spread_bps }.div(denom);
    proof {
        lemma_trunc_div_bound(p.spread_bps * SCALE, 20000 * SCALE, 10_000 * SCALE * SCALE);
        assert(p.spread_bps * SCALE <= 10_000 * SCALE * SCALE) by (nonlinear_arith)
            requires 0 <= p.spread_bps <= 10_000 * SCALE;
        assert(10_000_000_000_000_000_000_000int / 20_000_000_000_000int == 500_000_000int) by (nonlinear_arith);
        lemma_mul_raw_bound(mid.raw as int, half_pct.raw as int);
        lemma_mul_raw_bound(pos.raw as int, p.skew_factor as int);
    }
    let half = mid.mul(half_pct);
    let skew = pos.mul(Decimal { raw: p.skew_factor });
    assert(-MAX_RAW <= half.raw <= MAX_RAW) by {
        assert(-MAX_RAW * (SCALE / 2) <= mid.raw * half_pct.raw <= MAX_RAW * (SCALE / 2)) by (nonlinear_arith)
            requires -MAX_RAW <= mid.raw <= MAX_RAW, -(SCALE / 2) <= half_pct.raw <= SCALE / 2;
        lemma_trunc_div_bound(mid.raw * half_pct.raw, SCALE as int, MAX_RAW * (SCALE / 2));
    }
    assert(-MAX_RAW <= skew.raw <= MAX_RAW) by {
        assert(-MAX_RAW * SCALE <= pos.raw * p.skew_factor <= MAX_RAW * SCALE) by (nonlinear_arith)
            requires -MAX_RAW <= pos.raw <= MAX_RAW, 0 <= p.skew_factor <= SCALE;
        lemma_trunc_div_bound(pos.raw * p.skew_factor, SCALE as int, MAX_RAW * SCALE);
    }
    let my_bid = mid.sub(half).sub(skew);
    let my_ask = mid.add(half).sub(skew);
    assert(crate::decimal::fits(p.min_edge * two.raw)) by (nonlinear_arith)
        requires 0 <= p.min_edge <= SCALE, two.raw == 2 * SCALE;
    let edge = Decimal { raw: p.min_edge }.mul(two);
    if my_ask.sub(my_bid).raw < edge.raw {
        return None;
    }
    let qb = if my_bid.raw < MIN_QUOTE { Decimal { raw: MIN_QUOTE } } else { my_bid };
    let qa = if my_ask.raw > MAX_QUOTE { Decimal { raw: MAX_QUOTE } } else { my_ask };
    Some((qb, qa))
}

/// Appends the signals of `quote_block` to `out`.
pub fn push_quote_block(out: &mut Vec<Signal>, t: &String, qb: Decimal, qa: Decimal, pos: Decimal, p: &QuoteParams)
    requires
        -MAX_RAW <= pos.raw <= MAX_RAW,
        p.wf(),
    ensures
        final(out)@ == old(out)@ + quote_block(*t, qb.raw as int, qa.raw as int, pos.raw as int, *p),
{
    let ghost start = out@;
    out.push(Signal::Cancel { token_id: t.clone() });
    let remaining_buy = p.max_position - pos.raw;
    let bsize: i128 = if remaining_buy < p.order_size { remaining_buy } else { p.order_size };
    let remaining_sell = p.max_position + pos.raw;
    let ssize: i128 = if remaining_sell < p.order_size { remaining_sell } else { p.order_size };
    let ghost after_cancel = out@;
    if pos.raw < p.max_position && bsize > 0 {
        out.push(Signal::Buy { token_id: t.clone(), price: qb, size: Decimal { raw: bsize }, urgency: Urgency::Low });
    }
    let ghost after_buy = out@;
    if pos.raw > -p.max_position && ssize > 0 {
        out.push(Signal::Sell { token_id: t.clone(), price: qa, size: Decimal { raw: ssize }, urgency: Urgency::Low });
    }
    proof {
        let blk = quote_block(*t, qb.raw as int, qa.raw as int, pos.raw as int, *p);
        assert(out@ =~= start + blk);
    }
}

} // verus!
