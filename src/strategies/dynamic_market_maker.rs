//! Market making across discovered markets that pass liquidity, price,
//! spread and expiry filters, up to a fixed number of tokens per tick.

use vstd::prelude::*;
use crate::decimal::{Decimal, MAX_RAW, SCALE, div_raw};
use crate::orderbook::level_ok;
use crate::position::size_for;
use crate::strategy::{QuoteParams, Signal, StrategyContext, book_for, compute_quotes, mid_of, push_quote_block, quote_block, quotes};

verus! {

/// Least market liquidity: 10000.
pub const MIN_LIQUIDITY: i128 = 10_000_000_000_000;
/// Lowest mid quoted: 0.20.
pub const MIN_PRICE: i128 = 200_000_000;
/// Highest mid quoted: 0.80.
pub const MAX_PRICE: i128 = 800_000_000;
/// Narrowest market spread, as a fraction of the mid: 0.02.
pub const MIN_SPREAD_PCT: i128 = 20_000_000;
/// Widest market spread, as a fraction of the mid: 0.15.
pub const MAX_SPREAD_PCT: i128 = 150_000_000;
/// Fewest hours to expiry: 24.
pub const MIN_HOURS_TO_EXPIRY: i128 = 24_000_000_000;
/// Most tokens quoted per tick.
pub const MAX_TOKENS: u64 = 5;

/// 150 bps spread, 0.001 skew per share, 75 shares of position limit,
/// orders of 10, and a 0.005 minimum edge.
pub open spec fn dynamic_params() -> QuoteParams {
    QuoteParams {
        spread_bps: 150_000_000_000,
        skew_factor: 1_000_000,
        max_position: 75_000_000_000,
        order_size: 10_000_000_000,
        min_edge: 5_000_000,
    }
}

fn params() -> (r: QuoteParams)
    ensures
        r == dynamic_params(),
        r.wf(),
{
    QuoteParams {
        spread_bps: 150_000_000_000,
        skew_factor: 1_000_000,
        max_position: 75_000_000_000,
        order_size: 10_000_000_000,
        min_edge: 5_000_000,
    }
}

/// The signals for market `i` of the context, or none when it is filtered out.
pub open spec fn market_block(ctx: StrategyContext, i: int) -> Option<Seq<Signal>> {
    let t = ctx.markets@[i].0;
    let m = ctx.markets@[i].1;
    match (m.liquidity, m.hours_until_expiry, book_for(ctx.order_books@, t@)) {
        (Some(l), Some(h), Some(b)) => {
            if l.raw < MIN_LIQUIDITY || h.raw < MIN_HOURS_TO_EXPIRY || b.bids@.len() == 0 || b.asks@.len() == 0 {
                None
            } else {
                let bid = b.bids@[0].price.raw as int;
                let ask = b.asks@[0].price.raw as int;
                let mid = mid_of(bid, ask);
                let spread_pct = div_raw(ask - bid, mid);
                let pos = size_for(ctx.positions.positions(), t@);
                if mid < MIN_PRICE || mid > MAX_PRICE || spread_pct < MIN_SPREAD_PCT || spread_pct > MAX_SPREAD_PCT {
                    None
                } else {
                    match quotes(bid, ask, pos, dynamic_params()) {
                        None => None,
                        Some(q) => Some(quote_block(t, q.0, q.1, pos, dynamic_params())),
                    }
                }
            }
        },
        _ => None,
    }
}

/// Signals for markets `i..`, having quoted `quoted` tokens already.
pub open spec fn blocks_from(ctx: StrategyContext, i: int, quoted: int) -> Seq<Signal>
    decreases ctx.markets@.len() - i,
{
    if i < 0 || i >= ctx.markets@.len() || quoted >= MAX_TOKENS {
        Seq::empty()
    } else {
        match market_block(ctx, i) {
            Some(blk) => blk + blocks_from(ctx, i + 1, quoted + 1),
            None => blocks_from(ctx, i + 1, quoted),
        }
    }
}

pub struct DynamicMarketMaker {
    id: String,
    tokens: Vec<String>,
}

impl DynamicMarketMaker {
    pub closed spec fn id_spec(&self) -> Seq<char> {
        self.id@
    }

    pub closed spec fn tokens_spec(&self) -> Seq<String> {
        self.tokens@
    }

    pub fn new() -> (r: DynamicMarketMaker)
        ensures
            r.id_spec() == "dynamic_market_maker"@,
            r.tokens_spec().len() == 0,
    {
        DynamicMarketMaker { id: String::from_str("dynamic_market_maker"), tokens: Vec::new() }
    }

    pub fn id(&self) -> (r: &str)
        ensures
            r@ == self.id_spec(),
    {
        self.id.as_str()
    }

    /// Tokens come from market discovery, so none are fixed up front.
    pub fn subscriptions(&self) -> (r: Vec<String>)
        ensures
            r@ == self.tokens_spec(),
    {
        let mut out: Vec<String> = Vec::new();
        let mut i: usize = 0;
        while i < self.tokens.len()
            invariant
                0 <= i <= self.tokens@.len(),
                out@ == self.tokens@.take(i as int),
            decreases self.tokens@.len() - i,
        {
            out.push(self.tokens[i].clone());
            i = i + 1;
            assert(out@ =~= self.tokens@.take(i as int));
        }
        assert(self.tokens@.take(i as int) =~= self.tokens@);
        out
    }

    /// Quotes every market that passes the filters, in market order, up to
    /// `MAX_TOKENS` of them; holds when none qualifies.
    pub fn on_tick(&mut self, ctx: &StrategyContext) -> (r: Vec<Signal>)
        requires
            ctx.wf(),
        ensures
            *final(self) == *old(self),
            r@ == if blocks_from(*ctx, 0, 0).len() == 0 { seq![Signal::Hold] } else { blocks_from(*ctx, 0, 0) },
    {
        let mut out: Vec<Signal> = Vec::new();
        let mut quoted: u64 = 0;
        let mut i: usize = 0;
        while i < ctx.markets.len() && quoted < MAX_TOKENS
            invariant
                ctx.wf(),
                0 <= i <= ctx.markets@.len(),
                quoted <= MAX_TOKENS,
                out@ + blocks_from(*ctx, i as int, quoted as int) == blocks_from(*ctx, 0, 0),
            decreases ctx.markets@.len() - i,
        {
            let ghost before = out@;
            let done = quote_market(ctx, i, &mut out);
            proof {
                match market_block(*ctx, i as int) {
                    Some(blk) => {
                        assert(out@ + blocks_from(*ctx, i + 1, quoted + 1) =~= before + blocks_from(*ctx, i as int, quoted as int));
                    },
                    None => {
                        assert(out@ == before);
                    },
                }
            }
            if done {
                quoted = quoted + 1;
            }
            i = i + 1;
        }
        assert(blocks_from(*ctx, i as int, quoted as int) =~= Seq::<Signal>::empty());
        assert(out@ =~= blocks_from(*ctx, 0, 0));
        if out.len() == 0 {
            vec![Signal::Hold]
        } else {
            out
        }
    }

    pub fn on_fill(&mut self, fill: &crate::position::Fill)
        ensures
            *final(self) == *old(self),
    {
    }

    pub fn on_shutdown(&mut self)
        ensures
            *final(self) == *old(self),
    {
    }
}

/// Appends the signals of market `i` when it qualifies; returns whether it did.
fn quote_market(ctx: &StrategyContext, i: usize, out: &mut Vec<Signal>) -> (r: bool)
    requires
        ctx.wf(),
        i < ctx.markets@.len(),
    ensures
        r == market_block(*ctx, i as int).is_some(),
        r ==> final(out)@ == old(out)@ + market_block(*ctx, i as int).unwrap(),
        !r ==> final(out)@ == old(out)@,
{
    let (t, m) = &ctx.markets[i];
    let liquidity = match m.liquidity {
        Some(l) => l,
        None => return false,
    };
    let hours = match m.hours_until_expiry {
        Some(h) => h,
        None => return false,
    };
    let book = match ctx.book(t) {
        Some(b) => b,
        None => return false,
    };
    if liquidity.raw < MIN_LIQUIDITY || hours.raw < MIN_HOURS_TO_EXPIRY || book.bids.len() == 0 || book.asks.len() == 0 {
        return false;
    }
    assert(level_ok(book.bids@[0]) && level_ok(book.asks@[0]));
    let bid = book.bids[0].price;
    let ask = book.asks[0].price;
    assert(crate::decimal::fits((bid.raw + ask.raw) * SCALE)) by (nonlinear_arith)
        requires 0 <= bid.raw + ask.raw <= 2 * MAX_RAW;
    let mid = bid.add(ask).div(Decimal::from_int(2));
    if mid.raw < MIN_PRICE || mid.raw > MAX_PRICE {
        return false;
    }
    assert(crate::decimal::fits((ask.raw - bid.raw) * SCALE)) by (nonlinear_arith)
        requires -MAX_RAW <= ask.raw - bid.raw <= MAX_RAW;
    let spread_pct = ask.sub(bid).div(mid);
    if spread_pct.raw < MIN_SPREAD_PCT || spread_pct.raw > MAX_SPREAD_PCT {
        return false;
    }
    let pos = ctx.positions.size_of(t.as_str());
    let p = params();
    match compute_quotes(bid, ask, pos, &p) {
        None => false,
        Some((qb, qa)) => {
            push_quote_block(out, t, qb, qa, pos, &p);
            true
        },
    }
}

} // verus!
