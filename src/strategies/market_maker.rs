//! Two-sided quoting around the mid of one token, skewed against inventory.

use vstd::prelude::*;
use crate::orderbook::level_ok;
use crate::position::size_for;
use crate::strategy::{QuoteParams, Signal, StrategyContext, book_for, compute_quotes, push_quote_block, quote_block, quotes};

verus! {

/// The quoting parameters: 200 bps spread, 0.001 skew per share, 100 shares
/// of position limit, orders of 10, and a 0.005 minimum edge.
pub open spec fn market_maker_params() -> QuoteParams {
    QuoteParams {
        spread_bps: 200_000_000_000,
        skew_factor: 1_000_000,
        max_position: 100_000_000_000,
        order_size: 10_000_000_000,
        min_edge: 5_000_000,
    }
}

fn params() -> (r: QuoteParams)
    ensures
        r == market_maker_params(),
        r.wf(),
{
    QuoteParams {
        spread_bps: 200_000_000_000,
        skew_factor: 1_000_000,
        max_position: 100_000_000_000,
        order_size: 10_000_000_000,
        min_edge: 5_000_000,
    }
}

/// What the market maker emits for token `t` in a context.
pub open spec fn market_maker_signals(ctx: StrategyContext, t: String) -> Seq<Signal> {
    match book_for(ctx.order_books@, t@) {
        None => seq![Signal::Hold],
        Some(b) => if b.bids@.len() == 0 || b.asks@.len() == 0 {
            seq![Signal::Hold]
        } else {
            let pos = size_for(ctx.positions.positions(), t@);
            match quotes(b.bids@[0].price.raw as int, b.asks@[0].price.raw as int, pos, market_maker_params()) {
                None => seq![Signal::Hold],
                Some(q) => quote_block(t, q.0, q.1, pos, market_maker_params()),
            }
        },
    }
}

pub struct MarketMaker {
    id: String,
    tokens: Vec<String>,
}

impl MarketMaker {
    pub closed spec fn wf(&self) -> bool {
        self.tokens@.len() == 1
    }

    /// The token the strategy quotes.
    pub closed spec fn token(&self) -> String {
        self.tokens@[0]
    }

    pub closed spec fn id_spec(&self) -> Seq<char> {
        self.id@
    }

    pub fn new() -> (r: MarketMaker)
        ensures
            r.wf(),
            r.id_spec() == "market_maker"@,
            r.token()@ == "21742633143463906290569050155826241533067272736897614950488156847949938836455"@,
    {
        MarketMaker {
            id: String::from_str("market_maker"),
            tokens: vec![String::from_str("21742633143463906290569050155826241533067272736897614950488156847949938836455")],
        }
    }

    pub fn id(&self) -> (r: &str)
        ensures
            r@ == self.id_spec(),
    {
        self.id.as_str()
    }

    /// The tokens to subscribe to before the first tick.
    pub fn subscriptions(&self) -> (r: Vec<String>)
        requires
            self.wf(),
        ensures
            r@ == seq![self.token()],
    {
        vec![self.tokens[0].clone()]
    }

    /// Cancel, then quote a bid and an ask around the mid of the token's
    /// book, skewed against the held position; hold when the book lacks a
    /// side or the edge is too thin.
    pub fn on_tick(&mut self, ctx: &StrategyContext) -> (r: Vec<Signal>)
        requires
            old(self).wf(),
            ctx.wf(),
        ensures
            *final(self) == *old(self),
            r@ == market_maker_signals(*ctx, old(self).token()),
    {
        let t = &self.tokens[0];
        let book = match ctx.book(t) {
            Some(b) => b,
            None => return vec![Signal::Hold],
        };
        if book.bids.len() == 0 || book.asks.len() == 0 {
            return vec![Signal::Hold];
        }
        assert(level_ok(book.bids@[0]) && level_ok(book.asks@[0]));
        let pos = ctx.positions.size_of(t.as_str());
        let p = params();
        match compute_quotes(book.bids[0].price, book.asks[0].price, pos, &p) {
            None => vec![Signal::Hold],
            Some((qb, qa)) => {
                let mut out: Vec<Signal> = Vec::new();
                push_quote_block(&mut out, t, qb, qa, pos, &p);
                assert(out@ =~= quote_block(*t, qb.raw as int, qa.raw as int, pos.raw as int, p));
                out
            },
        }
    }

    pub fn on_fill(&mut self, fill: &crate::position::Fill)
        ensures
            *final(self) == *old(self),
    {
    }

    pub fn on_shutdown(&mut self)
        ensures
            *final(self) == *old(self),
    {
    }
}

} // verus!
