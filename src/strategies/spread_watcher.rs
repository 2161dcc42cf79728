//! Bids at the mid of one token whenever its spread is very wide.

use vstd::prelude::*;
use crate::decimal::{Decimal, MAX_RAW, SCALE};
use crate::orderbook::level_ok;
use crate::strategy::{Signal, StrategyContext, Urgency, book_for, mid_of};

verus! {

/// Spread above which the watcher bids: 0.50.
pub const WIDE_SPREAD: i128 = 500_000_000;

/// What the watcher emits for token `t`.
pub open spec fn spread_watcher_signals(ctx: StrategyContext, t: String) -> Seq<Signal> {
    match book_for(ctx.order_books@, t@) {
        Some(b) => if b.bids@.len() == 0 || b.asks@.len() == 0 {
            Seq::empty()
        } else {
            let bid = b.bids@[0].price.raw as int;
            let ask = b.asks@[0].price.raw as int;
            if ask - bid > WIDE_SPREAD {
                seq![Signal::Buy { token_id: t, price: Decimal { raw: mid_of(bid, ask) as i128 }, size: Decimal { raw: SCALE }, urgency: Urgency::Low }]
            } else {
                Seq::empty()
            }
        },
        None => Seq::empty(),
    }
}

pub struct SpreadWatcher {
    id: String,
    tokens: Vec<String>,
}

impl SpreadWatcher {
    pub closed spec fn wf(&self) -> bool {
        self.tokens@.len() == 1
    }

    pub closed spec fn token(&self) -> String {
        self.tokens@[0]
    }

    pub closed spec fn id_spec(&self) -> Seq<char> {
        self.id@
    }

    pub fn new() -> (r: SpreadWatcher)
        ensures
            r.wf(),
            r.id_spec() == "spread_watcher"@,
            r.token()@ == "41583919731714354912849507182398941127545694257513505398713274521520484370640"@,
    {
        SpreadWatcher {
            id: String::from_str("spread_watcher"),
            tokens: vec![String::from_str("41583919731714354912849507182398941127545694257513505398713274521520484370640")],
        }
    }

    pub fn id(&self) -> (r: &str)
        ensures
            r@ == self.id_spec(),
    {
        self.id.as_str()
    }

    pub fn subscriptions(&self) -> (r: Vec<String>)
        requires
            self.wf(),
        ensures
            r@ == seq![self.token()],
    {
        vec![self.tokens[0].clone()]
    }

    /// One buy of a single share at the mid when the spread exceeds 0.50;
    /// nothing otherwise.
    pub fn on_tick(&mut self, ctx: &StrategyContext) -> (r: Vec<Signal>)
        requires
            old(self).wf(),
            ctx.wf(),
        ensures
            *final(self) == *old(self),
            r@ == spread_watcher_signals(*ctx, old(self).token()),
    {
        let t = &self.tokens[0];
        let mut out: Vec<Signal> = Vec::new();
        let book = match ctx.book(t) {
            Some(b) => b,
            None => return out,
        };
        if book.bids.len() == 0 || book.asks.len() == 0 {
            return out;
        }
        assert(level_ok(book.bids@[0]) && level_ok(book.asks@[0]));
        let bid = book.bids[0].price;
        let ask = book.asks[0].price;
        let spread = ask.sub(bid);
        if spread.raw > WIDE_SPREAD {
            assert(crate::decimal::fits((bid.raw + ask.raw) * SCALE)) by (nonlinear_arith)
                requires 0 <= bid.raw + ask.raw <= 2 * MAX_RAW;
            let mid = bid.add(ask).div(Decimal::from_int(2));
            out.push(Signal::Buy { token_id: t.clone(), price: mid, size: Decimal::from_int(1), urgency: Urgency::Low });
            assert(out@ =~= spread_watcher_signals(*ctx, self.token()));
        }
        out
    }

    pub fn on_fill(&mut self, fill: &crate::position::Fill)
        ensures
            *final(self) == *old(self),
    {
    }

    pub fn on_shutdown(&mut self)
        ensures
            *final(self) == *old(self),
    {
    }
}

} // verus!
