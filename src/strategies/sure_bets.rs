//! Buys the near-certain outcome of markets about to resolve.

use vstd::prelude::*;
use crate::decimal::{Decimal, MAX_RAW, SCALE, div_raw, min_int};
use crate::orderbook::level_ok;
use crate::position::size_for;
use crate::strategy::{Signal, StrategyContext, Urgency, book_for};

verus! {

/// Lowest ask bought: 0.95.
pub const MIN_CERTAINTY: i128 = 950_000_000;
/// Most hours to expiry: 48.
pub const MAX_HOURS_TO_EXPIRY: i128 = 48_000_000_000;
/// Least market liquidity: 500.
pub const MIN_LIQUIDITY: i128 = 500_000_000_000;
/// Most shares held per token: 100.
pub const MAX_POSITION_SIZE: i128 = 100_000_000_000;
/// Least expected return, `(1 - ask) / ask`: 0.01.
pub const MIN_EXPECTED_RETURN: i128 = 10_000_000;
/// Smallest order: 10.
pub const MIN_ORDER_SIZE: i128 = 10_000_000_000;
/// Largest order: 50.
pub const MAX_SINGLE_ORDER: i128 = 50_000_000_000;

/// The buy for market `i` of the context, or none when it does not qualify.
pub open spec fn sure_bet(ctx: StrategyContext, i: int) -> Option<Signal> {
    let t = ctx.markets@[i].0;
    let m = ctx.markets@[i].1;
    match (m.end_date, m.hours_until_expiry, m.liquidity, book_for(ctx.order_books@, t@)) {
        (Some(_), Some(h), Some(l), Some(b)) => {
            if h.raw <= 0 || h.raw > MAX_HOURS_TO_EXPIRY || l.raw < MIN_LIQUIDITY || b.asks@.len() == 0 {
                None
            } else {
                let ask = b.asks@[0];
                let cur = size_for(ctx.positions.positions(), t@);
                let size = min_int(min_int(MAX_POSITION_SIZE - cur, ask.size.raw as int), MAX_SINGLE_ORDER as int);
                if ask.price.raw < MIN_CERTAINTY
                    || div_raw(SCALE - ask.price.raw, ask.price.raw as int) < MIN_EXPECTED_RETURN
                    || cur >= MAX_POSITION_SIZE || size < MIN_ORDER_SIZE {
                    None
                } else {
                    Some(Signal::Buy { token_id: t, price: ask.price, size: Decimal { raw: size as i128 }, urgency: Urgency::Medium })
                }
            }
        },
        _ => None,
    }
}

/// Buys for markets `i..`, in market order.
pub open spec fn sure_bets_from(ctx: StrategyContext, i: int) -> Seq<Signal>
    decreases ctx.markets@.len() - i,
{
    if i < 0 || i >= ctx.markets@.len() {
        Seq::empty()
    } else {
        match sure_bet(ctx, i) {
            Some(s) => seq![s] + sure_bets_from(ctx, i + 1),
            None => sure_bets_from(ctx, i + 1),
        }
    }
}

pub struct SureBets {
    id: String,
}

impl SureBets {
    pub closed spec fn id_spec(&self) -> Seq<char> {
        self.id@
    }

    pub fn new() -> (r: SureBets)
        ensures
            r.id_spec() == "sure_bets"@,
    {
        SureBets { id: String::from_str("sure_bets") }
    }

    pub fn id(&self) -> (r: &str)
        ensures
            r@ == self.id_spec(),
    {
        self.id.as_str()
    }

    /// Tokens come from market discovery, so none are fixed up front.
    pub fn subscriptions(&self) -> (r: Vec<String>)
        ensures
            r@.len() == 0,
    {
        Vec::new()
    }

    /// Buys the best ask of each qualifying market, sized by the room left
    /// under the position cap, the ask's size and the order cap; holds when
    /// no market qualifies.
    pub fn on_tick(&mut self, ctx: &StrategyContext) -> (r: Vec<Signal>)
        requires
            ctx.wf(),
        ensures
            *final(self) == *old(self),
            r@ == if sure_bets_from(*ctx, 0).len() == 0 { seq![Signal::Hold] } else { sure_bets_from(*ctx, 0) },
    {
        let mut out: Vec<Signal> = Vec::new();
        let mut i: usize = 0;
        while i < ctx.markets.len()
            invariant
                ctx.wf(),
                0 <= i <= ctx.markets@.len(),
                out@ + sure_bets_from(*ctx, i as int) == sure_bets_from(*ctx, 0),
            decreases ctx.markets@.len() - i,
        {
            let ghost before = out@;
            match bet_for_market(ctx, i) {
                Some(s) => {
                    out.push(s);
                    assert(out@ + sure_bets_from(*ctx, i + 1) =~= before + sure_bets_from(*ctx, i as int));
                },
                None => {},
            }
            i = i + 1;
        }
        assert(out@ =~= sure_bets_from(*ctx, 0));
        if out.len() == 0 {
            vec![Signal::Hold]
        } else {
            out
        }
    }

    pub fn on_fill(&mut self, fill: &crate::position::Fill)
        ensures
            *final(self) == *old(self),
    {
    }

    pub fn on_shutdown(&mut self)
        ensures
            *final(self) == *old(self),
    {
    }
}

/// The buy for market `i`, when it qualifies.
fn bet_for_market(ctx: &StrategyContext, i: usize) -> (r: Option<Signal>)
    requires
        ctx.wf(),
        i < ctx.markets@.len(),
    ensures
        r == sure_bet(*ctx, i as int),
{
    let (t, m) = &ctx.markets[i];
    if m.end_date.is_none() {
        return None;
    }
    let hours = match m.hours_until_expiry {
        Some(h) => h,
        None => return None,
    };
    let liquidity = match m.liquidity {
        Some(l) => l,
        None => return None,
    };
    let book = match ctx.book(t) {
        Some(b) => b,
        None => return None,
    };
    if hours.raw <= 0 || hours.raw > MAX_HOURS_TO_EXPIRY || liquidity.raw < MIN_LIQUIDITY || book.asks.len() == 0 {
        return None;
    }
    let ask = book.asks[0];
    assert(level_ok(book.asks@[0]));
    if ask.price.raw < MIN_CERTAINTY {
        return None;
    }
    let one = Decimal::from_int(1);
    assert(crate::decimal::fits((one.raw - ask.price.raw) * SCALE)) by (nonlinear_arith)
        requires -MAX_RAW <= one.raw - ask.price.raw <= MAX_RAW;
    let expected_return = one.sub(ask.price).div(ask.price);
    if expected_return.raw < MIN_EXPECTED_RETURN {
        return None;
    }
    let cur = ctx.positions.size_of(t.as_str());
    if cur.raw >= MAX_POSITION_SIZE {
        return None;
    }
    let remaining = Decimal { raw: MAX_POSITION_SIZE }.sub(cur);
    let size = remaining.min(ask.size).min(Decimal { raw: MAX_SINGLE_ORDER });
    if size.raw < MIN_ORDER_SIZE {
        return None;
    }
    Some(Signal::Buy { token_id: t.clone(), price: ask.price, size, urgency: Urgency::Medium })
}

} // verus!

verus! {

/// The token an order signal is for.
pub open spec fn signal_token(s: Signal) -> Seq<char> {
    match s {
        Signal::Buy { token_id, .. } => token_id@,
        Signal::Sell { token_id, .. } => token_id@,
        Signal::Cancel { token_id } => token_id@,
        _ => Seq::empty(),
    }
}

/// Each buy comes from a market at or after `i`, and no token is bought twice.
pub proof fn lemma_sure_bets_one_per_token(ctx: StrategyContext, i: int)
    requires
        ctx.wf(),
        0 <= i,
    ensures
        forall|a: int| 0 <= a < sure_bets_from(ctx, i).len() ==> exists|k: int|
            i <= k < ctx.markets@.len() && #[trigger] signal_token(sure_bets_from(ctx, i)[a]) == ctx.markets@[k].0@,
        forall|a: int, b: int| 0 <= a < b < sure_bets_from(ctx, i).len() ==> signal_token(
            #[trigger] sure_bets_from(ctx, i)[a],
        ) != signal_token(#[trigger] sure_bets_from(ctx, i)[b]),
    decreases ctx.markets@.len() - i,
{
    if i < ctx.markets@.len() {
        lemma_sure_bets_one_per_token(ctx, i + 1);
        let rest = sure_bets_from(ctx, i + 1);
        match sure_bet(ctx, i) {
            Some(s) => {
                let all = sure_bets_from(ctx, i);
                assert(all == seq![s] + rest);
                assert(signal_token(s) == ctx.markets@[i].0@);
                assert forall|a: int| 0 <= a < all.len() implies exists|k: int|
                    i <= k < ctx.markets@.len() && #[trigger] signal_token(all[a]) == ctx.markets@[k].0@ by {
                    if a > 0 {
                        assert(all[a] == rest[a - 1]);
                    }
                }
                assert forall|a: int, b: int| 0 <= a < b < all.len() implies signal_token(#[trigger] all[a])
                    != signal_token(#[trigger] all[b]) by {
                    assert(all[b] == rest[b - 1]);
                    if a == 0 {
                        let k = choose|k: int| i + 1 <= k < ctx.markets@.len() && #[trigger] signal_token(rest[b - 1]) == ctx.markets@[k].0@;
                        assert(ctx.markets@[i].0@ != ctx.markets@[k].0@);
                    } else {
                        assert(all[a] == rest[a - 1]);
                    }
                }
            },
            None => {
                assert forall|a: int| 0 <= a < rest.len() implies exists|k: int|
                    i <= k < ctx.markets@.len() && #[trigger] signal_token(rest[a]) == ctx.markets@[k].0@ by {
                    let k = choose|k: int| i + 1 <= k < ctx.markets@.len() && #[trigger] signal_token(rest[a]) == ctx.markets@[k].0@;
                }
            },
        }
    }
}

} // verus!
