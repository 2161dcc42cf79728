//! The engine's decisions. The event loop itself (timers, the feed, the
//! exchange's client) runs outside the library and hands each event here; these
//! functions say what to do next.

use vstd::prelude::*;
use crate::decimal::{Decimal, MAX_RAW, SCALE, mul_raw};
use crate::orderbook::{BookSnapshot, MarketDataHub, MarketEvent, book_index};
use crate::position::{Fill, PositionTracker, after_fill, fill_admitted, fill_base, mark_at, position_for};
use crate::risk::{has_order, linked};
use crate::risk::{MAX_RESERVATIONS, RiskCheckResult, RiskManager, check_outcome, lemma_approved_exposure_within_limit, lemma_screened_size, passed_signal, screen_order, screened_signal};
use crate::strategy::Signal;

verus! {

/// Book updates to observe before trading starts.
pub const WARMUP_WS_UPDATES: u64 = 100;

/// Mean of the best bid and best ask of two ladders, when both have one.
pub open spec fn ladder_mid(bids: Seq<crate::orderbook::Level>, asks: Seq<crate::orderbook::Level>) -> Option<int> {
    if bids.len() > 0 && asks.len() > 0 {
        Some(crate::decimal::div_raw(bids[0].price.raw + asks[0].price.raw, 2 * SCALE))
    } else {
        None
    }
}

/// What a tick does.
#[derive(Clone, Copy, Debug, PartialEq, Eq, Structural)]
pub enum TickAction {
    /// The tick limit is reached: shut down.
    Shutdown,
    /// Still warming up: run no strategies.
    Warmup,
    /// The circuit breaker is tripped: run no strategies.
    Halted,
    /// Run the strategies and process their signals.
    Trade,
}

/// What to do with one signal.
#[derive(Debug)]
pub enum SignalAction {
    Skip,
    /// A strategy asked to stop: finish this tick's signals, then shut down.
    Shutdown,
    /// Cancel the token's active orders.
    Cancel(String),
    /// Submit this approved order; its exposure is held under `reservation`.
    Submit { signal: Signal, reservation: u64 },
}

/// Run-loop state of the engine.
pub struct EngineState {
    pub tick_count: u64,
    /// Zero means no limit.
    pub max_ticks: u64,
    pub ws_update_count: u64,
    pub warmup_complete: bool,
    pub skip_warmup: bool,
    pub market_discovery_enabled: bool,
    pub needs_reconnect: bool,
    pub shutdown_requested: bool,
}

/// Whether a tick at count `n` ends the run.
pub open spec fn tick_limit_reached(n: int, max_ticks: int) -> bool {
    max_ticks > 0 && n >= max_ticks
}

impl EngineState {
    /// Trading is enabled only after warmup: skipped, or enough book updates seen.
    pub open spec fn wf(&self) -> bool {
        self.warmup_complete ==> (self.skip_warmup || self.ws_update_count >= WARMUP_WS_UPDATES)
    }

    /// Starts over on a new feed connection: warmup begins again.
    pub fn reconnect(&mut self)
        ensures
            *final(self) == (EngineState { ws_update_count: 0, warmup_complete: false, needs_reconnect: false, ..*old(self) }),
            final(self).wf(),
    {
        self.ws_update_count = 0;
        self.warmup_complete = false;
        self.needs_reconnect = false;
    }

    pub fn new(max_ticks: u64, skip_warmup: bool) -> (r: EngineState)
        ensures
            r.tick_count == 0,
            r.max_ticks == max_ticks,
            r.ws_update_count == 0,
            !r.warmup_complete,
            r.skip_warmup == skip_warmup,
            !r.market_discovery_enabled,
            !r.needs_reconnect,
            !r.shutdown_requested,
            r.wf(),
    {
        EngineState {
            tick_count: 0,
            max_ticks,
            ws_update_count: 0,
            warmup_complete: false,
            skip_warmup,
            market_discovery_enabled: false,
            needs_reconnect: false,
            shutdown_requested: false,
        }
    }

    /// Sets whether warmup is skipped; a warmup completed only by skipping
    /// is undone when skipping is turned off.
    pub fn set_skip_warmup(&mut self, skip: bool)
        ensures
            *final(self) == (EngineState {
                skip_warmup: skip,
                warmup_complete: old(self).warmup_complete && (skip || old(self).ws_update_count >= WARMUP_WS_UPDATES),
                ..*old(self)
            }),
            final(self).wf(),
    {
        self.skip_warmup = skip;
        self.warmup_complete = self.warmup_complete && (skip || self.ws_update_count >= WARMUP_WS_UPDATES);
    }

    pub fn enable_market_discovery(&mut self)
        ensures
            *final(self) == (EngineState { market_discovery_enabled: true, ..*old(self) }),
    {
        self.market_discovery_enabled = true;
    }

    pub fn is_market_discovery_enabled(&self) -> (r: bool)
        ensures
            r == self.market_discovery_enabled,
    {
        self.market_discovery_enabled
    }

    /// Counts a book update toward warmup.
    pub fn note_book_update(&mut self)
        ensures
            final(self).ws_update_count == if old(self).ws_update_count < u64::MAX {
                old(self).ws_update_count + 1
            } else {
                old(self).ws_update_count as int
            },
            final(self).tick_count == old(self).tick_count,
            final(self).warmup_complete == old(self).warmup_complete,
            final(self).skip_warmup == old(self).skip_warmup,
            final(self).max_ticks == old(self).max_ticks,
            old(self).wf() ==> final(self).wf(),
    {
        if self.ws_update_count < u64::MAX {
            self.ws_update_count = self.ws_update_count + 1;
        }
    }

    /// Starts a tick: counts it, stops at the tick limit, holds trading
    /// until warmup completes (`WARMUP_WS_UPDATES` book updates, or at once
    /// with `skip_warmup`), and checks P&L against the circuit breaker.
    pub fn begin_tick(&mut self, risk: &mut RiskManager, positions: &PositionTracker) -> (r: TickAction)
        requires
            old(risk).wf(),
            positions.wf(),
        ensures
            old(self).wf() ==> final(self).wf(),
            final(self).skip_warmup == old(self).skip_warmup,
            final(risk).wf(),
            final(risk).reservations() == old(risk).reservations(),
            final(risk).limits() == old(risk).limits(),
            final(self).tick_count == if old(self).tick_count < u64::MAX { old(self).tick_count + 1 } else { old(self).tick_count as int },
            final(self).ws_update_count == old(self).ws_update_count,
            final(self).warmup_complete == (old(self).warmup_complete || old(self).skip_warmup || old(self).ws_update_count
                >= WARMUP_WS_UPDATES) || (r is Shutdown && final(self).warmup_complete == old(self).warmup_complete),
            (r is Shutdown) == tick_limit_reached(final(self).tick_count as int, old(self).max_ticks as int),
            r is Warmup ==> !final(self).warmup_complete,
            (r is Trade || r is Halted) ==> final(self).warmup_complete,
            r is Trade ==> !final(risk).halted(),
            r is Halted ==> final(risk).halted(),
            !(r is Trade || r is Halted) ==> *final(risk) == *old(risk),
    {
        if self.tick_count < u64::MAX {
            self.tick_count = self.tick_count + 1;
        }
        if self.max_ticks > 0 && self.tick_count >= self.max_ticks {
            return TickAction::Shutdown;
        }
        if !self.warmup_complete {
            if self.skip_warmup || self.ws_update_count >= WARMUP_WS_UPDATES {
                self.warmup_complete = true;
            } else {
                return TickAction::Warmup;
            }
        }
        risk.check_pnl(positions);
        if risk.is_halted() {
            TickAction::Halted
        } else {
            TickAction::Trade
        }
    }
}

/// Decides one signal of a tick. Orders go through the risk check; an
/// approved (possibly reduced) order then reserves its notional before it
/// may be submitted, so the next signal is checked against it.
pub fn plan_signal(risk: &mut RiskManager, positions: &PositionTracker, signal: &Signal) -> (r: SignalAction)
    requires
        old(risk).wf(),
        positions.wf(),
    ensures
        final(risk).wf(),
        final(risk).limits() == old(risk).limits(),
        final(risk).halted() == old(risk).halted(),
        match *signal {
            Signal::Hold => r is Skip,
            Signal::Shutdown { .. } => r is Shutdown,
            Signal::Cancel { token_id } => r matches SignalAction::Cancel(t) && t == token_id,
            _ => (r is Submit) == (screened_signal(*signal, old(risk).halted(), positions.positions(), old(risk).exposure(positions), old(risk).limits()).is_some()
                && old(risk).reservations().len() < MAX_RESERVATIONS && old(risk).next_id() < u64::MAX) && (r is Skip || r is Submit),
        },
        !(r is Submit) ==> final(risk).reservations() == old(risk).reservations() && final(risk).next_id() == old(risk).next_id(),
        r matches SignalAction::Submit { signal: s, reservation } ==> {
            let e0 = old(risk).exposure(positions);
            let (price, size) = match s {
                Signal::Buy { price, size, .. } => (price.raw as int, size.raw as int),
                Signal::Sell { price, size, .. } => (price.raw as int, size.raw as int),
                _ => (0int, 0int),
            };
            &&& Some(s) == screened_signal(*signal, old(risk).halted(), positions.positions(), e0, old(risk).limits())
            &&& reservation == old(risk).next_id()
            &&& final(risk).next_id() == old(risk).next_id() + 1
            &&& final(risk).reservations().drop_last() == old(risk).reservations()
            &&& final(risk).reservations().last().id == reservation
            &&& final(risk).reservations().last().notional.raw == mul_raw(price, size)
            &&& final(risk).reservations().last().order_id.is_none()
            &&& final(risk).exposure(positions) == e0 + mul_raw(price, size)
            &&& final(risk).exposure(positions) <= old(risk).limits().max_total_exposure.raw
        },
{
    match signal {
        Signal::Hold => return SignalAction::Skip,
        Signal::Shutdown { .. } => return SignalAction::Shutdown,
        Signal::Cancel { token_id } => return SignalAction::Cancel(token_id.clone()),
        _ => {},
    }
    let ghost e0 = risk.exposure(positions);
    let checked = risk.check_signal(signal, positions);
    let ghost c = checked;
    let approved = match checked {
        RiskCheckResult::Approved(s) => s,
        RiskCheckResult::Reduced(s, _) => s,
        RiskCheckResult::Rejected(_) => {
            proof {
                match signal {
                    Signal::Buy { token_id: t, price: p, size: s, .. } => {
                        assert(screen_order(p.raw as int, s.raw as int, crate::position::size_for(positions.positions(), t@), true, e0, risk.limits()) is None || risk.halted());
                    },
                    _ => {},
                }
            }
            return SignalAction::Skip;
        },
    };
    assert(check_outcome(c, *signal, risk.halted(), positions.positions(), e0, risk.limits()) && passed_signal(c) == Some(approved));
    let (token_id, price, size) = match &approved {
        Signal::Buy { token_id, price, size, .. } => (token_id, *price, *size),
        Signal::Sell { token_id, price, size, .. } => (token_id, *price, *size),
        _ => return SignalAction::Skip,
    };
    proof {
        match signal {
            Signal::Buy { token_id: t, price: p, size: s, .. } => {
                lemma_approved_exposure_within_limit(p.raw as int, s.raw as int, crate::position::size_for(positions.positions(), t@), true, e0, risk.limits());
                lemma_screened_size(p.raw as int, s.raw as int, crate::position::size_for(positions.positions(), t@), true, e0, risk.limits());
            },
            Signal::Sell { token_id: t, price: p, size: s, .. } => {
                lemma_approved_exposure_within_limit(p.raw as int, s.raw as int, crate::position::size_for(positions.positions(), t@), false, e0, risk.limits());
                lemma_screened_size(p.raw as int, s.raw as int, crate::position::size_for(positions.positions(), t@), false, e0, risk.limits());
            },
            _ => {},
        }
        assert(screened_signal(*signal, risk.halted(), positions.positions(), e0, risk.limits()) == Some(approved));
    }
    let e = risk.current_exposure(positions);
    assert(0 <= e.raw);
    assert(mul_raw(price.raw as int, size.raw as int) <= MAX_RAW);
    assert(0 < price.raw && 0 <= size.raw);
    assert(crate::decimal::fits(price.raw * size.raw) && price.raw * size.raw >= 0) by {
        assert(price.raw * size.raw >= 0) by (nonlinear_arith) requires price.raw > 0, size.raw >= 0;
        assert(price.raw * size.raw < (MAX_RAW + 1) * SCALE) by (nonlinear_arith)
            requires (price.raw * size.raw) / (SCALE as int) <= MAX_RAW, price.raw * size.raw >= 0;
    }
    let notional = price.mul(size);
    match risk.reserve_exposure(token_id.as_str(), notional, positions) {
        Some(id) => SignalAction::Submit { signal: approved, reservation: id },
        None => SignalAction::Skip,
    }
}

/// After a submission: a placed order confirms its reservation; no order
/// (dry run or failure) releases it.
pub fn finish_submission(risk: &mut RiskManager, reservation: u64, placed: Option<String>) -> (r: bool)
    requires
        old(risk).wf(),
    ensures
        final(risk).wf(),
        final(risk).limits() == old(risk).limits(),
        final(risk).halted() == old(risk).halted(),
        r == crate::risk::has_reservation(old(risk).reservations(), reservation),
        placed.is_some() ==> final(risk).reservations().len() == old(risk).reservations().len()
            && crate::risk::reserved_total(final(risk).reservations()) == crate::risk::reserved_total(old(risk).reservations()),
        placed.is_none() && r ==> final(risk).reservations().len() == old(risk).reservations().len() - 1,
        placed.is_none() && r ==> exists|i: int| 0 <= i < old(risk).reservations().len() && (#[trigger] old(risk).reservations()[i]).id == reservation
            && final(risk).reservations() == old(risk).reservations().remove(i),
        !r ==> final(risk).reservations() == old(risk).reservations(),
        placed.is_some() ==> forall|i: int| 0 <= i < old(risk).reservations().len() ==> {
            let a = old(risk).reservations()[i];
            let b = #[trigger] final(risk).reservations()[i];
            &&& b.id == a.id && b.notional == a.notional && b.token_id == a.token_id
            &&& if a.id == reservation { linked(b, placed.unwrap()@) } else { b.order_id == a.order_id }
        },
{
    match placed {
        Some(order_id) => risk.confirm_reservation(reservation, order_id.as_str()),
        None => {
            let r = risk.release_reservation(reservation);
            r
        },
    }
}

/// Applies a fill: updates the position, closes the order's reservation,
/// and re-marks the position at the book's current mid when there is one.
/// False, with nothing changed, when the position tracker refuses the fill.
pub fn handle_fill(positions: &mut PositionTracker, risk: &mut RiskManager, fill: &Fill, mid: Option<Decimal>) -> (r: bool)
    requires
        old(positions).wf(),
        old(risk).wf(),
    ensures
        final(positions).wf(),
        final(risk).wf(),
        final(risk).limits() == old(risk).limits(),
        final(risk).halted() == old(risk).halted(),
        r == fill_admitted(old(positions).positions(), *fill),
        !r ==> final(positions).positions() == old(positions).positions() && final(risk).reservations() == old(risk).reservations(),
        r ==> {
            let after = after_fill(fill_base(old(positions).positions(), *fill), *fill);
            position_for(final(positions).positions(), fill.token_id@) == Some(
                match mid {
                    Some(m) => if 0 <= m.raw <= MAX_RAW { mark_at(after, m) } else { after },
                    None => after,
                },
            )
        },
        r ==> forall|t: Seq<char>| t != fill.token_id@ ==> position_for(final(positions).positions(), t)
            == position_for(old(positions).positions(), t),
        r && !has_order(old(risk).reservations(), fill.order_id@) ==> final(risk).reservations() == old(risk).reservations(),
        r && has_order(old(risk).reservations(), fill.order_id@) ==> exists|i: int|
            0 <= i < old(risk).reservations().len() && linked(#[trigger] old(risk).reservations()[i], fill.order_id@)
                && final(risk).reservations() == old(risk).reservations().remove(i),
{
    if !positions.apply_fill(fill) {
        return false;
    }
    risk.order_closed(fill.order_id.as_str());
    match mid {
        Some(m) => {
            positions.update_price(fill.token_id.as_str(), m);
        },
        None => {},
    }
    true
}

/// Applies a book snapshot to the hub and re-marks the token's position
/// at the new mid. Returns the event to broadcast; none when the snapshot
/// was dropped for breaking the book invariants.
pub fn handle_book_update(
    state: &mut EngineState,
    hub: &mut MarketDataHub,
    positions: &mut PositionTracker,
    update: BookSnapshot,
) -> (r: Option<MarketEvent>)
    requires
        old(hub).wf(),
        old(positions).wf(),
    ensures
        final(hub).wf(),
        final(positions).wf(),
        final(state).ws_update_count >= old(state).ws_update_count,
        r.is_some() == crate::orderbook::ladders_ok(update.bids@, update.asks@),
        r.is_none() ==> final(hub).books() == old(hub).books() && final(positions).positions() == old(positions).positions(),
        r.is_some() ==> {
            let k = book_index(final(hub).books(), update.asset_id@);
            &&& k.is_some()
            &&& final(hub).books()[k.unwrap()].bids@ == update.bids@
            &&& final(hub).books()[k.unwrap()].asks@ == update.asks@
        },
        r.is_some() ==> forall|t: Seq<char>| t != update.asset_id@ ==> position_for(final(positions).positions(), t)
            == position_for(old(positions).positions(), t),
        r.is_some() ==> position_for(final(positions).positions(), update.asset_id@) == match (
            position_for(old(positions).positions(), update.asset_id@),
            ladder_mid(update.bids@, update.asks@),
        ) {
            (Some(p), Some(m)) => if 0 <= m <= MAX_RAW { Some(mark_at(p, Decimal { raw: m as i128 })) } else { Some(p) },
            (o, _) => o,
        },
        final(state).ws_update_count == if old(state).ws_update_count < u64::MAX {
            old(state).ws_update_count + 1
        } else {
            old(state).ws_update_count as int
        },
        final(state).warmup_complete == old(state).warmup_complete,
        old(state).wf() ==> final(state).wf(),
{
    state.note_book_update();
    let ghost ub = update.bids@;
    let ghost ua = update.asks@;
    let token = update.asset_id.clone();
    let ev = hub.process_book_update(update);
    if ev.is_some() {
        match hub.get_book(token.as_str()) {
            Some(book) => {
                assert(book.bids@ == ub && book.asks@ == ua);
                match book.mid_price() {
                    Some(m) => {
                        positions.update_price(token.as_str(), m);
                    },
                    None => {},
                }
            },
            None => {
                assert(false);
            },
        }
    }
    ev
}

} // verus!
