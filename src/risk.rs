//! Pre-trade risk checks, the exposure reservation ledger, and the P&L circuit breaker.

use vstd::prelude::*;
use crate::decimal::{
    Decimal, MAX_NOTIONAL, MAX_RAW, SCALE, abs_int, div_raw, fits, lemma_mul_raw_bound, lemma_trunc_div_bound, mul_raw,
};
use crate::position::{MAX_POSITIONS, Measure, PositionTracker, size_for, total_of};
use crate::strategy::Signal;

verus! {

/// Most reservations the ledger holds at once.
pub const MAX_RESERVATIONS: usize = 1_000_000;

/// Risk limits.
#[derive(Clone, Copy, Debug)]
pub struct RiskLimits {
    /// Largest position notional per token.
    pub max_position_size: Decimal,
    /// Largest exposure across positions and reservations.
    pub max_total_exposure: Decimal,
    /// Loss at which the circuit breaker trips.
    pub max_loss: Decimal,
    pub max_open_orders: usize,
    /// Largest notional of a single order.
    pub max_order_size: Decimal,
}

impl RiskLimits {
    /// Every limit is non-negative and within range.
    pub open spec fn wf(&self) -> bool {
        &&& 0 <= self.max_position_size.raw <= MAX_RAW
        &&& 0 <= self.max_total_exposure.raw <= MAX_RAW
        &&& 0 <= self.max_loss.raw <= MAX_RAW
        &&& 0 <= self.max_order_size.raw <= MAX_RAW
    }

    /// Limits from configured position and total-exposure caps: a single
    /// order may use half the total, with the default loss and order-count limits.
    pub fn from_config(max_position_size: Decimal, max_total_exposure: Decimal) -> (r: RiskLimits)
        requires
            0 <= max_position_size.raw <= MAX_RAW,
            0 <= max_total_exposure.raw <= MAX_RAW,
        ensures
            r.wf(),
            r.max_position_size == max_position_size,
            r.max_total_exposure == max_total_exposure,
            r.max_order_size.raw == div_raw(max_total_exposure.raw as int, 2 * SCALE),
            r.max_loss.raw == 25 * SCALE,
            r.max_open_orders == 10,
    {
        assert(fits(max_total_exposure.raw * SCALE)) by (nonlinear_arith)
            requires 0 <= max_total_exposure.raw <= MAX_RAW;
        let half = max_total_exposure.div(Decimal::from_int(2));
        proof {
            assert(max_total_exposure.raw * SCALE >= 0) by (nonlinear_arith) requires max_total_exposure.raw >= 0;
            assert((max_total_exposure.raw * SCALE) / (2 * SCALE as int) <= max_total_exposure.raw) by (nonlinear_arith)
                requires max_total_exposure.raw >= 0;
            assert((max_total_exposure.raw * SCALE) / (2 * SCALE as int) >= 0) by (nonlinear_arith)
                requires max_total_exposure.raw * SCALE >= 0;
        }
        RiskLimits {
            max_position_size,
            max_total_exposure,
            max_loss: Decimal::from_int(25),
            max_open_orders: 10,
            max_order_size: half,
        }
    }

    /// 50 per position, 50 in total, 25 of loss, 10 open orders, 25 per order.
    pub fn default() -> (r: RiskLimits)
        ensures
            r.wf(),
            r.max_position_size.raw == 50 * SCALE,
            r.max_total_exposure.raw == 50 * SCALE,
            r.max_loss.raw == 25 * SCALE,
            r.max_open_orders == 10,
            r.max_order_size.raw == 25 * SCALE,
    {
        RiskLimits {
            max_position_size: Decimal::from_int(50),
            max_total_exposure: Decimal::from_int(50),
            max_loss: Decimal::from_int(25),
            max_open_orders: 10,
            max_order_size: Decimal::from_int(25),
        }
    }
}

/// Outcome of a risk check.
#[derive(Debug)]
pub enum RiskCheckResult {
    Approved(Signal),
    /// Approved with a smaller size, and why.
    Reduced(Signal, String),
    Rejected(String),
}

/// A hold on exposure budget, pending until linked to a live order.
#[derive(Clone, Debug)]
pub struct Reservation {
    pub id: u64,
    pub token_id: String,
    pub notional: Decimal,
    /// The live order, once confirmed.
    pub order_id: Option<String>,
}

/// Sum of reserved notionals.
pub open spec fn reserved_total(s: Seq<Reservation>) -> int
    decreases s.len(),
{
    if s.len() == 0 { 0 } else { reserved_total(s.drop_last()) + s.last().notional.raw }
}

/// Number of confirmed reservations.
pub open spec fn confirmed_count(s: Seq<Reservation>) -> int
    decreases s.len(),
{
    if s.len() == 0 { 0 } else { confirmed_count(s.drop_last()) + if s.last().order_id.is_some() { 1int } else { 0 } }
}

/// `exposure = Σ |size|·mark + Σ reserved notional`.
pub open spec fn exposure_of(positions: Seq<crate::position::Position>, reservations: Seq<Reservation>) -> int {
    total_of(positions, Measure::Notional) + reserved_total(reservations)
}

/// Step (a): cap the order's notional at `max_order_size`.
pub open spec fn order_size_step(p: int, s: int, lim: RiskLimits) -> (int, bool) {
    if mul_raw(p, s) > lim.max_order_size.raw {
        (div_raw(lim.max_order_size.raw as int, p), true)
    } else {
        (s, false)
    }
}

/// The position after a fill of `s` on side `is_buy`.
pub open spec fn projected(cur: int, s: int, is_buy: bool) -> int {
    if is_buy { cur + s } else { cur - s }
}

/// Step (b): keep the projected position's notional within `max_position_size`.
pub open spec fn position_step(p: int, s: int, cur: int, is_buy: bool, lim: RiskLimits) -> Option<(int, bool)> {
    if mul_raw(abs_int(projected(cur, s, is_buy)), p) > lim.max_position_size.raw {
        let allowed = div_raw(lim.max_position_size.raw as int, p) - abs_int(cur);
        if allowed <= 0 { None } else { Some((allowed, true)) }
    } else {
        Some((s, false))
    }
}

/// Step (c): keep exposure plus the order's notional within `max_total_exposure`.
pub open spec fn exposure_step(p: int, s: int, exposure: int, lim: RiskLimits) -> Option<(int, bool)> {
    if exposure + mul_raw(p, s) > lim.max_total_exposure.raw {
        let allowed = lim.max_total_exposure.raw - exposure;
        if allowed <= 0 { None } else { Some((div_raw(allowed, p), true)) }
    } else {
        Some((s, false))
    }
}

/// The size an order may go out with and whether it was reduced; none when
/// it is rejected. Prices and sizes must be positive and within range, and
/// an order whose size a step reduces to nothing (nine fractional digits)
/// is rejected.
pub open spec fn screen_order(p: int, s: int, cur: int, is_buy: bool, exposure: int, lim: RiskLimits) -> Option<(int, bool)> {
    if p <= 0 || p > MAX_RAW || s <= 0 || s > MAX_RAW {
        None
    } else {
        let a = order_size_step(p, s, lim);
        if a.0 <= 0 {
            None
        } else {
            match position_step(p, a.0, cur, is_buy, lim) {
                None => None,
                Some(b) => match exposure_step(p, b.0, exposure, lim) {
                    None => None,
                    Some(c) => if c.0 <= 0 { None } else { Some((c.0, a.1 || b.1 || c.1)) },
                },
            }
        }
    }
}

/// The signal with the same token, side, price and urgency and a new size.
pub open spec fn resized(sig: Signal, size: int) -> Signal {
    match sig {
        Signal::Buy { token_id, price, urgency, .. } => Signal::Buy { token_id, price, size: Decimal { raw: size as i128 }, urgency },
        Signal::Sell { token_id, price, urgency, .. } => Signal::Sell { token_id, price, size: Decimal { raw: size as i128 }, urgency },
        _ => sig,
    }
}

/// The signal `check_signal` lets through for `sig`, if any: holds,
/// cancels and shutdowns as they are, orders at their screened size.
pub open spec fn screened_signal(
    sig: Signal,
    halted: bool,
    positions: Seq<crate::position::Position>,
    exposure: int,
    lim: RiskLimits,
) -> Option<Signal> {
    if halted {
        None
    } else {
        match sig {
            Signal::Buy { token_id, price, size, .. } => match screen_order(
                price.raw as int, size.raw as int, size_for(positions, token_id@), true, exposure, lim,
            ) {
                Some((sz, _)) => Some(resized(sig, sz)),
                None => None,
            },
            Signal::Sell { token_id, price, size, .. } => match screen_order(
                price.raw as int, size.raw as int, size_for(positions, token_id@), false, exposure, lim,
            ) {
                Some((sz, _)) => Some(resized(sig, sz)),
                None => None,
            },
            _ => Some(sig),
        }
    }
}

/// What `check_signal` decides for `sig`, given whether trading is halted,
/// the positions and the current exposure.
pub open spec fn check_outcome(
    r: RiskCheckResult,
    sig: Signal,
    halted: bool,
    positions: Seq<crate::position::Position>,
    exposure: int,
    lim: RiskLimits,
) -> bool {
    if halted {
        r is Rejected
    } else {
        match sig {
            Signal::Buy { token_id, price, size, .. } => outcome_for(
                r,
                sig,
                screen_order(price.raw as int, size.raw as int, size_for(positions, token_id@), true, exposure, lim),
            ),
            Signal::Sell { token_id, price, size, .. } => outcome_for(
                r,
                sig,
                screen_order(price.raw as int, size.raw as int, size_for(positions, token_id@), false, exposure, lim),
            ),
            _ => r == RiskCheckResult::Approved(sig),
        }
    }
}

pub open spec fn outcome_for(r: RiskCheckResult, sig: Signal, screened: Option<(int, bool)>) -> bool {
    match screened {
        None => r is Rejected,
        Some((size, reduced)) => if reduced {
            r is Reduced && r->Reduced_0 == resized(sig, size)
        } else {
            r == RiskCheckResult::Approved(sig)
        },
    }
}

/// The signal a check lets through, approved or reduced.
pub open spec fn passed_signal(c: RiskCheckResult) -> Option<Signal> {
    match c {
        RiskCheckResult::Approved(x) => Some(x),
        RiskCheckResult::Reduced(x, _) => Some(x),
        RiskCheckResult::Rejected(_) => None,
    }
}

/// Enforces trading limits and tracks reserved exposure.
pub struct RiskManager {
    limits: RiskLimits,
    halted: bool,
    reservations: Vec<Reservation>,
    next_id: u64,
}

impl RiskManager {
    pub closed spec fn limits(&self) -> RiskLimits {
        self.limits
    }

    pub closed spec fn halted(&self) -> bool {
        self.halted
    }

    pub closed spec fn reservations(&self) -> Seq<Reservation> {
        self.reservations@
    }

    pub closed spec fn next_id(&self) -> u64 {
        self.next_id
    }

    /// Limits valid; reservations with in-range non-negative notionals,
    /// distinct ids below the next id, and at most `MAX_RESERVATIONS`.
    pub open spec fn wf(&self) -> bool {
        &&& self.limits().wf()
        &&& self.reservations().len() <= MAX_RESERVATIONS
        &&& forall|i: int| 0 <= i < self.reservations().len() ==> 0 <= (#[trigger] self.reservations()[i]).notional.raw <= MAX_RAW
        &&& forall|i: int| 0 <= i < self.reservations().len() ==> (#[trigger] self.reservations()[i]).id < self.next_id()
        &&& forall|i: int, j: int|
            0 <= i < j < self.reservations().len() ==> (#[trigger] self.reservations()[i]).id != (#[trigger] self.reservations()[j]).id
    }

    /// The exposure that checks and reservations are measured against.
    pub open spec fn exposure(&self, positions: &PositionTracker) -> int {
        exposure_of(positions.positions(), self.reservations())
    }

    pub fn new(limits: RiskLimits) -> (r: RiskManager)
        requires
            limits.wf(),
        ensures
            r.wf(),
            r.limits() == limits,
            !r.halted(),
            r.reservations().len() == 0,
            r.next_id() == 0,
    {
        RiskManager { limits, halted: false, reservations: Vec::new(), next_id: 0 }
    }

    pub fn limits_ref(&self) -> (r: &RiskLimits)
        ensures
            *r == self.limits(),
    {
        &self.limits
    }

    /// Whether the circuit breaker has tripped.
    pub fn is_halted(&self) -> (r: bool)
        ensures
            r == self.halted(),
    {
        self.halted
    }

    /// Halts all trading until reset.
    pub fn trigger_circuit_breaker(&mut self, reason: &str)
        ensures
            final(self).halted(),
            final(self).limits() == old(self).limits(),
            final(self).reservations() == old(self).reservations(),
            final(self).next_id() == old(self).next_id(),
    {
        self.halted = true;
    }

    /// Re-enables trading by an operator's decision.
    pub fn reset_circuit_breaker(&mut self)
        ensures
            !final(self).halted(),
            final(self).limits() == old(self).limits(),
            final(self).reservations() == old(self).reservations(),
            final(self).next_id() == old(self).next_id(),
    {
        self.halted = false;
    }

    /// Trips the breaker when realized plus unrealized P&L is below `-max_loss`.
    pub fn check_pnl(&mut self, positions: &PositionTracker)
        requires
            old(self).wf(),
            positions.wf(),
        ensures
            final(self).halted() == (old(self).halted() || total_of(positions.positions(), Measure::Realized) + total_of(
                positions.positions(),
                Measure::Unrealized,
            ) < -old(self).limits().max_loss.raw),
            final(self).limits() == old(self).limits(),
            final(self).reservations() == old(self).reservations(),
            final(self).next_id() == old(self).next_id(),
    {
        let realized = positions.total_realized_pnl();
        let unrealized = positions.total_unrealized_pnl();
        proof { lemma_pnl_totals(positions); }
        let total = realized.add(unrealized);
        if total.raw < -self.limits.max_loss.raw {
            self.trigger_circuit_breaker("max loss exceeded");
        }
    }

    /// Sum of reserved notionals, pending and confirmed.
    pub fn open_order_notional(&self) -> (r: Decimal)
        requires
            self.wf(),
        ensures
            r.raw == reserved_total(self.reservations()),
            0 <= r.raw <= MAX_RESERVATIONS * MAX_RAW,
    {
        let ghost s = self.reservations@;
        let mut i: usize = 0;
        let mut acc: i128 = 0;
        while i < self.reservations.len()
            invariant
                s == self.reservations@,
                self.wf(),
                0 <= i <= s.len(),
                acc == reserved_total(s.take(i as int)),
                0 <= acc <= (i as int) * MAX_RAW,
            decreases s.len() - i,
        {
            assert(s.take(i as int + 1).drop_last() =~= s.take(i as int));
            assert(0 <= s[i as int].notional.raw <= MAX_RAW);
            acc = acc + self.reservations[i].notional.raw;
            i = i + 1;
        }
        assert(s.take(i as int) =~= s);
        Decimal { raw: acc }
    }

    /// Number of reservations linked to a live order.
    pub fn total_open_orders(&self) -> (r: usize)
        requires
            self.wf(),
        ensures
            r == confirmed_count(self.reservations()),
    {
        let ghost s = self.reservations@;
        let mut i: usize = 0;
        let mut n: usize = 0;
        while i < self.reservations.len()
            invariant
                s == self.reservations@,
                0 <= i <= s.len(),
                n == confirmed_count(s.take(i as int)),
                n <= i,
            decreases s.len() - i,
        {
            assert(s.take(i as int + 1).drop_last() =~= s.take(i as int));
            if self.reservations[i].order_id.is_some() {
                n = n + 1;
            }
            i = i + 1;
        }
        assert(s.take(i as int) =~= s);
        n
    }

    /// Position notional plus reserved notional.
    pub fn current_exposure(&self, positions: &PositionTracker) -> (r: Decimal)
        requires
            self.wf(),
            positions.wf(),
        ensures
            r.raw == self.exposure(positions),
            0 <= r.raw <= MAX_POSITIONS * MAX_NOTIONAL + MAX_RESERVATIONS * MAX_RAW,
    {
        let a = positions.total_notional();
        let b = self.open_order_notional();
        a.add(b)
    }

    /// Budget left under `max_total_exposure`, never negative.
    pub fn remaining_capacity(&self, positions: &PositionTracker) -> (r: Decimal)
        requires
            self.wf(),
            positions.wf(),
        ensures
            r.raw == if self.limits().max_total_exposure.raw - self.exposure(positions) > 0 {
                self.limits().max_total_exposure.raw - self.exposure(positions)
            } else {
                0
            },
    {
        let e = self.current_exposure(positions);
        let left = self.limits.max_total_exposure.sub(e);
        if left.raw > 0 { left } else { Decimal::zero() }
    }
}

proof fn lemma_pnl_totals(positions: &PositionTracker)
    requires
        positions.wf(),
    ensures
        fits(total_of(positions.positions(), Measure::Realized) + total_of(positions.positions(), Measure::Unrealized)),
{
    lemma_total_bound(positions.positions(), Measure::Realized);
    lemma_total_bound(positions.positions(), Measure::Unrealized);
}

proof fn lemma_total_bound(s: Seq<crate::position::Position>, m: Measure)
    requires
        s.len() <= MAX_POSITIONS,
        forall|i: int| 0 <= i < s.len() ==> (#[trigger] s[i]).wf(),
        m !is Notional,
    ensures
        -(s.len() as int) * crate::position::MAX_PNL <= total_of(s, m) <= (s.len() as int) * crate::position::MAX_PNL,
    decreases s.len(),
{
    if s.len() > 0 {
        lemma_total_bound(s.drop_last(), m);
        assert(s.last().wf());
    }
}

} // verus!

verus! {

/// `p · (a / p)` never exceeds `a` for a non-negative amount and a positive price.
pub proof fn lemma_mul_div_floor(a: int, p: int)
    requires
        0 <= a,
        0 < p,
    ensures
        0 <= div_raw(a, p),
        mul_raw(p, div_raw(a, p)) <= a,
        mul_raw(div_raw(a, p), p) <= a,
        0 <= mul_raw(p, div_raw(a, p)),
{
    let q = (a * SCALE) / p;
    assert(q * p <= a * SCALE && q >= 0) by (nonlinear_arith)
        requires 0 <= a, 0 < p, q == (a * SCALE) / p;
    assert(div_raw(a, p) == q) by {
        assert(a * SCALE >= 0) by (nonlinear_arith) requires a >= 0;
    }
    assert(p * q == q * p) by (nonlinear_arith);
    assert(p * q >= 0) by (nonlinear_arith) requires p > 0, q >= 0;
    assert((p * q) / (SCALE as int) <= a && (p * q) / (SCALE as int) >= 0) by (nonlinear_arith)
        requires p * q <= a * SCALE, p * q >= 0, 0 <= a;
}

/// For non-negative factors, `mul_raw` is the floor of the product and is monotone in its first argument.
pub proof fn lemma_mul_raw_monotone(x: int, y: int, p: int)
    requires
        0 <= x <= y,
        0 <= p,
    ensures
        0 <= mul_raw(x, p) <= mul_raw(y, p),
{
    assert(0 <= x * p <= y * p) by (nonlinear_arith)
        requires 0 <= x <= y, 0 <= p;
    assert((x * p) / (SCALE as int) <= (y * p) / (SCALE as int)) by (nonlinear_arith)
        requires 0 <= x * p <= y * p;
    assert((x * p) / (SCALE as int) >= 0) by (nonlinear_arith)
        requires 0 <= x * p;
}

/// Law: an order that risk approves never leaves its token's projected
/// position above `max_position_size` in notional at the order's price,
/// unless the order shrinks the position.
pub proof fn lemma_approved_position_within_limit(p: int, s: int, cur: int, is_buy: bool, exposure: int, lim: RiskLimits)
    requires
        lim.wf(),
        -MAX_RAW <= cur <= MAX_RAW,
        screen_order(p, s, cur, is_buy, exposure, lim).is_some(),
    ensures
        ({
            let size = screen_order(p, s, cur, is_buy, exposure, lim).unwrap().0;
            let proj = projected(cur, size, is_buy);
            mul_raw(abs_int(proj), p) <= lim.max_position_size.raw || abs_int(proj) <= abs_int(cur)
        }),
{
    let a = order_size_step(p, s, lim);
    let b = position_step(p, a.0, cur, is_buy, lim).unwrap();
    let c = exposure_step(p, b.0, exposure, lim).unwrap();
    assert(a.0 >= 0) by {
        if a.1 {
            lemma_mul_div_floor(lim.max_order_size.raw as int, p);
        }
    }
    let m = div_raw(lim.max_position_size.raw as int, p);
    lemma_mul_div_floor(lim.max_position_size.raw as int, p);
    // After step (b) the projected position is within the limit.
    assert(b.0 >= 0);
    assert(mul_raw(abs_int(projected(cur, b.0, is_buy)), p) <= lim.max_position_size.raw) by {
        if b.1 {
            assert(abs_int(projected(cur, b.0, is_buy)) <= m);
            lemma_mul_raw_monotone(abs_int(projected(cur, b.0, is_buy)), m, p);
        }
    }
    // Step (c) only shrinks the size.
    assert(0 <= c.0 <= b.0) by {
        if c.1 {
            let allowed = lim.max_total_exposure.raw - exposure;
            lemma_mul_div_floor(allowed, p);
            let q = div_raw(allowed, p);
            assert(allowed < mul_raw(p, b.0));
            assert(p * b.0 >= 0) by (nonlinear_arith) requires p > 0, b.0 >= 0;
            assert(mul_raw(p, b.0) == (p * b.0) / (SCALE as int));
            assert(allowed * SCALE < p * b.0) by (nonlinear_arith)
                requires allowed < (p * b.0) / (SCALE as int), p * b.0 >= 0;
            assert(allowed * SCALE >= 0) by (nonlinear_arith) requires allowed > 0;
            assert(q == (allowed * SCALE) / p);
            assert(q <= b.0) by (nonlinear_arith)
                requires allowed * SCALE < p * b.0, q == (allowed * SCALE) / p, p > 0, allowed * SCALE >= 0;
        }
    }
    let proj_b = projected(cur, b.0, is_buy);
    let proj_c = projected(cur, c.0, is_buy);
    if abs_int(proj_c) > abs_int(cur) {
        assert(abs_int(proj_c) <= abs_int(proj_b));
        lemma_mul_raw_monotone(abs_int(proj_c), abs_int(proj_b), p);
    }
}

/// An order risk lets through goes out with a positive size no larger than
/// asked; exactly the size asked unless reduced, and strictly less when reduced.
pub proof fn lemma_screened_size(p: int, s: int, cur: int, is_buy: bool, exposure: int, lim: RiskLimits)
    requires
        lim.wf(),
        screen_order(p, s, cur, is_buy, exposure, lim).is_some(),
    ensures
        ({
            let (size, reduced) = screen_order(p, s, cur, is_buy, exposure, lim).unwrap();
            &&& 0 < size <= s
            &&& !reduced ==> size == s
            &&& reduced ==> size < s
        }),
{
    let a = order_size_step(p, s, lim);
    if a.1 {
        let mo = lim.max_order_size.raw as int;
        let q = (mo * SCALE) / p;
        assert(mo * SCALE >= 0) by (nonlinear_arith) requires mo >= 0;
        assert(a.0 == q);
        assert(p * s >= 0) by (nonlinear_arith) requires p > 0, s > 0;
        assert(mul_raw(p, s) == (p * s) / (SCALE as int));
        assert(mo * SCALE < p * s) by (nonlinear_arith)
            requires (p * s) / (SCALE as int) > mo, p * s >= 0;
        assert(q * p <= mo * SCALE) by (nonlinear_arith) requires q == (mo * SCALE) / p, p > 0, mo * SCALE >= 0;
        assert(q < s) by (nonlinear_arith) requires q * p <= mo * SCALE, mo * SCALE < p * s, p > 0;
    }
    let b = position_step(p, a.0, cur, is_buy, lim).unwrap();
    if b.1 {
        let mp = lim.max_position_size.raw as int;
        let m = div_raw(mp, p);
        let q = (mp * SCALE) / p;
        assert(mp * SCALE >= 0) by (nonlinear_arith) requires mp >= 0;
        assert(m == q);
        assert(q * p <= mp * SCALE) by (nonlinear_arith) requires q == (mp * SCALE) / p, p > 0, mp * SCALE >= 0;
        let ap = abs_int(projected(cur, a.0, is_buy));
        assert(ap * p >= 0) by (nonlinear_arith) requires ap >= 0, p > 0;
        assert(mul_raw(ap, p) == (ap * p) / (SCALE as int));
        assert(mp * SCALE < ap * p) by (nonlinear_arith)
            requires (ap * p) / (SCALE as int) > mp, ap * p >= 0;
        assert(ap > q) by (nonlinear_arith) requires q * p <= mp * SCALE, mp * SCALE < ap * p, p > 0;
        assert(b.0 < a.0);
    }
    let c = exposure_step(p, b.0, exposure, lim).unwrap();
    if c.1 {
        let allowed = lim.max_total_exposure.raw - exposure;
        lemma_mul_div_floor(allowed, p);
        let q = div_raw(allowed, p);
        assert(p * b.0 >= 0) by (nonlinear_arith) requires p > 0, b.0 >= 0;
        assert(mul_raw(p, b.0) == (p * b.0) / (SCALE as int));
        assert(allowed * SCALE < p * b.0) by (nonlinear_arith)
            requires allowed < (p * b.0) / (SCALE as int), p * b.0 >= 0;
        assert(allowed * SCALE >= 0) by (nonlinear_arith) requires allowed > 0;
        assert(q == (allowed * SCALE) / p);
        assert(q < b.0) by (nonlinear_arith)
            requires allowed * SCALE < p * b.0, q == (allowed * SCALE) / p, p > 0, allowed * SCALE >= 0;
    }
}

/// Law: an order that risk approves keeps exposure plus its own notional
/// within `max_total_exposure`.
pub proof fn lemma_approved_exposure_within_limit(p: int, s: int, cur: int, is_buy: bool, exposure: int, lim: RiskLimits)
    requires
        lim.wf(),
        screen_order(p, s, cur, is_buy, exposure, lim).is_some(),
    ensures
        exposure + mul_raw(p, screen_order(p, s, cur, is_buy, exposure, lim).unwrap().0) <= lim.max_total_exposure.raw,
        0 <= screen_order(p, s, cur, is_buy, exposure, lim).unwrap().0,
{
    let a = order_size_step(p, s, lim);
    if a.1 {
        lemma_mul_div_floor(lim.max_order_size.raw as int, p);
    }
    let b = position_step(p, a.0, cur, is_buy, lim).unwrap();
    let c = exposure_step(p, b.0, exposure, lim).unwrap();
    if c.1 {
        lemma_mul_div_floor(lim.max_total_exposure.raw - exposure, p);
    }
}

impl RiskManager {
    /// Screens a signal: rejects everything while halted, approves holds,
    /// cancels and shutdowns, and passes orders through the order-size,
    /// position and exposure steps, each of which may reduce the size or
    /// reject the order.
    pub fn check_signal(&self, signal: &Signal, positions: &PositionTracker) -> (r: RiskCheckResult)
        requires
            self.wf(),
            positions.wf(),
        ensures
            check_outcome(r, *signal, self.halted(), positions.positions(), self.exposure(positions), self.limits()),
    {
        if self.halted {
            return RiskCheckResult::Rejected(String::from_str("circuit breaker active"));
        }
        match signal {
            Signal::Buy { token_id, price, size, urgency } => self.check_order(signal, token_id, *price, *size, true, positions),
            Signal::Sell { token_id, price, size, urgency } => self.check_order(signal, token_id, *price, *size, false, positions),
            _ => RiskCheckResult::Approved(signal.copy()),
        }
    }

    fn check_order(
        &self,
        signal: &Signal,
        token_id: &String,
        price: Decimal,
        size: Decimal,
        is_buy: bool,
        positions: &PositionTracker,
    ) -> (r: RiskCheckResult)
        requires
            self.wf(),
            positions.wf(),
            match *signal {
                Signal::Buy { token_id: t, price: p, size: s, .. } => is_buy && t == *token_id && p == price && s == size,
                Signal::Sell { token_id: t, price: p, size: s, .. } => !is_buy && t == *token_id && p == price && s == size,
                _ => false,
            },
        ensures
            outcome_for(
                r,
                *signal,
                screen_order(price.raw as int, size.raw as int, size_for(positions.positions(), token_id@), is_buy, self.exposure(positions), self.limits()),
            ),
    {
        let ghost lim = self.limits;
        if !(0 < price.raw && price.raw <= MAX_RAW && 0 < size.raw && size.raw <= MAX_RAW) {
            return RiskCheckResult::Rejected(String::from_str("invalid price or size"));
        }
        let ghost p = price.raw as int;
        // (a) order size
        proof { lemma_mul_raw_bound(price.raw as int, size.raw as int); }
        let notional = price.mul(size);
        let mut sz = size;
        let mut reduced = false;
        let mut reason = String::from_str("order size");
        if notional.raw > self.limits.max_order_size.raw {
            assert(fits(self.limits.max_order_size.raw * SCALE)) by (nonlinear_arith)
                requires 0 <= self.limits.max_order_size.raw <= MAX_RAW;
            sz = self.limits.max_order_size.div(price);
            reduced = true;
            if sz.raw <= 0 {
                return RiskCheckResult::Rejected(String::from_str("order size reduced to nothing"));
            }
            proof {
                lemma_mul_div_floor(lim.max_order_size.raw as int, p);
                let q = (lim.max_order_size.raw * SCALE) / p;
                assert(q * p <= lim.max_order_size.raw * SCALE) by (nonlinear_arith)
                    requires q == (lim.max_order_size.raw * SCALE) / p, p > 0, lim.max_order_size.raw >= 0;
                assert(lim.max_order_size.raw * SCALE >= 0) by (nonlinear_arith) requires lim.max_order_size.raw >= 0;
                assert(sz.raw == q);
            }
        }
        assert(0 <= sz.raw && sz.raw * price.raw <= MAX_RAW * MAX_RAW && sz.raw <= MAX_RAW * MAX_RAW) by {
            if !reduced {
                assert(sz.raw * price.raw <= MAX_RAW * MAX_RAW) by (nonlinear_arith)
                    requires 0 < sz.raw <= MAX_RAW, 0 < price.raw <= MAX_RAW;
            } else {
                assert(sz.raw * price.raw <= MAX_RAW * SCALE);
            }
            assert(sz.raw <= sz.raw * price.raw) by (nonlinear_arith) requires sz.raw >= 0, price.raw >= 1;
        }
        let ghost a = order_size_step(p, size.raw as int, lim);
        assert(a == (sz.raw as int, reduced));
        // (b) position limit
        let cur = positions.size_of(token_id.as_str());
        let proj = if is_buy { cur.add(sz) } else { cur.sub(sz) };
        let aproj = proj.abs();
        let acur = cur.abs();
        assert(fits(aproj.raw * price.raw) && aproj.raw * price.raw >= 0) by {
            assert(aproj.raw <= acur.raw + sz.raw);
            assert(aproj.raw * price.raw <= acur.raw * price.raw + sz.raw * price.raw) by (nonlinear_arith)
                requires 0 <= aproj.raw <= acur.raw + sz.raw, price.raw > 0;
            assert(acur.raw * price.raw <= MAX_RAW * MAX_RAW) by (nonlinear_arith)
                requires 0 <= acur.raw <= MAX_RAW, 0 < price.raw <= MAX_RAW;
            assert(aproj.raw * price.raw >= 0) by (nonlinear_arith) requires aproj.raw >= 0, price.raw > 0;
        }
        let pos_notional = aproj.mul(price);
        if pos_notional.raw > self.limits.max_position_size.raw {
            assert(fits(self.limits.max_position_size.raw * SCALE)) by (nonlinear_arith)
                requires 0 <= self.limits.max_position_size.raw <= MAX_RAW;
            let m = self.limits.max_position_size.div(price);
            proof {
                lemma_mul_div_floor(lim.max_position_size.raw as int, p);
                lemma_trunc_div_bound(lim.max_position_size.raw * SCALE, p, MAX_RAW * SCALE);
                assert(lim.max_position_size.raw * SCALE <= MAX_RAW * SCALE) by (nonlinear_arith)
                    requires lim.max_position_size.raw <= MAX_RAW;
                assert((MAX_RAW * SCALE) as int / p <= MAX_RAW * SCALE) by (nonlinear_arith) requires p >= 1;
            }
            let allowed = m.sub(acur);
            if allowed.raw <= 0 {
                return RiskCheckResult::Rejected(String::from_str("position limit reached"));
            }
            proof {
                let q = (lim.max_position_size.raw * SCALE) / p;
                assert(lim.max_position_size.raw * SCALE >= 0) by (nonlinear_arith) requires lim.max_position_size.raw >= 0;
                assert(m.raw == q);
                assert(q * p <= lim.max_position_size.raw * SCALE) by (nonlinear_arith)
                    requires q == (lim.max_position_size.raw * SCALE) / p, p > 0, lim.max_position_size.raw >= 0;
                assert(allowed.raw * p <= q * p) by (nonlinear_arith) requires 0 < allowed.raw <= q, p > 0;
                assert(allowed.raw <= allowed.raw * p) by (nonlinear_arith) requires allowed.raw >= 0, p >= 1;
            }
            sz = allowed;
            reduced = true;
            reason = String::from_str("position limit");
        }
        let ghost bb = position_step(p, a.0, cur.raw as int, is_buy, lim);
        assert(bb.is_some() && bb.unwrap().0 == sz.raw && reduced == (a.1 || bb.unwrap().1));
        assert(0 <= sz.raw && sz.raw * price.raw <= MAX_RAW * MAX_RAW);
        // (c) total exposure
        let exposure = self.current_exposure(positions);
        proof {
            assert(0 <= sz.raw * price.raw);
            assert(price.raw * sz.raw == sz.raw * price.raw) by (nonlinear_arith);
            lemma_trunc_div_bound(price.raw * sz.raw, SCALE as int, MAX_RAW * MAX_RAW);
        }
        let order_notional = price.mul(sz);
        if exposure.raw + order_notional.raw > self.limits.max_total_exposure.raw {
            let allowed = self.limits.max_total_exposure.sub(exposure);
            if allowed.raw <= 0 {
                return RiskCheckResult::Rejected(String::from_str("total exposure limit reached"));
            }
            assert(fits(allowed.raw * SCALE)) by (nonlinear_arith)
                requires 0 < allowed.raw <= MAX_RAW;
            sz = allowed.div(price);
            reduced = true;
            reason = String::from_str("total exposure");
            if sz.raw <= 0 {
                return RiskCheckResult::Rejected(String::from_str("total exposure leaves no room"));
            }
        }
        let out = if is_buy {
            match signal {
                Signal::Buy { token_id, price, urgency, .. } => Signal::Buy { token_id: token_id.clone(), price: *price, size: sz, urgency: *urgency },
                _ => signal.copy(),
            }
        } else {
            match signal {
                Signal::Sell { token_id, price, urgency, .. } => Signal::Sell { token_id: token_id.clone(), price: *price, size: sz, urgency: *urgency },
                _ => signal.copy(),
            }
        };
        if reduced {
            RiskCheckResult::Reduced(out, reason)
        } else {
            RiskCheckResult::Approved(out)
        }
    }
}

} // verus!

verus! {

/// Index of the reservation with id `id`, if any.
pub open spec fn has_reservation(s: Seq<Reservation>, id: u64) -> bool {
    exists|i: int| 0 <= i < s.len() && (#[trigger] s[i]).id == id
}

/// Whether some reservation is linked to order `o`.
pub open spec fn has_order(s: Seq<Reservation>, o: Seq<char>) -> bool {
    exists|i: int| 0 <= i < s.len() && linked(#[trigger] s[i], o)
}

pub open spec fn linked(r: Reservation, o: Seq<char>) -> bool {
    match r.order_id {
        Some(x) => x@ == o,
        None => false,
    }
}

fn is_linked(r: &Reservation, key: &String) -> (b: bool)
    ensures
        b == linked(*r, key@),
{
    match &r.order_id {
        Some(o) => *o == *key,
        None => false,
    }
}

/// Removing an entry takes its notional off the total.
pub proof fn lemma_reserved_total_remove(s: Seq<Reservation>, i: int)
    requires
        0 <= i < s.len(),
    ensures
        reserved_total(s.remove(i)) == reserved_total(s) - s[i].notional.raw,
    decreases s.len(),
{
    if i < s.len() - 1 {
        lemma_reserved_total_remove(s.drop_last(), i);
        assert(s.remove(i).drop_last() =~= s.drop_last().remove(i));
        assert(s.remove(i).last() == s.last());
    } else {
        assert(s.remove(i) =~= s.drop_last());
    }
}

/// The total depends only on the notionals.
pub proof fn lemma_reserved_total_same_notionals(s: Seq<Reservation>, t: Seq<Reservation>)
    requires
        s.len() == t.len(),
        forall|i: int| 0 <= i < s.len() ==> (#[trigger] s[i]).notional == t[i].notional,
    ensures
        reserved_total(s) == reserved_total(t),
    decreases s.len(),
{
    if s.len() > 0 {
        assert(s.last().notional == t.last().notional);
        lemma_reserved_total_same_notionals(s.drop_last(), t.drop_last());
    }
}

impl RiskManager {
    proof fn lemma_remove_keeps_wf(&self, i: int)
        requires
            self.wf(),
            0 <= i < self.reservations().len(),
        ensures
            ({
                let s = self.reservations().remove(i);
                &&& forall|k: int| 0 <= k < s.len() ==> 0 <= (#[trigger] s[k]).notional.raw <= MAX_RAW
                &&& forall|k: int| 0 <= k < s.len() ==> (#[trigger] s[k]).id < self.next_id()
                &&& forall|a: int, b: int| 0 <= a < b < s.len() ==> (#[trigger] s[a]).id != (#[trigger] s[b]).id
            }),
    {
        let s = self.reservations().remove(i);
        let o = self.reservations();
        assert forall|k: int| 0 <= k < s.len() implies 0 <= (#[trigger] s[k]).notional.raw <= MAX_RAW && s[k].id < self.next_id() by {
            if k < i { assert(s[k] == o[k]); } else { assert(s[k] == o[k + 1]); }
        }
        assert forall|a: int, b: int| 0 <= a < b < s.len() implies (#[trigger] s[a]).id != (#[trigger] s[b]).id by {
            let a2 = if a < i { a } else { a + 1 };
            let b2 = if b < i { b } else { b + 1 };
            assert(s[a] == o[a2]);
            assert(s[b] == o[b2]);
            assert(o[a2].id != o[b2].id);
        }
    }

    /// Holds `notional` of exposure for an approved order before it is
    /// submitted. Refused (none, nothing changes) when exposure including
    /// it would exceed `max_total_exposure`, when the notional is negative
    /// or out of range, or when the ledger is full.
    pub fn reserve_exposure(&mut self, token_id: &str, notional: Decimal, positions: &PositionTracker) -> (r: Option<u64>)
        requires
            old(self).wf(),
            positions.wf(),
        ensures
            final(self).wf(),
            final(self).limits() == old(self).limits(),
            final(self).halted() == old(self).halted(),
            r.is_some() == (0 <= notional.raw <= MAX_RAW && old(self).reservations().len() < MAX_RESERVATIONS
                && old(self).next_id() < u64::MAX
                && old(self).exposure(positions) + notional.raw <= old(self).limits().max_total_exposure.raw),
            r.is_none() ==> final(self).reservations() == old(self).reservations() && final(self).next_id() == old(self).next_id(),
            r.is_some() ==> final(self).next_id() == old(self).next_id() + 1,
            r.is_some() ==> {
                let s = final(self).reservations();
                &&& r.unwrap() == old(self).next_id()
                &&& s.drop_last() == old(self).reservations()
                &&& s.len() == old(self).reservations().len() + 1
                &&& s.last().id == r.unwrap()
                &&& s.last().token_id@ == token_id@
                &&& s.last().notional == notional
                &&& s.last().order_id.is_none()
                &&& final(self).exposure(positions) == old(self).exposure(positions) + notional.raw
                &&& final(self).exposure(positions) <= final(self).limits().max_total_exposure.raw
            },
    {
        if !(0 <= notional.raw && notional.raw <= MAX_RAW) || self.reservations.len() >= MAX_RESERVATIONS
            || self.next_id == u64::MAX {
            return None;
        }
        let exposure = self.current_exposure(positions);
        if exposure.raw + notional.raw > self.limits.max_total_exposure.raw {
            return None;
        }
        let id = self.next_id;
        let ghost before = self.reservations@;
        self.reservations.push(Reservation { id, token_id: token_id.to_owned(), notional, order_id: None });
        self.next_id = self.next_id + 1;
        proof {
            assert(self.reservations@.drop_last() =~= before);
        }
        Some(id)
    }

    fn find_id(&self, id: u64) -> (r: Option<usize>)
        ensures
            match r {
                Some(i) => i < self.reservations().len() && self.reservations()[i as int].id == id,
                None => !has_reservation(self.reservations(), id),
            },
    {
        let mut i: usize = 0;
        while i < self.reservations.len()
            invariant
                0 <= i <= self.reservations@.len(),
                forall|k: int| 0 <= k < i ==> (#[trigger] self.reservations@[k]).id != id,
            decreases self.reservations@.len() - i,
        {
            if self.reservations[i].id == id {
                return Some(i);
            }
            i = i + 1;
        }
        None
    }

    /// Links a reservation to the live order it was placed as; it stays
    /// counted. False when no reservation has that id.
    pub fn confirm_reservation(&mut self, id: u64, order_id: &str) -> (r: bool)
        requires
            old(self).wf(),
        ensures
            final(self).wf(),
            final(self).limits() == old(self).limits(),
            final(self).halted() == old(self).halted(),
            final(self).next_id() == old(self).next_id(),
            r == has_reservation(old(self).reservations(), id),
            !r ==> final(self).reservations() == old(self).reservations(),
            final(self).reservations().len() == old(self).reservations().len(),
            reserved_total(final(self).reservations()) == reserved_total(old(self).reservations()),
            forall|i: int| 0 <= i < old(self).reservations().len() ==> {
                let a = old(self).reservations()[i];
                let b = #[trigger] final(self).reservations()[i];
                &&& b.id == a.id
                &&& b.notional == a.notional
                &&& b.token_id == a.token_id
                &&& if a.id == id { b.order_id.is_some() && b.order_id.unwrap()@ == order_id@ } else { b.order_id == a.order_id }
            },
    {
        let i = match self.find_id(id) {
            Some(i) => i,
            None => return false,
        };
        let ghost before = self.reservations@;
        let old_r = self.reservations.remove(i);
        let updated = Reservation { id: old_r.id, token_id: old_r.token_id, notional: old_r.notional, order_id: Some(order_id.to_owned()) };
        self.reservations.insert(i, updated);
        proof {
            assert(self.reservations@ =~= before.update(i as int, self.reservations@[i as int]));
            assert forall|k: int| 0 <= k < before.len() && before[k].id == id implies k == i by {
                if k != i {
                    if k < i { assert(before[k].id != before[i as int].id); } else { assert(before[i as int].id != before[k].id); }
                }
            }
            lemma_reserved_total_same_notionals(self.reservations@, before);
        }
        true
    }

    /// Drops a reservation (the order was not placed). False when no
    /// reservation has that id.
    pub fn release_reservation(&mut self, id: u64) -> (r: bool)
        requires
            old(self).wf(),
        ensures
            final(self).wf(),
            final(self).limits() == old(self).limits(),
            final(self).halted() == old(self).halted(),
            final(self).next_id() == old(self).next_id(),
            r == has_reservation(old(self).reservations(), id),
            !r ==> final(self).reservations() == old(self).reservations(),
            r ==> exists|i: int| 0 <= i < old(self).reservations().len() && (#[trigger] old(self).reservations()[i]).id == id
                && final(self).reservations() == old(self).reservations().remove(i)
                && reserved_total(final(self).reservations()) == reserved_total(old(self).reservations())
                    - old(self).reservations()[i].notional.raw,
    {
        let i = match self.find_id(id) {
            Some(i) => i,
            None => return false,
        };
        proof {
            self.lemma_remove_keeps_wf(i as int);
            lemma_reserved_total_remove(self.reservations@, i as int);
        }
        self.reservations.remove(i);
        true
    }

    /// On a fill or cancel, drops the reservation linked to that order.
    /// False when no reservation is linked to it.
    pub fn order_closed(&mut self, order_id: &str) -> (r: bool)
        requires
            old(self).wf(),
        ensures
            final(self).wf(),
            final(self).limits() == old(self).limits(),
            final(self).halted() == old(self).halted(),
            final(self).next_id() == old(self).next_id(),
            r == has_order(old(self).reservations(), order_id@),
            !r ==> final(self).reservations() == old(self).reservations(),
            r ==> exists|i: int| 0 <= i < old(self).reservations().len() && linked(#[trigger] old(self).reservations()[i], order_id@)
                && final(self).reservations() == old(self).reservations().remove(i),
    {
        let key = order_id.to_owned();
        let mut i: usize = 0;
        while i < self.reservations.len()
            invariant
                0 <= i <= self.reservations@.len(),
                self.reservations@ == old(self).reservations@,
                key@ == order_id@,
                self.wf(),
                self.limits == old(self).limits,
                self.halted == old(self).halted,
                self.next_id == old(self).next_id,
                forall|k: int| 0 <= k < i ==> !linked(#[trigger] self.reservations@[k], order_id@),
            decreases self.reservations@.len() - i,
        {
            let hit = is_linked(&self.reservations[i], &key);
            if hit {
                proof {
                    self.lemma_remove_keeps_wf(i as int);
                    assert(linked(old(self).reservations()[i as int], order_id@));
                }
                self.reservations.remove(i);
                return true;
            }
            i = i + 1;
        }
        false
    }

    /// Tracks an order placed without a prior reservation as a confirmed
    /// reservation, under the same admission rule as `reserve_exposure`:
    /// none, with nothing changed, when exposure including it would exceed
    /// `max_total_exposure`, the notional is negative or out of range, or
    /// the ledger is full.
    pub fn order_placed(&mut self, order_id: &str, token_id: &str, notional: Decimal, positions: &PositionTracker) -> (r: Option<u64>)
        requires
            old(self).wf(),
            positions.wf(),
        ensures
            final(self).wf(),
            final(self).limits() == old(self).limits(),
            final(self).halted() == old(self).halted(),
            r.is_some() ==> final(self).next_id() == old(self).next_id() + 1,
            r.is_none() ==> final(self).next_id() == old(self).next_id(),
            r.is_some() == (0 <= notional.raw <= MAX_RAW && old(self).reservations().len() < MAX_RESERVATIONS
                && old(self).next_id() < u64::MAX
                && old(self).exposure(positions) + notional.raw <= old(self).limits().max_total_exposure.raw),
            r.is_none() ==> final(self).reservations() == old(self).reservations(),
            r.is_some() ==> {
                let s = final(self).reservations();
                &&& r.unwrap() == old(self).next_id()
                &&& s.drop_last() == old(self).reservations()
                &&& s.len() == old(self).reservations().len() + 1
                &&& s.last().id == r.unwrap()
                &&& s.last().token_id@ == token_id@
                &&& s.last().notional == notional
                &&& linked(s.last(), order_id@)
                &&& final(self).exposure(positions) == old(self).exposure(positions) + notional.raw
            },
    {
        let id = match self.reserve_exposure(token_id, notional, positions) {
            Some(id) => id,
            None => return None,
        };
        let ghost before = self.reservations@;
        let ghost last = self.reservations@.len() - 1;
        let ok = self.confirm_reservation(id, order_id);
        proof {
            assert(before[last].id == id);
            assert forall|i: int| 0 <= i < last implies before[i].id != id by {
                assert(before[i].id < id);
            }
            assert(self.reservations@.drop_last() =~= before.drop_last());
        }
        Some(id)
    }
}

} // verus!
