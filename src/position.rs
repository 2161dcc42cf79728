//! Average-cost position accounting with realized and unrealized P&L.

use vstd::prelude::*;
use crate::decimal::{lemma_mul_raw_bound, Decimal, MAX_RAW, MAX_NOTIONAL, trunc_div, mul_raw, min_int, abs_int, div_trunc};

verus! {

/// Largest P&L magnitude a tracked position may carry.
pub const MAX_PNL: i128 = 1_000_000_000_000_000_000_000_000_000_000;

/// Most positions a tracker holds.
pub const MAX_POSITIONS: usize = 1_000_000;

/// A fill event from order execution.
#[derive(Clone, Debug)]
pub struct Fill {
    pub order_id: String,
    pub token_id: String,
    pub is_buy: bool,
    pub price: Decimal,
    pub size: Decimal,
    /// Unix milliseconds.
    pub timestamp: i64,
    /// Carried with the fill; not applied to P&L.
    pub fee: Decimal,
}

/// A fill with a positive size and a non-negative price within range.
pub open spec fn fill_ok(f: Fill) -> bool {
    &&& 0 < f.size.raw <= MAX_RAW
    &&& 0 <= f.price.raw <= MAX_RAW
}

/// A single position in a token.
#[derive(Clone, Debug)]
pub struct Position {
    pub token_id: String,
    /// Signed size: positive long, negative short.
    pub size: Decimal,
    pub avg_entry_price: Decimal,
    pub realized_pnl: Decimal,
    pub unrealized_pnl: Decimal,
    pub last_price: Option<Decimal>,
}

/// Average of holding `s` at `avg` and adding `d` at `p`, for a combined size `s + d`.
pub open spec fn blended(avg: int, s: int, p: int, d: int) -> int {
    trunc_div(avg * s + p * d, s + d)
}

/// Size, entry average and realized P&L after a fill.
pub open spec fn filled(pos: Position, f: Fill) -> Position {
    let s = pos.size.raw as int;
    let avg = pos.avg_entry_price.raw as int;
    let d = f.size.raw as int;
    let p = f.price.raw as int;
    if f.is_buy {
        if s >= 0 {
            Position {
                size: Decimal { raw: (s + d) as i128 },
                avg_entry_price: if s + d > 0 {
                    Decimal { raw: blended(avg, s, p, d) as i128 }
                } else {
                    pos.avg_entry_price
                },
                ..pos
            }
        } else {
            let c = min_int(d, -s);
            Position {
                size: Decimal { raw: (s + d) as i128 },
                realized_pnl: Decimal { raw: (pos.realized_pnl.raw + mul_raw(c, avg - p)) as i128 },
                avg_entry_price: if d - c > 0 && s + d > 0 { f.price } else { pos.avg_entry_price },
                ..pos
            }
        }
    } else {
        if s <= 0 {
            Position {
                size: Decimal { raw: (s - d) as i128 },
                avg_entry_price: if s - d < 0 {
                    Decimal { raw: blended(avg, -s, p, d) as i128 }
                } else {
                    pos.avg_entry_price
                },
                ..pos
            }
        } else {
            let c = min_int(d, s);
            Position {
                size: Decimal { raw: (s - d) as i128 },
                realized_pnl: Decimal { raw: (pos.realized_pnl.raw + mul_raw(c, p - avg)) as i128 },
                avg_entry_price: if d - c > 0 && s - d < 0 { f.price } else { pos.avg_entry_price },
                ..pos
            }
        }
    }
}

/// The position with unrealized P&L recomputed at its last mark (zero
/// before any mark, and zero when flat).
pub open spec fn marked(p: Position) -> Position {
    Position {
        unrealized_pnl: Decimal {
            raw: match p.last_price {
                Some(m) => unrealized_at(p.size.raw as int, p.avg_entry_price.raw as int, m.raw as int),
                None => 0,
            } as i128,
        },
        ..p
    }
}

/// The position after a fill: re-marked at its last price.
pub open spec fn after_fill(pos: Position, f: Fill) -> Position {
    marked(filled(pos, f))
}

/// Unrealized P&L of holding `s` bought at `avg` when the mark is `m`.
pub open spec fn unrealized_at(s: int, avg: int, m: int) -> int {
    if s > 0 {
        mul_raw(s, m - avg)
    } else if s < 0 {
        mul_raw(-s, avg - m)
    } else {
        0
    }
}

/// The price a position is valued at: the last mark, else the entry average.
pub open spec fn mark_of(p: Position) -> int {
    match p.last_price {
        Some(m) => m.raw as int,
        None => p.avg_entry_price.raw as int,
    }
}

pub open spec fn notional_of(p: Position) -> int {
    mul_raw(abs_int(p.size.raw as int), mark_of(p))
}

impl Position {
    /// Every amount of the position lies within the range the arithmetic supports.
    pub open spec fn in_range(&self) -> bool {
        &&& -MAX_RAW <= self.size.raw <= MAX_RAW
        &&& 0 <= self.avg_entry_price.raw <= MAX_RAW
        &&& -MAX_PNL <= self.realized_pnl.raw <= MAX_PNL
        &&& -MAX_PNL <= self.unrealized_pnl.raw <= MAX_PNL
        &&& match self.last_price {
            Some(m) => 0 <= m.raw <= MAX_RAW,
            None => true,
        }
    }

    /// The position's invariant: unrealized P&L is that of the size and
    /// entry average at the last mark (zero before any mark), so a flat
    /// position carries none.
    pub open spec fn wf(&self) -> bool {
        &&& self.in_range()
        &&& self.unrealized_pnl.raw == match self.last_price {
            Some(m) => unrealized_at(self.size.raw as int, self.avg_entry_price.raw as int, m.raw as int),
            None => 0,
        }
    }

    /// A flat position.
    pub fn new(token_id: String) -> (r: Position)
        ensures
            r.token_id == token_id,
            r.size.raw == 0,
            r.avg_entry_price.raw == 0,
            r.realized_pnl.raw == 0,
            r.unrealized_pnl.raw == 0,
            r.last_price.is_none(),
            r.wf(),
    {
        Position {
            token_id,
            size: Decimal::zero(),
            avg_entry_price: Decimal::zero(),
            realized_pnl: Decimal::zero(),
            unrealized_pnl: Decimal::zero(),
            last_price: None,
        }
    }

    /// Applies a fill: average-cost when adding, realized P&L when reducing,
    /// and the fill price as the new entry when the fill flips the side.
    pub fn apply_fill(&mut self, fill: &Fill)
        requires
            old(self).in_range(),
            fill_ok(*fill),
        ensures
            *final(self) == after_fill(*old(self), *fill),
            0 <= final(self).avg_entry_price.raw <= MAX_RAW,
            -2 * MAX_RAW <= final(self).size.raw <= 2 * MAX_RAW,
            final(self).size.raw == 0 ==> final(self).unrealized_pnl.raw == 0,
            final(self).token_id == old(self).token_id,
            final(self).last_price == old(self).last_price,
    {
        self.fill_core(fill);
        self.remark();
    }

    /// Recomputes unrealized P&L at the last mark.
    fn remark(&mut self)
        requires
            -2 * MAX_RAW <= old(self).size.raw <= 2 * MAX_RAW,
            0 <= old(self).avg_entry_price.raw <= MAX_RAW,
            match old(self).last_price {
                Some(m) => 0 <= m.raw <= MAX_RAW,
                None => true,
            },
        ensures
            *final(self) == marked(*old(self)),
    {
        match self.last_price {
            Some(m) => {
                let s = self.size.raw;
                let avg = self.avg_entry_price.raw;
                assert(-2 * MAX_RAW * MAX_RAW <= s * (m.raw - avg) <= 2 * MAX_RAW * MAX_RAW) by (nonlinear_arith)
                    requires -2 * MAX_RAW <= s <= 2 * MAX_RAW, -MAX_RAW <= m.raw - avg <= MAX_RAW;
                assert(-2 * MAX_RAW * MAX_RAW <= (-s) * (avg - m.raw) <= 2 * MAX_RAW * MAX_RAW) by (nonlinear_arith)
                    requires -2 * MAX_RAW <= s <= 2 * MAX_RAW, -MAX_RAW <= m.raw - avg <= MAX_RAW;
                if s > 0 {
                    self.unrealized_pnl = Decimal { raw: s }.mul(Decimal { raw: m.raw - avg });
                } else if s < 0 {
                    self.unrealized_pnl = Decimal { raw: -s }.mul(Decimal { raw: avg - m.raw });
                } else {
                    self.unrealized_pnl = Decimal::zero();
                }
            },
            None => {
                self.unrealized_pnl = Decimal::zero();
            },
        }
    }

    fn fill_core(&mut self, fill: &Fill)
        requires
            old(self).in_range(),
            fill_ok(*fill),
        ensures
            *final(self) == filled(*old(self), *fill),
            0 <= final(self).avg_entry_price.raw <= MAX_RAW,
            -2 * MAX_RAW <= final(self).size.raw <= 2 * MAX_RAW,
    {
        let s = self.size.raw;
        let avg = self.avg_entry_price.raw;
        let d = fill.size.raw;
        let p = fill.price.raw;
        assert(-MAX_RAW * MAX_RAW <= avg * s <= MAX_RAW * MAX_RAW) by (nonlinear_arith)
            requires -MAX_RAW <= s <= MAX_RAW, 0 <= avg <= MAX_RAW;
        assert(0 <= p * d <= MAX_RAW * MAX_RAW) by (nonlinear_arith)
            requires 0 < d <= MAX_RAW, 0 <= p <= MAX_RAW;
        if fill.is_buy {
            if s >= 0 {
                if s + d > 0 {
                    assert(0 <= avg * s + p * d <= MAX_RAW * (s + d)) by (nonlinear_arith)
                        requires 0 <= s, 0 < d, 0 <= avg <= MAX_RAW, 0 <= p <= MAX_RAW;
                    assert((avg * s + p * d) / (s + d) <= MAX_RAW) by (nonlinear_arith)
                        requires 0 <= avg * s + p * d <= MAX_RAW * (s + d), s + d > 0;
                    assert((avg * s + p * d) / (s + d) >= 0) by (nonlinear_arith)
                        requires 0 <= avg * s + p * d, s + d > 0;
                    self.avg_entry_price = Decimal { raw: div_trunc(avg * s + p * d, s + d) };
                }
                self.size = Decimal { raw: s + d };
            } else {
                let c: i128 = if d <= -s { d } else { -s };
                proof { lemma_mul_raw_bound(c as int, avg - p); }
                let gain = Decimal { raw: c }.mul(Decimal { raw: avg - p });
                self.realized_pnl = self.realized_pnl.add(gain);
                self.size = Decimal { raw: s + d };
                if d - c > 0 && s + d > 0 {
                    self.avg_entry_price = fill.price;
                }
            }
        } else {
            if s <= 0 {
                assert(-MAX_RAW * MAX_RAW <= avg * (-s) <= MAX_RAW * MAX_RAW) by (nonlinear_arith)
                    requires -MAX_RAW <= s <= MAX_RAW, 0 <= avg <= MAX_RAW;
                if s - d < 0 {
                    assert(0 <= avg * (-s) + p * d <= MAX_RAW * (-s + d)) by (nonlinear_arith)
                        requires s <= 0, 0 < d, 0 <= avg <= MAX_RAW, 0 <= p <= MAX_RAW;
                    assert((avg * (-s) + p * d) / (-s + d) <= MAX_RAW) by (nonlinear_arith)
                        requires 0 <= avg * (-s) + p * d <= MAX_RAW * (-s + d), -s + d > 0;
                    assert((avg * (-s) + p * d) / (-s + d) >= 0) by (nonlinear_arith)
                        requires 0 <= avg * (-s) + p * d, -s + d > 0;
                    self.avg_entry_price = Decimal { raw: div_trunc(avg * (-s) + p * d, -s + d) };
                }
                self.size = Decimal { raw: s - d };
            } else {
                let c: i128 = if d <= s { d } else { s };
                proof { lemma_mul_raw_bound(c as int, p - avg); }
                let gain = Decimal { raw: c }.mul(Decimal { raw: p - avg });
                self.realized_pnl = self.realized_pnl.add(gain);
                self.size = Decimal { raw: s - d };
                if d - c > 0 && s - d < 0 {
                    self.avg_entry_price = fill.price;
                }
            }
        }
    }

    /// Marks the position at `price` and recomputes unrealized P&L.
    pub fn update_price(&mut self, price: Decimal)
        requires
            old(self).in_range(),
            0 <= price.raw <= MAX_RAW,
        ensures
            final(self).last_price == Some(price),
            final(self).unrealized_pnl.raw == unrealized_at(
                old(self).size.raw as int,
                old(self).avg_entry_price.raw as int,
                price.raw as int,
            ),
            final(self).token_id == old(self).token_id,
            final(self).size == old(self).size,
            final(self).avg_entry_price == old(self).avg_entry_price,
            final(self).realized_pnl == old(self).realized_pnl,
            final(self).wf(),
    {
        self.last_price = Some(price);
        let s = self.size.raw;
        let avg = self.avg_entry_price.raw;
        let m = price.raw;
        proof {
            lemma_mul_raw_bound(s as int, m - avg);
            lemma_mul_raw_bound(-s, avg - m);
        }
        if s > 0 {
            self.unrealized_pnl = Decimal { raw: s }.mul(Decimal { raw: m - avg });
        } else if s < 0 {
            self.unrealized_pnl = Decimal { raw: -s }.mul(Decimal { raw: avg - m });
        } else {
            self.unrealized_pnl = Decimal::zero();
        }
    }

    /// `|size|` valued at the last mark, else at the entry average.
    pub fn notional(&self) -> (r: Decimal)
        requires
            self.in_range(),
        ensures
            r.raw == notional_of(*self),
            0 <= r.raw <= MAX_NOTIONAL,
    {
        let mark = match self.last_price {
            Some(m) => m,
            None => self.avg_entry_price,
        };
        let a = self.size.abs();
        proof {
            lemma_mul_raw_bound(a.raw as int, mark.raw as int);
            assert(0 <= a.raw * mark.raw) by (nonlinear_arith)
                requires 0 <= a.raw, 0 <= mark.raw;
        }
        a.mul(mark)
    }
}

/// What a tracker adds up over its positions.
pub enum Measure {
    Realized,
    Unrealized,
    Notional,
}

pub open spec fn measure_of(p: Position, m: Measure) -> int {
    match m {
        Measure::Realized => p.realized_pnl.raw as int,
        Measure::Unrealized => p.unrealized_pnl.raw as int,
        Measure::Notional => notional_of(p),
    }
}

/// Sum of a measure over positions.
pub open spec fn total_of(s: Seq<Position>, m: Measure) -> int
    decreases s.len(),
{
    if s.len() == 0 { 0 } else { total_of(s.drop_last(), m) + measure_of(s.last(), m) }
}

/// The positions with a nonzero size, in order.
pub open spec fn active_of(s: Seq<Position>) -> Seq<Position>
    decreases s.len(),
{
    if s.len() == 0 {
        Seq::empty()
    } else if s.last().size.raw != 0 {
        active_of(s.drop_last()).push(s.last())
    } else {
        active_of(s.drop_last())
    }
}

/// Position of the entry for token `t`, if any.
pub open spec fn position_index(s: Seq<Position>, t: Seq<char>) -> Option<int> {
    if exists|i: int| 0 <= i < s.len() && (#[trigger] s[i]).token_id@ == t {
        Some(choose|i: int| 0 <= i < s.len() && (#[trigger] s[i]).token_id@ == t)
    } else {
        None
    }
}

/// The entry for token `t`, if any.
pub open spec fn position_for(s: Seq<Position>, t: Seq<char>) -> Option<Position> {
    match position_index(s, t) {
        Some(i) => Some(s[i]),
        None => None,
    }
}

/// The signed size held in token `t`, zero when untracked.
pub open spec fn size_for(s: Seq<Position>, t: Seq<char>) -> int {
    match position_for(s, t) {
        Some(p) => p.size.raw as int,
        None => 0,
    }
}

/// A position marked at `m`.
pub open spec fn mark_at(p: Position, m: Decimal) -> Position {
    Position {
        last_price: Some(m),
        unrealized_pnl: Decimal { raw: unrealized_at(p.size.raw as int, p.avg_entry_price.raw as int, m.raw as int) as i128 },
        ..p
    }
}

/// Token `t`'s position after marking, in order, at each listed price of
/// `t` that is in range; an untracked token stays untracked.
pub open spec fn marks_applied(o: Option<Position>, prices: Seq<(String, Decimal)>, t: Seq<char>) -> Option<Position>
    decreases prices.len(),
{
    if prices.len() == 0 {
        o
    } else {
        let prev = marks_applied(o, prices.drop_last(), t);
        let (tok, m) = prices.last();
        if tok@ == t && prev.is_some() && 0 <= m.raw <= MAX_RAW { Some(mark_at(prev.unwrap(), m)) } else { prev }
    }
}

/// The position a fill applies to: the token's, else a flat new one.
pub open spec fn fill_base(s: Seq<Position>, f: Fill) -> Position {
    match position_for(s, f.token_id@) {
        Some(p) => p,
        None => Position {
            token_id: f.token_id,
            size: Decimal { raw: 0 },
            avg_entry_price: Decimal { raw: 0 },
            realized_pnl: Decimal { raw: 0 },
            unrealized_pnl: Decimal { raw: 0 },
            last_price: None,
        },
    }
}

/// A tracker takes a fill when the fill is valid, its token is tracked or
/// there is room for it, and the resulting size and realized P&L stay in range.
pub open spec fn fill_admitted(s: Seq<Position>, f: Fill) -> bool {
    let after = after_fill(fill_base(s, f), f);
    &&& fill_ok(f)
    &&& (position_for(s, f.token_id@).is_some() || s.len() < MAX_POSITIONS)
    &&& -MAX_RAW <= after.size.raw <= MAX_RAW
    &&& -MAX_PNL <= after.realized_pnl.raw <= MAX_PNL
}

impl Position {
    /// A copy of the position.
    pub fn copy(&self) -> (r: Position)
        ensures
            r == *self,
    {
        Position {
            token_id: self.token_id.clone(),
            size: self.size,
            avg_entry_price: self.avg_entry_price,
            realized_pnl: self.realized_pnl,
            unrealized_pnl: self.unrealized_pnl,
            last_price: self.last_price,
        }
    }
}

/// Tracks one position per token.
pub struct PositionTracker {
    positions: Vec<Position>,
}

impl PositionTracker {
    pub closed spec fn positions(&self) -> Seq<Position> {
        self.positions@
    }

    /// Unique tokens, well-formed positions, and at most `MAX_POSITIONS` of them.
    pub open spec fn wf(&self) -> bool {
        &&& self.positions().len() <= MAX_POSITIONS
        &&& forall|i: int| 0 <= i < self.positions().len() ==> (#[trigger] self.positions()[i]).wf()
        &&& forall|i: int, j: int|
            0 <= i < j < self.positions().len() ==> (#[trigger] self.positions()[i]).token_id@ != (
            #[trigger] self.positions()[j]).token_id@
    }

    pub fn new() -> (r: PositionTracker)
        ensures
            r.wf(),
            r.positions().len() == 0,
    {
        PositionTracker { positions: Vec::new() }
    }

    proof fn lemma_index_unique(&self, t: Seq<char>, i: int)
        requires
            self.wf(),
            0 <= i < self.positions().len(),
            self.positions()[i].token_id@ == t,
        ensures
            position_index(self.positions(), t) == Some(i),
    {
        let j = position_index(self.positions(), t).unwrap();
        assert(self.positions()[j].token_id@ == t);
        if i != j {
            if i < j {
                assert(self.positions()[i].token_id@ != self.positions()[j].token_id@);
            } else {
                assert(self.positions()[j].token_id@ != self.positions()[i].token_id@);
            }
        }
    }

    fn find(&self, token_id: &String) -> (r: Option<usize>)
        requires
            self.wf(),
        ensures
            match r {
                Some(i) => i < self.positions().len() && position_index(self.positions(), token_id@) == Some(
                    i as int,
                ),
                None => position_index(self.positions(), token_id@).is_none(),
            },
    {
        let mut i: usize = 0;
        while i < self.positions.len()
            invariant
                self.wf(),
                0 <= i <= self.positions@.len(),
                forall|k: int| 0 <= k < i ==> (#[trigger] self.positions@[k]).token_id@ != token_id@,
            decreases self.positions@.len() - i,
        {
            if self.positions[i].token_id == *token_id {
                proof { self.lemma_index_unique(token_id@, i as int); }
                return Some(i);
            }
            i = i + 1;
        }
        None
    }

    /// The position of a token.
    pub fn get(&self, token_id: &str) -> (r: Option<&Position>)
        requires
            self.wf(),
        ensures
            match r {
                Some(p) => position_for(self.positions(), token_id@) == Some(*p),
                None => position_for(self.positions(), token_id@).is_none(),
            },
    {
        let key = token_id.to_owned();
        match self.find(&key) {
            Some(i) => Some(&self.positions[i]),
            None => None,
        }
    }

    /// The signed size held in a token, zero when untracked.
    pub fn size_of(&self, token_id: &str) -> (r: Decimal)
        requires
            self.wf(),
        ensures
            r.raw == size_for(self.positions(), token_id@),
            -MAX_RAW <= r.raw <= MAX_RAW,
    {
        proof {
            if position_index(self.positions(), token_id@).is_some() {
                let i = position_index(self.positions(), token_id@).unwrap();
                assert(self.positions()[i].wf());
            }
        }
        match self.get(token_id) {
            Some(p) => p.size,
            None => Decimal::zero(),
        }
    }

    /// Stores a position, replacing the one of the same token. Refused
    /// (returns false, nothing changes) when a new token would exceed
    /// `MAX_POSITIONS`.
    pub fn set_position(&mut self, position: Position) -> (r: bool)
        requires
            old(self).wf(),
            position.wf(),
        ensures
            final(self).wf(),
            r ==> position_for(final(self).positions(), position.token_id@) == Some(position),
            r ==> forall|t: Seq<char>| t != position.token_id@ ==> position_for(final(self).positions(), t)
                == position_for(old(self).positions(), t),
            !r ==> final(self).positions() == old(self).positions(),
            r == (position_index(old(self).positions(), position.token_id@).is_some()
                || old(self).positions().len() < MAX_POSITIONS),
    {
        let ghost t = position.token_id@;
        match self.find(&position.token_id) {
            Some(i) => {
                let ghost before = self.positions@;
                self.positions.set(i, position);
                proof {
                    assert forall|a: int, b: int|
                        0 <= a < b < self.positions().len() implies (#[trigger] self.positions()[a]).token_id@
                        != (#[trigger] self.positions()[b]).token_id@ by {
                        assert(before[a].token_id@ != before[b].token_id@);
                    }
                    self.lemma_index_unique(t, i as int);
                    self.lemma_others_kept(before, t, i as int);
                }
                true
            },
            None => {
                if self.positions.len() >= MAX_POSITIONS {
                    return false;
                }
                let ghost before = self.positions@;
                self.positions.push(position);
                proof {
                    assert(self.positions@.drop_last() =~= before);
                    self.lemma_index_unique(t, before.len() as int);
                    self.lemma_others_kept(before, t, before.len() as int);
                }
                true
            },
        }
    }

    proof fn lemma_others_kept(&self, before: Seq<Position>, t: Seq<char>, i: int)
        requires
            self.wf(),
            0 <= i < self.positions().len(),
            self.positions().len() == before.len() || self.positions().len() == before.len() + 1,
            i < before.len() || i == before.len(),
            self.positions().len() == before.len() ==> i < before.len(),
            self.positions().len() == before.len() + 1 ==> i == before.len(),
            forall|k: int| 0 <= k < self.positions().len() && k != i ==> self.positions()[k] == before[k],
            before.len() == self.positions().len() ==> before[i].token_id@ == t,
            self.positions().len() == before.len() + 1 ==> position_index(before, t).is_none(),
            self.positions()[i].token_id@ == t,
        ensures
            forall|u: Seq<char>| u != t ==> position_for(self.positions(), u) == position_for(before, u),
    {
        assert forall|u: Seq<char>| u != t implies position_for(self.positions(), u) == position_for(before, u) by {
            if position_index(before, u).is_some() {
                let j = position_index(before, u).unwrap();
                assert(before[j].token_id@ == u);
                assert(j != i);
                assert(self.positions()[j] == before[j]);
                self.lemma_index_unique(u, j);
            }
            if position_index(self.positions(), u).is_some() {
                let j = position_index(self.positions(), u).unwrap();
                assert(j != i);
                assert(self.positions()[j] == before[j]);
                assert(before[j].token_id@ == u);
            }
        }
    }

    /// Ensures a token has a position, creating a flat one if needed. False
    /// when the token is new and the tracker is full.
    pub fn get_or_create(&mut self, token_id: &str) -> (r: bool)
        requires
            old(self).wf(),
        ensures
            final(self).wf(),
            r == position_for(final(self).positions(), token_id@).is_some(),
            position_for(old(self).positions(), token_id@).is_some() ==> final(self).positions() == old(self).positions(),
            forall|t: Seq<char>| t != token_id@ ==> position_for(final(self).positions(), t)
                == position_for(old(self).positions(), t),
    {
        let key = token_id.to_owned();
        match self.find(&key) {
            Some(_) => true,
            None => {
                let r = self.set_position(Position::new(key));
                r
            },
        }
    }

    /// Applies a fill to its token's position (created if needed), then
    /// re-marks the position at its last price. Refused, with nothing
    /// changed, when the fill has a non-positive size or an out-of-range
    /// amount, when the tracker is full, or when the result would leave the
    /// supported range.
    pub fn apply_fill(&mut self, fill: &Fill) -> (r: bool)
        requires
            old(self).wf(),
        ensures
            final(self).wf(),
            !r ==> final(self).positions() == old(self).positions(),
            r == fill_admitted(old(self).positions(), *fill),
            r ==> position_for(final(self).positions(), fill.token_id@) == Some(
                after_fill(fill_base(old(self).positions(), *fill), *fill),
            ),
            r ==> forall|t: Seq<char>| t != fill.token_id@ ==> position_for(final(self).positions(), t)
                == position_for(old(self).positions(), t),
    {
        if !(0 < fill.size.raw && fill.size.raw <= MAX_RAW && 0 <= fill.price.raw && fill.price.raw <= MAX_RAW) {
            return false;
        }
        let mut pos = match self.get(fill.token_id.as_str()) {
            Some(p) => p.copy(),
            None => Position::new(fill.token_id.clone()),
        };
        let ghost before = pos;
        proof {
            if position_index(self.positions(), fill.token_id@).is_some() {
                let i = position_index(self.positions(), fill.token_id@).unwrap();
                assert(self.positions()[i].wf());
            }
        }
        assert(before == fill_base(self.positions(), *fill));
        pos.apply_fill(fill);
        if !(-MAX_RAW <= pos.size.raw && pos.size.raw <= MAX_RAW && -MAX_PNL <= pos.realized_pnl.raw
            && pos.realized_pnl.raw <= MAX_PNL) {
            return false;
        }
        proof {
            lemma_mul_raw_bound(pos.size.raw as int, mark_of(pos) - pos.avg_entry_price.raw);
            lemma_mul_raw_bound(-pos.size.raw, pos.avg_entry_price.raw - mark_of(pos));
        }
        let r = self.set_position(pos);
        r
    }

    /// Marks a token's position at `price`; false when the token is untracked
    /// or the price is out of range.
    pub fn update_price(&mut self, token_id: &str, price: Decimal) -> (r: bool)
        requires
            old(self).wf(),
        ensures
            final(self).wf(),
            r == (position_for(old(self).positions(), token_id@).is_some() && 0 <= price.raw <= MAX_RAW),
            !r ==> final(self).positions() == old(self).positions(),
            r ==> position_for(final(self).positions(), token_id@) == Some(
                mark_at(position_for(old(self).positions(), token_id@).unwrap(), price),
            ),
            forall|t: Seq<char>| t != token_id@ ==> position_for(final(self).positions(), t)
                == position_for(old(self).positions(), t),
    {
        if !(0 <= price.raw && price.raw <= MAX_RAW) {
            return false;
        }
        let mut pos = match self.get(token_id) {
            Some(p) => p.copy(),
            None => return false,
        };
        pos.update_price(price);
        let r = self.set_position(pos);
        r
    }

    /// Marks each listed token's position at its price.
    pub fn update_prices(&mut self, prices: &Vec<(String, Decimal)>)
        requires
            old(self).wf(),
        ensures
            final(self).wf(),
            forall|t: Seq<char>| #[trigger] position_for(final(self).positions(), t) == marks_applied(
                position_for(old(self).positions(), t),
                prices@,
                t,
            ),
    {
        let mut i: usize = 0;
        while i < prices.len()
            invariant
                self.wf(),
                0 <= i <= prices@.len(),
                forall|t: Seq<char>| #[trigger] position_for(self.positions(), t) == marks_applied(
                    position_for(old(self).positions(), t),
                    prices@.take(i as int),
                    t,
                ),
            decreases prices.len() - i,
        {
            let (tok, p) = &prices[i];
            let ghost before = self.positions();
            self.update_price(tok.as_str(), *p);
            proof {
                assert(prices@.take(i as int + 1).drop_last() =~= prices@.take(i as int));
                assert forall|t: Seq<char>| #[trigger] position_for(self.positions(), t) == marks_applied(
                    position_for(old(self).positions(), t),
                    prices@.take(i as int + 1),
                    t,
                ) by {
                    assert(position_for(before, t) == marks_applied(position_for(old(self).positions(), t), prices@.take(i as int), t));
                }
            }
            i = i + 1;
        }
        assert(prices@.take(i as int) =~= prices@);
    }

    fn total(&self, m: Measure) -> (r: i128)
        requires
            self.wf(),
        ensures
            r == total_of(self.positions(), m),
    {
        let ghost s = self.positions@;
        let mut i: usize = 0;
        let mut acc: i128 = 0;
        while i < self.positions.len()
            invariant
                s == self.positions@,
                self.wf(),
                0 <= i <= s.len(),
                acc == total_of(s.take(i as int), m),
                -(i as int) * MAX_PNL <= acc <= (i as int) * MAX_PNL,
            decreases s.len() - i,
        {
            let p = &self.positions[i];
            assert(s.take(i as int + 1).drop_last() =~= s.take(i as int));
            assert(p.wf());
            let v: i128 = match m {
                Measure::Realized => p.realized_pnl.raw,
                Measure::Unrealized => p.unrealized_pnl.raw,
                Measure::Notional => p.notional().raw,
            };
            acc = acc + v;
            i = i + 1;
        }
        assert(s.take(i as int) =~= s);
        acc
    }

    /// Sum of realized P&L.
    pub fn total_realized_pnl(&self) -> (r: Decimal)
        requires
            self.wf(),
        ensures
            r.raw == total_of(self.positions(), Measure::Realized),
    {
        Decimal { raw: self.total(Measure::Realized) }
    }

    /// Sum of unrealized P&L.
    pub fn total_unrealized_pnl(&self) -> (r: Decimal)
        requires
            self.wf(),
        ensures
            r.raw == total_of(self.positions(), Measure::Unrealized),
    {
        Decimal { raw: self.total(Measure::Unrealized) }
    }

    /// Sum of `|size| · mark` over positions, marked at the last price or the entry average.
    pub fn total_notional(&self) -> (r: Decimal)
        requires
            self.wf(),
        ensures
            r.raw == total_of(self.positions(), Measure::Notional),
            0 <= r.raw <= MAX_POSITIONS * MAX_NOTIONAL,
    {
        let r = Decimal { raw: self.total(Measure::Notional) };
        proof { self.lemma_notional_bounds(self.positions().len() as int); }
        r
    }

    proof fn lemma_notional_bounds(&self, k: int)
        requires
            self.wf(),
            0 <= k <= self.positions().len(),
        ensures
            0 <= total_of(self.positions().take(k), Measure::Notional) <= k * MAX_NOTIONAL,
            k == self.positions().len() ==> total_of(self.positions(), Measure::Notional) == total_of(self.positions().take(k), Measure::Notional),
        decreases k,
    {
        let s = self.positions();
        if k > 0 {
            self.lemma_notional_bounds(k - 1);
            assert(s.take(k).drop_last() =~= s.take(k - 1));
            let p = s[k - 1];
            assert(p.wf());
            let a = abs_int(p.size.raw as int);
            lemma_mul_raw_bound(a, mark_of(p));
            assert(0 <= a * mark_of(p)) by (nonlinear_arith)
                requires 0 <= a, 0 <= mark_of(p);
        } else {
            assert(s.take(0) =~= Seq::<Position>::empty());
        }
        if k == s.len() {
            assert(s.take(k) =~= s);
        }
    }

    /// The positions with a nonzero size.
    pub fn active_positions(&self) -> (r: Vec<Position>)
        requires
            self.wf(),
        ensures
            r@ == active_of(self.positions()),
    {
        let ghost s = self.positions@;
        let mut out: Vec<Position> = Vec::new();
        let mut i: usize = 0;
        while i < self.positions.len()
            invariant
                s == self.positions@,
                0 <= i <= s.len(),
                out@ == active_of(s.take(i as int)),
            decreases s.len() - i,
        {
            assert(s.take(i as int + 1).drop_last() =~= s.take(i as int));
            if self.positions[i].size.raw != 0 {
                out.push(self.positions[i].copy());
            }
            i = i + 1;
        }
        assert(s.take(i as int) =~= s);
        out
    }

    /// A snapshot of the tracker.
    pub fn copy(&self) -> (r: PositionTracker)
        ensures
            r.positions() == self.positions(),
    {
        let mut out: Vec<Position> = Vec::new();
        let mut i: usize = 0;
        while i < self.positions.len()
            invariant
                0 <= i <= self.positions@.len(),
                out@ == self.positions@.take(i as int),
            decreases self.positions@.len() - i,
        {
            out.push(self.positions[i].copy());
            i = i + 1;
            assert(out@ =~= self.positions@.take(i as int));
        }
        assert(self.positions@.take(i as int) =~= self.positions@);
        PositionTracker { positions: out }
    }

    /// Every tracked position, flat ones included.
    pub fn all_positions(&self) -> (r: &Vec<Position>)
        ensures
            r@ == self.positions(),
    {
        &self.positions
    }
}

/// Law: buying `d` at `p` from flat gives size `d`, entry `p` and no
/// realized P&L; selling the same `d` at `q` then returns to flat and
/// realizes `d · (q − p)`.
pub proof fn lemma_round_trip(pos: Position, buy: Fill, sell: Fill)
    requires
        pos.size.raw == 0,
        pos.realized_pnl.raw == 0,
        buy.is_buy,
        !sell.is_buy,
        fill_ok(buy),
        fill_ok(sell),
        sell.size == buy.size,
    ensures
        after_fill(pos, buy).size == buy.size,
        after_fill(pos, buy).avg_entry_price == buy.price,
        after_fill(pos, buy).realized_pnl.raw == 0,
        after_fill(after_fill(pos, buy), sell).size.raw == 0,
        after_fill(after_fill(pos, buy), sell).realized_pnl.raw == mul_raw(
            buy.size.raw as int,
            sell.price.raw - buy.price.raw,
        ),
{
    let d = buy.size.raw as int;
    let p = buy.price.raw as int;
    let avg = pos.avg_entry_price.raw as int;
    assert(avg * 0 + p * d == p * d) by (nonlinear_arith);
    assert((p * d) / d == p) by (nonlinear_arith)
        requires d > 0, p >= 0;
    assert(p * d >= 0) by (nonlinear_arith) requires d > 0, p >= 0;
    assert(blended(avg, 0, p, d) == p);
    lemma_mul_raw_bound(d, sell.price.raw - p);
}

} // verus!
