//! Full-depth order books and the hub that owns one book per token.

use vstd::prelude::*;
use crate::decimal::{abs_int, lemma_trunc_div_bound, Decimal, MAX_RAW, SCALE, fits, trunc_div, div_raw, mul_raw, min_int};

verus! {

/// A single price level of a ladder.
#[derive(Clone, Copy, Debug, PartialEq, Eq, Structural)]
pub struct Level {
    pub price: Decimal,
    pub size: Decimal,
}

/// A level whose price and size are within the accepted input range, with a positive size.
pub open spec fn level_ok(l: Level) -> bool {
    &&& 0 <= l.price.raw <= MAX_RAW
    &&& 0 < l.size.raw <= MAX_RAW
}

/// Sum of the sizes of a ladder.
pub open spec fn depth(s: Seq<Level>) -> int
    decreases s.len(),
{
    if s.len() == 0 { 0 } else { depth(s.drop_last()) + s.last().size.raw }
}

/// Sum of the sizes of the levels priced at or above `p`.
pub open spec fn depth_at_or_above(s: Seq<Level>, p: int) -> int
    decreases s.len(),
{
    if s.len() == 0 {
        0
    } else {
        depth_at_or_above(s.drop_last(), p) + if s.last().price.raw >= p { s.last().size.raw } else { 0 }
    }
}

/// Sum of the sizes of the levels priced at or below `p`.
pub open spec fn depth_at_or_below(s: Seq<Level>, p: int) -> int
    decreases s.len(),
{
    if s.len() == 0 {
        0
    } else {
        depth_at_or_below(s.drop_last(), p) + if s.last().price.raw <= p { s.last().size.raw } else { 0 }
    }
}

/// Prices strictly decreasing along the ladder.
pub open spec fn descending(s: Seq<Level>) -> bool {
    forall|i: int, j: int| 0 <= i < j < s.len() ==> s[i].price.raw > s[j].price.raw
}

/// Prices strictly increasing along the ladder.
pub open spec fn ascending(s: Seq<Level>) -> bool {
    forall|i: int, j: int| 0 <= i < j < s.len() ==> s[i].price.raw < s[j].price.raw
}

pub open spec fn levels_ok(s: Seq<Level>) -> bool {
    forall|i: int| 0 <= i < s.len() ==> level_ok(#[trigger] s[i])
}

/// The invariants of a book snapshot.
pub open spec fn ladders_ok(bids: Seq<Level>, asks: Seq<Level>) -> bool {
    &&& descending(bids)
    &&& ascending(asks)
    &&& levels_ok(bids)
    &&& levels_ok(asks)
    &&& (bids.len() > 0 && asks.len() > 0 ==> bids[0].price.raw < asks[0].price.raw)
    &&& depth(bids) <= MAX_RAW
    &&& depth(asks) <= MAX_RAW
}

/// Walks a ladder from level `i` to fill `remaining`: the exact cost (in
/// units of `SCALE * SCALE`) and what is left unfilled.
pub open spec fn walk(s: Seq<Level>, i: int, remaining: int) -> (int, int)
    decreases s.len() - i,
{
    if i < 0 || i >= s.len() || remaining <= 0 {
        (0, remaining)
    } else {
        let fill = min_int(remaining, s[i].size.raw as int);
        let rest = walk(s, i + 1, remaining - fill);
        (fill * s[i].price.raw + rest.0, rest.1)
    }
}

/// Volume-weighted average price of filling `size` against a ladder.
pub open spec fn vwap_of(s: Seq<Level>, size: int) -> Option<int> {
    let w = walk(s, 0, size);
    if w.1 > 0 { None } else { Some(trunc_div(w.0, size)) }
}

pub proof fn lemma_depth_bounds(s: Seq<Level>, p: int)
    requires
        levels_ok(s),
    ensures
        0 <= depth(s),
        0 <= depth_at_or_above(s, p) <= depth(s),
        0 <= depth_at_or_below(s, p) <= depth(s),
        s.len() > 0 ==> depth(s) >= s[0].size.raw,
    decreases s.len(),
{
    if s.len() > 0 {
        assert(levels_ok(s.drop_last()));
        lemma_depth_bounds(s.drop_last(), p);
        assert(level_ok(s[s.len() - 1]));
        if s.len() > 1 {
            assert(s.drop_last()[0] == s[0]);
        }
    }
}

/// Full-depth order book for a single token.
#[derive(Clone, Debug)]
pub struct OrderBook {
    pub token_id: String,
    /// Bid levels, best (highest) price first.
    pub bids: Vec<Level>,
    /// Ask levels, best (lowest) price first.
    pub asks: Vec<Level>,
    /// Time of the last snapshot, Unix milliseconds.
    pub timestamp: i64,
    pub hash: Option<String>,
}

/// Checks one ladder: levels in range, strictly ordered, total depth in range.
fn check_ladder(levels: &Vec<Level>, descending_order: bool) -> (r: bool)
    ensures
        r == (levels_ok(levels@) && depth(levels@) <= MAX_RAW && (if descending_order {
            descending(levels@)
        } else {
            ascending(levels@)
        })),
{
    let mut i: usize = 0;
    let mut total: i128 = 0;
    while i < levels.len()
        invariant
            0 <= i <= levels.len(),
            levels_ok(levels@.take(i as int)),
            total == depth(levels@.take(i as int)),
            0 <= total <= MAX_RAW,
            if descending_order {
                descending(levels@.take(i as int))
            } else {
                ascending(levels@.take(i as int))
            },
        decreases levels.len() - i,
    {
        let l = levels[i];
        assert(levels@.take(i as int + 1).drop_last() =~= levels@.take(i as int));
        if !(0 <= l.price.raw && l.price.raw <= MAX_RAW && 0 < l.size.raw && l.size.raw <= MAX_RAW) {
            assert(!level_ok(levels@[i as int]));
            return false;
        }
        if i > 0 {
            let prev = levels[i - 1];
            let ordered = if descending_order {
                prev.price.raw > l.price.raw
            } else {
                prev.price.raw < l.price.raw
            };
            if !ordered {
                return false;
            }
        }
        if total + l.size.raw > MAX_RAW {
            proof {
                let t = levels@.take(i as int + 1);
                assert(levels_ok(t));
                if levels_ok(levels@) {
                    lemma_depth_prefix(levels@, i as int + 1);
                }
            }
            return false;
        }
        total = total + l.size.raw;
        i = i + 1;
    }
    assert(levels@.take(i as int) =~= levels@);
    true
}

/// The depth of a prefix never exceeds the depth of the whole ladder.
pub proof fn lemma_depth_prefix(s: Seq<Level>, k: int)
    requires
        levels_ok(s),
        0 <= k <= s.len(),
    ensures
        depth(s.take(k)) <= depth(s),
    decreases s.len() - k,
{
    if k < s.len() {
        lemma_depth_prefix(s, k + 1);
        assert(s.take(k + 1).drop_last() =~= s.take(k));
        assert(level_ok(s[k]));
    } else {
        assert(s.take(k) =~= s);
    }
}

/// The book after a snapshot: the ladders replaced when they are valid,
/// the book unchanged otherwise; the token never changes.
pub open spec fn snapshot_applied(before: OrderBook, after: OrderBook, bids: Seq<Level>, asks: Seq<Level>) -> bool {
    if ladders_ok(bids, asks) {
        after.bids@ == bids && after.asks@ == asks && after.token_id == before.token_id
    } else {
        after == before
    }
}

impl OrderBook {
    /// The book's invariants hold.
    pub open spec fn wf(&self) -> bool {
        ladders_ok(self.bids@, self.asks@)
    }

    /// An empty book for a token.
    pub fn new(token_id: String) -> (r: OrderBook)
        ensures
            r.token_id == token_id,
            r.bids@.len() == 0,
            r.asks@.len() == 0,
            r.timestamp == 0,
            r.hash.is_none(),
            r.wf(),
    {
        OrderBook { token_id, bids: Vec::new(), asks: Vec::new(), timestamp: 0, hash: None }
    }

    /// Replaces both ladders with a snapshot. A snapshot that breaks the
    /// book's invariants is refused and the book is left as it was.
    pub fn apply_snapshot(&mut self, bids: Vec<Level>, asks: Vec<Level>, timestamp: i64, hash: Option<String>) -> (r: bool)
        ensures
            r == ladders_ok(bids@, asks@),
            snapshot_applied(*old(self), *final(self), bids@, asks@),
            r ==> final(self).timestamp == timestamp && final(self).hash == hash,
    {
        if !Self::snapshot_ok(&bids, &asks) {
            return false;
        }
        self.bids = bids;
        self.asks = asks;
        self.timestamp = timestamp;
        self.hash = hash;
        true
    }

    /// Whether two ladders form a valid book.
    pub fn snapshot_ok(bids: &Vec<Level>, asks: &Vec<Level>) -> (r: bool)
        ensures
            r == ladders_ok(bids@, asks@),
    {
        if !check_ladder(bids, true) || !check_ladder(asks, false) {
            return false;
        }
        if bids.len() > 0 && asks.len() > 0 && bids[0].price.raw >= asks[0].price.raw {
            return false;
        }
        true
    }

    pub fn best_bid(&self) -> (r: Option<&Level>)
        ensures
            self.bids@.len() == 0 ==> r.is_none(),
            self.bids@.len() > 0 ==> r == Some(&self.bids@[0]),
    {
        if self.bids.len() == 0 { None } else { Some(&self.bids[0]) }
    }

    pub fn best_ask(&self) -> (r: Option<&Level>)
        ensures
            self.asks@.len() == 0 ==> r.is_none(),
            self.asks@.len() > 0 ==> r == Some(&self.asks@[0]),
    {
        if self.asks.len() == 0 { None } else { Some(&self.asks[0]) }
    }

    /// Size at the best bid, zero when there are no bids.
    pub fn bid_size(&self) -> (r: Decimal)
        ensures
            r.raw == if self.bids@.len() == 0 { 0 } else { self.bids@[0].size.raw as int },
    {
        if self.bids.len() == 0 { Decimal::zero() } else { self.bids[0].size }
    }

    /// Size at the best ask, zero when there are no asks.
    pub fn ask_size(&self) -> (r: Decimal)
        ensures
            r.raw == if self.asks@.len() == 0 { 0 } else { self.asks@[0].size.raw as int },
    {
        if self.asks.len() == 0 { Decimal::zero() } else { self.asks[0].size }
    }

    pub open spec fn mid_spec(&self) -> Option<int> {
        if self.bids@.len() > 0 && self.asks@.len() > 0 {
            Some(div_raw(self.bids@[0].price.raw + self.asks@[0].price.raw, 2 * SCALE))
        } else {
            None
        }
    }

    pub open spec fn spread_spec(&self) -> Option<int> {
        if self.bids@.len() > 0 && self.asks@.len() > 0 {
            Some(self.asks@[0].price.raw - self.bids@[0].price.raw)
        } else {
            None
        }
    }

    /// Mean of the best bid and the best ask.
    pub fn mid_price(&self) -> (r: Option<Decimal>)
        requires
            self.wf(),
        ensures
            r.is_some() == self.mid_spec().is_some(),
            r.is_some() ==> r.unwrap().raw == self.mid_spec().unwrap(),
    {
        if self.bids.len() == 0 || self.asks.len() == 0 {
            return None;
        }
        assert(level_ok(self.bids@[0]) && level_ok(self.asks@[0]));
        let two = Decimal::from_int(2);
        Some(self.bids[0].price.add(self.asks[0].price).div(two))
    }

    /// Best ask minus best bid.
    pub fn spread(&self) -> (r: Option<Decimal>)
        requires
            self.wf(),
        ensures
            r.is_some() == self.spread_spec().is_some(),
            r.is_some() ==> r.unwrap().raw == self.spread_spec().unwrap(),
    {
        if self.bids.len() == 0 || self.asks.len() == 0 {
            return None;
        }
        assert(level_ok(self.bids@[0]) && level_ok(self.asks@[0]));
        Some(self.asks[0].price.sub(self.bids[0].price))
    }

    /// Spread in basis points of the mid price, when the mid is positive.
    pub fn spread_bps(&self) -> (r: Option<Decimal>)
        requires
            self.wf(),
        ensures
            r.is_some() == (self.mid_spec().is_some() && self.mid_spec().unwrap() > 0),
            r.is_some() ==> r.unwrap().raw == div_raw(
                mul_raw(self.spread_spec().unwrap(), 10000 * SCALE),
                self.mid_spec().unwrap(),
            ),
    {
        let mid = match self.mid_price() {
            Some(m) => m,
            None => return None,
        };
        if mid.raw <= 0 {
            return None;
        }
        let spread = self.spread().unwrap();
        assert(level_ok(self.bids@[0]) && level_ok(self.asks@[0]));
        let bps = Decimal::from_int(10000);
        assert(-MAX_RAW <= spread.raw <= MAX_RAW);
        assert(fits(spread.raw * bps.raw)) by (nonlinear_arith)
            requires -MAX_RAW <= spread.raw <= MAX_RAW, bps.raw == 10000 * SCALE;
        let scaled = spread.mul(bps);
        assert(-MAX_RAW * 10000 <= scaled.raw <= MAX_RAW * 10000) by {
            let p = spread.raw * bps.raw;
            assert(-MAX_RAW * 10000 * SCALE <= p <= MAX_RAW * 10000 * SCALE) by (nonlinear_arith)
                requires -MAX_RAW <= spread.raw <= MAX_RAW, bps.raw == 10000 * SCALE, p == spread.raw * bps.raw;
            lemma_trunc_div_bound(p, SCALE as int, MAX_RAW * 10000 * SCALE);
            assert((MAX_RAW * 10000 * SCALE) as int / (SCALE as int) == MAX_RAW * 10000);
        }
        assert(fits(scaled.raw * SCALE)) by (nonlinear_arith)
            requires -MAX_RAW * 10000 <= scaled.raw <= MAX_RAW * 10000;
        assert(fits(mid.raw as int)) by {
            assert(0 <= mid.raw);
            lemma_trunc_div_bound(
                (self.bids@[0].price.raw + self.asks@[0].price.raw) * SCALE,
                2 * SCALE,
                2 * MAX_RAW * SCALE,
            );
            assert((self.bids@[0].price.raw + self.asks@[0].price.raw) * SCALE <= 2 * MAX_RAW * SCALE) by (nonlinear_arith)
                requires self.bids@[0].price.raw + self.asks@[0].price.raw <= 2 * MAX_RAW;
            assert((2 * MAX_RAW * SCALE) as int / ((2 * SCALE) as int) == MAX_RAW);
        }
        Some(scaled.div(mid))
    }
}

impl OrderBook {
    /// Total size on the bid side.
    pub fn bid_depth(&self) -> (r: Decimal)
        requires
            self.wf(),
        ensures
            r.raw == depth(self.bids@),
    {
        Decimal { raw: sum_sizes(&self.bids, 0, false) }
    }

    /// Total size on the ask side.
    pub fn ask_depth(&self) -> (r: Decimal)
        requires
            self.wf(),
        ensures
            r.raw == depth(self.asks@),
    {
        Decimal { raw: sum_sizes(&self.asks, 0, false) }
    }

    /// Size on the bid side priced at or above `price`.
    pub fn bid_depth_to_price(&self, price: Decimal) -> (r: Decimal)
        requires
            self.wf(),
        ensures
            r.raw == depth_at_or_above(self.bids@, price.raw as int),
    {
        Decimal { raw: sum_sizes(&self.bids, price.raw, true) }
    }

    /// Size on the ask side priced at or below `price`.
    pub fn ask_depth_to_price(&self, price: Decimal) -> (r: Decimal)
        requires
            self.wf(),
        ensures
            r.raw == depth_at_or_below(self.asks@, price.raw as int),
    {
        Decimal { raw: sum_sizes_below(&self.asks, price.raw) }
    }

    /// Average price paid to buy `size` by walking the asks; none when the
    /// asks cannot fill it.
    pub fn vwap_buy(&self, size: Decimal) -> (r: Option<Decimal>)
        requires
            self.wf(),
            0 < size.raw <= MAX_RAW,
        ensures
            r.is_some() == vwap_of(self.asks@, size.raw as int).is_some(),
            r.is_some() ==> r.unwrap().raw == vwap_of(self.asks@, size.raw as int).unwrap(),
    {
        walk_ladder(&self.asks, size)
    }

    /// Average price received to sell `size` by walking the bids; none when
    /// the bids cannot absorb it.
    pub fn vwap_sell(&self, size: Decimal) -> (r: Option<Decimal>)
        requires
            self.wf(),
            0 < size.raw <= MAX_RAW,
        ensures
            r.is_some() == vwap_of(self.bids@, size.raw as int).is_some(),
            r.is_some() ==> r.unwrap().raw == vwap_of(self.bids@, size.raw as int).unwrap(),
    {
        walk_ladder(&self.bids, size)
    }

    /// `(b - a) / (b + a)` at nine digits, except that a nonzero difference
    /// too small to show there comes out as the smallest step of its sign,
    /// so the result is zero exactly when the depths are equal.
    pub open spec fn imbalance_spec(&self) -> Option<int> {
        let b = depth(self.bids@);
        let a = depth(self.asks@);
        if b + a > 0 {
            let q = div_raw(b - a, b + a);
            Some(if q == 0 && b > a { 1 } else if q == 0 && b < a { -1 } else { q })
        } else {
            None
        }
    }

    /// `(bid_depth - ask_depth) / (bid_depth + ask_depth)`; none when both
    /// sides are empty. Zero exactly for equal depths, with the sign of the
    /// difference otherwise.
    pub fn imbalance(&self) -> (r: Option<Decimal>)
        requires
            self.wf(),
        ensures
            r.is_some() == self.imbalance_spec().is_some(),
            r.is_some() ==> r.unwrap().raw == self.imbalance_spec().unwrap(),
    {
        let b = self.bid_depth();
        let a = self.ask_depth();
        proof {
            lemma_depth_bounds(self.bids@, 0);
            lemma_depth_bounds(self.asks@, 0);
        }
        let total = b.add(a);
        if total.raw > 0 {
            let diff = b.sub(a);
            assert(fits(diff.raw * SCALE)) by (nonlinear_arith)
                requires -MAX_RAW <= diff.raw <= MAX_RAW;
            let q = diff.div(total);
            if q.raw == 0 && diff.raw > 0 {
                Some(Decimal { raw: 1 })
            } else if q.raw == 0 && diff.raw < 0 {
                Some(Decimal { raw: -1 })
            } else {
                Some(q)
            }
        } else {
            None
        }
    }
}

/// Sums the sizes of a ladder, or of its levels priced at or above `p`.
fn sum_sizes(levels: &Vec<Level>, p: i128, filtered: bool) -> (r: i128)
    requires
        levels_ok(levels@),
        depth(levels@) <= MAX_RAW,
    ensures
        r == if filtered { depth_at_or_above(levels@, p as int) } else { depth(levels@) },
{
    let mut i: usize = 0;
    let mut total: i128 = 0;
    while i < levels.len()
        invariant
            0 <= i <= levels.len(),
            levels_ok(levels@),
            depth(levels@) <= MAX_RAW,
            total == if filtered {
                depth_at_or_above(levels@.take(i as int), p as int)
            } else {
                depth(levels@.take(i as int))
            },
        decreases levels.len() - i,
    {
        proof {
            let t = levels@.take(i as int + 1);
            assert(t.drop_last() =~= levels@.take(i as int));
            assert(levels_ok(t));
            lemma_depth_bounds(t, p as int);
            lemma_depth_prefix(levels@, i as int + 1);
        }
        let l = levels[i];
        if !filtered || l.price.raw >= p {
            total = total + l.size.raw;
        }
        i = i + 1;
    }
    assert(levels@.take(i as int) =~= levels@);
    total
}

/// Sums the sizes of the levels priced at or below `p`.
fn sum_sizes_below(levels: &Vec<Level>, p: i128) -> (r: i128)
    requires
        levels_ok(levels@),
        depth(levels@) <= MAX_RAW,
    ensures
        r == depth_at_or_below(levels@, p as int),
{
    let mut i: usize = 0;
    let mut total: i128 = 0;
    while i < levels.len()
        invariant
            0 <= i <= levels.len(),
            levels_ok(levels@),
            depth(levels@) <= MAX_RAW,
            total == depth_at_or_below(levels@.take(i as int), p as int),
        decreases levels.len() - i,
    {
        proof {
            let t = levels@.take(i as int + 1);
            assert(t.drop_last() =~= levels@.take(i as int));
            assert(levels_ok(t));
            lemma_depth_bounds(t, p as int);
            lemma_depth_prefix(levels@, i as int + 1);
        }
        let l = levels[i];
        if l.price.raw <= p {
            total = total + l.size.raw;
        }
        i = i + 1;
    }
    assert(levels@.take(i as int) =~= levels@);
    total
}

/// Walks a ladder to fill `size` and returns the average price.
fn walk_ladder(levels: &Vec<Level>, size: Decimal) -> (r: Option<Decimal>)
    requires
        levels_ok(levels@),
        0 < size.raw <= MAX_RAW,
    ensures
        r.is_some() == vwap_of(levels@, size.raw as int).is_some(),
        r.is_some() ==> r.unwrap().raw == vwap_of(levels@, size.raw as int).unwrap(),
{
    let ghost s = levels@;
    let mut remaining: i128 = size.raw;
    let mut cost: i128 = 0;
    let mut i: usize = 0;
    while i < levels.len() && remaining > 0
        invariant
            0 <= i <= levels.len(),
            s == levels@,
            levels_ok(s),
            0 < size.raw <= MAX_RAW,
            0 <= remaining <= size.raw,
            0 <= cost <= (size.raw - remaining) * MAX_RAW,
            walk(s, 0, size.raw as int) == (cost + walk(s, i as int, remaining as int).0, walk(
                s,
                i as int,
                remaining as int,
            ).1),
        decreases levels.len() - i,
    {
        let l = levels[i];
        assert(level_ok(s[i as int]));
        let fill: i128 = if remaining <= l.size.raw { remaining } else { l.size.raw };
        assert(fill * l.price.raw <= fill * MAX_RAW) by (nonlinear_arith)
            requires 0 <= fill, 0 <= l.price.raw <= MAX_RAW;
        assert(0 <= fill * l.price.raw) by (nonlinear_arith)
            requires 0 <= fill, 0 <= l.price.raw;
        assert((size.raw - remaining) * MAX_RAW + fill * MAX_RAW == (size.raw - (remaining - fill)) * MAX_RAW)
            by (nonlinear_arith);
        assert((size.raw - (remaining - fill)) * MAX_RAW <= MAX_RAW * MAX_RAW) by (nonlinear_arith)
            requires size.raw - (remaining - fill) <= MAX_RAW, 0 <= size.raw - (remaining - fill);
        cost = cost + fill * l.price.raw;
        remaining = remaining - fill;
        i = i + 1;
    }
    assert(walk(s, i as int, remaining as int) == (0int, remaining as int));
    if remaining > 0 {
        None
    } else {
        assert(cost <= MAX_RAW * MAX_RAW) by (nonlinear_arith)
            requires 0 <= cost <= (size.raw - remaining) * MAX_RAW, remaining == 0, size.raw <= MAX_RAW;
        Some(Decimal { raw: crate::decimal::div_trunc(cost, size.raw) })
    }
}

/// Buying walks the asks upward, so the average price paid is never below the best ask.
pub proof fn lemma_vwap_buy_at_least_best_ask(book: OrderBook, size: int)
    requires
        book.wf(),
        size > 0,
        vwap_of(book.asks@, size).is_some(),
    ensures
        book.asks@.len() > 0,
        vwap_of(book.asks@, size).unwrap() >= book.asks@[0].price.raw,
{
    let s = book.asks@;
    lemma_walk_cost_floor(s, 0, size);
    let w = walk(s, 0, size);
    if s.len() == 0 {
        assert(w == (0int, size));
    }
    let first_price = s[0].price.raw as int;
    assert(level_ok(s[0]));
    assert(w.0 >= size * first_price) by (nonlinear_arith)
        requires w.0 >= (size - w.1) * first_price, w.1 <= 0, first_price >= 0;
    assert(w.0 / size >= first_price) by (nonlinear_arith)
        requires w.0 >= size * first_price, size > 0;
}

/// The imbalance is zero exactly when the depths are equal, positive
/// exactly when bids are deeper, and never outside [-1, 1].
pub proof fn lemma_imbalance_sign(book: OrderBook)
    requires
        book.wf(),
        book.imbalance_spec().is_some(),
    ensures
        (book.imbalance_spec().unwrap() == 0) == (depth(book.bids@) == depth(book.asks@)),
        (book.imbalance_spec().unwrap() > 0) == (depth(book.bids@) > depth(book.asks@)),
        -SCALE <= book.imbalance_spec().unwrap() <= SCALE,
{
    let b = depth(book.bids@);
    let a = depth(book.asks@);
    lemma_depth_bounds(book.bids@, 0);
    lemma_depth_bounds(book.asks@, 0);
    let d = b - a;
    let t = b + a;
    let ud = if d < 0 { -d } else { d };
    assert(ud <= t);
    assert(ud * SCALE >= 0) by (nonlinear_arith) requires ud >= 0;
    assert((ud * SCALE) / t <= SCALE) by (nonlinear_arith) requires 0 <= ud <= t, t > 0;
    assert((ud * SCALE) / t >= 0) by (nonlinear_arith) requires ud >= 0, t > 0;
    assert(abs_int(d * SCALE) == ud * SCALE) by (nonlinear_arith) requires ud == if d < 0 { -d } else { d };
}

/// Law: applying the same snapshot twice in a row leaves every derived
/// metric as the first application left it.
pub proof fn lemma_repeated_snapshot_idempotent(
    b0: OrderBook,
    b1: OrderBook,
    b2: OrderBook,
    bids: Seq<Level>,
    asks: Seq<Level>,
)
    requires
        b0.wf(),
        snapshot_applied(b0, b1, bids, asks),
        snapshot_applied(b1, b2, bids, asks),
    ensures
        b2.bids@ == b1.bids@,
        b2.asks@ == b1.asks@,
        b2.mid_spec() == b1.mid_spec(),
        b2.spread_spec() == b1.spread_spec(),
        b2.imbalance_spec() == b1.imbalance_spec(),
        depth(b2.bids@) == depth(b1.bids@),
        depth(b2.asks@) == depth(b1.asks@),
        forall|p: int| depth_at_or_above(b2.bids@, p) == depth_at_or_above(b1.bids@, p),
        forall|p: int| depth_at_or_below(b2.asks@, p) == depth_at_or_below(b1.asks@, p),
        forall|size: int| vwap_of(b2.asks@, size) == vwap_of(b1.asks@, size),
        forall|size: int| vwap_of(b2.bids@, size) == vwap_of(b1.bids@, size),
{
}

/// The cost of a walk over an ascending ladder is at least the filled
/// amount times the first level's price.
pub proof fn lemma_walk_cost_floor(s: Seq<Level>, i: int, remaining: int)
    requires
        ascending(s),
        levels_ok(s),
        0 <= i,
    ensures
        s.len() > 0 ==> walk(s, i, remaining).0 >= (remaining - walk(s, i, remaining).1) * s[0].price.raw,
        walk(s, i, remaining).0 >= 0,
    decreases s.len() - i,
{
    if i < s.len() && remaining > 0 {
        let fill = min_int(remaining, s[i].size.raw as int);
        lemma_walk_cost_floor(s, i + 1, remaining - fill);
        assert(level_ok(s[i]));
        let rest = walk(s, i + 1, remaining - fill);
        assert(walk(s, i, remaining) == (fill * s[i].price.raw + rest.0, rest.1));
        assert(fill >= 0);
        let pi = s[i].price.raw as int;
        let first_price = s[0].price.raw as int;
        assert(pi >= first_price) by {
            if i > 0 {
                assert(s[0].price.raw < s[i].price.raw);
            }
        }
        assert(fill * pi >= fill * first_price) by (nonlinear_arith)
            requires fill >= 0, pi >= first_price;
        assert(fill * pi >= 0) by (nonlinear_arith)
            requires fill >= 0, pi >= 0;
        assert(fill * first_price + (remaining - fill - rest.1) * first_price == (remaining - rest.1) * first_price) by (nonlinear_arith);
        if s.len() > 0 {
            assert(rest.0 >= (remaining - fill - rest.1) * first_price);
            assert(fill * pi + rest.0 >= (remaining - rest.1) * first_price);
        }
    } else {
        assert(walk(s, i, remaining) == (0int, remaining));
        assert((remaining - remaining) * s[0].price.raw == 0) by (nonlinear_arith);
    }
}

} // verus!

verus! {

/// A full-depth snapshot of one token's book as delivered by the feed.
#[derive(Clone, Debug)]
pub struct BookSnapshot {
    pub asset_id: String,
    pub bids: Vec<Level>,
    pub asks: Vec<Level>,
    pub timestamp: i64,
    pub hash: Option<String>,
}

/// Market data event for fan-out to listeners.
#[derive(Clone, Debug)]
pub enum MarketEvent {
    BookUpdate { token_id: String, book: OrderBook },
    Trade { token_id: String, price: Decimal, size: Decimal, side: String, timestamp: i64 },
}

/// Copies a ladder level by level.
pub fn copy_levels(v: &Vec<Level>) -> (r: Vec<Level>)
    ensures
        r@ == v@,
{
    let mut r: Vec<Level> = Vec::new();
    let mut i: usize = 0;
    while i < v.len()
        invariant
            0 <= i <= v.len(),
            r@ == v@.take(i as int),
        decreases v.len() - i,
    {
        r.push(v[i]);
        i = i + 1;
        assert(r@ =~= v@.take(i as int));
    }
    assert(v@.take(i as int) =~= v@);
    r
}

pub fn copy_text(s: &Option<String>) -> (r: Option<String>)
    ensures
        r == *s,
{
    match s {
        Some(t) => Some(t.clone()),
        None => None,
    }
}

impl OrderBook {
    /// A copy of the book with the same token, ladders, timestamp and hash.
    pub fn copy(&self) -> (r: OrderBook)
        ensures
            r.token_id == self.token_id,
            r.bids@ == self.bids@,
            r.asks@ == self.asks@,
            r.timestamp == self.timestamp,
            r.hash == self.hash,
    {
        OrderBook {
            token_id: self.token_id.clone(),
            bids: copy_levels(&self.bids),
            asks: copy_levels(&self.asks),
            timestamp: self.timestamp,
            hash: copy_text(&self.hash),
        }
    }
}

/// Owns one order book per subscribed token.
pub struct MarketDataHub {
    books: Vec<OrderBook>,
    capacity: usize,
}

/// Position of the book for token `t`, if any.
pub open spec fn book_index(books: Seq<OrderBook>, t: Seq<char>) -> Option<int> {
    if exists|i: int| 0 <= i < books.len() && (#[trigger] books[i]).token_id@ == t {
        Some(choose|i: int| 0 <= i < books.len() && (#[trigger] books[i]).token_id@ == t)
    } else {
        None
    }
}

impl MarketDataHub {
    pub closed spec fn books(&self) -> Seq<OrderBook> {
        self.books@
    }

    /// One well-formed book per token, keyed by its own token id.
    pub open spec fn wf(&self) -> bool {
        &&& forall|i: int| 0 <= i < self.books().len() ==> (#[trigger] self.books()[i]).wf()
        &&& forall|i: int, j: int|
            0 <= i < j < self.books().len() ==> (#[trigger] self.books()[i]).token_id@ != (
            #[trigger] self.books()[j]).token_id@
    }

    /// A hub with no books; `capacity` bounds the event channel that listeners read.
    pub fn new(capacity: usize) -> (r: MarketDataHub)
        ensures
            r.wf(),
            r.books().len() == 0,
            r.capacity_spec() == capacity,
    {
        MarketDataHub { books: Vec::new(), capacity }
    }

    pub closed spec fn capacity_spec(&self) -> usize {
        self.capacity
    }

    pub fn capacity(&self) -> (r: usize)
        ensures
            r == self.capacity_spec(),
    {
        self.capacity
    }

    fn find(&self, token_id: &String) -> (r: Option<usize>)
        requires
            self.wf(),
        ensures
            match r {
                Some(i) => i < self.books().len() && self.books()[i as int].token_id@ == token_id@,
                None => forall|i: int| 0 <= i < self.books().len() ==> (#[trigger] self.books()[i]).token_id@ != token_id@,
            },
    {
        let mut i: usize = 0;
        while i < self.books.len()
            invariant
                0 <= i <= self.books@.len(),
                forall|k: int| 0 <= k < i ==> (#[trigger] self.books@[k]).token_id@ != token_id@,
            decreases self.books@.len() - i,
        {
            if self.books[i].token_id == *token_id {
                return Some(i);
            }
            i = i + 1;
        }
        None
    }

    /// The current book of a token.
    pub fn get_book(&self, token_id: &str) -> (r: Option<&OrderBook>)
        requires
            self.wf(),
        ensures
            book_index(self.books(), token_id@).is_none() ==> r.is_none(),
            book_index(self.books(), token_id@).is_some() ==> r == Some(&self.books()[book_index(self.books(), token_id@).unwrap()]),
            r.is_some() ==> r.unwrap().token_id@ == token_id@ && r.unwrap().wf(),
    {
        let key = token_id.to_owned();
        match self.find(&key) {
            Some(i) => {
                proof { self.lemma_index_unique(token_id@, i as int); }
                Some(&self.books[i])
            },
            None => None,
        }
    }

    proof fn lemma_index_unique(&self, t: Seq<char>, i: int)
        requires
            self.wf(),
            0 <= i < self.books().len(),
            self.books()[i].token_id@ == t,
        ensures
            book_index(self.books(), t) == Some(i),
    {
        let j = book_index(self.books(), t).unwrap();
        assert(self.books()[j].token_id@ == t);
        if i != j {
            if i < j {
                assert(self.books()[i].token_id@ != self.books()[j].token_id@);
            } else {
                assert(self.books()[j].token_id@ != self.books()[i].token_id@);
            }
        }
    }

    /// All books, one per token.
    pub fn get_all_books(&self) -> (r: &Vec<OrderBook>)
        ensures
            r@ == self.books(),
    {
        &self.books
    }

    /// Number of tracked books.
    pub fn book_count(&self) -> (r: usize)
        ensures
            r == self.books().len(),
    {
        self.books.len()
    }

    /// Adds an empty book for a token unless it already has one.
    pub fn init_book(&mut self, token_id: &str)
        requires
            old(self).wf(),
        ensures
            final(self).wf(),
            final(self).capacity_spec() == old(self).capacity_spec(),
            book_index(old(self).books(), token_id@).is_some() ==> final(self).books() == old(self).books(),
            book_index(old(self).books(), token_id@).is_none() ==> final(self).books() == old(self).books().push(
                final(self).books().last(),
            ) && final(self).books().last().token_id@ == token_id@ && final(self).books().last().bids@.len() == 0
                && final(self).books().last().asks@.len() == 0,
    {
        let key = token_id.to_owned();
        match self.find(&key) {
            Some(i) => {
                proof { self.lemma_index_unique(token_id@, i as int); }
            },
            None => {
                self.books.push(OrderBook::new(key));
                assert(self.books@.drop_last() =~= old(self).books@);
            },
        }
    }

    /// Replaces a token's book with a snapshot, creating the book if the
    /// token had none, and returns the event to broadcast. A snapshot that
    /// breaks the book invariants is dropped: nothing changes and no event
    /// is returned.
    pub fn process_book_update(&mut self, update: BookSnapshot) -> (r: Option<MarketEvent>)
        requires
            old(self).wf(),
        ensures
            final(self).wf(),
            final(self).capacity_spec() == old(self).capacity_spec(),
            r.is_some() == ladders_ok(update.bids@, update.asks@),
            r.is_none() ==> final(self).books() == old(self).books(),
            r.is_some() ==> {
                let k = book_index(final(self).books(), update.asset_id@);
                &&& k.is_some()
                &&& final(self).books()[k.unwrap()].bids@ == update.bids@
                &&& final(self).books()[k.unwrap()].asks@ == update.asks@
                &&& final(self).books()[k.unwrap()].timestamp == update.timestamp
                &&& final(self).books().len() >= old(self).books().len()
                &&& forall|t: Seq<char>| t != update.asset_id@ ==> book_index(final(self).books(), t)
                    == book_index(old(self).books(), t)
            },
            r.is_some() ==> match r.unwrap() {
                MarketEvent::BookUpdate { token_id, book } => token_id@ == update.asset_id@ && book.bids@
                    == update.bids@ && book.asks@ == update.asks@ && book.wf(),
                _ => false,
            },
    {
        if !OrderBook::snapshot_ok(&update.bids, &update.asks) {
            return None;
        }
        let BookSnapshot { asset_id, bids, asks, timestamp, hash } = update;
        let idx = match self.find(&asset_id) {
            Some(i) => i,
            None => {
                self.books.push(OrderBook::new(asset_id.clone()));
                assert(self.books@.drop_last() =~= old(self).books@);
                self.books.len() - 1
            },
        };
        let ghost mid = self.books@;
        let book = OrderBook { token_id: asset_id.clone(), bids, asks, timestamp, hash };
        let event_book = book.copy();
        self.books.set(idx, book);
        proof {
            assert(self.books@ == mid.update(idx as int, self.books@[idx as int]));
            assert forall|i: int, j: int|
                0 <= i < j < self.books().len() implies (#[trigger] self.books()[i]).token_id@ != (
                #[trigger] self.books()[j]).token_id@ by {
                assert(mid[i].token_id@ != mid[j].token_id@);
            }
            self.lemma_index_unique(asset_id@, idx as int);
            assert forall|t: Seq<char>| t != asset_id@ implies book_index(self.books(), t) == book_index(
                old(self).books(),
                t,
            ) by {
                if book_index(old(self).books(), t).is_some() {
                    let j = book_index(old(self).books(), t).unwrap();
                    assert(old(self).books()[j] == self.books()[j]);
                    self.lemma_index_unique(t, j);
                } else {
                    if book_index(self.books(), t).is_some() {
                        let j = book_index(self.books(), t).unwrap();
                        assert(j != idx);
                        if j < old(self).books().len() {
                            assert(old(self).books()[j] == self.books()[j]);
                        }
                    }
                }
            }
        }
        Some(MarketEvent::BookUpdate { token_id: asset_id, book: event_book })
    }
}

/// Law: every book the hub holds has bids strictly falling and asks
/// strictly rising in price, with the best bid below the best ask.
pub proof fn lemma_hub_books_ordered(hub: MarketDataHub, i: int)
    requires
        hub.wf(),
        0 <= i < hub.books().len(),
    ensures
        descending(hub.books()[i].bids@),
        ascending(hub.books()[i].asks@),
        hub.books()[i].bids@.len() > 0 && hub.books()[i].asks@.len() > 0 ==> hub.books()[i].bids@[0].price.raw
            < hub.books()[i].asks@[0].price.raw,
{
    assert(hub.books()[i].wf());
}

} // verus!
