//! Order lifecycle tracking. Submission itself goes through the exchange's
//! client outside the library; this module decides what to submit and
//! records what came back.

use vstd::prelude::*;
use crate::decimal::{Decimal, MAX_RAW};
use crate::position::Fill;
use crate::strategy::Signal;

verus! {

/// Order state.
#[derive(Clone, Copy, Debug, PartialEq, Eq, Structural)]
pub enum OrderStatus {
    Pending,
    Open,
    PartiallyFilled,
    Filled,
    Cancelled,
    Rejected,
}

pub open spec fn active_status(s: OrderStatus) -> bool {
    s is Pending || s is Open || s is PartiallyFilled
}

/// Side of a limit order.
#[derive(Clone, Copy, Debug, PartialEq, Eq, Structural)]
pub enum Side {
    Buy,
    Sell,
}

/// A tracked order.
#[derive(Clone, Debug)]
pub struct Order {
    pub id: String,
    pub token_id: String,
    pub is_buy: bool,
    pub price: Decimal,
    pub size: Decimal,
    pub filled_size: Decimal,
    pub status: OrderStatus,
    /// Unix milliseconds.
    pub created_at: i64,
}

impl Order {
    /// `0 <= filled_size <= size <= MAX_RAW`.
    pub open spec fn wf(&self) -> bool {
        0 <= self.filled_size.raw <= self.size.raw <= MAX_RAW
    }

    pub fn remaining(&self) -> (r: Decimal)
        requires
            self.wf(),
        ensures
            r.raw == self.size.raw - self.filled_size.raw,
    {
        self.size.sub(self.filled_size)
    }

    pub fn is_active(&self) -> (r: bool)
        ensures
            r == active_status(self.status),
    {
        match self.status {
            OrderStatus::Pending | OrderStatus::Open | OrderStatus::PartiallyFilled => true,
            _ => false,
        }
    }

    pub fn copy(&self) -> (r: Order)
        ensures
            r == *self,
    {
        Order {
            id: self.id.clone(),
            token_id: self.token_id.clone(),
            is_buy: self.is_buy,
            price: self.price,
            size: self.size,
            filled_size: self.filled_size,
            status: self.status,
            created_at: self.created_at,
        }
    }
}

/// What executing a signal asks of the exchange.
#[derive(Debug)]
pub enum Execution {
    Nothing,
    /// Cancel these orders, one by one.
    Cancel(Vec<String>),
    Place { token_id: String, side: Side, price: Decimal, size: Decimal },
}

/// Position of the order with id `o`, if any.
pub open spec fn order_index(s: Seq<Order>, o: Seq<char>) -> Option<int> {
    if exists|i: int| 0 <= i < s.len() && (#[trigger] s[i]).id@ == o {
        Some(choose|i: int| 0 <= i < s.len() && (#[trigger] s[i]).id@ == o)
    } else {
        None
    }
}

/// Ids of the active orders, optionally only those of token `t`, in order.
pub open spec fn active_ids(s: Seq<Order>, t: Option<Seq<char>>) -> Seq<Seq<char>>
    decreases s.len(),
{
    if s.len() == 0 {
        Seq::empty()
    } else {
        let o = s.last();
        let keep = active_status(o.status) && match t {
            Some(x) => o.token_id@ == x,
            None => true,
        };
        if keep { active_ids(s.drop_last(), t).push(o.id@) } else { active_ids(s.drop_last(), t) }
    }
}

/// Tracks the orders placed on the exchange.
pub struct OrderManager {
    orders: Vec<Order>,
    dry_run: bool,
}

impl OrderManager {
    pub closed spec fn orders(&self) -> Seq<Order> {
        self.orders@
    }

    pub closed spec fn dry_run_spec(&self) -> bool {
        self.dry_run
    }

    /// Orders well-formed with distinct ids.
    pub open spec fn wf(&self) -> bool {
        &&& forall|i: int| 0 <= i < self.orders().len() ==> (#[trigger] self.orders()[i]).wf()
        &&& forall|i: int, j: int|
            0 <= i < j < self.orders().len() ==> (#[trigger] self.orders()[i]).id@ != (#[trigger] self.orders()[j]).id@
    }

    pub fn new(dry_run: bool) -> (r: OrderManager)
        ensures
            r.wf(),
            r.orders().len() == 0,
            r.dry_run_spec() == dry_run,
    {
        OrderManager { orders: Vec::new(), dry_run }
    }

    /// Whether submissions are simulated and left untracked.
    pub fn is_dry_run(&self) -> (r: bool)
        ensures
            r == self.dry_run_spec(),
    {
        self.dry_run
    }

    proof fn lemma_index_unique(&self, o: Seq<char>, i: int)
        requires
            self.wf(),
            0 <= i < self.orders().len(),
            self.orders()[i].id@ == o,
        ensures
            order_index(self.orders(), o) == Some(i),
    {
        let j = order_index(self.orders(), o).unwrap();
        assert(self.orders()[j].id@ == o);
        if i != j {
            if i < j {
                assert(self.orders()[i].id@ != self.orders()[j].id@);
            } else {
                assert(self.orders()[j].id@ != self.orders()[i].id@);
            }
        }
    }

    fn find(&self, order_id: &String) -> (r: Option<usize>)
        requires
            self.wf(),
        ensures
            match r {
                Some(i) => i < self.orders().len() && order_index(self.orders(), order_id@) == Some(i as int),
                None => order_index(self.orders(), order_id@).is_none(),
            },
    {
        let mut i: usize = 0;
        while i < self.orders.len()
            invariant
                self.wf(),
                0 <= i <= self.orders@.len(),
                forall|k: int| 0 <= k < i ==> (#[trigger] self.orders@[k]).id@ != order_id@,
            decreases self.orders@.len() - i,
        {
            if self.orders[i].id == *order_id {
                proof { self.lemma_index_unique(order_id@, i as int); }
                return Some(i);
            }
            i = i + 1;
        }
        None
    }

    /// The order with that id.
    pub fn get_order(&self, order_id: &str) -> (r: Option<&Order>)
        requires
            self.wf(),
        ensures
            match order_index(self.orders(), order_id@) {
                Some(i) => r == Some(&self.orders()[i]),
                None => r.is_none(),
            },
    {
        let key = order_id.to_owned();
        match self.find(&key) {
            Some(i) => Some(&self.orders[i]),
            None => None,
        }
    }

    /// Ids of active orders, of one token or of all.
    pub fn active_order_ids(&self, token_id: Option<&str>) -> (r: Vec<String>)
        ensures
            r@.map_values(|s: String| s@) == active_ids(self.orders(), match token_id {
                Some(t) => Some(t@),
                None => None,
            }),
    {
        let key: Option<String> = match token_id {
            Some(t) => Some(t.to_owned()),
            None => None,
        };
        let ghost filt: Option<Seq<char>> = match token_id {
            Some(t) => Some(t@),
            None => None,
        };
        let ghost s = self.orders@;
        let mut out: Vec<String> = Vec::new();
        let mut i: usize = 0;
        while i < self.orders.len()
            invariant
                s == self.orders@,
                0 <= i <= s.len(),
                filt == match key {
                    Some(k) => Some(k@),
                    None => None::<Seq<char>>,
                },
                out@.map_values(|x: String| x@) == active_ids(s.take(i as int), filt),
            decreases s.len() - i,
        {
            assert(s.take(i as int + 1).drop_last() =~= s.take(i as int));
            let o = &self.orders[i];
            let matches_token = match &key {
                Some(k) => o.token_id == *k,
                None => true,
            };
            let ghost prev = out@;
            if o.is_active() && matches_token {
                out.push(o.id.clone());
                assert(out@.map_values(|x: String| x@) =~= prev.map_values(|x: String| x@).push(o.id@));
            }
            i = i + 1;
        }
        assert(s.take(i as int) =~= s);
        out
    }

    /// What executing a signal requires of the exchange: a limit order for
    /// a buy or sell, cancellation of the token's active orders for a
    /// cancel, nothing otherwise.
    pub fn execute(&self, signal: &Signal) -> (r: Execution)
        ensures
            match *signal {
                Signal::Buy { token_id, price, size, .. } => r matches Execution::Place { token_id: t, side, price: p, size: s }
                    && t == token_id && side == Side::Buy && p == price && s == size,
                Signal::Sell { token_id, price, size, .. } => r matches Execution::Place { token_id: t, side, price: p, size: s }
                    && t == token_id && side == Side::Sell && p == price && s == size,
                Signal::Cancel { token_id } => r matches Execution::Cancel(ids) && ids@.map_values(|x: String| x@) == active_ids(
                    self.orders(),
                    Some(token_id@),
                ),
                _ => r is Nothing,
            },
    {
        match signal {
            Signal::Buy { token_id, price, size, .. } => Execution::Place {
                token_id: token_id.clone(),
                side: Side::Buy,
                price: *price,
                size: *size,
            },
            Signal::Sell { token_id, price, size, .. } => Execution::Place {
                token_id: token_id.clone(),
                side: Side::Sell,
                price: *price,
                size: *size,
            },
            Signal::Cancel { token_id } => Execution::Cancel(self.active_order_ids(Some(token_id.as_str()))),
            _ => Execution::Nothing,
        }
    }

    /// Starts tracking an order the exchange accepted, as open and unfilled.
    /// Refused (false, nothing changes) in dry-run mode, for a duplicate id,
    /// or for a size that is negative or out of range.
    pub fn record_placed(
        &mut self,
        order_id: String,
        token_id: String,
        is_buy: bool,
        price: Decimal,
        size: Decimal,
        created_at: i64,
    ) -> (r: bool)
        requires
            old(self).wf(),
        ensures
            final(self).wf(),
            final(self).dry_run_spec() == old(self).dry_run_spec(),
            r == (!old(self).dry_run_spec() && order_index(old(self).orders(), order_id@).is_none() && 0 <= size.raw <= MAX_RAW),
            !r ==> final(self).orders() == old(self).orders(),
            r ==> final(self).orders() == old(self).orders().push(
                Order { id: order_id, token_id, is_buy, price, size, filled_size: Decimal { raw: 0 }, status: OrderStatus::Open, created_at },
            ),
    {
        if self.dry_run || !(0 <= size.raw && size.raw <= MAX_RAW) {
            return false;
        }
        if self.find(&order_id).is_some() {
            return false;
        }
        let ghost before = self.orders@;
        self.orders.push(Order { id: order_id, token_id, is_buy, price, size, filled_size: Decimal::zero(), status: OrderStatus::Open, created_at });
        proof {
            assert forall|i: int, j: int|
                0 <= i < j < self.orders().len() implies (#[trigger] self.orders()[i]).id@ != (#[trigger] self.orders()[j]).id@ by {
                if j == before.len() {
                    assert(self.orders()[i] == before[i]);
                } else {
                    assert(self.orders()[i] == before[i] && self.orders()[j] == before[j]);
                }
            }
        }
        true
    }

    /// Marks an active order cancelled once the exchange confirmed it.
    /// False when no active order has that id.
    pub fn cancel_order(&mut self, order_id: &str) -> (r: bool)
        requires
            old(self).wf(),
        ensures
            final(self).wf(),
            final(self).dry_run_spec() == old(self).dry_run_spec(),
            final(self).orders().len() == old(self).orders().len(),
            r == (order_index(old(self).orders(), order_id@).is_some() && active_status(
                old(self).orders()[order_index(old(self).orders(), order_id@).unwrap()].status,
            )),
            !r ==> final(self).orders() == old(self).orders(),
            r ==> {
                let i = order_index(old(self).orders(), order_id@).unwrap();
                final(self).orders() == old(self).orders().update(i, Order { status: OrderStatus::Cancelled, ..old(self).orders()[i] })
            },
    {
        let key = order_id.to_owned();
        let i = match self.find(&key) {
            Some(i) => i,
            None => return false,
        };
        if !self.orders[i].is_active() {
            return false;
        }
        let mut o = self.orders[i].copy();
        o.status = OrderStatus::Cancelled;
        let ghost before = self.orders@;
        self.orders.set(i, o);
        proof {
            assert forall|a: int, b: int|
                0 <= a < b < self.orders().len() implies (#[trigger] self.orders()[a]).id@ != (#[trigger] self.orders()[b]).id@ by {
                assert(before[a].id@ != before[b].id@);
            }
        }
        true
    }

    /// Records a fill against an active order: adds to its filled size,
    /// advances it to partially filled or filled, and returns the fill to
    /// deliver. None, with nothing changed, for an unknown or inactive
    /// order or a size that is not positive or exceeds what remains.
    pub fn process_fill(&mut self, order_id: &str, price: Decimal, size: Decimal, timestamp: i64) -> (r: Option<Fill>)
        requires
            old(self).wf(),
        ensures
            final(self).wf(),
            final(self).dry_run_spec() == old(self).dry_run_spec(),
            final(self).orders().len() == old(self).orders().len(),
            r.is_none() ==> final(self).orders() == old(self).orders(),
            r.is_some() == ({
                let k = order_index(old(self).orders(), order_id@);
                k.is_some() && active_status(old(self).orders()[k.unwrap()].status) && 0 < size.raw
                    && size.raw <= old(self).orders()[k.unwrap()].size.raw - old(self).orders()[k.unwrap()].filled_size.raw
            }),
            r.is_some() ==> {
                let i = order_index(old(self).orders(), order_id@).unwrap();
                let o = old(self).orders()[i];
                let filled = o.filled_size.raw + size.raw;
                let f = r.unwrap();
                &&& final(self).orders() == old(self).orders().update(i, Order {
                    filled_size: Decimal { raw: filled as i128 },
                    status: if filled >= o.size.raw { OrderStatus::Filled } else { OrderStatus::PartiallyFilled },
                    ..o
                })
                &&& f.order_id@ == order_id@ && f.token_id == o.token_id && f.is_buy == o.is_buy
                &&& f.price == price && f.size == size && f.timestamp == timestamp && f.fee.raw == 0
            },
    {
        let key = order_id.to_owned();
        let i = match self.find(&key) {
            Some(i) => i,
            None => return None,
        };
        assert(self.orders@[i as int].wf());
        if !self.orders[i].is_active() || !(0 < size.raw && size.raw <= self.orders[i].remaining().raw) {
            return None;
        }
        let mut o = self.orders[i].copy();
        o.filled_size = o.filled_size.add(size);
        o.status = if o.filled_size.raw >= o.size.raw { OrderStatus::Filled } else { OrderStatus::PartiallyFilled };
        let fill = Fill {
            order_id: key,
            token_id: o.token_id.clone(),
            is_buy: o.is_buy,
            price,
            size,
            timestamp,
            fee: Decimal::zero(),
        };
        let ghost before = self.orders@;
        self.orders.set(i, o);
        proof {
            assert forall|a: int, b: int|
                0 <= a < b < self.orders().len() implies (#[trigger] self.orders()[a]).id@ != (#[trigger] self.orders()[b]).id@ by {
                assert(before[a].id@ != before[b].id@);
            }
        }
        Some(fill)
    }

    /// The active orders.
    pub fn active_orders(&self) -> (r: Vec<Order>)
        ensures
            forall|i: int| 0 <= i < r@.len() ==> active_status((#[trigger] r@[i]).status) && self.orders().contains(r@[i]),
            r@.map_values(|o: Order| o.id@) == active_ids(self.orders(), None),
    {
        self.active_filtered(None)
    }

    /// The active orders of a token.
    pub fn active_orders_for_token(&self, token_id: &str) -> (r: Vec<Order>)
        ensures
            forall|i: int| 0 <= i < r@.len() ==> active_status((#[trigger] r@[i]).status) && self.orders().contains(r@[i]),
            r@.map_values(|o: Order| o.id@) == active_ids(self.orders(), Some(token_id@)),
    {
        self.active_filtered(Some(token_id))
    }

    fn active_filtered(&self, token_id: Option<&str>) -> (r: Vec<Order>)
        ensures
            forall|i: int| 0 <= i < r@.len() ==> active_status((#[trigger] r@[i]).status) && self.orders().contains(r@[i]),
            r@.map_values(|o: Order| o.id@) == active_ids(self.orders(), match token_id {
                Some(t) => Some(t@),
                None => None,
            }),
    {
        let key: Option<String> = match token_id {
            Some(t) => Some(t.to_owned()),
            None => None,
        };
        let ghost filt: Option<Seq<char>> = match token_id {
            Some(t) => Some(t@),
            None => None,
        };
        let ghost s = self.orders@;
        let mut out: Vec<Order> = Vec::new();
        let mut i: usize = 0;
        while i < self.orders.len()
            invariant
                s == self.orders@,
                0 <= i <= s.len(),
                filt == match key {
                    Some(k) => Some(k@),
                    None => None::<Seq<char>>,
                },
                out@.map_values(|x: Order| x.id@) == active_ids(s.take(i as int), filt),
                forall|k: int| 0 <= k < out@.len() ==> active_status((#[trigger] out@[k]).status) && s.contains(out@[k]),
            decreases s.len() - i,
        {
            assert(s.take(i as int + 1).drop_last() =~= s.take(i as int));
            let o = &self.orders[i];
            let matches_token = match &key {
                Some(k) => o.token_id == *k,
                None => true,
            };
            let ghost prev = out@;
            if o.is_active() && matches_token {
                out.push(o.copy());
                assert(out@.map_values(|x: Order| x.id@) =~= prev.map_values(|x: Order| x.id@).push(o.id@));
                assert(s.contains(s[i as int]));
            }
            i = i + 1;
        }
        assert(s.take(i as int) =~= s);
        out
    }
}

} // verus!
