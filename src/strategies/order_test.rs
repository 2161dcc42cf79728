//! Places a single small buy on its first tick, then holds.

use vstd::prelude::*;
use crate::decimal::Decimal;
use crate::strategy::{Signal, StrategyContext, Urgency};

verus! {

pub struct OrderTest {
    id: String,
    tokens: Vec<String>,
    order_placed: bool,
}

impl OrderTest {
    pub closed spec fn wf(&self) -> bool {
        self.tokens@.len() == 1
    }

    pub closed spec fn token(&self) -> String {
        self.tokens@[0]
    }

    pub closed spec fn placed(&self) -> bool {
        self.order_placed
    }

    pub closed spec fn id_spec(&self) -> Seq<char> {
        self.id@
    }

    pub fn new() -> (r: OrderTest)
        ensures
            r.wf(),
            !r.placed(),
            r.id_spec() == "order_test"@,
            r.token()@ == "41583919731714354912849507182398941127545694257513505398713274521520484370640"@,
    {
        OrderTest {
            id: String::from_str("order_test"),
            tokens: vec![String::from_str("41583919731714354912849507182398941127545694257513505398713274521520484370640")],
            order_placed: false,
        }
    }

    pub fn id(&self) -> (r: &str)
        ensures
            r@ == self.id_spec(),
    {
        self.id.as_str()
    }

    pub fn subscriptions(&self) -> (r: Vec<String>)
        requires
            self.wf(),
        ensures
            r@ == seq![self.token()],
    {
        vec![self.tokens[0].clone()]
    }

    /// The first tick buys 5 at 0.01; every later tick holds.
    pub fn on_tick(&mut self, ctx: &StrategyContext) -> (r: Vec<Signal>)
        requires
            old(self).wf(),
        ensures
            final(self).wf(),
            final(self).placed(),
            final(self).token() == old(self).token(),
            final(self).id_spec() == old(self).id_spec(),
            old(self).placed() ==> r@ == seq![Signal::Hold],
            !old(self).placed() ==> r@ == seq![
                Signal::Buy {
                    token_id: old(self).token(),
                    price: Decimal { raw: 10_000_000 },
                    size: Decimal { raw: 5_000_000_000 },
                    urgency: Urgency::Low,
                },
            ],
    {
        if self.order_placed {
            return vec![Signal::Hold];
        }
        self.order_placed = true;
        let out = vec![
            Signal::Buy {
                token_id: self.tokens[0].clone(),
                price: Decimal { raw: 10_000_000 },
                size: Decimal { raw: 5_000_000_000 },
                urgency: Urgency::Low,
            },
        ];
        assert(out@ =~= seq![
            Signal::Buy {
                token_id: old(self).token(),
                price: Decimal { raw: 10_000_000 },
                size: Decimal { raw: 5_000_000_000 },
                urgency: Urgency::Low,
            },
        ]);
        out
    }

    pub fn on_fill(&mut self, fill: &crate::position::Fill)
        ensures
            *final(self) == *old(self),
    {
    }

    pub fn on_shutdown(&mut self)
        ensures
            *final(self) == *old(self),
    {
    }
}

} // verus!
