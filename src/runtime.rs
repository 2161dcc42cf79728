//! Hosts the registered strategies and selects them by name.

use vstd::prelude::*;
use crate::errors::EngineError;
use crate::position::Fill;
use crate::strategies::dynamic_market_maker::{DynamicMarketMaker, blocks_from};
use crate::strategies::market_maker::{MarketMaker, market_maker_signals};
use crate::strategies::order_test::OrderTest;
use crate::strategies::spread_watcher::{SpreadWatcher, spread_watcher_signals};
use crate::strategies::sure_bets::{SureBets, sure_bets_from};
use crate::strategy::{Signal, StrategyContext};

verus! {

/// One of the strategies the engine can run.
pub enum StrategyKind {
    MarketMaker(MarketMaker),
    DynamicMarketMaker(DynamicMarketMaker),
    SureBets(SureBets),
    SpreadWatcher(SpreadWatcher),
    OrderTest(OrderTest),
}

/// What a strategy in state `k` emits on a tick of `ctx`.
pub open spec fn tick_of(k: StrategyKind, ctx: StrategyContext) -> Seq<Signal> {
    match k {
        StrategyKind::MarketMaker(m) => market_maker_signals(ctx, m.token()),
        StrategyKind::DynamicMarketMaker(_) => if blocks_from(ctx, 0, 0).len() == 0 {
            seq![Signal::Hold]
        } else {
            blocks_from(ctx, 0, 0)
        },
        StrategyKind::SureBets(_) => if sure_bets_from(ctx, 0).len() == 0 { seq![Signal::Hold] } else { sure_bets_from(ctx, 0) },
        StrategyKind::SpreadWatcher(w) => spread_watcher_signals(ctx, w.token()),
        StrategyKind::OrderTest(o) => if o.placed() {
            seq![Signal::Hold]
        } else {
            seq![
                Signal::Buy {
                    token_id: o.token(),
                    price: crate::decimal::Decimal { raw: 10_000_000 },
                    size: crate::decimal::Decimal { raw: 5_000_000_000 },
                    urgency: crate::strategy::Urgency::Low,
                },
            ]
        },
    }
}

/// Signals of strategies in registration order, concatenated.
pub open spec fn tick_all(s: Seq<StrategyKind>, ctx: StrategyContext) -> Seq<Signal>
    decreases s.len(),
{
    if s.len() == 0 { Seq::empty() } else { tick_all(s.drop_last(), ctx) + tick_of(s.last(), ctx) }
}

impl StrategyKind {
    pub open spec fn wf(&self) -> bool {
        match *self {
            StrategyKind::MarketMaker(m) => m.wf(),
            StrategyKind::SpreadWatcher(w) => w.wf(),
            StrategyKind::OrderTest(o) => o.wf(),
            _ => true,
        }
    }

    /// Whether the engine must run market discovery for this strategy.
    pub fn requires_market_discovery(&self) -> (r: bool)
        ensures
            r == (self is DynamicMarketMaker || self is SureBets),
    {
        match self {
            StrategyKind::DynamicMarketMaker(_) | StrategyKind::SureBets(_) => true,
            _ => false,
        }
    }

    pub fn id(&self) -> (r: &str)
        ensures
            r@ == match *self {
                StrategyKind::MarketMaker(s) => s.id_spec(),
                StrategyKind::DynamicMarketMaker(s) => s.id_spec(),
                StrategyKind::SureBets(s) => s.id_spec(),
                StrategyKind::SpreadWatcher(s) => s.id_spec(),
                StrategyKind::OrderTest(s) => s.id_spec(),
            },
    {
        match self {
            StrategyKind::MarketMaker(s) => s.id(),
            StrategyKind::DynamicMarketMaker(s) => s.id(),
            StrategyKind::SureBets(s) => s.id(),
            StrategyKind::SpreadWatcher(s) => s.id(),
            StrategyKind::OrderTest(s) => s.id(),
        }
    }

    /// Tokens to subscribe to before the first tick.
    pub fn subscriptions(&self) -> Vec<String>
        requires
            self.wf(),
    {
        match self {
            StrategyKind::MarketMaker(s) => s.subscriptions(),
            StrategyKind::DynamicMarketMaker(s) => s.subscriptions(),
            StrategyKind::SureBets(s) => s.subscriptions(),
            StrategyKind::SpreadWatcher(s) => s.subscriptions(),
            StrategyKind::OrderTest(s) => s.subscriptions(),
        }
    }

    pub fn on_tick(&mut self, ctx: &StrategyContext) -> (r: Vec<Signal>)
        requires
            old(self).wf(),
            ctx.wf(),
        ensures
            final(self).wf(),
            r@ == tick_of(*old(self), *ctx),
    {
        match self {
            StrategyKind::MarketMaker(s) => s.on_tick(ctx),
            StrategyKind::DynamicMarketMaker(s) => s.on_tick(ctx),
            StrategyKind::SureBets(s) => s.on_tick(ctx),
            StrategyKind::SpreadWatcher(s) => s.on_tick(ctx),
            StrategyKind::OrderTest(s) => s.on_tick(ctx),
        }
    }

    pub fn on_fill(&mut self, fill: &Fill)
        requires
            old(self).wf(),
        ensures
            final(self).wf(),
    {
        match self {
            StrategyKind::MarketMaker(s) => s.on_fill(fill),
            StrategyKind::DynamicMarketMaker(s) => s.on_fill(fill),
            StrategyKind::SureBets(s) => s.on_fill(fill),
            StrategyKind::SpreadWatcher(s) => s.on_fill(fill),
            StrategyKind::OrderTest(s) => s.on_fill(fill),
        }
    }

    pub fn on_shutdown(&mut self)
        requires
            old(self).wf(),
        ensures
            final(self).wf(),
    {
        match self {
            StrategyKind::MarketMaker(s) => s.on_shutdown(),
            StrategyKind::DynamicMarketMaker(s) => s.on_shutdown(),
            StrategyKind::SureBets(s) => s.on_shutdown(),
            StrategyKind::SpreadWatcher(s) => s.on_shutdown(),
            StrategyKind::OrderTest(s) => s.on_shutdown(),
        }
    }
}

/// A name the registry knows.
pub open spec fn known_name(n: Seq<char>) -> bool {
    n == "market_maker"@ || n == "dynamic_market_maker"@ || n == "sure_bets"@ || n == "spread_watcher"@ || n == "order_test"@
}

/// `k` is the freshly built strategy registered under `n`.
pub open spec fn kind_named(k: StrategyKind, n: Seq<char>) -> bool {
    k.wf() && match k {
        StrategyKind::MarketMaker(_) => n == "market_maker"@,
        StrategyKind::DynamicMarketMaker(_) => n == "dynamic_market_maker"@,
        StrategyKind::SureBets(_) => n == "sure_bets"@,
        StrategyKind::SpreadWatcher(_) => n == "spread_watcher"@,
        StrategyKind::OrderTest(o) => n == "order_test"@ && !o.placed(),
    }
}

/// The strategy registered under a name.
pub fn strategy_by_name(name: &str) -> (r: Option<StrategyKind>)
    ensures
        r.is_some() ==> r.unwrap().wf() && kind_named(r.unwrap(), name@),
        r.is_some() == known_name(name@),
{
    let n = name.to_owned();
    if n == String::from_str("market_maker") {
        Some(StrategyKind::MarketMaker(MarketMaker::new()))
    } else if n == String::from_str("dynamic_market_maker") {
        Some(StrategyKind::DynamicMarketMaker(DynamicMarketMaker::new()))
    } else if n == String::from_str("sure_bets") {
        Some(StrategyKind::SureBets(SureBets::new()))
    } else if n == String::from_str("spread_watcher") {
        Some(StrategyKind::SpreadWatcher(SpreadWatcher::new()))
    } else if n == String::from_str("order_test") {
        Some(StrategyKind::OrderTest(OrderTest::new()))
    } else {
        None
    }
}

/// Runs the registered strategies.
pub struct StrategyRuntime {
    strategies: Vec<StrategyKind>,
}

impl StrategyRuntime {
    pub closed spec fn strategies(&self) -> Seq<StrategyKind> {
        self.strategies@
    }

    pub open spec fn wf(&self) -> bool {
        forall|i: int| 0 <= i < self.strategies().len() ==> (#[trigger] self.strategies()[i]).wf()
    }

    pub fn new() -> (r: StrategyRuntime)
        ensures
            r.wf(),
            r.strategies().len() == 0,
    {
        StrategyRuntime { strategies: Vec::new() }
    }

    pub fn register(&mut self, strategy: StrategyKind)
        requires
            old(self).wf(),
            strategy.wf(),
        ensures
            final(self).wf(),
            final(self).strategies() == old(self).strategies().push(strategy),
    {
        let ghost before = self.strategies();
        self.strategies.push(strategy);
        assert forall|k: int| 0 <= k < self.strategies().len() implies (#[trigger] self.strategies()[k]).wf() by {
            if k < before.len() {
                assert(self.strategies()[k] == before[k]);
            }
        }
    }

    /// Registers the strategies named, in order; an unknown name fails the
    /// whole load and registers nothing.
    pub fn load(&mut self, names: &Vec<String>) -> (r: Result<(), EngineError>)
        requires
            old(self).wf(),
        ensures
            final(self).wf(),
            r.is_ok() == forall|k: int| 0 <= k < names@.len() ==> known_name((#[trigger] names@[k])@),
            r.is_err() ==> final(self).strategies() == old(self).strategies(),
            r matches Err(e) ==> e matches EngineError::UnknownStrategy(x) && exists|k: int|
                0 <= k < names@.len() && !known_name((#[trigger] names@[k])@) && x@ == names@[k]@,
            r.is_ok() ==> final(self).strategies().len() == old(self).strategies().len() + names@.len(),
            r.is_ok() ==> final(self).strategies().subrange(0, old(self).strategies().len() as int) == old(self).strategies(),
            r.is_ok() ==> forall|k: int| 0 <= k < names@.len() ==> kind_named(
                #[trigger] final(self).strategies()[old(self).strategies().len() + k],
                names@[k]@,
            ),
    {
        let mut picked: Vec<StrategyKind> = Vec::new();
        let mut i: usize = 0;
        while i < names.len()
            invariant
                0 <= i <= names@.len(),
                picked@.len() == i,
                forall|k: int| 0 <= k < picked@.len() ==> (#[trigger] picked@[k]).wf(),
                forall|k: int| 0 <= k < i ==> kind_named(#[trigger] picked@[k], names@[k]@),
                forall|k: int| 0 <= k < i ==> known_name((#[trigger] names@[k])@),
                self.wf(),
                self.strategies() == old(self).strategies(),
            decreases names@.len() - i,
        {
            match strategy_by_name(names[i].as_str()) {
                Some(s) => picked.push(s),
                None => return Err(EngineError::UnknownStrategy(names[i].clone())),
            }
            i = i + 1;
        }
        let ghost before = self.strategies();
        let ghost extra = picked@;
        self.strategies.append(&mut picked);
        assert(self.strategies() =~= before + extra);
        assert forall|k: int| 0 <= k < names@.len() implies kind_named(
            #[trigger] self.strategies()[before.len() + k],
            names@[k]@,
        ) by {
            assert(self.strategies()[before.len() + k] == extra[k]);
        }
        assert(self.strategies().subrange(0, before.len() as int) =~= before);
        assert forall|k: int| 0 <= k < names@.len() implies kind_named(
            #[trigger] self.strategies()[before.len() + k],
            names@[k]@,
        ) by {
            assert(self.strategies()[before.len() + k] == extra[k]);
        }
        assert(self.strategies().subrange(0, before.len() as int) =~= before);
        assert forall|k: int| 0 <= k < self.strategies().len() implies (#[trigger] self.strategies()[k]).wf() by {
            if k >= before.len() {
                assert(self.strategies()[k] == extra[k - before.len()]);
            } else {
                assert(self.strategies()[k] == before[k]);
            }
        }
        Ok(())
    }

    pub fn len(&self) -> (r: usize)
        ensures
            r == self.strategies().len(),
    {
        self.strategies.len()
    }

    /// Whether any registered strategy needs market discovery.
    pub fn requires_market_discovery(&self) -> (r: bool)
        ensures
            r == exists|i: int| 0 <= i < self.strategies().len() && ((#[trigger] self.strategies()[i]) is DynamicMarketMaker
                || self.strategies()[i] is SureBets),
    {
        let mut i: usize = 0;
        while i < self.strategies.len()
            invariant
                0 <= i <= self.strategies@.len(),
                forall|k: int| 0 <= k < i ==> !((#[trigger] self.strategies@[k]) is DynamicMarketMaker
                    || self.strategies@[k] is SureBets),
            decreases self.strategies@.len() - i,
        {
            if self.strategies[i].requires_market_discovery() {
                return true;
            }
            i = i + 1;
        }
        false
    }

    /// Ticks every strategy in registration order and concatenates their signals.
    pub fn tick(&mut self, ctx: &StrategyContext) -> (r: Vec<Signal>)
        requires
            old(self).wf(),
            ctx.wf(),
        ensures
            final(self).wf(),
            final(self).strategies().len() == old(self).strategies().len(),
            r@ == tick_all(old(self).strategies(), *ctx),
    {
        let ghost start = self.strategies();
        let mut out: Vec<Signal> = Vec::new();
        let mut i: usize = 0;
        let n = self.strategies.len();
        while i < n
            invariant
                n == start.len(),
                self.strategies@.len() == n,
                0 <= i <= n,
                forall|k: int| i <= k < n ==> self.strategies@[k] == start[k],
                forall|k: int| 0 <= k < n ==> (#[trigger] self.strategies()[k]).wf(),
                forall|k: int| 0 <= k < n ==> (#[trigger] start[k]).wf(),
                ctx.wf(),
                out@ == tick_all(start.take(i as int), *ctx),
            decreases n - i,
        {
            assert(self.strategies()[i as int].wf());
            let mut s = self.strategies.remove(i);
            let mut sig = s.on_tick(ctx);
            let ghost before = self.strategies();
            self.strategies.insert(i, s);
            let ghost prev = out@;
            out.append(&mut sig);
            proof {
                assert(start.take(i as int + 1).drop_last() =~= start.take(i as int));
                assert(start.take(i as int + 1).last() == start[i as int]);
                assert forall|k: int| i < k < n implies self.strategies@[k] == start[k] by {
                    assert(self.strategies@[k] == before[k - 1]);
                }
                assert forall|k: int| 0 <= k < n implies (#[trigger] self.strategies()[k]).wf() by {
                    if k < i { assert(self.strategies()[k] == before[k]); }
                    else if k > i { assert(self.strategies()[k] == before[k - 1]); }
                    else { assert(self.strategies()[k] == s); }
                }
            }
            i = i + 1;
        }
        assert(start.take(n as int) =~= start);
        out
    }

    /// Delivers a fill to every strategy.
    pub fn on_fill(&mut self, fill: &Fill)
        requires
            old(self).wf(),
        ensures
            final(self).wf(),
            final(self).strategies().len() == old(self).strategies().len(),
    {
        let n = self.strategies.len();
        let mut i: usize = 0;
        while i < n
            invariant
                self.strategies@.len() == n,
                0 <= i <= n,
                forall|k: int| 0 <= k < n ==> (#[trigger] self.strategies()[k]).wf(),
            decreases n - i,
        {
            assert(self.strategies()[i as int].wf());
            let mut s = self.strategies.remove(i);
            s.on_fill(fill);
            let ghost before = self.strategies();
            self.strategies.insert(i, s);
            proof {
                assert forall|k: int| 0 <= k < n implies (#[trigger] self.strategies()[k]).wf() by {
                    if k < i { assert(self.strategies()[k] == before[k]); }
                    else if k > i { assert(self.strategies()[k] == before[k - 1]); }
                    else { assert(self.strategies()[k] == s); }
                }
            }
            i = i + 1;
        }
    }

    /// Lets every strategy clean up.
    pub fn on_shutdown(&mut self)
        requires
            old(self).wf(),
        ensures
            final(self).wf(),
    {
        let n = self.strategies.len();
        let mut i: usize = 0;
        while i < n
            invariant
                self.strategies@.len() == n,
                0 <= i <= n,
                forall|k: int| 0 <= k < n ==> (#[trigger] self.strategies()[k]).wf(),
            decreases n - i,
        {
            assert(self.strategies()[i as int].wf());
            let mut s = self.strategies.remove(i);
            s.on_shutdown();
            let ghost before = self.strategies();
            self.strategies.insert(i, s);
            proof {
                assert forall|k: int| 0 <= k < n implies (#[trigger] self.strategies()[k]).wf() by {
                    if k < i { assert(self.strategies()[k] == before[k]); }
                    else if k > i { assert(self.strategies()[k] == before[k - 1]); }
                    else { assert(self.strategies()[k] == s); }
                }
            }
            i = i + 1;
        }
    }
}

} // verus!
