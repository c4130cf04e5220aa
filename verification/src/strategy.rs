//! What a strategy sees, and what it may ask for.
use rustc_hash::FxHashMap;
use vstd::prelude::*;

use crate::collections::{fx_get, fx_insert};
use crate::types::{FundingEvent, Order, OrderReport, Tick, TsLocalNs};

verus! {

/// Feed-delayed market state visible to strategies.
#[derive(Debug, Clone)]
pub struct MarketView {
    last_trade_by_symbol: FxHashMap<u32, Tick>,
}

impl View for MarketView {
    type V = Map<u32, Tick>;

    closed spec fn view(&self) -> Map<u32, Tick> {
        self.last_trade_by_symbol@
    }
}

impl Default for MarketView {
    fn default() -> (r: Self)
        ensures
            r@ == Map::<u32, Tick>::empty(),
    {
        MarketView { last_trade_by_symbol: FxHashMap::default() }
    }
}

impl MarketView {
    pub fn last_trade(&self, symbol_id: u32) -> (r: Option<&Tick>)
        ensures
            match r {
                Some(tick) => self@.contains_key(symbol_id) && *tick == self@[symbol_id],
                None => !self@.contains_key(symbol_id),
            },
    {
        fx_get(&self.last_trade_by_symbol, symbol_id)
    }

    pub fn on_tick_delivery(&mut self, tick: Tick)
        ensures
            final(self)@ == old(self)@.insert(tick.symbol_id, tick),
    {
        fx_insert(&mut self.last_trade_by_symbol, tick.symbol_id, tick);
    }
}

#[derive(Debug, Clone, Copy, PartialEq, Eq, Structural)]
pub enum Command {
    SubmitOrder(Order),
    CancelOrder { order_id: u64 },
}

/// What a strategy is given with each callback.
#[derive(Debug)]
pub struct Context<'a> {
    ts_local: TsLocalNs,
    market: &'a MarketView,
    commands: Vec<Command>,
}

/// The clock and the market as the strategy sees them, and the commands given so far.
pub ghost struct ContextView {
    pub clock: i64,
    pub market: Map<u32, Tick>,
    pub given: Seq<Command>,
}

impl<'a> View for Context<'a> {
    type V = ContextView;

    closed spec fn view(&self) -> ContextView {
        ContextView { clock: self.ts_local, market: self.market@, given: self.commands@ }
    }
}

impl ContextView {
    /// A context at the start of a callback.
    pub open spec fn fresh(clock: i64, market: Map<u32, Tick>) -> Self {
        ContextView { clock, market, given: Seq::empty() }
    }

    /// After one more command.
    pub open spec fn with_command(self, command: Command) -> Self {
        ContextView { given: self.given.push(command), ..self }
    }
}

impl<'a> Context<'a> {
    pub fn new(ts_local: TsLocalNs, market: &'a MarketView) -> (r: Self)
        ensures
            r@ == ContextView::fresh(ts_local, market@),
    {
        Context { ts_local, market, commands: Vec::new() }
    }

    pub fn ts_local(&self) -> (r: TsLocalNs)
        ensures
            r == self@.clock,
    {
        self.ts_local
    }

    pub fn market(&self) -> (r: &'a MarketView)
        ensures
            r@ == self@.market,
    {
        self.market
    }

    pub fn submit_order(&mut self, order: Order)
        ensures
            final(self)@ == old(self)@.with_command(Command::SubmitOrder(order)),
    {
        self.commands.push(Command::SubmitOrder(order));
    }

    pub fn cancel_order(&mut self, order_id: u64)
        ensures
            final(self)@ == old(self)@.with_command(Command::CancelOrder { order_id }),
    {
        self.commands.push(Command::CancelOrder { order_id });
    }

    pub fn into_commands(self) -> (r: Vec<Command>)
        ensures
            r@ == self@.given,
    {
        self.commands
    }
}

/// What a strategy is told by a callback.
pub ghost enum Notice {
    Tick(Tick),
    Ticks(Seq<Tick>),
    OrderUpdate(OrderReport),
    OrderUpdates(Seq<OrderReport>),
    Funding(FundingEvent),
}

/// Strategy interface.
///
/// An implementation may state with `may_answer` what its callbacks do. Nothing is known
/// of one that does not.
pub trait Strategy: Sized {
    type Error;

    /// Whether the callback with this notice may leave the strategy as `then` and the
    /// context as `after`; `ok` where it does not fail.
    open spec fn may_answer(
        self,
        notice: Notice,
        before: ContextView,
        after: ContextView,
        ok: bool,
        then: Self,
    ) -> bool {
        true
    }

    fn on_tick(&mut self, tick: &Tick, ctx: &mut Context<'_>) -> (r: Result<(), Self::Error>)
        ensures
            old(self).may_answer(
                Notice::Tick(*tick),
                old(ctx)@,
                final(ctx)@,
                r is Ok,
                *final(self),
            ),
    ;

    /// Tick by tick, unless an implementation takes them at once.
    fn on_ticks(&mut self, ticks: &[Tick], ctx: &mut Context<'_>) -> (r: Result<(), Self::Error>)
        ensures
            old(self).may_answer(
                Notice::Ticks(ticks@),
                old(ctx)@,
                final(ctx)@,
                r is Ok,
                *final(self),
            ) || exists|states: Seq<Self>, views: Seq<ContextView>|
                {
                    &&& #[trigger] is_course(states, views, tick_notices(ticks@).len(), r is Ok)
                    &&& states.first() == *old(self) && states.last() == *final(self)
                    &&& views.first() == old(ctx)@ && views.last() == final(ctx)@
                    &&& forall|i: int|
                        0 <= i < states.len() - 1 ==> (#[trigger] states[i]).may_answer(
                            tick_notices(ticks@)[i],
                            views[i],
                            views[i + 1],
                            r is Ok || i < states.len() - 2,
                            states[i + 1],
                        )
                },
    {
        let ghost mut states: Seq<Self> = seq![*self];
        let ghost mut views: Seq<ContextView> = seq![ctx@];
        let mut i: usize = 0;
        while i < ticks.len()
            invariant
                i <= ticks@.len(),
                states.len() == views.len() == i + 1,
                states.first() == *old(self),
                views.first() == old(ctx)@,
                states.last() == *self,
                views.last() == ctx@,
                forall|k: int|
                    0 <= k < i ==> (#[trigger] states[k]).may_answer(
                        tick_notices(ticks@)[k],
                        views[k],
                        views[k + 1],
                        true,
                        states[k + 1],
                    ),
            decreases ticks@.len() - i,
        {
            let answer: Result<(), Self::Error> = self.on_tick(&ticks[i], ctx);
            proof {
                states = states.push(*self);
                views = views.push(ctx@);
            }
            if answer.is_err() {
                assert(is_course(states, views, tick_notices(ticks@).len(), false));
                return answer;
            }
            i = i + 1;
        }
        assert(is_course(states, views, tick_notices(ticks@).len(), true));
        Ok(())
    }

    fn on_order_update(&mut self, report: &OrderReport, ctx: &mut Context<'_>) -> (r: Result<
        (),
        Self::Error,
    >)
        ensures
            old(self).may_answer(
                Notice::OrderUpdate(*report),
                old(ctx)@,
                final(ctx)@,
                r is Ok,
                *final(self),
            ),
    ;

    /// Update by update, unless an implementation takes them at once.
    fn on_order_updates(&mut self, reports: &[OrderReport], ctx: &mut Context<'_>) -> (r: Result<
        (),
        Self::Error,
    >)
        ensures
            old(self).may_answer(
                Notice::OrderUpdates(reports@),
                old(ctx)@,
                final(ctx)@,
                r is Ok,
                *final(self),
            ) || exists|states: Seq<Self>, views: Seq<ContextView>|
                {
                    &&& #[trigger] is_course(states, views, report_notices(reports@).len(), r is Ok)
                    &&& states.first() == *old(self) && states.last() == *final(self)
                    &&& views.first() == old(ctx)@ && views.last() == final(ctx)@
                    &&& forall|i: int|
                        0 <= i < states.len() - 1 ==> (#[trigger] states[i]).may_answer(
                            report_notices(reports@)[i],
                            views[i],
                            views[i + 1],
                            r is Ok || i < states.len() - 2,
                            states[i + 1],
                        )
                },
    {
        let ghost mut states: Seq<Self> = seq![*self];
        let ghost mut views: Seq<ContextView> = seq![ctx@];
        let mut i: usize = 0;
        while i < reports.len()
            invariant
                i <= reports@.len(),
                states.len() == views.len() == i + 1,
                states.first() == *old(self),
                views.first() == old(ctx)@,
                states.last() == *self,
                views.last() == ctx@,
                forall|k: int|
                    0 <= k < i ==> (#[trigger] states[k]).may_answer(
                        report_notices(reports@)[k],
                        views[k],
                        views[k + 1],
                        true,
                        states[k + 1],
                    ),
            decreases reports@.len() - i,
        {
            let answer: Result<(), Self::Error> = self.on_order_update(&reports[i], ctx);
            proof {
                states = states.push(*self);
                views = views.push(ctx@);
            }
            if answer.is_err() {
                assert(is_course(states, views, report_notices(reports@).len(), false));
                return answer;
            }
            i = i + 1;
        }
        assert(is_course(states, views, report_notices(reports@).len(), true));
        Ok(())
    }

    /// Nothing, unless an implementation takes note of it.
    fn on_funding(&mut self, event: &FundingEvent, ctx: &mut Context<'_>) -> (r: Result<
        (),
        Self::Error,
    >)
        ensures
            old(self).may_answer(
                Notice::Funding(*event),
                old(ctx)@,
                final(ctx)@,
                r is Ok,
                *final(self),
            ) || (r is Ok && *final(self) == *old(self) && final(ctx)@ == old(ctx)@),
    {
        Ok(())
    }
}

/// Whether there are as many states of a strategy and of its context as `n` callbacks
/// leave, one after the other, up to the first that fails.
pub open spec fn is_course<S>(
    states: Seq<S>,
    views: Seq<ContextView>,
    n: nat,
    ok: bool,
) -> bool {
    &&& states.len() == views.len()
    &&& if ok {
        states.len() == n + 1
    } else {
        1 < states.len() <= n + 1
    }
}

/// Ticks as notices.
pub open spec fn tick_notices(ticks: Seq<Tick>) -> Seq<Notice> {
    Seq::new(ticks.len(), |i: int| Notice::Tick(ticks[i]))
}

/// Order updates as notices.
pub open spec fn report_notices(reports: Seq<OrderReport>) -> Seq<Notice> {
    Seq::new(reports.len(), |i: int| Notice::OrderUpdate(reports[i]))
}

/// Whether a strategy that is told of something may end as `then`, and the context as
/// `after`: it answers what it is told at once, a list also item by item, and it may take
/// no note of funding.
pub open spec fn may_hear<S: Strategy>(
    s: S,
    notice: Notice,
    before: ContextView,
    after: ContextView,
    ok: bool,
    then: S,
) -> bool {
    ||| s.may_answer(notice, before, after, ok, then)
    ||| match notice {
        Notice::Ticks(ticks) => may_hear_in_turn(
            s,
            tick_notices(ticks),
            before,
            after,
            ok,
            then,
        ),
        Notice::OrderUpdates(reports) => may_hear_in_turn(
            s,
            report_notices(reports),
            before,
            after,
            ok,
            then,
        ),
        Notice::Funding(_) => ok && then == s && after == before,
        _ => false,
    }
}

/// Whether a strategy that is told one notice after the other may end as `then`.
pub open spec fn may_hear_in_turn<S: Strategy>(
    s: S,
    notices: Seq<Notice>,
    before: ContextView,
    after: ContextView,
    ok: bool,
    then: S,
) -> bool {
    exists|states: Seq<S>, views: Seq<ContextView>|
        {
            &&& #[trigger] is_course(states, views, notices.len(), ok)
            &&& states.first() == s && states.last() == then
            &&& views.first() == before && views.last() == after
            &&& forall|i: int|
                0 <= i < states.len() - 1 ==> (#[trigger] states[i]).may_answer(
                    notices[i],
                    views[i],
                    views[i + 1],
                    ok || i < states.len() - 2,
                    states[i + 1],
                )
        }
}

} // verus!
