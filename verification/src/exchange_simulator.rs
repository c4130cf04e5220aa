//! The simulated exchange: order lifecycle, passive fills on trades, market orders.
use std::collections::BTreeMap;

use likely_stable::{likely, unlikely};
use rustc_hash::FxHashMap;
use vstd::prelude::*;
use vstd::std_specs::iter::IteratorSpec;

use crate::collections::{
    btree_get_mut, fx_get, fx_get_mut, fx_insert, ids_at, ids_clone, ids_len, ids_new, ids_push,
    ids_remove, OrderIds,
};
use crate::math::{clamp_i64, sat_sub};
use crate::orderbook_l2::{l2_depth_at, DepthAt, L2Levels, OrderBookL2};
use crate::orderbook_l3::{L3Queues, OrderBookL3};
use crate::queue_model::QueueModel;
use crate::types::{L2Update, L3Update, Order, OrderReport, OrderState, Side, Tick};

verus! {

#[derive(Debug, Clone)]
struct LiveOrder<S> {
    order: Order,
    state: OrderState,
    filled_qty: i64,
    remaining_qty: i64,
    queue_state: S,
}

/// An order at the exchange, with its place in the queue.
#[verifier::ext_equal]
pub struct LiveView<P> {
    pub order: Order,
    pub state: OrderState,
    pub filled_qty: i64,
    pub remaining_qty: i64,
    pub place: P,
}

impl<P> LiveView<P> {
    /// The report on this order, for a fill of `qty` at `price`.
    pub open spec fn report(self, qty: i64, price: i64, reason: Option<&'static str>) -> OrderReport {
        OrderReport {
            order_id: self.order.order_id,
            last_fill_qty: qty,
            last_fill_price: price,
            filled_qty: self.filled_qty,
            remaining_qty: self.remaining_qty,
            reason,
            symbol_id: self.order.symbol_id,
            status: self.state,
        }
    }

    /// The order after a fill of `qty`: done when nothing remains. A cancel in flight
    /// stays in flight.
    pub open spec fn filled_by(self, qty: i64, place: P) -> LiveView<P> {
        let remaining = self.remaining_qty - qty;
        LiveView {
            order: self.order,
            state: if remaining == 0 {
                OrderState::Filled
            } else if self.state is PendingCancel {
                OrderState::PendingCancel
            } else {
                OrderState::PartiallyFilled
            },
            filled_qty: (self.filled_qty + qty) as i64,
            remaining_qty: remaining as i64,
            place,
        }
    }

    /// Whether market trades can fill the order.
    pub open spec fn fillable(self) -> bool {
        self.remaining_qty > 0 && (self.state is Open || self.state is PartiallyFilled
            || self.state is PendingCancel)
    }

    /// Whether changes of venue orders move the order in its queue.
    pub open spec fn queued(self) -> bool {
        self.state is PendingNew || self.state is Open || self.state is PartiallyFilled
    }
}

/// The side that a trade of this side takes from the book.
pub open spec fn maker_side(aggressor: Side) -> Side {
    match aggressor {
        Side::Buy => Side::Sell,
        Side::Sell => Side::Buy,
        Side::NoSide => Side::NoSide,
    }
}

/// The mathematical state of an exchange.
#[verifier::reject_recursive_types(Q)]
#[verifier::ext_equal]
pub struct ExchangeView<Q: QueueModel> {
    pub book: L2Levels,
    /// The order-by-order book, where the exchange keeps one.
    pub book_l3: Option<L3Queues>,
    pub model: Q,
    pub orders: Map<u64, LiveView<Q::Place>>,
    /// Order identifiers by price and side code, in order of submission.
    pub buckets: Map<(i64, i8), Seq<u64>>,
}

impl<Q: QueueModel> ExchangeView<Q> {
    /// An exchange without orders or depth.
    pub open spec fn fresh(model: Q, l3: bool) -> Self {
        ExchangeView {
            book: L2Levels::empty(),
            book_l3: if l3 {
                Some(L3Queues::empty())
            } else {
                None
            },
            model,
            orders: Map::empty(),
            buckets: Map::empty(),
        }
    }

    /// The identifiers that rest at a price on a side.
    pub open spec fn bucket(self, price: i64, side: Side) -> Seq<u64> {
        if self.buckets.contains_key((price, side.code())) {
            self.buckets[(price, side.code())]
        } else {
            Seq::empty()
        }
    }

    /// What the exchange's book shows to an order: the L3 book where there is one.
    pub open spec fn depth_for(self, order: Order) -> DepthAt {
        match self.book_l3 {
            Some(l3) => l3.depth_at(order.side, order.price, order.order_id),
            None => l2_depth_at(self.book, order.side, order.price),
        }
    }

    pub open spec fn with_order(self, id: u64, o: LiveView<Q::Place>) -> Self {
        ExchangeView { orders: self.orders.insert(id, o), ..self }
    }

    pub open spec fn l2_updated(self, update: L2Update) -> Self {
        ExchangeView { book: self.book.updated(update), ..self }
    }

    /// After a venue order changed: the orders in the queue move, and the L3 book,
    /// where there is one, takes the update.
    pub open spec fn l3_updated(self, update: L3Update) -> Self {
        ExchangeView {
            orders: self.orders.map_values(
                |o: LiveView<Q::Place>| shifted_order(self.model, o, update),
            ),
            book_l3: match self.book_l3 {
                Some(l3) => Some(l3.updated(update)),
                None => None,
            },
            ..self
        }
    }

    /// After an order arrived.
    pub open spec fn submitted(self, order: Order) -> Self {
        let (model, place) = self.model.registered(order, self.depth_for(order));
        ExchangeView {
            model,
            orders: self.orders.insert(
                order.order_id,
                LiveView {
                    order,
                    state: OrderState::PendingNew,
                    filled_qty: 0,
                    remaining_qty: order.qty,
                    place,
                },
            ),
            buckets: self.buckets.insert(
                (order.price, order.side.code()),
                self.bucket(order.price, order.side).push(order.order_id),
            ),
            ..self
        }
    }

    /// After an order changed its state.
    pub open spec fn with_state(self, id: u64, state: OrderState) -> Self {
        self.with_order(id, LiveView { state, ..self.orders[id] })
    }

    /// The best price against an order of this side, and the quantity there.
    pub open spec fn best_against(self, side: Side) -> Option<(i64, i64)> {
        match side {
            Side::Buy => match self.book_l3 {
                Some(l3) if l3.best_ask() is Some => l3.best_ask(),
                _ => self.book.best_ask(),
            },
            Side::Sell => match self.book_l3 {
                Some(l3) if l3.best_bid() is Some => l3.best_bid(),
                _ => self.book.best_bid(),
            },
            Side::NoSide => None,
        }
    }

    /// Price and available quantity for a market order: the best of the book, else the
    /// fallback price without a limit on quantity.
    pub open spec fn market_price(self, side: Side, fallback: Option<i64>) -> Option<(i64, i64)> {
        match self.best_against(side) {
            Some(best) => Some(best),
            None => match fallback {
                Some(price) => Some((price, i64::MAX)),
                None => None,
            },
        }
    }

    /// A market order and the report on it, after it took what is available at once.
    pub open spec fn market_filled(self, id: u64, fallback: Option<i64>) -> (
        LiveView<Q::Place>,
        OrderReport,
    ) {
        let o = self.orders[id];
        match self.market_price(o.order.side, fallback) {
            Some((price, available)) => {
                let qty = if o.order.qty < available {
                    o.order.qty
                } else {
                    available
                };
                let remaining = clamp_i64(o.order.qty - qty);
                let after = LiveView {
                    state: if remaining == 0 {
                        OrderState::Filled
                    } else {
                        OrderState::PartiallyFilled
                    },
                    filled_qty: qty,
                    remaining_qty: remaining,
                    ..o
                };
                (after, after.report(qty, price, None))
            },
            None => {
                let after = LiveView { state: OrderState::Rejected, ..o };
                (
                    after,
                    OrderReport {
                        filled_qty: 0,
                        remaining_qty: o.order.qty,
                        ..after.report(0, 0, Some("book empty"))
                    },
                )
            },
        }
    }

    /// After an order left.
    pub open spec fn removed(self, id: u64) -> Self {
        if self.orders.contains_key(id) {
            let order = self.orders[id].order;
            let key = (order.price, order.side.code());
            ExchangeView {
                orders: self.orders.remove(id),
                buckets: if self.buckets.contains_key(key) {
                    self.buckets.insert(key, self.buckets[key].remove_value(id))
                } else {
                    self.buckets
                },
                ..self
            }
        } else {
            self
        }
    }

    /// One order meeting a trade, and the report where it is filled.
    pub open spec fn traded_one(self, id: u64, trade: Tick) -> (Self, Option<OrderReport>) {
        if self.orders.contains_key(id) && self.orders[id].fillable() {
            let o = self.orders[id];
            let (model, place, fill) = self.model.traded(o.order, o.remaining_qty, trade, o.place);
            if fill > 0 {
                let after = o.filled_by(fill, place);
                (
                    ExchangeView { model, ..self.with_order(id, after) },
                    Some(after.report(fill, trade.price, None)),
                )
            } else {
                (ExchangeView { model, ..self.with_order(id, LiveView { place, ..o }) }, None)
            }
        } else {
            (self, None)
        }
    }

    /// A list of orders meeting a trade one after the other, and the reports on fills.
    pub open spec fn traded(self, ids: Seq<u64>, trade: Tick) -> (Self, Seq<OrderReport>)
        decreases ids.len(),
    {
        if ids.len() == 0 {
            (self, Seq::empty())
        } else {
            let (before, reports) = self.traded(ids.drop_last(), trade);
            let (after, report) = before.traded_one(ids.last(), trade);
            (
                after,
                match report {
                    Some(r) => reports.push(r),
                    None => reports,
                },
            )
        }
    }

    /// The exchange after a market trade, and the reports on fills: the trade meets
    /// the orders that rest on the other side at its price, first submitted first.
    pub open spec fn after_trade(self, trade: Tick) -> (Self, Seq<OrderReport>) {
        match trade.side {
            Side::NoSide => (self, Seq::empty()),
            _ => self.traded(self.bucket(trade.price, maker_side(trade.side)), trade),
        }
    }

    /// What has been filled and what remains of every order add up inside `i64`.
    pub open spec fn quantities_fit(self) -> bool {
        forall|id: u64| #[trigger]
            self.orders.contains_key(id) ==> self.orders[id].filled_qty
                + self.orders[id].remaining_qty <= i64::MAX
    }
}

/// An order after a venue order changed.
pub open spec fn shifted_order<Q: QueueModel>(
    model: Q,
    o: LiveView<Q::Place>,
    update: L3Update,
) -> LiveView<Q::Place> {
    if o.queued() {
        LiveView { place: model.shifted(o.order, o.place, update), ..o }
    } else {
        o
    }
}

spec fn live_value<Q: QueueModel>(o: LiveOrder<Q::State>) -> LiveView<Q::Place> {
    LiveView {
        order: o.order,
        state: o.state,
        filled_qty: o.filled_qty,
        remaining_qty: o.remaining_qty,
        place: Q::place(o.queue_state),
    }
}

/// Minimal exchange simulator:
/// - depth book maintenance
/// - order lifecycle tracking
/// - queue-model-driven passive fills on market trade ticks
#[verifier::reject_recursive_types(Q)]
pub struct ExchangeSimulator<Q: QueueModel> {
    book: OrderBookL2,
    book_l3: Option<OrderBookL3>,
    queue_model: Q,
    orders: BTreeMap<u64, LiveOrder<Q::State>>,
    /// Index active orders by (price, side) to avoid scanning all orders on every trade.
    buckets: FxHashMap<(i64, i8), OrderIds>,
}

impl<Q: QueueModel> View for ExchangeSimulator<Q> {
    type V = ExchangeView<Q>;

    closed spec fn view(&self) -> ExchangeView<Q> {
        ExchangeView {
            book: self.book@,
            book_l3: match self.book_l3 {
                Some(l3) => Some(l3@),
                None => None,
            },
            model: self.queue_model,
            orders: self.orders@.map_values(|o: LiveOrder<Q::State>| live_value::<Q>(o)),
            buckets: self.buckets@.map_values(|ids: OrderIds| ids@),
        }
    }
}

impl<Q: QueueModel> ExchangeSimulator<Q> {
    /// Quantities of live orders add up without overflow.
    pub open spec fn wf(&self) -> bool {
        self@.quantities_fit()
    }

    pub fn new(queue_model: Q) -> (r: Self)
        ensures
            r@ == ExchangeView::fresh(queue_model, false),
            r.wf(),
    {
        let r = ExchangeSimulator {
            book: OrderBookL2::new(),
            book_l3: None,
            queue_model,
            orders: BTreeMap::new(),
            buckets: FxHashMap::default(),
        };
        assert(r@ =~= ExchangeView::fresh(queue_model, false));
        r
    }

    pub fn new_l3(queue_model: Q) -> (r: Self)
        ensures
            r@ == ExchangeView::fresh(queue_model, true),
            r.wf(),
    {
        let r = ExchangeSimulator {
            book: OrderBookL2::new(),
            book_l3: Some(OrderBookL3::new()),
            queue_model,
            orders: BTreeMap::new(),
            buckets: FxHashMap::default(),
        };
        assert(r@ =~= ExchangeView::fresh(queue_model, true));
        r
    }

    /// Whether the exchange keeps an order-by-order book.
    pub fn has_l3_book(&self) -> (r: bool)
        ensures
            r == (self@.book_l3 is Some),
    {
        self.book_l3.is_some()
    }

    pub fn apply_l2_update(&mut self, update: &L2Update)
        ensures
            final(self)@ == old(self)@.l2_updated(*update),
            old(self).wf() ==> final(self).wf(),
    {
        self.book.apply_l2(update);
        assert(self@ =~= old(self)@.l2_updated(*update));
    }

    /// Submit an order to the exchange.
    ///
    /// Returns the order_id and puts the order into `PendingNew`.
    pub fn submit_order(&mut self, order: Order) -> (r: u64)
        requires
            old(self).wf(),
        ensures
            r == order.order_id,
            final(self)@ == old(self)@.submitted(order),
            final(self).wf(),
    {
        let order_id: u64 = order.order_id;
        let queue_state = match &self.book_l3 {
            Some(l3) => self.queue_model.register_order(&order, l3),
            None => self.queue_model.register_order(&order, &self.book),
        };
        let key: (i64, i8) = (order.price, order.side.as_i8());
        match fx_get_mut(&mut self.buckets, key) {
            Some(ids) => ids_push(ids, order_id),
            None => {
                let mut ids = ids_new();
                ids_push(&mut ids, order_id);
                fx_insert(&mut self.buckets, key, ids);
            },
        }
        self.orders.insert(
            order_id,
            LiveOrder {
                order,
                state: OrderState::PendingNew,
                filled_qty: 0,
                remaining_qty: order.qty,
                queue_state,
            },
        );
        assert(self@ =~= old(self)@.submitted(order));
        order_id
    }

    /// Exchange ACK for a new order: `PendingNew` -> `Open`.
    ///
    /// Returns an `OrderReport` with status `Open` so the engine can deliver
    /// it to the strategy, letting the strategy store the order_id for later
    /// cancellation.
    pub fn ack_new(&mut self, order_id: u64) -> (r: Result<OrderReport, &'static str>)
        ensures
            old(self).wf() ==> final(self).wf(),
            ({
                let orders = old(self)@.orders;
                match r {
                    Ok(report) => {
                        &&& orders.contains_key(order_id) && orders[order_id].state is PendingNew
                        &&& final(self)@ == old(self)@.with_state(order_id, OrderState::Open)
                        &&& report == (OrderReport {
                            filled_qty: 0,
                            ..final(self)@.orders[order_id].report(0, 0, None)
                        })
                    },
                    Err(e) => {
                        &&& final(self)@ == old(self)@
                        &&& if orders.contains_key(order_id) {
                            !(orders[order_id].state is PendingNew) && e == "order is not PendingNew"
                        } else {
                            e == "unknown order_id"
                        }
                    },
                }
            }),
    {
        let r: Result<OrderReport, &'static str> = match btree_get_mut(&mut self.orders, &order_id) {
            None => Err("unknown order_id"),
            Some(o) => {
                if o.state != OrderState::PendingNew {
                    Err("order is not PendingNew")
                } else {
                    o.state = OrderState::Open;
                    Ok(
                        OrderReport {
                            order_id: o.order.order_id,
                            symbol_id: o.order.symbol_id,
                            status: OrderState::Open,
                            last_fill_qty: 0,
                            last_fill_price: 0,
                            filled_qty: 0,
                            remaining_qty: o.remaining_qty,
                            reason: None,
                        },
                    )
                }
            },
        };
        proof {
            if r is Ok {
                assert(old(self)@.orders.contains_key(order_id));
                assert(self@ =~= old(self)@.with_state(order_id, OrderState::Open));
            } else {
                assert(self@ =~= old(self)@);
            }
        }
        r
    }

    /// Request cancel: `Open|PartiallyFilled` -> `PendingCancel`.
    pub fn cancel_order(&mut self, order_id: u64) -> (r: Result<(), &'static str>)
        ensures
            old(self).wf() ==> final(self).wf(),
            ({
                let orders = old(self)@.orders;
                match r {
                    Ok(()) => {
                        &&& orders.contains_key(order_id)
                        &&& orders[order_id].state is Open || orders[order_id].state is PartiallyFilled
                        &&& final(self)@ == old(self)@.with_state(
                            order_id,
                            OrderState::PendingCancel,
                        )
                    },
                    Err(e) => {
                        &&& final(self)@ == old(self)@
                        &&& if orders.contains_key(order_id) {
                            &&& !(orders[order_id].state is Open)
                            &&& !(orders[order_id].state is PartiallyFilled)
                            &&& e == "order cannot transition to PendingCancel"
                        } else {
                            e == "unknown order_id"
                        }
                    },
                }
            }),
    {
        let r: Result<(), &'static str> = match btree_get_mut(&mut self.orders, &order_id) {
            None => Err("unknown order_id"),
            Some(o) => {
                if !o.state.can_transition_to(OrderState::PendingCancel) {
                    Err("order cannot transition to PendingCancel")
                } else {
                    o.state = OrderState::PendingCancel;
                    Ok(())
                }
            },
        };
        proof {
            if r is Ok {
                assert(old(self)@.orders.contains_key(order_id));
                assert(self@ =~= old(self)@.with_state(order_id, OrderState::PendingCancel));
            } else {
                assert(self@ =~= old(self)@);
            }
        }
        r
    }

    /// Exchange ACK for cancel:
    /// - `PendingCancel` -> `Cancelled`
    ///
    /// If the order filled during the cancel flight, this returns an error to model
    /// a "cancel rejected" outcome.
    pub fn ack_cancel(&mut self, order_id: u64) -> (r: Result<OrderReport, &'static str>)
        ensures
            old(self).wf() ==> final(self).wf(),
            ({
                let orders = old(self)@.orders;
                match r {
                    Ok(report) => {
                        &&& orders.contains_key(order_id) && orders[order_id].state is PendingCancel
                        &&& final(self)@ == old(self)@.with_state(order_id, OrderState::Cancelled)
                        &&& report == final(self)@.orders[order_id].report(0, 0, None)
                    },
                    Err(e) => {
                        &&& final(self)@ == old(self)@
                        &&& if !orders.contains_key(order_id) {
                            e == "unknown order_id"
                        } else if orders[order_id].state is Filled {
                            e == "cancel rejected: already filled"
                        } else {
                            !(orders[order_id].state is PendingCancel) && e
                                == "order is not PendingCancel"
                        }
                    },
                }
            }),
    {
        let r: Result<OrderReport, &'static str> = match btree_get_mut(&mut self.orders, &order_id) {
            None => Err("unknown order_id"),
            Some(o) => {
                match o.state {
                    OrderState::PendingCancel => {
                        o.state = OrderState::Cancelled;
                        Ok(
                            OrderReport {
                                order_id: o.order.order_id,
                                symbol_id: o.order.symbol_id,
                                status: OrderState::Cancelled,
                                last_fill_qty: 0,
                                last_fill_price: 0,
                                filled_qty: o.filled_qty,
                                remaining_qty: o.remaining_qty,
                                reason: None,
                            },
                        )
                    },
                    OrderState::Filled => Err("cancel rejected: already filled"),
                    _ => Err("order is not PendingCancel"),
                }
            },
        };
        proof {
            if r is Ok {
                assert(old(self)@.orders.contains_key(order_id));
                assert(self@ =~= old(self)@.with_state(order_id, OrderState::Cancelled));
            } else {
                assert(self@ =~= old(self)@);
            }
        }
        r
    }

    /// The order under this identifier, as the exchange keeps it.
    fn live(&self, order_id: u64) -> (r: Option<&LiveOrder<Q::State>>)
        ensures
            match r {
                Some(o) => self@.orders.contains_key(order_id) && live_value::<Q>(*o)
                    == self@.orders[order_id],
                None => !self@.orders.contains_key(order_id),
            },
    {
        self.orders.get(&order_id)
    }

    pub fn get_order_state(&self, order_id: u64) -> (r: Option<OrderState>)
        ensures
            r == if self@.orders.contains_key(order_id) {
                Some(self@.orders[order_id].state)
            } else {
                None
            },
    {
        match self.live(order_id) {
            Some(o) => Some(o.state),
            None => None,
        }
    }

    pub fn get_order(&self, order_id: u64) -> (r: Option<Order>)
        ensures
            r == if self@.orders.contains_key(order_id) {
                Some(self@.orders[order_id].order)
            } else {
                None
            },
    {
        match self.live(order_id) {
            Some(o) => Some(o.order),
            None => None,
        }
    }

    pub fn get_filled_qty(&self, order_id: u64) -> (r: Option<i64>)
        ensures
            r == if self@.orders.contains_key(order_id) {
                Some(self@.orders[order_id].filled_qty)
            } else {
                None
            },
    {
        match self.live(order_id) {
            Some(o) => Some(o.filled_qty),
            None => None,
        }
    }

    pub fn get_remaining_qty(&self, order_id: u64) -> (r: Option<i64>)
        ensures
            r == if self@.orders.contains_key(order_id) {
                Some(self@.orders[order_id].remaining_qty)
            } else {
                None
            },
    {
        match self.live(order_id) {
            Some(o) => Some(o.remaining_qty),
            None => None,
        }
    }

    /// The best price against an order of this side, and the quantity there.
    fn best_price_against(&self, side: Side) -> (r: Option<(i64, i64)>)
        ensures
            r == self@.best_against(side),
    {
        match side {
            Side::Buy => {
                if let Some(l3) = &self.book_l3 {
                    let best = l3.best_ask();
                    if best.is_some() {
                        return best;
                    }
                }
                self.book.best_ask()
            },
            Side::Sell => {
                if let Some(l3) = &self.book_l3 {
                    let best = l3.best_bid();
                    if best.is_some() {
                        return best;
                    }
                }
                self.book.best_bid()
            },
            Side::NoSide => None,
        }
    }

    /// Immediately fill a market order at the current best bid/ask.
    ///
    /// Must be called on a `PendingNew` market order.  Returns `Some(report)` where
    /// `report.status` is `Filled`, `PartiallyFilled`, or `Rejected`.
    /// Returns `None` only if `order_id` is not found.
    ///
    /// `fallback_price`: used when the book has no relevant side.  When provided,
    /// the order fills at that price for its full requested qty (no depth constraint).
    /// When `None` and the book is empty, the order is `Rejected`.
    pub fn fill_market_immediately(&mut self, order_id: u64, fallback_price: Option<i64>) -> (r:
        Option<OrderReport>)
        requires
            old(self).wf(),
            old(self)@.orders.contains_key(order_id) ==> {
                &&& old(self)@.orders[order_id].order.order_type is Market
                &&& old(self)@.orders[order_id].state is PendingNew
            },
        ensures
            final(self).wf(),
            if old(self)@.orders.contains_key(order_id) {
                let (after, report) = old(self)@.market_filled(order_id, fallback_price);
                r == Some(report) && final(self)@ == old(self)@.with_order(order_id, after)
            } else {
                r is None && final(self)@ == old(self)@
            },
    {
        let side: Side = match self.live(order_id) {
            Some(o) => o.order.side,
            None => {
                return None;
            },
        };
        // A fallback price comes without a limit on the quantity.
        let effective: Option<(i64, i64)> = match self.best_price_against(side) {
            Some(best) => Some(best),
            None => match fallback_price {
                Some(price) => Some((price, i64::MAX)),
                None => None,
            },
        };
        let ghost (after, report) = self@.market_filled(order_id, fallback_price);
        let mut r: Option<OrderReport> = None;
        match btree_get_mut(&mut self.orders, &order_id) {
            None => {},
            Some(o) => {
                match effective {
                    Some((price, available_qty)) => {
                        let fill_qty: i64 = if o.order.qty < available_qty {
                            o.order.qty
                        } else {
                            available_qty
                        };
                        o.filled_qty = fill_qty;
                        o.remaining_qty = sat_sub(o.order.qty, fill_qty);
                        o.state =
                        if o.remaining_qty == 0 {
                            OrderState::Filled
                        } else {
                            OrderState::PartiallyFilled
                        };
                        r =
                        Some(
                            OrderReport {
                                order_id: o.order.order_id,
                                symbol_id: o.order.symbol_id,
                                status: o.state,
                                last_fill_qty: fill_qty,
                                last_fill_price: price,
                                filled_qty: o.filled_qty,
                                remaining_qty: o.remaining_qty,
                                reason: None,
                            },
                        );
                    },
                    None => {
                        o.state = OrderState::Rejected;
                        r =
                        Some(
                            OrderReport {
                                order_id: o.order.order_id,
                                symbol_id: o.order.symbol_id,
                                status: OrderState::Rejected,
                                last_fill_qty: 0,
                                last_fill_price: 0,
                                filled_qty: 0,
                                remaining_qty: o.order.qty,
                                reason: Some("book empty"),
                            },
                        );
                    },
                }
            },
        }
        assert(self@ =~= old(self)@.with_order(order_id, after));
        r
    }

    /// Cancel a partially-filled market order immediately after a partial fill.
    ///
    /// Transitions `PartiallyFilled -> Cancelled` and returns a `Cancelled` report so the
    /// engine can deliver it to the strategy.  Must only be called on an order in
    /// `PartiallyFilled` state.  Returns `None` only if `order_id` is not found.
    pub fn force_cancel_partial_fill(&mut self, order_id: u64) -> (r: Option<OrderReport>)
        requires
            old(self).wf(),
            old(self)@.orders.contains_key(order_id) ==> old(
                self,
            )@.orders[order_id].state is PartiallyFilled,
        ensures
            final(self).wf(),
            if old(self)@.orders.contains_key(order_id) {
                &&& final(self)@ == old(self)@.with_state(order_id, OrderState::Cancelled)
                &&& r == Some(
                    final(self)@.orders[order_id].report(
                        0,
                        0,
                        Some("market order partial fill: remaining qty cancelled"),
                    ),
                )
            } else {
                r is None && final(self)@ == old(self)@
            },
    {
        let r: Option<OrderReport> = match btree_get_mut(&mut self.orders, &order_id) {
            None => None,
            Some(o) => {
                o.state = OrderState::Cancelled;
                Some(
                    OrderReport {
                        order_id: o.order.order_id,
                        symbol_id: o.order.symbol_id,
                        status: OrderState::Cancelled,
                        last_fill_qty: 0,
                        last_fill_price: 0,
                        filled_qty: o.filled_qty,
                        remaining_qty: o.remaining_qty,
                        reason: Some("market order partial fill: remaining qty cancelled"),
                    },
                )
            },
        };
        proof {
            if r is Some {
                assert(self@ =~= old(self)@.with_state(order_id, OrderState::Cancelled));
            } else {
                assert(self@ =~= old(self)@);
            }
        }
        r
    }

    /// Remove an order from the active set (typically called when terminal).
    pub fn remove_order(&mut self, order_id: u64)
        ensures
            old(self).wf() ==> final(self).wf(),
            final(self)@ == old(self)@.removed(order_id),
    {
        match self.orders.remove(&order_id) {
            None => {},
            Some(o) => {
                let key: (i64, i8) = (o.order.price, o.order.side.as_i8());
                match fx_get_mut(&mut self.buckets, key) {
                    Some(ids) => drop_first_occurrence(ids, order_id),
                    None => {},
                }
            },
        }
        assert(self@ =~= old(self)@.removed(order_id));
    }

    /// One order meeting a trade.
    fn meet_trade(&mut self, order_id: u64, trade: &Tick) -> (r: Option<OrderReport>)
        requires
            old(self).wf(),
        ensures
            final(self).wf(),
            (final(self)@, r) == old(self)@.traded_one(order_id, *trade),
    {
        let mut r: Option<OrderReport> = None;
        match btree_get_mut(&mut self.orders, &order_id) {
            None => {},
            Some(o) => {
                if !unlikely(o.remaining_qty <= 0) && matches!(
                    o.state,
                    OrderState::Open | OrderState::PartiallyFilled | OrderState::PendingCancel
                ) {
                    let ghost before = old(self)@.orders[order_id];
                    assert(old(self)@.orders.contains_key(order_id));
                    assert(live_value::<Q>(*o) == before);
                    proof {
                        self.queue_model.fill_within_remaining(
                            before.order,
                            before.remaining_qty,
                            *trade,
                            before.place,
                        );
                    }
                    let cancelling: bool = o.state == OrderState::PendingCancel;
                    let fill_qty: i64 = self.queue_model.check_fill(
                        &o.order,
                        o.remaining_qty,
                        trade,
                        &mut o.queue_state,
                    );
                    if !likely(fill_qty <= 0) {
                        o.filled_qty = o.filled_qty + fill_qty;
                        o.remaining_qty = o.remaining_qty - fill_qty;
                        o.state =
                        if o.remaining_qty == 0 {
                            OrderState::Filled
                        } else if cancelling {
                            OrderState::PendingCancel
                        } else {
                            OrderState::PartiallyFilled
                        };
                        r =
                        Some(
                            OrderReport {
                                order_id: o.order.order_id,
                                symbol_id: o.order.symbol_id,
                                status: o.state,
                                last_fill_qty: fill_qty,
                                last_fill_price: trade.price,
                                filled_qty: o.filled_qty,
                                remaining_qty: o.remaining_qty,
                                reason: None,
                            },
                        );
                    }
                }
            },
        }
        assert(self@ =~= old(self)@.traded_one(order_id, *trade).0);
        r
    }

    /// Process a market trade tick and generate order reports for any fills.
    ///
    /// The side of the trade is the aggressor: a buy trade matches resting sell orders.
    pub fn on_trade(&mut self, trade: Tick, reports: &mut Vec<OrderReport>)
        requires
            old(self).wf(),
        ensures
            final(self).wf(),
            final(self)@ == old(self)@.after_trade(trade).0,
            final(reports)@ == old(reports)@ + old(self)@.after_trade(trade).1,
    {
        let ghost start = self@;
        let maker: Side = match trade.side {
            Side::Buy => Side::Sell,
            Side::Sell => Side::Buy,
            Side::NoSide => {
                assert(reports@ =~= old(reports)@ + start.after_trade(trade).1);
                return ;
            },
        };
        let order_ids: OrderIds = match fx_get(&self.buckets, (trade.price, maker.as_i8())) {
            Some(ids) => ids_clone(ids),
            None => ids_new(),
        };
        let ghost ids = order_ids@;
        assert(ids =~= start.bucket(trade.price, maker));
        let n: usize = ids_len(&order_ids);
        let mut i: usize = 0;
        proof {
            assert(ids.take(0) =~= Seq::empty());
            assert(reports@ =~= old(reports)@ + start.traded(ids.take(0), trade).1);
        }
        while i < n
            invariant
                i <= n == ids.len(),
                ids == order_ids@,
                self.wf(),
                self@ == start.traded(ids.take(i as int), trade).0,
                reports@ == old(reports)@ + start.traded(ids.take(i as int), trade).1,
            decreases n - i,
        {
            proof {
                assert(ids.take(i + 1).drop_last() =~= ids.take(i as int));
                assert(ids.take(i + 1).last() == ids[i as int]);
            }
            let order_id: u64 = ids_at(&order_ids, i);
            if let Some(report) = self.meet_trade(order_id, &trade) {
                reports.push(report);
            }
            assert(reports@ =~= old(reports)@ + start.traded(ids.take(i + 1), trade).1);
            i = i + 1;
        }
        assert(ids.take(n as int) =~= ids);
    }

    /// The identifiers of the live orders.
    fn order_ids(&self) -> (r: Vec<u64>)
        ensures
            r@.no_duplicates(),
            forall|id: u64| r@.contains(id) <==> #[trigger] self@.orders.contains_key(id),
    {
        let mut r: Vec<u64> = Vec::new();
        let keys = self.orders.keys();
        let ghost all = IteratorSpec::remaining(&keys);
        for id in it: keys
            invariant
                it.seq() == all,
                r@.len() == it.index(),
                forall|i: int| 0 <= i < r@.len() ==> #[trigger] r@[i] == *all[i],
        {
            r.push(*id);
        }
        proof {
            assert(r@ =~= all.unref());
            assert(all.unref().to_set() == self.orders@.dom());
            assert forall|id: u64| r@.contains(id) <==> #[trigger] self@.orders.contains_key(
                id,
            ) by {
                assert(r@.to_set().contains(id) <==> self.orders@.dom().contains(id));
            }
        }
        r
    }

    pub fn apply_l3_update(&mut self, update: &L3Update) -> (r: Result<(), &'static str>)
        ensures
            old(self).wf() ==> final(self).wf(),
            final(self)@ == old(self)@.l3_updated(*update),
            match r {
                Ok(()) => old(self)@.book_l3 is Some,
                Err(e) => old(self)@.book_l3 is None && e == "exchange is not in L3 depth mode",
            },
    {
        let ghost start = self@;
        let ids: Vec<u64> = self.order_ids();
        let mut i: usize = 0;
        while i < ids.len()
            invariant
                i <= ids@.len(),
                ids@.no_duplicates(),
                forall|id: u64| ids@.contains(id) <==> #[trigger] start.orders.contains_key(id),
                self@ == (ExchangeView { orders: self@.orders, ..start }),
                self@.orders.dom() == start.orders.dom(),
                forall|j: int|
                    0 <= j < i ==> self@.orders[#[trigger] ids@[j]] == shifted_order(
                        start.model,
                        start.orders[ids@[j]],
                        *update,
                    ),
                forall|j: int|
                    i <= j < ids@.len() ==> self@.orders[#[trigger] ids@[j]]
                        == start.orders[ids@[j]],
            decreases ids@.len() - i,
        {
            let id: u64 = ids[i];
            let ghost before = self@;
            assert(ids@.contains(id));
            match btree_get_mut(&mut self.orders, &id) {
                None => {},
                Some(o) => {
                    assert(live_value::<Q>(*o) == before.orders[id]);
                    if matches!(
                        o.state,
                        OrderState::PendingNew | OrderState::Open | OrderState::PartiallyFilled
                    ) {
                        self.queue_model.on_l3_update(&o.order, &mut o.queue_state, update);
                    }
                },
            }
            proof {
                assert(before.orders.contains_key(id));
                let after = shifted_order(start.model, start.orders[id], *update);
                assert(self@.orders =~= before.orders.insert(id, after));
                assert(self@ =~= (ExchangeView { orders: self@.orders, ..start }));
            }
            i = i + 1;
        }
        proof {
            let target = start.l3_updated(*update).orders;
            assert forall|id: u64| #[trigger] start.orders.contains_key(id) implies self@.orders[id]
                == target[id] by {
                assert(ids@.contains(id));
                let j = choose|j: int| 0 <= j < ids@.len() && ids@[j] == id;
                assert(self@.orders[ids@[j]] == shifted_order(
                    start.model,
                    start.orders[ids@[j]],
                    *update,
                ));
            }
            assert(self@.orders =~= target);
        }
        let r: Result<(), &'static str> = match &mut self.book_l3 {
            Some(l3) => l3.apply_l3(update),
            None => Err("exchange is not in L3 depth mode"),
        };
        proof {
            assert(self@ =~= start.l3_updated(*update));
            assert forall|id: u64| #[trigger] self@.orders.contains_key(id) implies self@.orders[id].filled_qty
                == start.orders[id].filled_qty && self@.orders[id].remaining_qty
                == start.orders[id].remaining_qty by {
                assert(start.orders.contains_key(id));
            }
        }
        r
    }
}

/// Removes the first occurrence of an identifier from a list.
fn drop_first_occurrence(ids: &mut OrderIds, id: u64)
    ensures
        final(ids)@ == old(ids)@.remove_value(id),
{
    let ghost all = ids@;
    let n: usize = ids_len(ids);
    let mut i: usize = 0;
    while i < n
        invariant
            i <= n == all.len(),
            ids@ == all,
            all == old(ids)@,
            forall|j: int| 0 <= j < i ==> all[j] != id,
        decreases n - i,
    {
        if ids_at(ids, i) == id {
            proof {
                all.index_of_first_ensures(id);
                assert(all.contains(id));
                let first = all.index_of_first(id).unwrap();
                assert(first == i);
            }
            ids_remove(ids, i);
            return ;
        }
        i = i + 1;
    }
    proof {
        all.index_of_first_ensures(id);
    }
}

} // verus!
