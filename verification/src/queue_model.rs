//! Queue models: when does market volume reach a resting order.
use std::collections::VecDeque;
use vstd::prelude::*;

use crate::math::{clamp_i64, sat_add, sat_sub, within};
use crate::orderbook_l2::{DepthAt, MarketDepth};
use crate::orderbook_l3::{
    drop_entries, find_entry, is_queued, lemma_entries_ahead_range, plain_total, replace_qty,
    running_total, total_qty, with_qty, without, L3_DELETE, L3_MODIFY,
};
use crate::types::{L3Update, Order, Side, Tick};

verus! {

/// Queue model for simulating passive fill probability / queue position.
///
/// The executable methods are pinned down by the spec functions of the trait:
/// a model is a function from its own value, the order's place in the queue and
/// the market event to the new place and the quantity filled.
pub trait QueueModel: Sized {
    /// What the model keeps for each resting order.
    type State;

    /// The mathematical value of a `State`.
    type Place;

    spec fn place(state: Self::State) -> Self::Place;

    /// The model and the place of an order that arrives at this depth.
    spec fn registered(self, order: Order, depth: DepthAt) -> (Self, Self::Place);

    /// The model, the place and the filled quantity after a market trade.
    spec fn traded(self, order: Order, remaining: i64, trade: Tick, place: Self::Place) -> (
        Self,
        Self::Place,
        i64,
    );

    /// The place after a venue order changed.
    spec fn shifted(self, order: Order, place: Self::Place, update: L3Update) -> Self::Place;

    /// A trade fills no negative quantity and no more than what remains.
    proof fn fill_within_remaining(
        self,
        order: Order,
        remaining: i64,
        trade: Tick,
        place: Self::Place,
    )
        ensures
            0 <= self.traded(order, remaining, trade, place).2,
            self.traded(order, remaining, trade, place).2 <= remaining || self.traded(
                order,
                remaining,
                trade,
                place,
            ).2 == 0,
    ;

    fn register_order<D: MarketDepth>(&mut self, order: &Order, book: &D) -> (state: Self::State)
        ensures
            (*final(self), Self::place(state)) == old(self).registered(
                *order,
                book.depth_at(order.side, order.price, order.order_id),
            ),
    ;

    fn check_fill(
        &mut self,
        order: &Order,
        remaining_qty: i64,
        trade: &Tick,
        state: &mut Self::State,
    ) -> (fill: i64)
        ensures
            (*final(self), Self::place(*final(state)), fill) == old(self).traded(
                *order,
                remaining_qty,
                *trade,
                Self::place(*old(state)),
            ),
    ;

    fn on_l3_update(&self, order: &Order, state: &mut Self::State, update: &L3Update)
        ensures
            Self::place(*final(state)) == self.shifted(*order, Self::place(*old(state)), *update),
    ;
}

/// A trade of one side takes resting orders of the other.
pub open spec fn is_against(order: Side, trade: Side) -> bool {
    (order is Buy && trade is Sell) || (order is Sell && trade is Buy)
}

/// Whether a trade brings volume to the price level where the order rests.
pub open spec fn hits_level(order: Order, trade: Tick) -> bool {
    &&& trade.symbol_id == order.symbol_id
    &&& trade.price == order.price
    &&& trade.qty > 0
    &&& is_against(order.side, trade.side)
}

fn volume_reaches(order: &Order, remaining_qty: i64, trade: &Tick) -> (r: bool)
    ensures
        r == (remaining_qty > 0 && hits_level(*order, *trade)),
{
    let against: bool = match order.side {
        Side::Buy => matches!(trade.side, Side::Sell),
        Side::Sell => matches!(trade.side, Side::Buy),
        Side::NoSide => false,
    };
    remaining_qty > 0 && trade.symbol_id == order.symbol_id && trade.price == order.price
        && trade.qty > 0 && against
}

/// Queue model that never fills (useful for tests that only care about state transitions).
#[derive(Debug, Default, Clone, Copy)]
pub struct NoopQueue;

impl QueueModel for NoopQueue {
    type State = ();

    type Place = ();

    open spec fn place(state: ()) -> () {
        state
    }

    open spec fn registered(self, order: Order, depth: DepthAt) -> (Self, ()) {
        (self, ())
    }

    open spec fn traded(self, order: Order, remaining: i64, trade: Tick, place: ()) -> (
        Self,
        (),
        i64,
    ) {
        (self, (), 0)
    }

    open spec fn shifted(self, order: Order, place: (), update: L3Update) -> () {
        ()
    }

    proof fn fill_within_remaining(self, order: Order, remaining: i64, trade: Tick, place: ()) {
    }

    fn register_order<D: MarketDepth>(&mut self, order: &Order, book: &D) -> (state: ()) {
    }

    fn check_fill(
        &mut self,
        order: &Order,
        remaining_qty: i64,
        trade: &Tick,
        state: &mut (),
    ) -> (fill: i64) {
        0
    }

    fn on_l3_update(&self, order: &Order, state: &mut (), update: &L3Update) {
    }
}

/// Conservative queue model: treat the user as last in queue at their price level.
///
/// - The visible level quantity at order entry is the "qty ahead".
/// - Each market trade at that price against the order side depletes `qty_ahead` first.
/// - Only the remaining trade volume can fill the user order.
#[derive(Debug, Default, Clone, Copy)]
pub struct ConservativeQueue;

#[derive(Debug, Clone, Copy, PartialEq, Eq, Structural)]
pub struct ConservativeQueueState {
    pub qty_ahead: i64,
}

/// How much of the queue ahead a traded volume takes.
pub open spec fn taken_ahead(qty_ahead: i64, volume: i64) -> int {
    if qty_ahead <= 0 {
        0
    } else if qty_ahead < volume {
        qty_ahead as int
    } else {
        volume as int
    }
}

/// What a traded volume leaves for the order behind a queue, at most `remaining`.
pub open spec fn left_for_order(qty_ahead: i64, volume: i64, remaining: i64) -> i64 {
    let past = volume - taken_ahead(qty_ahead, volume);
    if past < remaining {
        past as i64
    } else {
        remaining
    }
}

impl QueueModel for ConservativeQueue {
    type State = ConservativeQueueState;

    type Place = ConservativeQueueState;

    open spec fn place(state: ConservativeQueueState) -> ConservativeQueueState {
        state
    }

    open spec fn registered(self, order: Order, depth: DepthAt) -> (Self, ConservativeQueueState) {
        (self, ConservativeQueueState { qty_ahead: depth.level_qty })
    }

    open spec fn traded(
        self,
        order: Order,
        remaining: i64,
        trade: Tick,
        place: ConservativeQueueState,
    ) -> (Self, ConservativeQueueState, i64) {
        if remaining > 0 && hits_level(order, trade) {
            let rest = place.qty_ahead - taken_ahead(place.qty_ahead, trade.qty);
            (
                self,
                ConservativeQueueState { qty_ahead: rest as i64 },
                left_for_order(place.qty_ahead, trade.qty, remaining),
            )
        } else {
            (self, place, 0)
        }
    }

    open spec fn shifted(
        self,
        order: Order,
        place: ConservativeQueueState,
        update: L3Update,
    ) -> ConservativeQueueState {
        place
    }

    proof fn fill_within_remaining(
        self,
        order: Order,
        remaining: i64,
        trade: Tick,
        place: ConservativeQueueState,
    ) {
    }

    fn register_order<D: MarketDepth>(&mut self, order: &Order, book: &D) -> (state:
        ConservativeQueueState) {
        let qty_ahead: i64 = book.level_qty(order.side, order.price);
        assert(qty_ahead == book.depth_at(order.side, order.price, order.order_id).level_qty);
        ConservativeQueueState { qty_ahead }
    }

    fn check_fill(
        &mut self,
        order: &Order,
        remaining_qty: i64,
        trade: &Tick,
        state: &mut ConservativeQueueState,
    ) -> (fill: i64) {
        if !volume_reaches(order, remaining_qty, trade) {
            return 0;
        }
        let mut available: i64 = trade.qty;
        if state.qty_ahead > 0 {
            let d: i64 = if state.qty_ahead < available {
                state.qty_ahead
            } else {
                available
            };
            state.qty_ahead = state.qty_ahead - d;
            available = available - d;
        }
        if available < remaining_qty {
            available
        } else {
            remaining_qty
        }
    }

    fn on_l3_update(&self, order: &Order, state: &mut ConservativeQueueState, update: &L3Update) {
    }
}

/// Volume-clock queue model:
/// - The visible quantity at entry is the "queue position" in base units.
/// - Cumulative aggressive trade volume at the order price against the order side is tracked.
/// - Only volume *past* `queue_pos` can fill the user order.
#[derive(Debug, Default, Clone, Copy)]
pub struct VolumeClockQueue;

#[derive(Debug, Clone, Copy, PartialEq, Eq, Structural)]
pub struct VolumeClockQueueState {
    pub queue_pos: i64,
    pub cum_volume: i64,
    pub claimed: i64,
}

impl QueueModel for VolumeClockQueue {
    type State = VolumeClockQueueState;

    type Place = VolumeClockQueueState;

    open spec fn place(state: VolumeClockQueueState) -> VolumeClockQueueState {
        state
    }

    open spec fn registered(self, order: Order, depth: DepthAt) -> (Self, VolumeClockQueueState) {
        (
            self,
            VolumeClockQueueState { queue_pos: depth.level_qty, cum_volume: 0, claimed: 0 },
        )
    }

    open spec fn traded(
        self,
        order: Order,
        remaining: i64,
        trade: Tick,
        place: VolumeClockQueueState,
    ) -> (Self, VolumeClockQueueState, i64) {
        if remaining > 0 && hits_level(order, trade) {
            let cum_volume = clamp_i64(place.cum_volume + trade.qty);
            let past = clamp_i64(cum_volume - place.queue_pos);
            let fill = if past <= place.claimed {
                0
            } else if past - place.claimed < remaining {
                (past - place.claimed) as i64
            } else {
                remaining
            };
            (
                self,
                VolumeClockQueueState {
                    queue_pos: place.queue_pos,
                    cum_volume,
                    claimed: clamp_i64(place.claimed + fill),
                },
                fill,
            )
        } else {
            (self, place, 0)
        }
    }

    open spec fn shifted(
        self,
        order: Order,
        place: VolumeClockQueueState,
        update: L3Update,
    ) -> VolumeClockQueueState {
        place
    }

    proof fn fill_within_remaining(
        self,
        order: Order,
        remaining: i64,
        trade: Tick,
        place: VolumeClockQueueState,
    ) {
    }

    fn register_order<D: MarketDepth>(&mut self, order: &Order, book: &D) -> (state:
        VolumeClockQueueState) {
        let queue_pos: i64 = book.level_qty(order.side, order.price);
        assert(queue_pos == book.depth_at(order.side, order.price, order.order_id).level_qty);
        VolumeClockQueueState { queue_pos, cum_volume: 0, claimed: 0 }
    }

    fn check_fill(
        &mut self,
        order: &Order,
        remaining_qty: i64,
        trade: &Tick,
        state: &mut VolumeClockQueueState,
    ) -> (fill: i64) {
        if !volume_reaches(order, remaining_qty, trade) {
            return 0;
        }
        state.cum_volume = sat_add(state.cum_volume, trade.qty);
        // Only volume strictly past the queue ahead can fill the user.
        let past: i64 = sat_sub(state.cum_volume, state.queue_pos);
        if past <= state.claimed {
            return 0;
        }
        let available: i64 = sat_sub(past, state.claimed);
        let fill: i64 = if available < remaining_qty {
            available
        } else {
            remaining_qty
        };
        state.claimed = sat_add(state.claimed, fill);
        fill
    }

    fn on_l3_update(&self, order: &Order, state: &mut VolumeClockQueueState, update: &L3Update) {
    }
}

/// Exact queue model on order-by-order depth: the venue orders ahead at entry are
/// known one by one, trades take them first in first out, and a venue order that
/// shrinks or leaves moves the user up.
#[derive(Debug, Default, Clone, Copy)]
pub struct L3ExactQueue;

#[derive(Debug, Clone)]
pub struct L3ExactQueueState {
    /// Quantity ahead of the user.
    pub qty_ahead: i64,
    /// The venue orders ahead of the user, first in the queue first.
    pub orders_ahead: VecDeque<(u64, i64)>,
}

/// The mathematical value of an `L3ExactQueueState`.
#[verifier::ext_equal]
pub struct ExactPlace {
    pub qty_ahead: i64,
    pub orders_ahead: Seq<(u64, i64)>,
}

/// What is left of a queue after `volume` was taken from its front.
pub open spec fn taken_from_front(queue: Seq<(u64, i64)>, volume: int) -> Seq<(u64, i64)>
    decreases queue.len(),
{
    if queue.len() == 0 || volume <= 0 {
        queue
    } else if queue[0].1 <= volume {
        taken_from_front(
            queue.drop_first(),
            if queue[0].1 > 0 {
                volume - queue[0].1
            } else {
                volume
            },
        )
    } else {
        queue.update(0, (queue[0].0, (queue[0].1 - volume) as i64))
    }
}

impl L3ExactQueueState {
    pub open spec fn value(self) -> ExactPlace {
        ExactPlace { qty_ahead: self.qty_ahead, orders_ahead: self.orders_ahead@ }
    }
}

/// Takes `volume` from the front of a queue.
fn take_from_front(queue: &VecDeque<(u64, i64)>, volume: i64) -> (r: VecDeque<(u64, i64)>)
    ensures
        r@ == taken_from_front(queue@, volume as int),
{
    let mut rest: i64 = volume;
    let mut i: usize = 0;
    let ghost all = queue@;
    assert(all.skip(0) =~= all);
    while i < queue.len() && rest > 0 && queue[i].1 <= rest
        invariant
            i <= queue@.len(),
            all == queue@,
            taken_from_front(all.skip(i as int), rest as int) == taken_from_front(
                all,
                volume as int,
            ),
        decreases queue@.len() - i,
    {
        proof {
            assert(all.skip(i as int).drop_first() =~= all.skip(i + 1));
            assert(all.skip(i as int)[0] == all[i as int]);
        }
        if queue[i].1 > 0 {
            rest = rest - queue[i].1;
        }
        i = i + 1;
    }
    let mut r: VecDeque<(u64, i64)> = VecDeque::new();
    let start: usize = i;
    let ghost tail = taken_from_front(all.skip(i as int), rest as int);
    while i < queue.len()
        invariant
            start <= i <= queue@.len(),
            all == queue@,
            r@.len() == i - start,
            rest > 0 && start < queue@.len() ==> all[start as int].1 > rest,
            forall|j: int|
                0 <= j < r@.len() ==> #[trigger] r@[j] == if j == 0 && rest > 0 {
                    (all[start as int].0, (all[start as int].1 - rest) as i64)
                } else {
                    all[start + j]
                },
        decreases queue@.len() - i,
    {
        if i == start && rest > 0 {
            r.push_back((queue[i].0, queue[i].1 - rest));
        } else {
            r.push_back(queue[i]);
        }
        i = i + 1;
    }
    proof {
        let skipped = all.skip(start as int);
        if skipped.len() > 0 {
            assert(skipped[0] == all[start as int]);
        }
        assert(r@ =~= taken_from_front(skipped, rest as int));
    }
    r
}

impl QueueModel for L3ExactQueue {
    type State = L3ExactQueueState;

    type Place = ExactPlace;

    open spec fn place(state: L3ExactQueueState) -> ExactPlace {
        state.value()
    }

    open spec fn registered(self, order: Order, depth: DepthAt) -> (Self, ExactPlace) {
        (self, ExactPlace { qty_ahead: depth.qty_ahead, orders_ahead: depth.orders_ahead })
    }

    open spec fn traded(self, order: Order, remaining: i64, trade: Tick, place: ExactPlace) -> (
        Self,
        ExactPlace,
        i64,
    ) {
        if remaining > 0 && hits_level(order, trade) {
            let taken = taken_ahead(place.qty_ahead, trade.qty);
            (
                self,
                ExactPlace {
                    qty_ahead: (place.qty_ahead - taken) as i64,
                    orders_ahead: taken_from_front(place.orders_ahead, taken),
                },
                left_for_order(place.qty_ahead, trade.qty, remaining),
            )
        } else {
            (self, place, 0)
        }
    }

    open spec fn shifted(self, order: Order, place: ExactPlace, update: L3Update) -> ExactPlace {
        if update.symbol_id != order.symbol_id || update.side != order.side || update.price
            != order.price || !is_queued(place.orders_ahead, update.order_id) {
            place
        } else if update.action == L3_MODIFY {
            let rest = with_qty(place.orders_ahead, update.order_id, update.qty);
            ExactPlace { qty_ahead: running_total(rest), orders_ahead: rest }
        } else if update.action == L3_DELETE {
            let rest = without(place.orders_ahead, update.order_id);
            ExactPlace { qty_ahead: running_total(rest), orders_ahead: rest }
        } else {
            place
        }
    }

    proof fn fill_within_remaining(
        self,
        order: Order,
        remaining: i64,
        trade: Tick,
        place: ExactPlace,
    ) {
    }

    fn register_order<D: MarketDepth>(&mut self, order: &Order, book: &D) -> (state:
        L3ExactQueueState) {
        L3ExactQueueState {
            qty_ahead: book.qty_ahead(order.side, order.price, order.order_id),
            orders_ahead: book.orders_ahead(order.side, order.price, order.order_id),
        }
    }

    fn check_fill(
        &mut self,
        order: &Order,
        remaining_qty: i64,
        trade: &Tick,
        state: &mut L3ExactQueueState,
    ) -> (fill: i64) {
        if !volume_reaches(order, remaining_qty, trade) {
            return 0;
        }
        let mut available: i64 = trade.qty;
        if state.qty_ahead > 0 {
            let d: i64 = if state.qty_ahead < available {
                state.qty_ahead
            } else {
                available
            };
            state.qty_ahead = state.qty_ahead - d;
            state.orders_ahead = take_from_front(&state.orders_ahead, d);
            available = available - d;
        }
        if available < remaining_qty {
            available
        } else {
            remaining_qty
        }
    }

    fn on_l3_update(&self, order: &Order, state: &mut L3ExactQueueState, update: &L3Update) {
        if update.symbol_id != order.symbol_id || update.side != order.side || update.price
            != order.price {
            return;
        }
        let i: usize = find_entry(&state.orders_ahead, update.order_id);
        proof {
            lemma_entries_ahead_range(state.orders_ahead@, update.order_id);
        }
        if i == state.orders_ahead.len() {
            return;
        }
        if update.action == L3_MODIFY {
            replace_qty(&mut state.orders_ahead, i, update.order_id, update.qty);
            state.qty_ahead = total_qty(&state.orders_ahead);
        } else if update.action == L3_DELETE {
            let rest = drop_entries(&state.orders_ahead, update.order_id);
            state.qty_ahead = total_qty(&rest);
            state.orders_ahead = rest;
        }
    }
}

/// The model, the place and the total filled of an order of quantity `qty` after a
/// sequence of market trades.
pub open spec fn after_trades<Q: QueueModel>(
    model: Q,
    order: Order,
    qty: i64,
    place: Q::Place,
    trades: Seq<Tick>,
) -> (Q, Q::Place, int)
    decreases trades.len(),
{
    if trades.len() == 0 {
        (model, place, 0)
    } else {
        let (m, p, filled) = after_trades(model, order, qty, place, trades.drop_last());
        let (m2, p2, fill) = m.traded(order, (qty - filled) as i64, trades.last(), p);
        (m2, p2, filled + fill)
    }
}

/// The volume that a sequence of trades brings to the order's price level: that of the
/// trades in its symbol, at its price and of the other side.
pub open spec fn volume_at_level(order: Order, trades: Seq<Tick>) -> int
    decreases trades.len(),
{
    if trades.len() == 0 {
        0
    } else {
        let trade = trades.last();
        let opposite = (order.side is Buy && trade.side is Sell) || (order.side is Sell
            && trade.side is Buy);
        volume_at_level(order, trades.drop_last()) + if opposite && trade.price == order.price
            && trade.symbol_id == order.symbol_id && trade.qty > 0 {
            trade.qty as int
        } else {
            0
        }
    }
}

/// Whatever the model, trades never fill more than the quantity of the order.
pub proof fn law_trades_fill_at_most_qty<Q: QueueModel>(
    model: Q,
    order: Order,
    qty: i64,
    place: Q::Place,
    trades: Seq<Tick>,
)
    requires
        qty >= 0,
    ensures
        0 <= after_trades(model, order, qty, place, trades).2 <= qty,
    decreases trades.len(),
{
    if trades.len() > 0 {
        law_trades_fill_at_most_qty(model, order, qty, place, trades.drop_last());
        let (m, p, filled) = after_trades(model, order, qty, place, trades.drop_last());
        m.fill_within_remaining(order, (qty - filled) as i64, trades.last(), p);
    }
}

/// The user is last in the queue: with a visible quantity of `visible` at entry, a
/// conservative order is filled by exactly the volume that its level trades beyond
/// `visible`, up to its own quantity.
pub proof fn law_conservative_fills_behind_queue(
    order: Order,
    qty: i64,
    visible: i64,
    trades: Seq<Tick>,
)
    requires
        qty >= 0,
        visible >= 0,
    ensures
        after_trades(
            ConservativeQueue,
            order,
            qty,
            ConservativeQueueState { qty_ahead: visible },
            trades,
        ).2 == within(volume_at_level(order, trades) - visible, 0, qty as int),
{
    lemma_conservative_run(order, qty, visible, trades);
}

proof fn lemma_conservative_run(order: Order, qty: i64, visible: i64, trades: Seq<Tick>)
    requires
        qty >= 0,
        visible >= 0,
    ensures
        0 <= volume_at_level(order, trades),
        ({
            let v = volume_at_level(order, trades);
            let (m, p, filled) = after_trades(
                ConservativeQueue,
                order,
                qty,
                ConservativeQueueState { qty_ahead: visible },
                trades,
            );
            &&& filled == within(v - visible, 0, qty as int)
            &&& filled < qty ==> p.qty_ahead == within(visible - v, 0, visible as int)
        }),
    decreases trades.len(),
{
    if trades.len() > 0 {
        lemma_conservative_run(order, qty, visible, trades.drop_last());
    }
}

/// The volume clock fills by the same rule: the volume that the level trades beyond
/// the queue position at entry, up to the order's quantity.
pub proof fn law_volume_clock_fills_behind_queue(
    order: Order,
    qty: i64,
    visible: i64,
    trades: Seq<Tick>,
)
    requires
        qty >= 0,
        visible >= 0,
        volume_at_level(order, trades) <= i64::MAX,
    ensures
        after_trades(
            VolumeClockQueue,
            order,
            qty,
            VolumeClockQueueState { queue_pos: visible, cum_volume: 0, claimed: 0 },
            trades,
        ).2 == within(volume_at_level(order, trades) - visible, 0, qty as int),
{
    lemma_volume_clock_run(order, qty, visible, trades);
}

proof fn lemma_volume_clock_run(order: Order, qty: i64, visible: i64, trades: Seq<Tick>)
    requires
        qty >= 0,
        visible >= 0,
        volume_at_level(order, trades) <= i64::MAX,
    ensures
        0 <= volume_at_level(order, trades),
        ({
            let v = volume_at_level(order, trades);
            let (m, p, filled) = after_trades(
                VolumeClockQueue,
                order,
                qty,
                VolumeClockQueueState { queue_pos: visible, cum_volume: 0, claimed: 0 },
                trades,
            );
            &&& filled == within(v - visible, 0, qty as int)
            &&& filled < qty ==> p == (VolumeClockQueueState {
                queue_pos: visible,
                cum_volume: v as i64,
                claimed: filled as i64,
            })
        }),
    decreases trades.len(),
{
    if trades.len() > 0 {
        lemma_conservative_run(order, qty, visible, trades.drop_last());
        lemma_volume_clock_run(order, qty, visible, trades.drop_last());
    }
}

/// Of two orders at the same level, the one with less ahead of it is filled no less:
/// exact knowledge of the queue never does worse than the conservative assumption.
pub proof fn law_less_ahead_fills_no_less(
    order: Order,
    remaining: i64,
    trade: Tick,
    exact: ExactPlace,
    conservative: ConservativeQueueState,
)
    requires
        exact.qty_ahead <= conservative.qty_ahead,
    ensures
        L3ExactQueue.traded(order, remaining, trade, exact).2 >= ConservativeQueue.traded(
            order,
            remaining,
            trade,
            conservative,
        ).2,
{
}

/// Whether the quantity ahead is the sum of the venue orders ahead, none negative.
pub open spec fn is_exact(place: ExactPlace) -> bool {
    &&& forall|i: int| 0 <= i < place.orders_ahead.len() ==> 0 <= (#[trigger] place.orders_ahead[i]).1
    &&& place.qty_ahead == plain_total(place.orders_ahead)
}

proof fn lemma_total_from_front(queue: Seq<(u64, i64)>)
    requires
        queue.len() > 0,
    ensures
        plain_total(queue) == queue[0].1 + plain_total(queue.drop_first()),
    decreases queue.len(),
{
    if queue.len() > 1 {
        let front = queue.drop_last();
        lemma_total_from_front(front);
        assert(front.drop_first() =~= queue.drop_first().drop_last());
        assert(queue.drop_first().last() == queue.last());
    } else {
        assert(queue.drop_last() =~= Seq::empty());
        assert(queue.drop_first() =~= Seq::empty());
        assert(plain_total(queue.drop_last()) == 0);
        assert(plain_total(queue.drop_first()) == 0);
    }
}

proof fn lemma_taken_from_front_total(queue: Seq<(u64, i64)>, volume: int)
    requires
        forall|i: int| 0 <= i < queue.len() ==> 0 <= (#[trigger] queue[i]).1,
        0 <= volume <= plain_total(queue),
    ensures
        plain_total(taken_from_front(queue, volume)) == plain_total(queue) - volume,
        forall|i: int|
            0 <= i < taken_from_front(queue, volume).len() ==> 0 <= (#[trigger] taken_from_front(
                queue,
                volume,
            )[i]).1,
    decreases queue.len(),
{
    if queue.len() > 0 && volume > 0 {
        lemma_total_from_front(queue);
        let rest = queue.drop_first();
        assert forall|i: int| 0 <= i < rest.len() implies 0 <= (#[trigger] rest[i]).1 by {
            assert(rest[i] == queue[i + 1]);
        }
        if queue[0].1 <= volume {
            lemma_taken_from_front_total(rest, volume - queue[0].1);
        } else {
            let after = taken_from_front(queue, volume);
            lemma_total_from_front(after);
            assert(after.drop_first() =~= rest);
        }
    }
}

/// The exact model stays exact: a trade takes as much from the orders ahead as from
/// the quantity ahead, and after a venue order ahead changed, the quantity is again
/// the sum of the orders (up to the largest `i64`).
pub proof fn law_exact_place_stays_exact(
    order: Order,
    remaining: i64,
    trade: Tick,
    update: L3Update,
    place: ExactPlace,
)
    requires
        is_exact(place),
        update.qty >= 0,
    ensures
        is_exact(L3ExactQueue.traded(order, remaining, trade, place).1),
        ({
            let moved = L3ExactQueue.shifted(order, place, update);
            moved.qty_ahead == clamp_i64(plain_total(moved.orders_ahead))
        }),
{
    let taken = taken_ahead(place.qty_ahead, trade.qty);
    crate::orderbook_l3::law_l3_total_is_sum(place.orders_ahead);
    if remaining > 0 && hits_level(order, trade) {
        lemma_taken_from_front_total(place.orders_ahead, taken);
    }
    let moved = L3ExactQueue.shifted(order, place, update);
    assert forall|i: int| 0 <= i < moved.orders_ahead.len() implies 0
        <= (#[trigger] moved.orders_ahead[i]).1 by {
        if update.action == L3_DELETE && moved.orders_ahead != place.orders_ahead {
            lemma_without_is_part(place.orders_ahead, update.order_id, i);
        }
    }
    crate::orderbook_l3::law_l3_total_is_sum(moved.orders_ahead);
}

proof fn lemma_without_is_part(queue: Seq<(u64, i64)>, order_id: u64, i: int)
    requires
        0 <= i < without(queue, order_id).len(),
    ensures
        exists|j: int|
            0 <= j < queue.len() && #[trigger] queue[j] == without(queue, order_id)[i],
    decreases queue.len(),
{
    reveal(Seq::filter);
    if queue.len() > 0 {
        let front = queue.drop_last();
        let kept = without(front, order_id);
        if i < kept.len() {
            lemma_without_is_part(front, order_id, i);
            let j = choose|j: int| 0 <= j < front.len() && #[trigger] front[j] == kept[i];
            assert(queue[j] == without(queue, order_id)[i]);
        } else {
            assert(queue[queue.len() - 1] == without(queue, order_id)[i]);
        }
    }
}

/// Where an order joins the queue: behind all that the book shows at its price and on its
/// side, with nothing traded yet; the exact model behind the venue orders that are ahead.
pub proof fn law_order_joins_behind_visible_quantity(order: Order, depth: DepthAt)
    ensures
        ConservativeQueue.registered(order, depth).1.qty_ahead == depth.level_qty,
        VolumeClockQueue.registered(order, depth).1.queue_pos == depth.level_qty,
        VolumeClockQueue.registered(order, depth).1.cum_volume == 0,
        VolumeClockQueue.registered(order, depth).1.claimed == 0,
        L3ExactQueue.registered(order, depth).1.qty_ahead == depth.qty_ahead,
        L3ExactQueue.registered(order, depth).1.orders_ahead == depth.orders_ahead,
{
}

/// The exact model fills by the volume that the level trades beyond what is ahead, up to the
/// order's quantity, as long as no venue order changes.
pub proof fn law_exact_fills_behind_queue(
    order: Order,
    qty: i64,
    place: ExactPlace,
    trades: Seq<Tick>,
)
    requires
        qty >= 0,
        place.qty_ahead >= 0,
    ensures
        after_trades(L3ExactQueue, order, qty, place, trades).2 == within(
            volume_at_level(order, trades) - place.qty_ahead,
            0,
            qty as int,
        ),
{
    lemma_exact_run(order, qty, place, trades);
}

proof fn lemma_exact_run(order: Order, qty: i64, place: ExactPlace, trades: Seq<Tick>)
    requires
        qty >= 0,
        place.qty_ahead >= 0,
    ensures
        0 <= volume_at_level(order, trades),
        ({
            let v = volume_at_level(order, trades);
            let (m, p, filled) = after_trades(L3ExactQueue, order, qty, place, trades);
            &&& filled == within(v - place.qty_ahead, 0, qty as int)
            &&& filled < qty ==> p.qty_ahead == within(
                place.qty_ahead - v,
                0,
                place.qty_ahead as int,
            )
        }),
    decreases trades.len(),
{
    if trades.len() > 0 {
        lemma_exact_run(order, qty, place, trades.drop_last());
    }
}

/// The model without a queue never fills.
pub proof fn law_noop_never_fills(order: Order, qty: i64, trades: Seq<Tick>)
    ensures
        after_trades(NoopQueue, order, qty, (), trades).2 == 0,
    decreases trades.len(),
{
    if trades.len() > 0 {
        law_noop_never_fills(order, qty, trades.drop_last());
    }
}

/// Trades take the venue orders ahead from the front: those behind keep quantity and place,
/// and of the first that is left a part may be gone.
pub proof fn law_front_of_the_queue_trades_first(queue: Seq<(u64, i64)>, volume: int)
    requires
        forall|i: int| 0 <= i < queue.len() ==> 0 < (#[trigger] queue[i]).1,
        0 <= volume,
    ensures
        ({
            let rest = taken_from_front(queue, volume);
            let gone = queue.len() - rest.len();
            &&& 0 <= gone
            &&& forall|i: int| 0 < i < rest.len() ==> #[trigger] rest[i] == queue[gone + i]
            &&& rest.len() > 0 ==> rest[0].0 == queue[gone].0 && 0 < rest[0].1 <= queue[gone].1
            &&& plain_total(rest) == if volume < plain_total(queue) {
                plain_total(queue) - volume
            } else {
                0
            }
        }),
    decreases queue.len(),
{
    let rest = taken_from_front(queue, volume);
    lemma_total_of_positive(queue);
    if queue.len() > 0 && volume > 0 {
        lemma_total_from_front(queue);
        let tail = queue.drop_first();
        assert forall|i: int| 0 <= i < tail.len() implies 0 < (#[trigger] tail[i]).1 by {
            assert(tail[i] == queue[i + 1]);
        }
        if queue[0].1 <= volume {
            law_front_of_the_queue_trades_first(tail, volume - queue[0].1);
            let gone = queue.len() - rest.len();
            assert forall|i: int| 0 < i < rest.len() implies #[trigger] rest[i]
                == queue[gone + i] by {
                assert(rest[i] == tail[gone - 1 + i]);
            }
        } else {
            lemma_total_from_front(rest);
            assert(rest.drop_first() =~= tail);
            lemma_total_of_positive(tail);
        }
    }
}

proof fn lemma_total_of_positive(queue: Seq<(u64, i64)>)
    requires
        forall|i: int| 0 <= i < queue.len() ==> 0 < (#[trigger] queue[i]).1,
    ensures
        plain_total(queue) >= 0,
        queue.len() > 0 ==> plain_total(queue) > 0,
    decreases queue.len(),
{
    if queue.len() > 0 {
        let front = queue.drop_last();
        assert forall|i: int| 0 <= i < front.len() implies 0 < (#[trigger] front[i]).1 by {
            assert(front[i] == queue[i]);
        }
        lemma_total_of_positive(front);
        assert(queue[queue.len() - 1].1 > 0);
    }
}

/// A change of a venue order moves the user up or back by that change where the venue order
/// is ahead of the user: the one at `k`, the only one of its identifier. Any other change,
/// of an order at another price, on another side, in another symbol, or not ahead, and any
/// order that arrives, moves nobody.
pub proof fn law_venue_change_moves_the_place(
    order: Order,
    place: ExactPlace,
    update: L3Update,
    k: int,
)
    ensures
        ({
            let moved = L3ExactQueue.shifted(order, place, update);
            let same_level = update.symbol_id == order.symbol_id && update.side == order.side
                && update.price == order.price;
            &&& !same_level ==> moved == place
            &&& update.action == 0x01 ==> moved == place
            &&& (forall|i: int|
                0 <= i < place.orders_ahead.len() ==> (#[trigger] place.orders_ahead[i]).0
                    != update.order_id) ==> moved == place
            &&& is_exact(place) && same_level && 0 <= k < place.orders_ahead.len()
                && is_only(place.orders_ahead, update.order_id, k) ==> {
                &&& update.action == 0x03 ==> moved.qty_ahead == place.qty_ahead
                    - place.orders_ahead[k].1
                &&& update.action == 0x02 && 0 <= update.qty && place.qty_ahead
                    - place.orders_ahead[k].1 + update.qty <= i64::MAX ==> moved.qty_ahead
                    == place.qty_ahead - place.orders_ahead[k].1 + update.qty
            }
        }),
{
    let queue = place.orders_ahead;
    let id = update.order_id;
    let same_level = update.symbol_id == order.symbol_id && update.side == order.side
        && update.price == order.price;
    if is_exact(place) && same_level && 0 <= k < queue.len() && is_only(queue, id, k) {
        assert(queue[k].0 == id);
        assert(is_queued(queue, id));
        lemma_entries_ahead_range(queue, id);
        crate::orderbook_l3::lemma_entries_ahead(queue, id, k);
        if update.action == 0x03 {
            lemma_without_one(queue, id, k);
            let rest = without(queue, id);
            assert(rest =~= queue.remove(k));
            lemma_total_without(queue, k);
            assert forall|i: int| 0 <= i < rest.len() implies 0 <= (#[trigger] rest[i]).1 by {
                if i < k {
                    assert(rest[i] == queue[i]);
                } else {
                    assert(rest[i] == queue[i + 1]);
                }
            }
            crate::orderbook_l3::law_l3_total_is_sum(rest);
            assert(queue[k].1 >= 0);
        }
        if update.action == 0x02 && 0 <= update.qty {
            let rest = with_qty(queue, id, update.qty);
            assert(rest =~= queue.update(k, (id, update.qty)));
            lemma_total_without(queue, k);
            lemma_total_without(rest, k);
            assert(rest.remove(k) =~= queue.remove(k));
            assert forall|i: int| 0 <= i < rest.len() implies 0 <= (#[trigger] rest[i]).1 by {
                if i != k {
                    assert(rest[i] == queue[i]);
                }
            }
            crate::orderbook_l3::law_l3_total_is_sum(rest);
        }
    }
}

/// Whether the entry at `k` is the only one of an identifier.
pub open spec fn is_only(queue: Seq<(u64, i64)>, order_id: u64, k: int) -> bool {
    forall|i: int|
        0 <= i < queue.len() ==> (((#[trigger] queue[i]).0 == order_id) <==> (i == k))
}

proof fn lemma_total_without(queue: Seq<(u64, i64)>, k: int)
    requires
        0 <= k < queue.len(),
    ensures
        plain_total(queue.remove(k)) == plain_total(queue) - queue[k].1,
    decreases queue.len(),
{
    let front = queue.drop_last();
    if k < queue.len() - 1 {
        lemma_total_without(front, k);
        assert(queue.remove(k).drop_last() =~= front.remove(k));
        assert(queue.remove(k).last() == queue.last());
    } else {
        assert(queue.remove(k) =~= front);
    }
}

proof fn lemma_without_one(queue: Seq<(u64, i64)>, order_id: u64, k: int)
    requires
        0 <= k < queue.len(),
        is_only(queue, order_id, k),
    ensures
        without(queue, order_id) =~= queue.remove(k),
    decreases queue.len(),
{
    reveal(Seq::filter);
    let front = queue.drop_last();
    if k < queue.len() - 1 {
        assert(is_only(front, order_id, k)) by {
            assert forall|i: int| 0 <= i < front.len() implies (((#[trigger] front[i]).0
                == order_id) <==> (i == k)) by {
                assert(front[i] == queue[i]);
            }
        }
        lemma_without_one(front, order_id, k);
        assert(queue[queue.len() - 1].0 != order_id);
    } else {
        assert forall|i: int| 0 <= i < front.len() implies (#[trigger] front[i]).0
            != order_id by {
            assert(front[i] == queue[i]);
        }
        crate::orderbook_l3::lemma_without_nothing(front, order_id);
        assert(queue[k].0 == order_id);
    }
}

} // verus!
