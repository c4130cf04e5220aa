//! What holds of the simulated exchange over all its operations.
use vstd::prelude::*;

use crate::exchange_simulator::{maker_side, shifted_order, ExchangeView, LiveView};
use crate::math::within;
use crate::orderbook_l2::{is_highest, is_lowest};
use crate::orderbook_l3::{
    law_l3_total_is_sum, law_l3_unknown_order_sees_level, plain_total, running_total,
};
use crate::queue_model::{
    after_trades, law_conservative_fills_behind_queue, law_exact_fills_behind_queue,
    law_volume_clock_fills_behind_queue, volume_at_level, ConservativeQueue, L3ExactQueue,
    QueueModel, VolumeClockQueue,
};
use crate::types::{L2Update, L3Update, Order, OrderReport, OrderState, Side, Tick};

verus! {

/// Of every order, what is filled and what remains make up its quantity.
pub open spec fn conserved<Q: QueueModel>(v: ExchangeView<Q>) -> bool {
    forall|id: u64| #[trigger]
        v.orders.contains_key(id) ==> v.orders[id].filled_qty + v.orders[id].remaining_qty
            == v.orders[id].order.qty
}

/// The order a market order becomes keeps its quantity together, where the depth it
/// meets is not negative.
pub open spec fn meets_depth<Q: QueueModel>(
    v: ExchangeView<Q>,
    id: u64,
    fallback: Option<i64>,
) -> bool {
    match v.market_price(v.orders[id].order.side, fallback) {
        Some((price, available)) => available >= 0 && v.orders[id].order.qty >= 0,
        None => true,
    }
}

proof fn lemma_traded_one_conserves<Q: QueueModel>(v: ExchangeView<Q>, id: u64, trade: Tick)
    requires
        conserved(v),
    ensures
        conserved(v.traded_one(id, trade).0),
{
    if v.orders.contains_key(id) && v.orders[id].fillable() {
        let o = v.orders[id];
        v.model.fill_within_remaining(o.order, o.remaining_qty, trade, o.place);
    }
}

pub proof fn lemma_traded_conserves<Q: QueueModel>(v: ExchangeView<Q>, ids: Seq<u64>, trade: Tick)
    requires
        conserved(v),
    ensures
        conserved(v.traded(ids, trade).0),
    decreases ids.len(),
{
    if ids.len() > 0 {
        lemma_traded_conserves(v, ids.drop_last(), trade);
        lemma_traded_one_conserves(v.traded(ids.drop_last(), trade).0, ids.last(), trade);
    }
}

/// No operation loses or invents quantity: from a new exchange on, filled and remaining
/// quantity of every order make up the quantity it was submitted with.
pub proof fn law_quantity_is_conserved<Q: QueueModel>(
    v: ExchangeView<Q>,
    order: Order,
    id: u64,
    state: OrderState,
    fallback: Option<i64>,
    l2: L2Update,
    l3: L3Update,
    trade: Tick,
)
    requires
        conserved(v),
    ensures
        conserved(ExchangeView::fresh(v.model, true)),
        conserved(ExchangeView::fresh(v.model, false)),
        conserved(v.submitted(order)),
        v.orders.contains_key(id) ==> conserved(v.with_state(id, state)),
        v.orders.contains_key(id) && meets_depth(v, id, fallback) && v.orders[id].filled_qty == 0
            ==> conserved(v.with_order(id, v.market_filled(id, fallback).0)),
        conserved(v.removed(id)),
        conserved(v.l2_updated(l2)),
        conserved(v.l3_updated(l3)),
        conserved(v.after_trade(trade).0),
{
    lemma_traded_conserves(v, v.bucket(trade.price, maker_side(trade.side)), trade);
    assert(conserved(v.l3_updated(l3))) by {
        let w = v.l3_updated(l3);
        assert forall|k: u64| #[trigger] w.orders.contains_key(k) implies w.orders[k].filled_qty
            + w.orders[k].remaining_qty == w.orders[k].order.qty by {
            assert(v.orders.contains_key(k));
            assert(w.orders[k] == shifted_order(v.model, v.orders[k], l3));
        }
    }
    assert(conserved(v.removed(id))) by {
        assert forall|k: u64| #[trigger] v.removed(id).orders.contains_key(
            k,
        ) implies v.removed(id).orders[k] == v.orders[k] && v.orders.contains_key(k) by {}
    }
}

/// The price index is right: every live order is listed once, under its own price and
/// side, and nothing else is.
pub open spec fn indexed<Q: QueueModel>(v: ExchangeView<Q>) -> bool {
    &&& forall|id: u64| #[trigger]
        v.orders.contains_key(id) ==> {
            let o = v.orders[id].order;
            o.order_id == id && v.bucket(o.price, o.side).contains(id)
        }
    &&& forall|price: i64, side: Side| (#[trigger] v.bucket(price, side)).no_duplicates()
    &&& forall|price: i64, side: Side, id: u64| #[trigger]
        v.bucket(price, side).contains(id) ==> v.orders.contains_key(id)
            && v.orders[id].order.price == price && v.orders[id].order.side == side
}

/// Whether two exchanges hold the same orders up to state, fills and places.
pub open spec fn same_orders<Q: QueueModel>(v: ExchangeView<Q>, w: ExchangeView<Q>) -> bool {
    &&& v.buckets == w.buckets
    &&& v.orders.dom() == w.orders.dom()
    &&& forall|id: u64| #[trigger]
        v.orders.contains_key(id) ==> v.orders[id].order == w.orders[id].order
}

pub proof fn lemma_traded_keeps_orders<Q: QueueModel>(v: ExchangeView<Q>, ids: Seq<u64>, trade: Tick)
    ensures
        same_orders(v, v.traded(ids, trade).0),
        v.traded(ids, trade).0.book == v.book,
        v.traded(ids, trade).0.book_l3 == v.book_l3,
    decreases ids.len(),
{
    if ids.len() > 0 {
        let w = v.traded(ids.drop_last(), trade).0;
        lemma_traded_keeps_orders(v, ids.drop_last(), trade);
        let x = w.traded_one(ids.last(), trade).0;
        assert(x.orders.dom() =~= w.orders.dom());
    }
}

pub proof fn lemma_same_orders_indexed<Q: QueueModel>(v: ExchangeView<Q>, w: ExchangeView<Q>)
    requires
        indexed(v),
        same_orders(v, w),
    ensures
        indexed(w),
{
    assert forall|price: i64, side: Side| #[trigger] w.bucket(price, side) == v.bucket(
        price,
        side,
    ) by {}
    assert forall|id: u64| #[trigger] w.orders.contains_key(id) implies v.orders.contains_key(
        id,
    ) by {
        assert(w.orders.dom().contains(id));
    }
    assert forall|id: u64| #[trigger] v.orders.contains_key(id) implies w.orders.contains_key(
        id,
    ) by {
        assert(v.orders.dom().contains(id));
    }
    assert forall|price: i64, side: Side, id: u64| #[trigger]
        w.bucket(price, side).contains(id) implies w.orders.contains_key(id)
        && w.orders[id].order.price == price && w.orders[id].order.side == side by {
        assert(v.bucket(price, side).contains(id));
    }
}

proof fn lemma_side_code_injective(a: Side, b: Side)
    requires
        a.code() == b.code(),
    ensures
        a == b,
{
}

pub proof fn lemma_submitted_indexed<Q: QueueModel>(v: ExchangeView<Q>, order: Order)
    requires
        indexed(v),
        !v.orders.contains_key(order.order_id),
    ensures
        indexed(v.submitted(order)),
{
    let w = v.submitted(order);
    let old_bucket = v.bucket(order.price, order.side);
    let new_bucket = old_bucket.push(order.order_id);
    assert(!old_bucket.contains(order.order_id));
    assert forall|price: i64, side: Side| #[trigger] w.bucket(price, side) == if price
        == order.price && side == order.side {
        new_bucket
    } else {
        v.bucket(price, side)
    } by {
        if price == order.price && side.code() == order.side.code() {
            lemma_side_code_injective(side, order.side);
        }
    }
    assert forall|price: i64, side: Side| (#[trigger] w.bucket(price, side)).no_duplicates() by {
        assert(v.bucket(price, side).no_duplicates());
        if price == order.price && side == order.side {
            assert forall|i: int, j: int|
                0 <= i < new_bucket.len() && 0 <= j < new_bucket.len() && i
                    != j implies new_bucket[i] != new_bucket[j] by {
                if i < old_bucket.len() && j < old_bucket.len() {
                    assert(old_bucket[i] != old_bucket[j]);
                } else if i < old_bucket.len() {
                    assert(old_bucket.contains(old_bucket[i]));
                } else {
                    assert(old_bucket.contains(old_bucket[j]));
                }
            }
        }
    }
    assert forall|price: i64, side: Side, id: u64| #[trigger]
        w.bucket(price, side).contains(id) implies w.orders.contains_key(id)
        && w.orders[id].order.price == price && w.orders[id].order.side == side by {
        if price == order.price && side == order.side && id != order.order_id {
            let k = choose|k: int| 0 <= k < new_bucket.len() && new_bucket[k] == id;
            assert(old_bucket[k] == id);
            assert(v.bucket(price, side).contains(id));
        } else if price == order.price && side == order.side {
        } else {
            assert(v.bucket(price, side).contains(id));
        }
    }
    assert forall|id: u64| #[trigger] w.orders.contains_key(id) implies w.orders[id].order.order_id
        == id && w.bucket(w.orders[id].order.price, w.orders[id].order.side).contains(id) by {
        if id == order.order_id {
            assert(new_bucket[new_bucket.len() - 1] == id);
        } else {
            let o = v.orders[id].order;
            assert(v.orders.contains_key(id));
            assert(v.bucket(o.price, o.side).contains(id));
            let k = choose|k: int| 0 <= k < v.bucket(o.price, o.side).len() && v.bucket(o.price, o.side)[k] == id;
            assert(w.bucket(o.price, o.side)[k] == id);
        }
    }
}

pub proof fn lemma_removed_indexed<Q: QueueModel>(v: ExchangeView<Q>, id: u64)
    requires
        indexed(v),
    ensures
        indexed(v.removed(id)),
        !v.removed(id).orders.contains_key(id),
{
    if v.orders.contains_key(id) {
        let w = v.removed(id);
        let order = v.orders[id].order;
        let old_bucket = v.bucket(order.price, order.side);
        assert(old_bucket.contains(id));
        assert(v.buckets.contains_key((order.price, order.side.code())));
        old_bucket.index_of_first_ensures(id);
        let at = old_bucket.index_of_first(id).unwrap();
        let new_bucket = old_bucket.remove(at);
        assert(old_bucket.no_duplicates());
        assert forall|price: i64, side: Side| #[trigger] w.bucket(price, side) == if price
            == order.price && side == order.side {
            new_bucket
        } else {
            v.bucket(price, side)
        } by {
            if price == order.price && side.code() == order.side.code() {
                lemma_side_code_injective(side, order.side);
            }
        }
        assert forall|k: u64| new_bucket.contains(k) <==> (old_bucket.contains(k) && k != id) by {
            if new_bucket.contains(k) {
                let i = choose|i: int| 0 <= i < new_bucket.len() && new_bucket[i] == k;
                if i < at {
                    assert(old_bucket[i] == k);
                } else {
                    assert(old_bucket[i + 1] == k);
                }
            }
            if old_bucket.contains(k) && k != id {
                let i = choose|i: int| 0 <= i < old_bucket.len() && old_bucket[i] == k;
                if i < at {
                    assert(new_bucket[i] == k);
                } else {
                    assert(new_bucket[i - 1] == k);
                }
            }
        }
        assert(new_bucket.no_duplicates()) by {
            assert forall|i: int, j: int|
                0 <= i < new_bucket.len() && 0 <= j < new_bucket.len() && i
                    != j implies new_bucket[i] != new_bucket[j] by {
                let i0 = if i < at {
                    i
                } else {
                    i + 1
                };
                let j0 = if j < at {
                    j
                } else {
                    j + 1
                };
                assert(new_bucket[i] == old_bucket[i0]);
                assert(new_bucket[j] == old_bucket[j0]);
            }
        }
        assert forall|price: i64, side: Side| (#[trigger] w.bucket(
            price,
            side,
        )).no_duplicates() by {
            assert(v.bucket(price, side).no_duplicates());
        }
        assert forall|price: i64, side: Side, k: u64| #[trigger]
            w.bucket(price, side).contains(k) implies w.orders.contains_key(k)
            && w.orders[k].order.price == price && w.orders[k].order.side == side by {
            assert(v.bucket(price, side).contains(k));
        }
        assert forall|k: u64| #[trigger] w.orders.contains_key(k) implies w.orders[k].order.order_id
            == k && w.bucket(w.orders[k].order.price, w.orders[k].order.side).contains(k) by {
            assert(v.orders.contains_key(k));
        }
    }
}

/// The price index stays right under every operation, as long as no identifier is
/// submitted while it is live.
pub proof fn law_price_index_stays_right<Q: QueueModel>(
    v: ExchangeView<Q>,
    order: Order,
    id: u64,
    state: OrderState,
    l2: L2Update,
    l3: L3Update,
    trade: Tick,
)
    requires
        indexed(v),
        !v.orders.contains_key(order.order_id),
    ensures
        indexed(ExchangeView::fresh(v.model, true)),
        indexed(ExchangeView::fresh(v.model, false)),
        indexed(v.submitted(order)),
        v.orders.contains_key(id) ==> indexed(v.with_state(id, state)),
        indexed(v.removed(id)),
        indexed(v.l2_updated(l2)),
        indexed(v.l3_updated(l3)),
        indexed(v.after_trade(trade).0),
{
    lemma_submitted_indexed(v, order);
    lemma_removed_indexed(v, id);
    if v.orders.contains_key(id) {
        assert(v.with_state(id, state).orders.dom() =~= v.orders.dom());
        lemma_same_orders_indexed(v, v.with_state(id, state));
    }
    lemma_same_orders_indexed(v, v.l2_updated(l2));
    assert(v.l3_updated(l3).orders.dom() =~= v.orders.dom());
    lemma_same_orders_indexed(v, v.l3_updated(l3));
    lemma_traded_keeps_orders(v, v.bucket(trade.price, maker_side(trade.side)), trade);
    lemma_same_orders_indexed(v, v.after_trade(trade).0);
}

/// Whether no report speaks of the order `id`.
pub open spec fn silent_on(reports: Seq<OrderReport>, id: u64) -> bool {
    forall|i: int| 0 <= i < reports.len() ==> (#[trigger] reports[i]).order_id != id
}

proof fn lemma_traded_silent_on_absent<Q: QueueModel>(
    v: ExchangeView<Q>,
    ids: Seq<u64>,
    trade: Tick,
    id: u64,
)
    requires
        !v.orders.contains_key(id),
        forall|k: u64| #[trigger] v.orders.contains_key(k) ==> v.orders[k].order.order_id == k,
    ensures
        silent_on(v.traded(ids, trade).1, id),
        !v.traded(ids, trade).0.orders.contains_key(id),
        forall|k: u64| #[trigger]
            v.traded(ids, trade).0.orders.contains_key(k) ==> v.traded(
                ids,
                trade,
            ).0.orders[k].order.order_id == k,
    decreases ids.len(),
{
    if ids.len() > 0 {
        lemma_traded_silent_on_absent(v, ids.drop_last(), trade, id);
        let (w, reports) = v.traded(ids.drop_last(), trade);
        let (x, report) = w.traded_one(ids.last(), trade);
        if w.orders.contains_key(ids.last()) {
            assert(w.orders[ids.last()].order.order_id == ids.last());
        }
    }
}

/// An order that was removed is never filled: no later trade reports on it.
pub proof fn law_removed_order_never_fills<Q: QueueModel>(
    v: ExchangeView<Q>,
    id: u64,
    trade: Tick,
)
    requires
        indexed(v),
    ensures
        silent_on(v.removed(id).after_trade(trade).1, id),
        !v.removed(id).after_trade(trade).0.orders.contains_key(id),
{
    let w = v.removed(id);
    lemma_removed_indexed(v, id);
    lemma_traded_silent_on_absent(
        w,
        w.bucket(trade.price, maker_side(trade.side)),
        trade,
        id,
    );
}

/// An order may go from one state to the other: by the table, or not at all.
pub open spec fn follows(before: OrderState, after: OrderState) -> bool {
    before == after || before.successors().contains(after)
}

/// After a trade, an order that was not fillable is as before; one that was has moved
/// along the order states and has lost of its remaining quantity what it gained in
/// filled quantity.
pub open spec fn traded_from<P>(before: LiveView<P>, after: LiveView<P>) -> bool {
    if before.fillable() {
        &&& after.order == before.order
        &&& 0 <= after.remaining_qty <= before.remaining_qty
        &&& after.filled_qty + after.remaining_qty == before.filled_qty + before.remaining_qty
        &&& after.remaining_qty < before.remaining_qty ==> after.state == if after.remaining_qty
            == 0 {
            OrderState::Filled
        } else if before.state is PendingCancel {
            OrderState::PendingCancel
        } else {
            OrderState::PartiallyFilled
        }
        &&& after.remaining_qty == before.remaining_qty ==> after.state == before.state
    } else {
        after == before
    }
}

proof fn lemma_traded_from<Q: QueueModel>(v: ExchangeView<Q>, ids: Seq<u64>, trade: Tick, id: u64)
    requires
        v.quantities_fit(),
        v.orders.contains_key(id),
    ensures
        v.traded(ids, trade).0.quantities_fit(),
        v.traded(ids, trade).0.orders.contains_key(id),
        traded_from(v.orders[id], v.traded(ids, trade).0.orders[id]),
        !ids.contains(id) ==> v.traded(ids, trade).0.orders[id] == v.orders[id],
    decreases ids.len(),
{
    if ids.len() > 0 {
        let front = ids.drop_last();
        lemma_traded_from(v, front, trade, id);
        let w = v.traded(front, trade).0;
        let last = ids.last();
        if w.orders.contains_key(last) && w.orders[last].fillable() {
            let o = w.orders[last];
            w.model.fill_within_remaining(o.order, o.remaining_qty, trade, o.place);
        }
        if ids.contains(id) == false {
            assert(ids[ids.len() - 1] != id);
            assert(!front.contains(id)) by {
                if front.contains(id) {
                    let k = choose|k: int| 0 <= k < front.len() && front[k] == id;
                    assert(ids[k] == id);
                }
            }
        }
    }
}

/// What a trade does to any order: terminal orders and orders that wait for their ACK
/// are left alone, as are orders at other prices and on the side of the aggressor; any
/// other order moves along the order states by exactly the quantity filled.
pub proof fn law_trade_moves_orders_along<Q: QueueModel>(
    v: ExchangeView<Q>,
    trade: Tick,
    id: u64,
)
    requires
        v.quantities_fit(),
        v.orders.contains_key(id),
        indexed(v),
    ensures
        ({
            let before = v.orders[id];
            let after = v.after_trade(trade).0.orders[id];
            &&& v.after_trade(trade).0.orders.contains_key(id)
            &&& traded_from(before, after)
            &&& follows(before.state, after.state)
            &&& before.state.terminal() ==> after == before
            &&& before.order.price != trade.price || before.order.side != maker_side(trade.side)
                ==> after == before
        }),
{
    let side = maker_side(trade.side);
    let ids = v.bucket(trade.price, side);
    lemma_traded_from(v, ids, trade, id);
    let before = v.orders[id];
    if before.order.price != trade.price || before.order.side != side {
        assert(!v.bucket(trade.price, side).contains(id));
    }
    if trade.side is NoSide {
        assert(v.after_trade(trade).0 == v);
        if before.fillable() {
            assert(traded_from(before, before));
        }
    }
}

/// A cancel in flight can lose against a fill: an order in `PendingCancel` whose
/// remaining quantity a trade fills is `Filled` from then on, so that the
/// acknowledgement of its cancel is refused.
pub proof fn law_fill_beats_cancel_in_flight<Q: QueueModel>(
    v: ExchangeView<Q>,
    id: u64,
    trade: Tick,
)
    requires
        v.quantities_fit(),
        indexed(v),
        v.orders.contains_key(id),
        v.orders[id].state is PendingCancel,
        v.after_trade(trade).0.orders[id].remaining_qty == 0,
        v.orders[id].remaining_qty > 0,
    ensures
        v.after_trade(trade).0.orders[id].state is Filled,
{
    law_trade_moves_orders_along(v, trade, id);
}

/// A cancel in flight outlasts a partial fill: an order in `PendingCancel` of which a
/// trade leaves something is still in `PendingCancel`, so that its cancel is carried out.
pub proof fn law_cancel_in_flight_outlasts_partial_fill<Q: QueueModel>(
    v: ExchangeView<Q>,
    id: u64,
    trade: Tick,
)
    requires
        v.quantities_fit(),
        indexed(v),
        v.orders.contains_key(id),
        v.orders[id].state is PendingCancel,
        v.after_trade(trade).0.orders[id].remaining_qty > 0,
    ensures
        v.after_trade(trade).0.orders[id].state is PendingCancel,
{
    law_trade_moves_orders_along(v, trade, id);
}

/// Operations on one order leave every other order alone.
pub proof fn law_orders_are_independent<Q: QueueModel>(
    v: ExchangeView<Q>,
    order: Order,
    id: u64,
    state: OrderState,
    other: u64,
)
    requires
        other != id,
        other != order.order_id,
        v.orders.contains_key(other),
    ensures
        v.submitted(order).orders[other] == v.orders[other],
        v.with_state(id, state).orders[other] == v.orders[other],
        v.removed(id).orders[other] == v.orders[other],
        v.removed(id).orders.contains_key(other),
{
}

/// The exchange after a sequence of market trades.
pub open spec fn after_all_trades<Q: QueueModel>(v: ExchangeView<Q>, trades: Seq<Tick>) -> ExchangeView<
    Q,
>
    decreases trades.len(),
{
    if trades.len() == 0 {
        v
    } else {
        after_all_trades(v, trades.drop_last()).after_trade(trades.last()).0
    }
}

/// The exchange after an order was submitted and acknowledged.
pub open spec fn opened<Q: QueueModel>(v: ExchangeView<Q>, order: Order) -> ExchangeView<Q> {
    v.submitted(order).with_state(order.order_id, OrderState::Open)
}

/// Whether two queue models are the same.
pub open spec fn is_same<Q: QueueModel>(a: Q, b: Q) -> bool {
    a == b
}

/// Whether a queue model keeps nothing itself, and trades that do not come to the level of
/// an order do not touch the order.
pub open spec fn is_local<Q: QueueModel>() -> bool {
    &&& forall|a: Q, b: Q| #[trigger] is_same(a, b)
    &&& forall|m: Q, order: Order, remaining: i64, trade: Tick, place: Q::Place|
        #![trigger m.traded(order, remaining, trade, place)]
        trade.price != order.price || order.side != maker_side(trade.side) || trade.side is NoSide
            ==> m.traded(order, remaining, trade, place) == (m, place, 0i64)
}

proof fn lemma_models_are_local()
    ensures
        is_local::<ConservativeQueue>(),
        is_local::<VolumeClockQueue>(),
        is_local::<L3ExactQueue>(),
{
}

/// Each order of a list without repetitions meets the trade once.
proof fn lemma_meets_once<Q: QueueModel>(v: ExchangeView<Q>, ids: Seq<u64>, trade: Tick, id: u64)
    requires
        is_local::<Q>(),
        v.orders.contains_key(id),
        ids.no_duplicates(),
    ensures
        v.traded(ids, trade).0.orders.contains_key(id),
        v.traded(ids, trade).0.orders[id] == if ids.contains(id) {
            v.traded_one(id, trade).0.orders[id]
        } else {
            v.orders[id]
        },
    decreases ids.len(),
{
    if ids.len() > 0 {
        let front = ids.drop_last();
        assert(front.no_duplicates()) by {
            assert forall|i: int, j: int|
                0 <= i < front.len() && 0 <= j < front.len() && i != j implies front[i]
                != front[j] by {
                assert(ids[i] != ids[j]);
            }
        }
        lemma_meets_once(v, front, trade, id);
        let w = v.traded(front, trade).0;
        assert(is_same(w.model, v.model));
        assert(ids[ids.len() - 1] == ids.last());
        if ids.last() == id {
            assert(!front.contains(id)) by {
                if front.contains(id) {
                    let k = choose|k: int| 0 <= k < front.len() && front[k] == id;
                    assert(ids[k] != ids[ids.len() - 1]);
                }
            }
            assert(ids.contains(id));
        } else {
            assert(ids.contains(id) == front.contains(id)) by {
                if ids.contains(id) {
                    let k = choose|k: int| 0 <= k < ids.len() && ids[k] == id;
                    assert(front[k] == id);
                }
                if front.contains(id) {
                    let k = choose|k: int| 0 <= k < front.len() && front[k] == id;
                    assert(ids[k] == id);
                }
            }
        }
    }
}

/// What one trade does to one order.
proof fn lemma_trade_meets_order<Q: QueueModel>(v: ExchangeView<Q>, trade: Tick, id: u64)
    requires
        is_local::<Q>(),
        indexed(v),
        v.orders.contains_key(id),
    ensures
        indexed(v.after_trade(trade).0),
        v.after_trade(trade).0.orders.contains_key(id),
        ({
            let o = v.orders[id];
            let t = v.model.traded(o.order, o.remaining_qty, trade, o.place);
            let after = v.after_trade(trade).0.orders[id];
            after == if !o.fillable() {
                o
            } else if t.2 > 0 {
                o.filled_by(t.2, t.1)
            } else {
                LiveView { place: t.1, ..o }
            }
        }),
{
    let side = maker_side(trade.side);
    let ids = v.bucket(trade.price, side);
    let o = v.orders[id];
    assert(ids.no_duplicates());
    lemma_meets_once(v, ids, trade, id);
    lemma_traded_keeps_orders(v, ids, trade);
    lemma_same_orders_indexed(v, v.after_trade(trade).0);
    let away = trade.price != o.order.price || o.order.side != side || trade.side is NoSide;
    if away {
        if !(trade.side is NoSide) {
            assert(!v.bucket(trade.price, side).contains(id));
        }
        let t = v.model.traded(o.order, o.remaining_qty, trade, o.place);
        assert(is_same(t.0, v.model));
        assert(t == (v.model, o.place, 0i64));
        assert((LiveView { place: o.place, ..o }) =~= o);
    } else {
        assert(v.bucket(o.order.price, o.order.side).contains(id));
    }
}

/// An order at the exchange is filled as its queue model says, from submission on.
proof fn lemma_fills_as_model<Q: QueueModel>(v: ExchangeView<Q>, order: Order, trades: Seq<Tick>)
    requires
        is_local::<Q>(),
        indexed(v),
        !v.orders.contains_key(order.order_id),
        order.qty >= 0,
    ensures
        ({
            let id = order.order_id;
            let after = after_all_trades(opened(v, order), trades);
            let (m, place) = v.model.registered(order, v.depth_for(order));
            let t = after_trades(v.model, order, order.qty, place, trades);
            &&& indexed(after)
            &&& after.orders.contains_key(id)
            &&& after.orders[id].order == order
            &&& after.orders[id].filled_qty == t.2
            &&& after.orders[id].remaining_qty == order.qty - t.2
            &&& 0 <= t.2 <= order.qty
            &&& t.2 < order.qty ==> after.orders[id].place == t.1
            &&& after.orders[id].state == if t.2 == 0 {
                OrderState::Open
            } else if t.2 == order.qty {
                OrderState::Filled
            } else {
                OrderState::PartiallyFilled
            }
        }),
    decreases trades.len(),
{
    let id = order.order_id;
    let (m, place) = v.model.registered(order, v.depth_for(order));
    if trades.len() == 0 {
        lemma_submitted_indexed(v, order);
        let w = v.submitted(order);
        let x = opened(v, order);
        assert(x.orders.dom() =~= w.orders.dom());
        lemma_same_orders_indexed(w, x);
    } else {
        let front = trades.drop_last();
        lemma_fills_as_model(v, order, front);
        let w = after_all_trades(opened(v, order), front);
        lemma_trade_meets_order(w, trades.last(), id);
        let t = after_trades(v.model, order, order.qty, place, front);
        assert(is_same(w.model, t.0));
        t.0.fill_within_remaining(order, (order.qty - t.2) as i64, trades.last(), t.1);
    }
}

/// An order of the conservative model waits behind all that the book shows: submitted where
/// `visible` rests at its price and on its side, it is filled by exactly the volume that
/// trades there beyond `visible`, up to its quantity; buys and sells alike.
pub proof fn law_conservative_order_waits_behind_the_book(
    v: ExchangeView<ConservativeQueue>,
    order: Order,
    visible: i64,
    trades: Seq<Tick>,
)
    requires
        indexed(v),
        v.book_l3 is None,
        !v.orders.contains_key(order.order_id),
        order.qty >= 0,
        visible >= 0,
        shows(v, order, visible),
    ensures
        ({
            let o = after_all_trades(opened(v, order), trades).orders[order.order_id];
            &&& o.filled_qty == within(
                volume_at_level(order, trades) - visible,
                0,
                order.qty as int,
            )
            &&& o.remaining_qty == order.qty - o.filled_qty
            &&& o.state is Filled <==> 0 < order.qty <= volume_at_level(order, trades) - visible
        }),
{
    lemma_models_are_local();
    lemma_fills_as_model(v, order, trades);
    law_conservative_fills_behind_queue(order, order.qty, visible, trades);
}

/// Whether the price-level book shows this quantity at the price and on the side of an
/// order.
pub open spec fn shows<Q: QueueModel>(v: ExchangeView<Q>, order: Order, visible: i64) -> bool {
    &&& order.side is Buy ==> visible == if v.book.bids.contains_key(order.price) {
        v.book.bids[order.price]
    } else {
        0
    }
    &&& order.side is Sell ==> visible == if v.book.asks.contains_key(order.price) {
        v.book.asks[order.price]
    } else {
        0
    }
    &&& order.side is NoSide ==> visible == 0
}

/// An order of the volume clock is filled by the same rule, as long as the volume can be
/// counted.
pub proof fn law_volume_clock_order_waits_behind_the_book(
    v: ExchangeView<VolumeClockQueue>,
    order: Order,
    visible: i64,
    trades: Seq<Tick>,
)
    requires
        indexed(v),
        v.book_l3 is None,
        !v.orders.contains_key(order.order_id),
        order.qty >= 0,
        visible >= 0,
        shows(v, order, visible),
        volume_at_level(order, trades) <= i64::MAX,
    ensures
        ({
            let o = after_all_trades(opened(v, order), trades).orders[order.order_id];
            &&& o.filled_qty == within(
                volume_at_level(order, trades) - visible,
                0,
                order.qty as int,
            )
            &&& o.remaining_qty == order.qty - o.filled_qty
        }),
{
    lemma_models_are_local();
    lemma_fills_as_model(v, order, trades);
    law_volume_clock_fills_behind_queue(order, order.qty, visible, trades);
}

/// An order of the exact model at an order-by-order book is filled by the volume beyond the
/// quantities of the venue orders that rest there when it is submitted.
pub proof fn law_exact_order_waits_behind_the_venue_orders(
    v: ExchangeView<L3ExactQueue>,
    order: Order,
    trades: Seq<Tick>,
)
    requires
        indexed(v),
        v.book_l3 is Some,
        !v.orders.contains_key(order.order_id),
        order.qty >= 0,
        !(order.side is NoSide),
        ({
            let queue = resting(v, order);
            &&& forall|i: int|
                0 <= i < queue.len() ==> 0 <= (#[trigger] queue[i]).1 && queue[i].0
                    != order.order_id
            &&& plain_total(queue) <= i64::MAX
        }),
    ensures
        ({
            let o = after_all_trades(opened(v, order), trades).orders[order.order_id];
            &&& o.filled_qty == within(
                volume_at_level(order, trades) - plain_total(resting(v, order)),
                0,
                order.qty as int,
            )
            &&& o.remaining_qty == order.qty - o.filled_qty
        }),
{
    lemma_models_are_local();
    lemma_fills_as_model(v, order, trades);
    let queue = resting(v, order);
    let l3 = v.book_l3.unwrap();
    assert(l3.queue(order.side, order.price) == queue);
    law_l3_unknown_order_sees_level(l3, order.side, order.price, order.order_id);
    law_l3_total_is_sum(queue);
    let (m, place) = v.model.registered(order, v.depth_for(order));
    law_exact_fills_behind_queue(order, order.qty, place, trades);
}

/// The venue orders that rest at the price and on the side of an order.
pub open spec fn resting<Q: QueueModel>(v: ExchangeView<Q>, order: Order) -> Seq<(u64, i64)> {
    let l3 = v.book_l3.unwrap();
    if order.side is Buy {
        if l3.bids.contains_key(order.price) {
            l3.bids[order.price]
        } else {
            Seq::empty()
        }
    } else {
        if l3.asks.contains_key(order.price) {
            l3.asks[order.price]
        } else {
            Seq::empty()
        }
    }
}

/// An order that is not acknowledged yet, or is done, is not filled by any trade.
pub proof fn law_only_live_orders_fill<Q: QueueModel>(v: ExchangeView<Q>, trade: Tick, id: u64)
    requires
        v.quantities_fit(),
        indexed(v),
        v.orders.contains_key(id),
        !(v.orders[id].state is Open),
        !(v.orders[id].state is PartiallyFilled),
        !(v.orders[id].state is PendingCancel),
    ensures
        v.after_trade(trade).0.orders[id] == v.orders[id],
{
    law_trade_moves_orders_along(v, trade, id);
}

/// Every live order, open, partially filled or with a cancel on its way, is filled by what
/// its queue model makes of a trade, and keeps the place that the model gives it.
pub proof fn law_live_orders_fill<Q: QueueModel>(v: ExchangeView<Q>, trade: Tick, id: u64)
    requires
        is_local::<Q>(),
        v.quantities_fit(),
        indexed(v),
        v.orders.contains_key(id),
        v.orders[id].remaining_qty > 0,
        v.orders[id].state is Open || v.orders[id].state is PartiallyFilled
            || v.orders[id].state is PendingCancel,
    ensures
        ({
            let o = v.orders[id];
            let (m, place, fill) = v.model.traded(o.order, o.remaining_qty, trade, o.place);
            let after = v.after_trade(trade).0.orders[id];
            &&& after.filled_qty == o.filled_qty + fill
            &&& after.remaining_qty == o.remaining_qty - fill
            &&& after.place == place
        }),
{
    let o = v.orders[id];
    v.model.fill_within_remaining(o.order, o.remaining_qty, trade, o.place);
    lemma_trade_meets_order(v, trade, id);
}

/// A conservative order is filled while it is live, also with a cancel on its way: by what a
/// trade at its level, of the other side, brings beyond the quantity ahead.
pub proof fn law_conservative_order_fills_while_live(
    v: ExchangeView<ConservativeQueue>,
    trade: Tick,
    id: u64,
)
    requires
        v.quantities_fit(),
        indexed(v),
        v.orders.contains_key(id),
        v.orders[id].remaining_qty > 0,
        v.orders[id].place.qty_ahead >= 0,
        v.orders[id].state is Open || v.orders[id].state is PartiallyFilled
            || v.orders[id].state is PendingCancel,
    ensures
        ({
            let o = v.orders[id];
            let after = v.after_trade(trade).0.orders[id];
            let volume = volume_at_level(o.order, seq![trade]);
            &&& after.filled_qty - o.filled_qty == within(
                volume - o.place.qty_ahead,
                0,
                o.remaining_qty as int,
            )
            &&& after.place.qty_ahead == within(
                o.place.qty_ahead - volume,
                0,
                o.place.qty_ahead as int,
            )
        }),
{
    lemma_models_are_local();
    law_live_orders_fill(v, trade, id);
    let o = v.orders[id];
    let one = seq![trade];
    assert(one.drop_last() =~= Seq::empty());
    assert(volume_at_level(o.order, one.drop_last()) == 0);
    assert(one.last() == trade);
}

/// What a new order starts with: it waits for its acknowledgement with its whole quantity
/// open, and is behind all orders of its price and side that came before.
pub proof fn law_new_order_waits_with_its_quantity<Q: QueueModel>(v: ExchangeView<Q>, order: Order)
    ensures
        ({
            let w = v.submitted(order);
            let o = w.orders[order.order_id];
            &&& w.orders.contains_key(order.order_id)
            &&& o.order == order
            &&& o.state is PendingNew
            &&& o.filled_qty == 0
            &&& o.remaining_qty == order.qty
            &&& w.bucket(order.price, order.side).len() == v.bucket(order.price, order.side).len()
                + 1
            &&& w.bucket(order.price, order.side).last() == order.order_id
            &&& w.bucket(order.price, order.side).drop_last() =~= v.bucket(
                order.price,
                order.side,
            )
            &&& w.book == v.book
            &&& w.book_l3 == v.book_l3
        }),
{
}

/// A report says of an order what the exchange keeps of it, and the fill that it tells of.
pub proof fn law_report_tells_of_the_order<P>(
    o: LiveView<P>,
    qty: i64,
    price: i64,
    reason: Option<&'static str>,
)
    ensures
        ({
            let r = o.report(qty, price, reason);
            &&& r.order_id == o.order.order_id
            &&& r.symbol_id == o.order.symbol_id
            &&& r.status == o.state
            &&& r.filled_qty == o.filled_qty
            &&& r.remaining_qty == o.remaining_qty
            &&& r.last_fill_qty == qty
            &&& r.last_fill_price == price
            &&& r.reason == reason
        }),
{
}

/// How many reports of a list speak of an order.
pub open spec fn reports_on(reports: Seq<OrderReport>, id: u64) -> nat
    decreases reports.len(),
{
    if reports.len() == 0 {
        0
    } else {
        reports_on(reports.drop_last(), id) + if reports.last().order_id == id {
            1nat
        } else {
            0nat
        }
    }
}

/// Whether a report tells that a trade took an order from one state to the other.
pub open spec fn tells_fill<P>(
    report: OrderReport,
    before: LiveView<P>,
    after: LiveView<P>,
    trade: Tick,
) -> bool {
    &&& report.order_id == before.order.order_id
    &&& report.symbol_id == before.order.symbol_id
    &&& report.last_fill_qty == after.filled_qty - before.filled_qty
    &&& report.last_fill_price == trade.price
    &&& report.filled_qty == after.filled_qty
    &&& report.remaining_qty == after.remaining_qty
    &&& report.status == after.state
    &&& report.reason is None
}

proof fn lemma_reports_of_list<Q: QueueModel>(
    v: ExchangeView<Q>,
    ids: Seq<u64>,
    trade: Tick,
    id: u64,
)
    requires
        v.quantities_fit(),
        v.orders.contains_key(id),
        ids.no_duplicates(),
        forall|k: u64| #[trigger] v.orders.contains_key(k) ==> v.orders[k].order.order_id == k,
    ensures
        ({
            let (w, reports) = v.traded(ids, trade);
            let (before, after) = (v.orders[id], w.orders[id]);
            &&& reports_on(reports, id) == if after.filled_qty > before.filled_qty {
                1nat
            } else {
                0nat
            }
            &&& forall|i: int|
                0 <= i < reports.len() && (#[trigger] reports[i]).order_id == id ==> tells_fill(
                    reports[i],
                    before,
                    after,
                    trade,
                )
            &&& forall|k: u64| #[trigger]
                w.orders.contains_key(k) ==> w.orders[k].order.order_id == k
        }),
    decreases ids.len(),
{
    if ids.len() > 0 {
        let front = ids.drop_last();
        assert(front.no_duplicates()) by {
            assert forall|i: int, j: int|
                0 <= i < front.len() && 0 <= j < front.len() && i != j implies front[i]
                != front[j] by {
                assert(ids[i] != ids[j]);
            }
        }
        lemma_reports_of_list(v, front, trade, id);
        lemma_traded_from(v, front, trade, id);
        let (w, reports) = v.traded(front, trade);
        let last = ids.last();
        let (x, report) = w.traded_one(last, trade);
        if w.orders.contains_key(last) && w.orders[last].fillable() {
            let o = w.orders[last];
            w.model.fill_within_remaining(o.order, o.remaining_qty, trade, o.place);
        }
        if last == id {
            assert(!front.contains(id)) by {
                if front.contains(id) {
                    let k = choose|k: int| 0 <= k < front.len() && front[k] == id;
                    assert(ids[k] != ids[ids.len() - 1]);
                }
            }
            assert(w.orders[id] == v.orders[id]);
            assert forall|i: int| 0 <= i < reports.len() implies (#[trigger] reports[i]).order_id
                != id by {
                lemma_none_on(reports, id, i);
            }
        }
        if let Some(r) = report {
            assert(reports.push(r).drop_last() =~= reports);
            assert(r.order_id == last);
        }
    }
}

proof fn lemma_none_on(reports: Seq<OrderReport>, id: u64, i: int)
    requires
        0 <= i < reports.len(),
        reports_on(reports, id) == 0,
    ensures
        reports[i].order_id != id,
    decreases reports.len(),
{
    if i < reports.len() - 1 {
        lemma_none_on(reports.drop_last(), id, i);
    }
}

/// A trade is reported to every order that it fills, once, with what it filled at its price,
/// and to no other.
pub proof fn law_trade_reports_its_fills<Q: QueueModel>(v: ExchangeView<Q>, trade: Tick, id: u64)
    requires
        v.quantities_fit(),
        indexed(v),
        v.orders.contains_key(id),
    ensures
        ({
            let (w, reports) = v.after_trade(trade);
            let (before, after) = (v.orders[id], w.orders[id]);
            &&& reports_on(reports, id) == if after.filled_qty > before.filled_qty {
                1nat
            } else {
                0nat
            }
            &&& forall|i: int|
                0 <= i < reports.len() && (#[trigger] reports[i]).order_id == id ==> tells_fill(
                    reports[i],
                    before,
                    after,
                    trade,
                )
        }),
{
    let ids = v.bucket(trade.price, maker_side(trade.side));
    lemma_reports_of_list(v, ids, trade, id);
}

/// Whether what a market order takes is `price` and `available`, and is told in full: it is
/// filled by the smaller of its quantity and what is available, at this price; done where
/// that is all of it.
pub open spec fn takes_at<P>(
    before: LiveView<P>,
    after: LiveView<P>,
    report: OrderReport,
    price: i64,
    available: int,
) -> bool {
    let qty = before.order.qty;
    let fill = if qty < available {
        qty as int
    } else {
        available
    };
    &&& after.order == before.order
    &&& after.place == before.place
    &&& after.filled_qty == fill
    &&& after.remaining_qty == qty - fill
    &&& after.state == if qty <= available {
        OrderState::Filled
    } else {
        OrderState::PartiallyFilled
    }
    &&& report == (OrderReport {
        order_id: before.order.order_id,
        last_fill_qty: fill as i64,
        last_fill_price: price,
        filled_qty: fill as i64,
        remaining_qty: (qty - fill) as i64,
        reason: None,
        symbol_id: before.order.symbol_id,
        status: after.state,
    })
}

/// Whether an order-by-order book has nothing against an order of this side.
pub open spec fn has_no_venue_orders<Q: QueueModel>(v: ExchangeView<Q>, side: Side) -> bool {
    v.book_l3 matches Some(l3) ==> {
        &&& side is Buy ==> forall|p: i64| !(#[trigger] l3.asks.contains_key(p))
        &&& side is Sell ==> forall|p: i64| !(#[trigger] l3.bids.contains_key(p))
    }
}

/// A market order takes the best price that the book shows against it, the lowest ask for a
/// buy and the highest bid for a sell, up to the quantity there; the price of the last trade
/// has no part in it.
pub proof fn law_market_order_takes_best_price<Q: QueueModel>(
    v: ExchangeView<Q>,
    id: u64,
    best: i64,
    fallback: Option<i64>,
)
    requires
        v.orders.contains_key(id),
        v.orders[id].order.qty >= 0,
        has_no_venue_orders(v, v.orders[id].order.side),
        v.orders[id].order.side is Buy ==> {
            &&& v.book.asks.contains_key(best)
            &&& v.book.asks[best] >= 0
            &&& forall|p: i64| #[trigger] v.book.asks.contains_key(p) ==> best <= p
        },
        v.orders[id].order.side is Sell ==> {
            &&& v.book.bids.contains_key(best)
            &&& v.book.bids[best] >= 0
            &&& forall|p: i64| #[trigger] v.book.bids.contains_key(p) ==> p <= best
        },
    ensures
        ({
            let o = v.orders[id];
            let (after, report) = v.market_filled(id, fallback);
            &&& o.order.side is Buy ==> takes_at(o, after, report, best, v.book.asks[best] as int)
            &&& o.order.side is Sell ==> takes_at(o, after, report, best, v.book.bids[best] as int)
        }),
        !(v.orders[id].order.side is NoSide) ==> v.market_filled(id, fallback) == v.market_filled(
            id,
            None,
        ),
{
    let side = v.orders[id].order.side;
    if side is Buy {
        assert(is_lowest(v.book.asks, best));
        let c = choose|c: i64| is_lowest(v.book.asks, c);
        assert(c <= best && best <= c);
        if let Some(l3) = v.book_l3 {
            assert(l3.asks =~= Map::empty());
        }
        assert(v.best_against(side) == Some((best, v.book.asks[best])));
    } else if side is Sell {
        assert(is_highest(v.book.bids, best));
        let c = choose|c: i64| is_highest(v.book.bids, c);
        assert(c <= best && best <= c);
        if let Some(l3) = v.book_l3 {
            assert(l3.bids =~= Map::empty());
        }
        assert(v.best_against(side) == Some((best, v.book.bids[best])));
    }
}

/// With an order-by-order book, a market order takes the best price there, up to what its
/// venue orders add up to.
pub proof fn law_market_order_takes_best_venue_price<Q: QueueModel>(
    v: ExchangeView<Q>,
    id: u64,
    best: i64,
    queue: Seq<(u64, i64)>,
    fallback: Option<i64>,
)
    requires
        v.orders.contains_key(id),
        v.orders[id].order.qty >= 0,
        v.book_l3 is Some,
        !(v.orders[id].order.side is NoSide),
        v.orders[id].order.side is Buy ==> {
            let asks = v.book_l3.unwrap().asks;
            &&& asks.contains_key(best)
            &&& asks[best] == queue
            &&& forall|p: i64| #[trigger] asks.contains_key(p) ==> best <= p
        },
        v.orders[id].order.side is Sell ==> {
            let bids = v.book_l3.unwrap().bids;
            &&& bids.contains_key(best)
            &&& bids[best] == queue
            &&& forall|p: i64| #[trigger] bids.contains_key(p) ==> p <= best
        },
        forall|i: int| 0 <= i < queue.len() ==> 0 <= (#[trigger] queue[i]).1,
        plain_total(queue) <= i64::MAX,
    ensures
        ({
            let (after, report) = v.market_filled(id, fallback);
            takes_at(v.orders[id], after, report, best, plain_total(queue))
        }),
        v.market_filled(id, fallback) == v.market_filled(id, None),
{
    let side = v.orders[id].order.side;
    let l3 = v.book_l3.unwrap();
    law_l3_total_is_sum(queue);
    if side is Buy {
        assert(is_lowest(l3.asks, best));
        let c = choose|c: i64| is_lowest(l3.asks, c);
        assert(c <= best && best <= c);
        assert(v.best_against(side) == Some((best, running_total(queue))));
    } else {
        assert(is_highest(l3.bids, best));
        let c = choose|c: i64| is_highest(l3.bids, c);
        assert(c <= best && best <= c);
        assert(v.best_against(side) == Some((best, running_total(queue))));
    }
}

/// Where no book has anything against a market order, it takes the price of the last trade,
/// all of it; where there was no trade either, it is rejected with nothing filled.
pub proof fn law_market_order_without_depth<Q: QueueModel>(v: ExchangeView<Q>, id: u64, price: i64)
    requires
        v.orders.contains_key(id),
        has_no_venue_orders(v, v.orders[id].order.side),
        v.orders[id].order.side is Buy ==> forall|p: i64|
            !(#[trigger] v.book.asks.contains_key(p)),
        v.orders[id].order.side is Sell ==> forall|p: i64|
            !(#[trigger] v.book.bids.contains_key(p)),
    ensures
        ({
            let o = v.orders[id];
            let (after, report) = v.market_filled(id, Some(price));
            let (refused, refusal) = v.market_filled(id, None);
            &&& takes_at(o, after, report, price, i64::MAX as int)
            &&& refused == (LiveView { state: OrderState::Rejected, ..o })
            &&& refusal.status is Rejected
            &&& refusal.order_id == o.order.order_id
            &&& refusal.symbol_id == o.order.symbol_id
            &&& refusal.last_fill_qty == 0
            &&& refusal.last_fill_price == 0
            &&& refusal.filled_qty == 0
            &&& refusal.remaining_qty == o.order.qty
            &&& refusal.reason == Some("book empty")
        }),
{
    let side = v.orders[id].order.side;
    if let Some(l3) = v.book_l3 {
        if side is Buy {
            assert(l3.asks =~= Map::empty());
        } else if side is Sell {
            assert(l3.bids =~= Map::empty());
        }
    }
    if side is Buy {
        assert(v.book.asks =~= Map::empty());
    } else if side is Sell {
        assert(v.book.bids =~= Map::empty());
    }
    assert(v.best_against(side) is None);
}

/// A change of state touches nothing but the state of the order.
pub proof fn law_change_of_state_keeps_the_rest<Q: QueueModel>(
    v: ExchangeView<Q>,
    id: u64,
    state: OrderState,
)
    requires
        v.orders.contains_key(id),
    ensures
        ({
            let (o, p) = (v.orders[id], v.with_state(id, state).orders[id]);
            &&& p.state == state
            &&& p.order == o.order
            &&& p.filled_qty == o.filled_qty
            &&& p.remaining_qty == o.remaining_qty
            &&& p.place == o.place
        }),
{
}

/// A removed order is gone, from the orders and from its price, and the others stay.
pub proof fn law_removed_order_is_gone<Q: QueueModel>(v: ExchangeView<Q>, id: u64, other: u64)
    requires
        indexed(v),
    ensures
        !v.removed(id).orders.contains_key(id),
        other != id ==> v.removed(id).orders.contains_key(other) == v.orders.contains_key(other),
        other != id && v.orders.contains_key(other) ==> v.removed(id).orders[other]
            == v.orders[other] && v.removed(id).bucket(
            v.orders[other].order.price,
            v.orders[other].order.side,
        ).contains(other),
{
    lemma_removed_indexed(v, id);
    if other != id && v.orders.contains_key(other) {
        assert(v.removed(id).orders.contains_key(other));
    }
}

/// A change of a venue order reaches every order that waits in the queue, through the queue
/// model, and no order that is done or has a cancel on its way; the book takes it too.
pub proof fn law_venue_change_reaches_waiting_orders<Q: QueueModel>(
    v: ExchangeView<Q>,
    update: L3Update,
    id: u64,
)
    requires
        v.orders.contains_key(id),
    ensures
        ({
            let (o, p) = (v.orders[id], v.l3_updated(update).orders[id]);
            &&& o.state is PendingNew || o.state is Open || o.state is PartiallyFilled ==> p == (
            LiveView { place: v.model.shifted(o.order, o.place, update), ..o })
            &&& o.state is PendingCancel || o.state is Cancelled || o.state is Filled
                || o.state is Rejected ==> p == o
            &&& v.l3_updated(update).book == v.book
            &&& v.book_l3 matches Some(l3) ==> v.l3_updated(update).book_l3 == Some(
                l3.updated(update),
            )
        }),
{
}

} // verus!
