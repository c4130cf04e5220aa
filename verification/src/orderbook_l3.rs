//! Order-by-order book: every price level is a first-in first-out queue.
use std::collections::{BTreeMap, VecDeque};

use vstd::prelude::*;

use crate::collections::{btree_first, btree_get_mut, btree_last};
use crate::math::{clamp_i64, sat_add};
use crate::orderbook_l2::{
    is_highest, is_lowest, lemma_highest_exists, lemma_lowest_exists, DepthAt, MarketDepth,
};
use crate::types::{L3Update, Side};

verus! {

// L3 order book action codes.
pub const L3_ADD: u8 = 0x01;

pub const L3_MODIFY: u8 = 0x02;

pub const L3_DELETE: u8 = 0x03;

/// Number of queue entries before the first one of `order_id`: all of them where
/// it has none.
pub open spec fn entries_ahead(queue: Seq<(u64, i64)>, order_id: u64) -> nat
    decreases queue.len(),
{
    if queue.len() == 0 || queue[0].0 == order_id {
        0
    } else {
        1 + entries_ahead(queue.drop_first(), order_id)
    }
}

/// The quantities of a queue added up from the front, limited to the range of
/// `i64` at each step.
pub open spec fn running_total(queue: Seq<(u64, i64)>) -> i64
    decreases queue.len(),
{
    if queue.len() == 0 {
        0
    } else {
        clamp_i64(running_total(queue.drop_last()) + queue.last().1)
    }
}

/// The plain sum of the quantities of a queue.
pub open spec fn plain_total(queue: Seq<(u64, i64)>) -> int
    decreases queue.len(),
{
    if queue.len() == 0 {
        0
    } else {
        plain_total(queue.drop_last()) + queue.last().1
    }
}

/// Price levels of one side: from price to its queue of (order_id, qty).
pub type Queues = Map<i64, Seq<(u64, i64)>>;

/// The queue at a price, empty where there is no level.
pub open spec fn queue_at(side: Queues, price: i64) -> Seq<(u64, i64)> {
    if side.contains_key(price) {
        side[price]
    } else {
        Seq::empty()
    }
}

/// The queue with the first entry of `order_id` set to `qty`.
pub open spec fn with_qty(queue: Seq<(u64, i64)>, order_id: u64, qty: i64) -> Seq<(u64, i64)> {
    let i = entries_ahead(queue, order_id);
    if i < queue.len() {
        queue.update(i as int, (order_id, qty))
    } else {
        queue
    }
}

/// The queue without the entries of `order_id`.
pub open spec fn without(queue: Seq<(u64, i64)>, order_id: u64) -> Seq<(u64, i64)> {
    queue.filter(|e: (u64, i64)| e.0 != order_id)
}

/// One side after an update. An unknown action, and a change of an unknown level or
/// order, leave it as it is.
pub open spec fn side_updated(side: Queues, update: L3Update) -> Queues {
    let queue = queue_at(side, update.price);
    if update.action == L3_ADD {
        side.insert(update.price, queue.push((update.order_id, update.qty)))
    } else if !side.contains_key(update.price) {
        side
    } else if update.action == L3_MODIFY {
        side.insert(update.price, with_qty(queue, update.order_id, update.qty))
    } else if update.action == L3_DELETE {
        let rest = without(queue, update.order_id);
        if rest.len() == 0 {
            side.remove(update.price)
        } else {
            side.insert(update.price, rest)
        }
    } else {
        side
    }
}

/// The queues of an L3 book.
#[verifier::ext_equal]
pub struct L3Queues {
    pub bids: Queues,
    pub asks: Queues,
}

impl L3Queues {
    pub open spec fn empty() -> L3Queues {
        L3Queues { bids: Map::empty(), asks: Map::empty() }
    }

    pub open spec fn updated(self, update: L3Update) -> L3Queues {
        match update.side {
            Side::Buy => L3Queues { bids: side_updated(self.bids, update), ..self },
            Side::Sell => L3Queues { asks: side_updated(self.asks, update), ..self },
            Side::NoSide => self,
        }
    }

    /// The queue that rests at a price on a side.
    pub open spec fn queue(self, side: Side, price: i64) -> Seq<(u64, i64)> {
        match side {
            Side::Buy => queue_at(self.bids, price),
            Side::Sell => queue_at(self.asks, price),
            Side::NoSide => Seq::empty(),
        }
    }

    /// The entries that arrived before `order_id`: all where it is not in the queue.
    pub open spec fn ahead(self, side: Side, price: i64, order_id: u64) -> Seq<(u64, i64)> {
        let queue = self.queue(side, price);
        queue.take(entries_ahead(queue, order_id) as int)
    }

    /// The highest bid, with the total of its queue.
    pub open spec fn best_bid(self) -> Option<(i64, i64)> {
        if self.bids =~= Map::empty() {
            None
        } else {
            let p = choose|p: i64| is_highest(self.bids, p);
            Some((p, running_total(self.bids[p])))
        }
    }

    /// The lowest ask, with the total of its queue.
    pub open spec fn best_ask(self) -> Option<(i64, i64)> {
        if self.asks =~= Map::empty() {
            None
        } else {
            let p = choose|p: i64| is_lowest(self.asks, p);
            Some((p, running_total(self.asks[p])))
        }
    }

    /// What the book shows of a level to an order.
    pub open spec fn depth_at(self, side: Side, price: i64, order_id: u64) -> DepthAt {
        DepthAt {
            level_qty: running_total(self.queue(side, price)),
            qty_ahead: running_total(self.ahead(side, price, order_id)),
            orders_ahead: self.ahead(side, price, order_id),
        }
    }
}

/// Per-side L3 order book: maps price to a queue of (order_id, qty).
///
/// Maintains exact queue order so `qty_ahead` returns the total qty of all
/// resting orders that arrived *before* a given order_id.
#[derive(Debug, Clone)]
pub struct OrderBookL3 {
    bids: BTreeMap<i64, VecDeque<(u64, i64)>>,
    asks: BTreeMap<i64, VecDeque<(u64, i64)>>,
}

/// The contents of the queues of one side.
pub closed spec fn contents(side: Map<i64, VecDeque<(u64, i64)>>) -> Queues {
    side.map_values(|q: VecDeque<(u64, i64)>| q@)
}

impl View for OrderBookL3 {
    type V = L3Queues;

    closed spec fn view(&self) -> L3Queues {
        L3Queues { bids: contents(self.bids@), asks: contents(self.asks@) }
    }
}

impl Default for OrderBookL3 {
    fn default() -> (r: Self)
        ensures
            r@ == L3Queues::empty(),
    {
        let r = OrderBookL3 { bids: BTreeMap::new(), asks: BTreeMap::new() };
        assert(r@ =~= L3Queues::empty());
        r
    }
}

pub proof fn lemma_entries_ahead(queue: Seq<(u64, i64)>, order_id: u64, n: int)
    requires
        0 <= n <= queue.len(),
        forall|i: int| 0 <= i < n ==> (#[trigger] queue[i]).0 != order_id,
    ensures
        n <= entries_ahead(queue, order_id) <= queue.len(),
        n < queue.len() && queue[n].0 == order_id ==> entries_ahead(queue, order_id) == n,
    decreases queue.len(),
{
    if n > 0 {
        assert(queue[0].0 != order_id);
        let rest = queue.drop_first();
        assert forall|i: int| 0 <= i < n - 1 implies (#[trigger] rest[i]).0 != order_id by {
            assert(rest[i] == queue[i + 1]);
        }
        lemma_entries_ahead(rest, order_id, n - 1);
    } else if queue.len() > 0 && queue[0].0 != order_id {
        lemma_entries_ahead(queue.drop_first(), order_id, 0);
    }
}

/// The index of the first entry of `order_id`, or the length of the queue.
pub(crate) fn find_entry(queue: &VecDeque<(u64, i64)>, order_id: u64) -> (r: usize)
    ensures
        r == entries_ahead(queue@, order_id),
        r <= queue@.len(),
        r < queue@.len() ==> queue@[r as int].0 == order_id,
{
    let mut i: usize = 0;
    while i < queue.len()
        invariant
            i <= queue@.len(),
            forall|j: int| 0 <= j < i ==> (#[trigger] queue@[j]).0 != order_id,
        decreases queue@.len() - i,
    {
        if queue[i].0 == order_id {
            proof {
                lemma_entries_ahead(queue@, order_id, i as int);
            }
            return i;
        }
        i = i + 1;
    }
    proof {
        lemma_entries_ahead(queue@, order_id, i as int);
    }
    i
}

/// Adds the quantities of the first `n` entries.
fn total_of_first(queue: &VecDeque<(u64, i64)>, n: usize) -> (r: i64)
    requires
        n <= queue@.len(),
    ensures
        r == running_total(queue@.take(n as int)),
{
    let mut total: i64 = 0;
    let mut i: usize = 0;
    while i < n
        invariant
            i <= n <= queue@.len(),
            total == running_total(queue@.take(i as int)),
        decreases n - i,
    {
        proof {
            let next = queue@.take(i + 1);
            assert(next.drop_last() =~= queue@.take(i as int));
            assert(next.last() == queue@[i as int]);
        }
        total = sat_add(total, queue[i].1);
        i = i + 1;
    }
    total
}

/// Adds the quantities of a queue.
pub(crate) fn total_qty(queue: &VecDeque<(u64, i64)>) -> (r: i64)
    ensures
        r == running_total(queue@),
{
    assert(queue@.take(queue@.len() as int) =~= queue@);
    total_of_first(queue, queue.len())
}

/// Gives the entry at `i`, which is that of `order_id`, another quantity.
pub(crate) fn replace_qty(queue: &mut VecDeque<(u64, i64)>, i: usize, order_id: u64, qty: i64)
    requires
        i < old(queue)@.len(),
    ensures
        final(queue)@ == old(queue)@.update(i as int, (order_id, qty)),
{
    queue.remove(i);
    queue.insert(i, (order_id, qty));
    assert(queue@ =~= old(queue)@.update(i as int, (order_id, qty)));
}

/// The queue without the entries of `order_id`.
pub(crate) fn drop_entries(queue: &VecDeque<(u64, i64)>, order_id: u64) -> (r: VecDeque<(u64, i64)>)
    ensures
        r@ == without(queue@, order_id),
{
    let mut rest: VecDeque<(u64, i64)> = VecDeque::new();
    let mut i: usize = 0;
    proof {
        assert(queue@.take(0) =~= Seq::empty());
        reveal(Seq::filter);
    }
    while i < queue.len()
        invariant
            i <= queue@.len(),
            rest@ == without(queue@.take(i as int), order_id),
        decreases queue@.len() - i,
    {
        let e: (u64, i64) = queue[i];
        proof {
            let next = queue@.take(i + 1);
            assert(next.drop_last() =~= queue@.take(i as int));
            assert(next.last() == e);
            reveal(Seq::filter);
        }
        if e.0 != order_id {
            rest.push_back(e);
        }
        i = i + 1;
    }
    assert(queue@.take(i as int) =~= queue@);
    rest
}

/// Applies an update to the side that it names.
fn update_side(side: &mut BTreeMap<i64, VecDeque<(u64, i64)>>, update: &L3Update)
    ensures
        contents(final(side)@) == side_updated(contents(old(side)@), *update),
{
    let ghost before = side@;
    if update.action == L3_ADD {
        match btree_get_mut(side, &update.price) {
            Some(queue) => {
                queue.push_back((update.order_id, update.qty));
            },
            None => {
                let mut queue: VecDeque<(u64, i64)> = VecDeque::new();
                queue.push_back((update.order_id, update.qty));
                side.insert(update.price, queue);
            },
        }
    } else if update.action == L3_MODIFY {
        match btree_get_mut(side, &update.price) {
            Some(queue) => {
                let i: usize = find_entry(queue, update.order_id);
                if i < queue.len() {
                    replace_qty(queue, i, update.order_id, update.qty);
                }
            },
            None => {},
        }
    } else if update.action == L3_DELETE {
        let mut emptied: bool = false;
        match btree_get_mut(side, &update.price) {
            Some(queue) => {
                let rest = drop_entries(queue, update.order_id);
                emptied = rest.len() == 0;
                *queue = rest;
            },
            None => {},
        }
        if emptied {
            side.remove(&update.price);
        }
    }
    assert(contents(side@) =~= side_updated(contents(before), *update));
}

/// The queue at a price.
fn level<'a>(side: &'a BTreeMap<i64, VecDeque<(u64, i64)>>, price: i64) -> (r: Option<
    &'a VecDeque<(u64, i64)>,
>)
    ensures
        match r {
            Some(queue) => contents(side@).contains_key(price) && contents(side@)[price] == queue@,
            None => !contents(side@).contains_key(price),
        },
{
    side.get(&price)
}

fn side_level_qty(side: &BTreeMap<i64, VecDeque<(u64, i64)>>, price: i64) -> (r: i64)
    ensures
        r == running_total(queue_at(contents(side@), price)),
{
    match level(side, price) {
        Some(queue) => {
            assert(queue@.take(queue@.len() as int) =~= queue@);
            total_qty(queue)
        },
        None => 0,
    }
}

fn side_qty_ahead(side: &BTreeMap<i64, VecDeque<(u64, i64)>>, price: i64, order_id: u64) -> (r: i64)
    ensures
        ({
            let queue = queue_at(contents(side@), price);
            r == running_total(queue.take(entries_ahead(queue, order_id) as int))
        }),
{
    match level(side, price) {
        Some(queue) => {
            let n: usize = find_entry(queue, order_id);
            total_of_first(queue, n)
        },
        None => {
            assert(Seq::<(u64, i64)>::empty().take(0) =~= Seq::empty());
            0
        },
    }
}

fn side_orders_ahead(
    side: &BTreeMap<i64, VecDeque<(u64, i64)>>,
    price: i64,
    order_id: u64,
) -> (r: VecDeque<(u64, i64)>)
    ensures
        ({
            let queue = queue_at(contents(side@), price);
            r@ == queue.take(entries_ahead(queue, order_id) as int)
        }),
{
    let mut r: VecDeque<(u64, i64)> = VecDeque::new();
    match level(side, price) {
        Some(queue) => {
            let n: usize = find_entry(queue, order_id);
            let mut i: usize = 0;
            assert(r@ =~= queue@.take(0));
            while i < n
                invariant
                    i <= n <= queue@.len(),
                    r@ == queue@.take(i as int),
                decreases n - i,
            {
                r.push_back(queue[i]);
                assert(r@ =~= queue@.take(i + 1));
                i = i + 1;
            }
        },
        None => {
            assert(Seq::<(u64, i64)>::empty().take(0) =~= r@);
        },
    }
    r
}

impl OrderBookL3 {
    pub fn new() -> (r: Self)
        ensures
            r@ == L3Queues::empty(),
    {
        Self::default()
    }

    /// Applies an update. No update is refused: one that names no known order has
    /// no effect.
    pub fn apply_l3(&mut self, update: &L3Update) -> (r: Result<(), &'static str>)
        ensures
            r is Ok,
            final(self)@ == old(self)@.updated(*update),
    {
        match update.side {
            Side::Buy => update_side(&mut self.bids, update),
            Side::Sell => update_side(&mut self.asks, update),
            Side::NoSide => {},
        }
        Ok(())
    }

    /// Total resting qty at this price level (sum of all order qtys).
    pub fn level_qty(&self, side: Side, price: i64) -> (r: i64)
        ensures
            r == running_total(self@.queue(side, price)),
    {
        match side {
            Side::Buy => side_level_qty(&self.bids, price),
            Side::Sell => side_level_qty(&self.asks, price),
            Side::NoSide => 0,
        }
    }

    /// Qty of all orders that arrived strictly *before* `order_id` at this level.
    ///
    /// Returns `level_qty` if `order_id` is not in the queue (conservative fallback).
    pub fn qty_ahead(&self, side: Side, price: i64, order_id: u64) -> (r: i64)
        ensures
            r == running_total(self@.ahead(side, price, order_id)),
    {
        match side {
            Side::Buy => side_qty_ahead(&self.bids, price, order_id),
            Side::Sell => side_qty_ahead(&self.asks, price, order_id),
            Side::NoSide => {
                assert(self@.ahead(side, price, order_id) =~= Seq::empty());
                0
            },
        }
    }

    pub fn best_bid(&self) -> (r: Option<(i64, i64)>)
        ensures
            r == self@.best_bid(),
    {
        match btree_last(&self.bids) {
            Some((p, queue)) => {
                proof {
                    let bids = self@.bids;
                    assert(bids.contains_key(*p) && bids[*p] == queue@);
                    assert forall|q: i64| #[trigger] bids.contains_key(q) implies q <= *p by {
                        assert(self.bids@.contains_key(q));
                    }
                    assert(is_highest(bids, *p));
                    let c = choose|c: i64| is_highest(bids, c);
                    assert(c <= *p && *p <= c);
                    assert(queue@.take(queue@.len() as int) =~= queue@);
                }
                Some((*p, total_qty(queue)))
            },
            None => {
                assert(self@.bids =~= Map::empty());
                None
            },
        }
    }

    pub fn best_ask(&self) -> (r: Option<(i64, i64)>)
        ensures
            r == self@.best_ask(),
    {
        match btree_first(&self.asks) {
            Some((p, queue)) => {
                proof {
                    let asks = self@.asks;
                    assert(asks.contains_key(*p) && asks[*p] == queue@);
                    assert forall|q: i64| #[trigger] asks.contains_key(q) implies *p <= q by {
                        assert(self.asks@.contains_key(q));
                    }
                    assert(is_lowest(asks, *p));
                    let c = choose|c: i64| is_lowest(asks, c);
                    assert(c <= *p && *p <= c);
                    assert(queue@.take(queue@.len() as int) =~= queue@);
                }
                Some((*p, total_qty(queue)))
            },
            None => {
                assert(self@.asks =~= Map::empty());
                None
            },
        }
    }
}

impl MarketDepth for OrderBookL3 {
    open spec fn depth_at(&self, side: Side, price: i64, order_id: u64) -> DepthAt {
        self@.depth_at(side, price, order_id)
    }

    fn level_qty(&self, side: Side, price: i64) -> (r: i64) {
        OrderBookL3::level_qty(self, side, price)
    }

    fn qty_ahead(&self, side: Side, price: i64, order_id: u64) -> (r: i64) {
        OrderBookL3::qty_ahead(self, side, price, order_id)
    }

    fn orders_ahead(&self, side: Side, price: i64, order_id: u64) -> (r: VecDeque<(u64, i64)>) {
        match side {
            Side::Buy => side_orders_ahead(&self.bids, price, order_id),
            Side::Sell => side_orders_ahead(&self.asks, price, order_id),
            Side::NoSide => {
                assert(self@.ahead(side, price, order_id) =~= Seq::empty());
                VecDeque::new()
            },
        }
    }
}

/// Whether an order has an entry in a queue.
pub open spec fn is_queued(queue: Seq<(u64, i64)>, order_id: u64) -> bool {
    exists|i: int| 0 <= i < queue.len() && (#[trigger] queue[i]).0 == order_id
}

proof fn lemma_not_queued(queue: Seq<(u64, i64)>, order_id: u64)
    requires
        !is_queued(queue, order_id),
    ensures
        entries_ahead(queue, order_id) == queue.len(),
        without(queue, order_id) == queue,
{
    lemma_entries_ahead(queue, order_id, queue.len() as int);
    lemma_without_nothing(queue, order_id);
}

pub proof fn lemma_without_nothing(queue: Seq<(u64, i64)>, order_id: u64)
    requires
        !is_queued(queue, order_id),
    ensures
        without(queue, order_id) == queue,
    decreases queue.len(),
{
    reveal(Seq::filter);
    if queue.len() > 0 {
        let front = queue.drop_last();
        assert(queue[queue.len() - 1].0 != order_id);
        assert(!is_queued(front, order_id)) by {
            assert forall|i: int| 0 <= i < front.len() implies (#[trigger] front[i]).0
                != order_id by {
                assert(front[i] == queue[i]);
            }
        }
        lemma_without_nothing(front, order_id);
        assert(without(queue, order_id) =~= queue);
    }
}

proof fn lemma_entries_ahead_of_push(queue: Seq<(u64, i64)>, entry: (u64, i64), order_id: u64)
    ensures
        entries_ahead(queue.push(entry), order_id) == if is_queued(queue, order_id) || entry.0
            == order_id {
            entries_ahead(queue, order_id)
        } else {
            entries_ahead(queue, order_id) + 1
        },
    decreases queue.len(),
{
    let pushed = queue.push(entry);
    if queue.len() == 0 {
        assert(pushed.drop_first() =~= Seq::empty());
        assert(entries_ahead(pushed.drop_first(), order_id) == 0);
    } else if queue[0].0 == order_id {
        assert(pushed[0] == queue[0]);
        assert(is_queued(queue, order_id));
    } else {
        let rest = queue.drop_first();
        assert(pushed[0] == queue[0]);
        assert(pushed.drop_first() =~= rest.push(entry));
        lemma_entries_ahead_of_push(rest, entry, order_id);
        assert(is_queued(rest, order_id) == is_queued(queue, order_id)) by {
            if is_queued(queue, order_id) {
                let i = choose|i: int| 0 <= i < queue.len() && (#[trigger] queue[i]).0 == order_id;
                assert(rest[i - 1].0 == order_id);
            }
            if is_queued(rest, order_id) {
                let i = choose|i: int| 0 <= i < rest.len() && (#[trigger] rest[i]).0 == order_id;
                assert(queue[i + 1].0 == order_id);
            }
        }
    }
}

pub proof fn lemma_entries_ahead_range(queue: Seq<(u64, i64)>, order_id: u64)
    ensures
        entries_ahead(queue, order_id) <= queue.len(),
        is_queued(queue, order_id) ==> entries_ahead(queue, order_id) < queue.len() && queue[
        entries_ahead(queue, order_id) as int].0 == order_id,
    decreases queue.len(),
{
    if queue.len() > 0 && queue[0].0 != order_id {
        let rest = queue.drop_first();
        lemma_entries_ahead_range(rest, order_id);
        if is_queued(queue, order_id) {
            let i = choose|i: int| 0 <= i < queue.len() && (#[trigger] queue[i]).0 == order_id;
            assert(rest[i - 1].0 == order_id);
        }
    }
}

/// An order that is not in the queue sees the whole level ahead of it.
pub proof fn law_l3_unknown_order_sees_level(
    book: L3Queues,
    side: Side,
    price: i64,
    order_id: u64,
)
    requires
        !is_queued(book.queue(side, price), order_id),
    ensures
        book.depth_at(side, price, order_id).qty_ahead == book.depth_at(
            side,
            price,
            order_id,
        ).level_qty,
{
    let queue = book.queue(side, price);
    lemma_not_queued(queue, order_id);
    assert(queue.take(queue.len() as int) =~= queue);
}

/// First in, first out: an order that is added joins behind everything that rests at
/// its price, and what is ahead of the orders already there does not change.
pub proof fn law_l3_add_joins_at_the_back(book: L3Queues, update: L3Update, other: u64)
    requires
        update.action == L3_ADD,
        !(update.side is NoSide),
        !is_queued(book.queue(update.side, update.price), update.order_id),
        is_queued(book.queue(update.side, update.price), other),
    ensures
        book.updated(update).ahead(update.side, update.price, update.order_id) == book.queue(
            update.side,
            update.price,
        ),
        book.updated(update).ahead(update.side, update.price, other) == book.ahead(
            update.side,
            update.price,
            other,
        ),
{
    let queue = book.queue(update.side, update.price);
    let entry = (update.order_id, update.qty);
    lemma_not_queued(queue, update.order_id);
    lemma_entries_ahead_of_push(queue, entry, update.order_id);
    lemma_entries_ahead_of_push(queue, entry, other);
    lemma_entries_ahead_range(queue, other);
    assert(queue.push(entry).take(queue.len() as int) =~= queue);
    assert(queue.push(entry).take(entries_ahead(queue, other) as int) =~= queue.take(
        entries_ahead(queue, other) as int,
    ));
}

proof fn lemma_without_of_ahead(queue: Seq<(u64, i64)>, removed: u64, other: u64)
    requires
        removed != other,
    ensures
        ({
            let rest = without(queue, removed);
            rest.take(entries_ahead(rest, other) as int) == without(
                queue.take(entries_ahead(queue, other) as int),
                removed,
            )
        }),
        is_queued(queue, other) == is_queued(without(queue, removed), other),
    decreases queue.len(),
{
    reveal(Seq::filter);
    let rest = without(queue, removed);
    if queue.len() == 0 {
        assert(queue.take(0) =~= queue);
        assert(rest.take(0) =~= rest);
    } else {
        let front = queue.drop_last();
        let last = queue.last();
        assert(front.push(last) =~= queue);
        lemma_without_of_ahead(front, removed, other);
        lemma_entries_ahead_of_push(front, last, other);
        lemma_entries_ahead_range(front, other);
        let front_rest = without(front, removed);
        lemma_entries_ahead_range(front_rest, other);
        let k = entries_ahead(front, other);
        let kr = entries_ahead(front_rest, other);
        if last.0 != removed {
            assert(rest =~= front_rest.push(last));
            lemma_entries_ahead_of_push(front_rest, last, other);
        } else {
            assert(rest =~= front_rest);
        }
        assert(is_queued(queue, other) == (is_queued(front, other) || last.0 == other)) by {
            if is_queued(queue, other) {
                let i = choose|i: int| 0 <= i < queue.len() && (#[trigger] queue[i]).0 == other;
                if i < front.len() {
                    assert(front[i].0 == other);
                }
            }
            if is_queued(front, other) {
                let i = choose|i: int| 0 <= i < front.len() && (#[trigger] front[i]).0 == other;
                assert(queue[i].0 == other);
            }
            if last.0 == other {
                assert(queue[queue.len() - 1].0 == other);
            }
        }
        assert(is_queued(rest, other) == (is_queued(front_rest, other) || last.0 == other)) by {
            if last.0 != removed {
                if is_queued(rest, other) {
                    let i = choose|i: int| 0 <= i < rest.len() && (#[trigger] rest[i]).0 == other;
                    if i < front_rest.len() {
                        assert(front_rest[i].0 == other);
                    }
                }
                if is_queued(front_rest, other) {
                    let i = choose|i: int|
                        0 <= i < front_rest.len() && (#[trigger] front_rest[i]).0 == other;
                    assert(rest[i].0 == other);
                }
                if last.0 == other {
                    assert(rest[rest.len() - 1].0 == other);
                }
            }
        }
        if is_queued(front, other) || last.0 == other {
            assert(queue.take(k as int) =~= front.take(k as int));
            assert(rest.take(kr as int) =~= front_rest.take(kr as int));
            if !is_queued(front, other) {
                lemma_not_queued(front, other);
                lemma_not_queued(front_rest, other);
            }
        } else {
            lemma_not_queued(front, other);
            lemma_not_queued(front_rest, other);
            lemma_not_queued(queue, other);
            assert(queue.take(queue.len() as int) =~= queue);
            lemma_entries_ahead(rest, other, rest.len() as int);
            assert(rest.take(rest.len() as int) =~= rest);
        }
    }
}

/// Deleting an order takes exactly its entries out of what is ahead of any other order.
pub proof fn law_l3_delete_moves_others_up(book: L3Queues, update: L3Update, other: u64)
    requires
        update.action == L3_DELETE,
        !(update.side is NoSide),
        other != update.order_id,
    ensures
        book.updated(update).ahead(update.side, update.price, other) == without(
            book.ahead(update.side, update.price, other),
            update.order_id,
        ),
        !is_queued(book.updated(update).queue(update.side, update.price), update.order_id),
{
    let queue = book.queue(update.side, update.price);
    lemma_without_of_ahead(queue, update.order_id, other);
    let rest = without(queue, update.order_id);
    assert(book.updated(update).queue(update.side, update.price) =~= rest) by {
        reveal(Seq::filter);
        if rest.len() == 0 {
            assert(rest =~= Seq::empty());
        }
    }
    assert(!is_queued(rest, update.order_id)) by {
        broadcast use Seq::lemma_filter_pred;

    }
}

proof fn lemma_with_qty_positions(queue: Seq<(u64, i64)>, changed: u64, qty: i64, order_id: u64)
    ensures
        entries_ahead(with_qty(queue, changed, qty), order_id) == entries_ahead(queue, order_id),
    decreases queue.len(),
{
    let after = with_qty(queue, changed, qty);
    lemma_entries_ahead_range(queue, changed);
    if queue.len() > 0 {
        let rest = queue.drop_first();
        lemma_with_qty_positions(rest, changed, qty, order_id);
        if queue[0].0 != changed {
            assert(after.drop_first() =~= with_qty(rest, changed, qty)) by {
                lemma_entries_ahead_range(rest, changed);
            }
        } else {
            assert(after.drop_first() =~= rest);
        }
    }
}

/// A change of quantity keeps every place in the queue.
pub proof fn law_l3_modify_keeps_places(book: L3Queues, update: L3Update, order_id: u64)
    requires
        update.action == L3_MODIFY,
    ensures
        ({
            let before = book.queue(update.side, update.price);
            let after = book.updated(update).queue(update.side, update.price);
            &&& after.len() == before.len()
            &&& entries_ahead(after, order_id) == entries_ahead(before, order_id)
        }),
{
    let queue = book.queue(update.side, update.price);
    lemma_with_qty_positions(queue, update.order_id, update.qty, order_id);
}

/// Deleting an order right after it was added restores the book.
pub proof fn law_l3_delete_undoes_add(book: L3Queues, add: L3Update, delete: L3Update)
    requires
        add.action == L3_ADD,
        delete.action == L3_DELETE,
        add.side == delete.side && add.price == delete.price && add.order_id == delete.order_id,
        !is_queued(book.queue(add.side, add.price), add.order_id),
        no_empty_level(book),
    ensures
        book.updated(add).updated(delete) =~= book,
{
    let queue = book.queue(add.side, add.price);
    let entry = (add.order_id, add.qty);
    lemma_not_queued(queue, add.order_id);
    reveal(Seq::filter);
    assert(queue.push(entry).drop_last() =~= queue);
    assert(without(queue.push(entry), add.order_id) =~= queue);
}

/// No level of the book has an empty queue.
pub open spec fn no_empty_level(book: L3Queues) -> bool {
    &&& forall|p: i64| #[trigger] book.bids.contains_key(p) ==> book.bids[p].len() > 0
    &&& forall|p: i64| #[trigger] book.asks.contains_key(p) ==> book.asks[p].len() > 0
}

/// A level disappears with its last order: a new book has no empty level, and no
/// update makes one.
pub proof fn law_l3_no_empty_level(book: L3Queues, update: L3Update)
    requires
        no_empty_level(book),
    ensures
        no_empty_level(L3Queues::empty()),
        no_empty_level(book.updated(update)),
{
}

/// The best bid is the highest price with a bid, the best ask the lowest with an ask, each
/// with the total of its queue; there is none exactly when the side is empty.
pub proof fn law_l3_best_prices(book: &OrderBookL3, price: i64)
    ensures
        book@.bids.dom().finite(),
        book@.asks.dom().finite(),
        match book@.best_bid() {
            Some((p, q)) => {
                &&& book@.bids.contains_key(p)
                &&& running_total(book@.queue(Side::Buy, p)) == q
                &&& book@.bids.contains_key(price) ==> price <= p
            },
            None => !book@.bids.contains_key(price),
        },
        match book@.best_ask() {
            Some((p, q)) => {
                &&& book@.asks.contains_key(p)
                &&& running_total(book@.queue(Side::Sell, p)) == q
                &&& book@.asks.contains_key(price) ==> p <= price
            },
            None => !book@.asks.contains_key(price),
        },
{
    assert(book@.bids.dom() =~= book.bids@.dom());
    assert(book@.asks.dom() =~= book.asks@.dom());
    if !(book@.bids =~= Map::empty()) {
        lemma_highest_exists(book@.bids);
    }
    if !(book@.asks =~= Map::empty()) {
        lemma_lowest_exists(book@.asks);
    }
}

/// An update changes nothing but the level that it names.
pub proof fn law_l3_update_is_local(book: L3Queues, update: L3Update, side: Side, price: i64)
    requires
        side != update.side || price != update.price,
    ensures
        book.updated(update).queue(side, price) == book.queue(side, price),
{
}

/// Where no quantity is negative, the total of a queue is the plain sum, limited to
/// the largest `i64`.
pub proof fn law_l3_total_is_sum(queue: Seq<(u64, i64)>)
    requires
        forall|i: int| 0 <= i < queue.len() ==> 0 <= (#[trigger] queue[i]).1,
    ensures
        running_total(queue) == clamp_i64(plain_total(queue)),
        0 <= plain_total(queue),
    decreases queue.len(),
{
    if queue.len() > 0 {
        let front = queue.drop_last();
        assert forall|i: int| 0 <= i < front.len() implies 0 <= (#[trigger] front[i]).1 by {
            assert(front[i] == queue[i]);
        }
        law_l3_total_is_sum(front);
        assert(0 <= queue[queue.len() - 1].1);
    }
}

/// The queue at a price: that of the bids to a buy, that of the asks to a sell.
pub open spec fn raw_queue(book: L3Queues, side: Side, price: i64) -> Seq<(u64, i64)> {
    if side is Buy && book.bids.contains_key(price) {
        book.bids[price]
    } else if side is Sell && book.asks.contains_key(price) {
        book.asks[price]
    } else {
        Seq::empty()
    }
}

/// What an order-by-order book shows of a price: the sum of the queue there, and as ahead of
/// an order the sum of the entries before its own, the first of which is at `k`; all of them
/// where it has none, and `k` is their number.
pub proof fn law_l3_shows_the_queue(
    book: L3Queues,
    side: Side,
    price: i64,
    order_id: u64,
    k: int,
)
    requires
        ({
            let queue = raw_queue(book, side, price);
            &&& forall|i: int| 0 <= i < queue.len() ==> 0 <= (#[trigger] queue[i]).1
            &&& plain_total(queue) <= i64::MAX
            &&& 0 <= k <= queue.len()
            &&& forall|i: int| 0 <= i < k ==> (#[trigger] queue[i]).0 != order_id
            &&& k < queue.len() ==> queue[k].0 == order_id
        }),
    ensures
        ({
            let queue = raw_queue(book, side, price);
            let shown = book.depth_at(side, price, order_id);
            &&& shown.level_qty == plain_total(queue)
            &&& shown.orders_ahead == queue.take(k)
            &&& shown.qty_ahead == plain_total(queue.take(k))
            &&& book.queue(side, price) == queue
        }),
{
    let queue = raw_queue(book, side, price);
    assert(book.queue(side, price) == queue);
    lemma_entries_ahead(queue, order_id, k);
    law_l3_total_is_sum(queue);
    let ahead = queue.take(k);
    assert forall|i: int| 0 <= i < ahead.len() implies 0 <= (#[trigger] ahead[i]).1 by {
        assert(ahead[i] == queue[i]);
    }
    law_l3_total_is_sum(ahead);
    lemma_part_is_no_more(queue, k);
}

proof fn lemma_part_is_no_more(queue: Seq<(u64, i64)>, k: int)
    requires
        0 <= k <= queue.len(),
        forall|i: int| 0 <= i < queue.len() ==> 0 <= (#[trigger] queue[i]).1,
    ensures
        plain_total(queue.take(k)) <= plain_total(queue),
    decreases queue.len(),
{
    if k < queue.len() {
        let front = queue.drop_last();
        assert forall|i: int| 0 <= i < front.len() implies 0 <= (#[trigger] front[i]).1 by {
            assert(front[i] == queue[i]);
        }
        lemma_part_is_no_more(front, k);
        assert(front.take(k) =~= queue.take(k));
        assert(queue[queue.len() - 1].1 >= 0);
    } else {
        assert(queue.take(k) =~= queue);
    }
}

/// What each action does to the queue that it names: an order that is added goes to the back
/// with its quantity; one that is modified keeps its place, the first of its entries, at `k`,
/// with the new quantity; one that is deleted leaves, and the others close up.
pub proof fn law_l3_actions(book: L3Queues, update: L3Update, k: int)
    requires
        !(update.side is NoSide),
    ensures
        ({
            let before = raw_queue(book, update.side, update.price);
            let after = raw_queue(book.updated(update), update.side, update.price);
            let is_there = 0 <= k < before.len() && before[k].0 == update.order_id && forall|
                i: int,
            |
                0 <= i < k ==> (#[trigger] before[i]).0 != update.order_id;
            &&& update.action == 1 ==> after == before.push((update.order_id, update.qty))
            &&& update.action == 2 && is_there ==> after == before.update(
                k,
                (update.order_id, update.qty),
            )
            &&& update.action == 3 && is_there && (forall|i: int|
                k < i < before.len() ==> (#[trigger] before[i]).0 != update.order_id) ==> after
                == before.remove(k)
            &&& update.action != 1 && (forall|i: int|
                0 <= i < before.len() ==> (#[trigger] before[i]).0 != update.order_id) ==> after
                == before
            &&& update.action != 1 && update.action != 2 && update.action != 3 ==> after == before
        }),
{
    let before = raw_queue(book, update.side, update.price);
    let id = update.order_id;
    assert(book.queue(update.side, update.price) == before);
    if update.action == 2 && 0 <= k < before.len() && before[k].0 == id && forall|i: int|
        0 <= i < k ==> (#[trigger] before[i]).0 != id {
        lemma_entries_ahead(before, id, k);
    }
    if update.action == 3 && 0 <= k < before.len() && before[k].0 == id && (forall|i: int|
        0 <= i < k ==> (#[trigger] before[i]).0 != id) && (forall|i: int|
        k < i < before.len() ==> (#[trigger] before[i]).0 != id) {
        lemma_without_entry(before, id, k);
        if before.len() == 1 {
            assert(before.remove(k) =~= Seq::empty());
        }
    }
    if forall|i: int| 0 <= i < before.len() ==> (#[trigger] before[i]).0 != id {
        assert(!is_queued(before, id));
        lemma_not_queued(before, id);
        if before.len() == 0 {
            assert(before =~= Seq::empty());
        }
    }
}

proof fn lemma_without_entry(queue: Seq<(u64, i64)>, order_id: u64, k: int)
    requires
        0 <= k < queue.len(),
        queue[k].0 == order_id,
        forall|i: int| 0 <= i < k ==> (#[trigger] queue[i]).0 != order_id,
        forall|i: int| k < i < queue.len() ==> (#[trigger] queue[i]).0 != order_id,
    ensures
        without(queue, order_id) =~= queue.remove(k),
    decreases queue.len(),
{
    reveal(Seq::filter);
    let front = queue.drop_last();
    if k < queue.len() - 1 {
        assert(front[k] == queue[k]);
        assert forall|i: int| 0 <= i < k implies (#[trigger] front[i]).0 != order_id by {
            assert(front[i] == queue[i]);
        }
        assert forall|i: int| k < i < front.len() implies (#[trigger] front[i]).0 != order_id by {
            assert(front[i] == queue[i]);
        }
        lemma_without_entry(front, order_id, k);
        assert(queue[queue.len() - 1].0 != order_id);
    } else {
        assert forall|i: int| 0 <= i < front.len() implies (#[trigger] front[i]).0
            != order_id by {
            assert(front[i] == queue[i]);
        }
        lemma_without_nothing(front, order_id);
    }
}

} // verus!
