//! Price-level order book, and the read interface shared by all depth books.
use std::collections::{BTreeMap, VecDeque};

use vstd::prelude::*;

use crate::collections::{btree_first, btree_last};
use crate::types::{L2Update, Side};

verus! {

/// What a book shows of one price level, seen from one order.
#[verifier::ext_equal]
pub struct DepthAt {
    /// Total resting quantity.
    pub level_qty: i64,
    /// Quantity ahead of the order.
    pub qty_ahead: i64,
    /// Venue orders ahead of the order, first in the queue first.
    pub orders_ahead: Seq<(u64, i64)>,
}

/// Unified read interface for L2 and L3 depth snapshots.
pub trait MarketDepth: Send {
    /// What the book shows of a price level to the order `order_id`.
    spec fn depth_at(&self, side: Side, price: i64, order_id: u64) -> DepthAt;

    /// Total resting quantity at a price level.
    fn level_qty(&self, side: Side, price: i64) -> (r: i64)
        ensures
            forall|order_id: u64| r == (#[trigger] self.depth_at(side, price, order_id)).level_qty,
    ;

    /// Quantity ahead of a specific order at a price level.
    ///
    /// L2 books do not know individual order IDs, so they conservatively return
    /// the full level quantity.
    fn qty_ahead(&self, side: Side, price: i64, order_id: u64) -> (r: i64)
        ensures
            r == self.depth_at(side, price, order_id).qty_ahead,
    ;

    /// Ordered venue orders ahead at a price level. L2 books do not expose this.
    fn orders_ahead(&self, side: Side, price: i64, order_id: u64) -> (r: VecDeque<(u64, i64)>)
        ensures
            r@ == self.depth_at(side, price, order_id).orders_ahead,
    ;
}

/// The levels of an L2 book: from price to quantity.
#[verifier::ext_equal]
pub struct L2Levels {
    pub bids: Map<i64, i64>,
    pub asks: Map<i64, i64>,
}

/// Whether `p` is the largest key of `m`.
pub open spec fn is_highest<V>(m: Map<i64, V>, p: i64) -> bool {
    m.contains_key(p) && forall|q: i64| #[trigger] m.contains_key(q) ==> q <= p
}

/// Whether `p` is the smallest key of `m`.
pub open spec fn is_lowest<V>(m: Map<i64, V>, p: i64) -> bool {
    m.contains_key(p) && forall|q: i64| #[trigger] m.contains_key(q) ==> p <= q
}

/// One side after an update: quantity 0 removes the level, any other sets it.
pub open spec fn set_level(levels: Map<i64, i64>, price: i64, qty: i64) -> Map<i64, i64> {
    if qty == 0 {
        levels.remove(price)
    } else {
        levels.insert(price, qty)
    }
}

/// The quantity of a level, 0 where there is none.
pub open spec fn qty_at(levels: Map<i64, i64>, price: i64) -> i64 {
    if levels.contains_key(price) {
        levels[price]
    } else {
        0
    }
}

/// No level has the quantity 0.
pub open spec fn no_zero_level(levels: L2Levels) -> bool {
    &&& forall|p: i64| #[trigger] levels.bids.contains_key(p) ==> levels.bids[p] != 0
    &&& forall|p: i64| #[trigger] levels.asks.contains_key(p) ==> levels.asks[p] != 0
}

impl L2Levels {
    pub open spec fn empty() -> L2Levels {
        L2Levels { bids: Map::empty(), asks: Map::empty() }
    }

    pub open spec fn updated(self, update: L2Update) -> L2Levels {
        match update.side {
            Side::Buy => L2Levels {
                bids: set_level(self.bids, update.price, update.qty),
                ..self
            },
            Side::Sell => L2Levels {
                asks: set_level(self.asks, update.price, update.qty),
                ..self
            },
            Side::NoSide => self,
        }
    }

    pub open spec fn level(self, side: Side, price: i64) -> i64 {
        match side {
            Side::Buy => qty_at(self.bids, price),
            Side::Sell => qty_at(self.asks, price),
            Side::NoSide => 0,
        }
    }

    /// The highest bid, with its quantity.
    pub open spec fn best_bid(self) -> Option<(i64, i64)> {
        if self.bids =~= Map::empty() {
            None
        } else {
            let p = choose|p: i64| is_highest(self.bids, p);
            Some((p, self.bids[p]))
        }
    }

    /// The lowest ask, with its quantity.
    pub open spec fn best_ask(self) -> Option<(i64, i64)> {
        if self.asks =~= Map::empty() {
            None
        } else {
            let p = choose|p: i64| is_lowest(self.asks, p);
            Some((p, self.asks[p]))
        }
    }
}

/// Minimal L2 order book (price level) representation.
#[derive(Debug, Clone)]
pub struct OrderBookL2 {
    bids: BTreeMap<i64, i64>,
    asks: BTreeMap<i64, i64>,
}

impl View for OrderBookL2 {
    type V = L2Levels;

    closed spec fn view(&self) -> L2Levels {
        L2Levels { bids: self.bids@, asks: self.asks@ }
    }
}

impl Default for OrderBookL2 {
    fn default() -> (r: Self)
        ensures
            r@ == L2Levels::empty(),
    {
        OrderBookL2 { bids: BTreeMap::new(), asks: BTreeMap::new() }
    }
}

/// Sets a level, or removes it.
fn write_level(levels: &mut BTreeMap<i64, i64>, price: i64, qty: i64)
    ensures
        final(levels)@ == set_level(old(levels)@, price, qty),
{
    if qty == 0 {
        levels.remove(&price);
    } else {
        levels.insert(price, qty);
    }
}

fn read_level(levels: &BTreeMap<i64, i64>, price: i64) -> (r: i64)
    ensures
        r == qty_at(levels@, price),
{
    match levels.get(&price) {
        Some(qty) => *qty,
        None => 0,
    }
}

impl OrderBookL2 {
    pub fn new() -> (r: Self)
        ensures
            r@ == L2Levels::empty(),
            no_zero_level(r@),
    {
        Self::default()
    }

    pub fn apply_l2(&mut self, update: &L2Update)
        ensures
            final(self)@ == old(self)@.updated(*update),
            no_zero_level(old(self)@) ==> no_zero_level(final(self)@),
    {
        match update.side {
            Side::Buy => write_level(&mut self.bids, update.price, update.qty),
            Side::Sell => write_level(&mut self.asks, update.price, update.qty),
            Side::NoSide => {},
        }
        proof {
            assert(self@ =~= old(self)@.updated(*update));
            if no_zero_level(old(self)@) {
                law_l2_no_zero_level(old(self)@, *update);
            }
        }
    }

    pub fn level_qty(&self, side: Side, price: i64) -> (r: i64)
        ensures
            r == self@.level(side, price),
    {
        match side {
            Side::Buy => read_level(&self.bids, price),
            Side::Sell => read_level(&self.asks, price),
            Side::NoSide => 0,
        }
    }

    pub fn best_bid(&self) -> (r: Option<(i64, i64)>)
        ensures
            r == self@.best_bid(),
    {
        match btree_last(&self.bids) {
            Some((p, q)) => {
                proof {
                    assert(is_highest(self@.bids, *p));
                    let c = choose|c: i64| is_highest(self@.bids, c);
                    assert(c <= *p && *p <= c);
                }
                Some((*p, *q))
            },
            None => None,
        }
    }

    pub fn best_ask(&self) -> (r: Option<(i64, i64)>)
        ensures
            r == self@.best_ask(),
    {
        match btree_first(&self.asks) {
            Some((p, q)) => {
                proof {
                    assert(is_lowest(self@.asks, *p));
                    let c = choose|c: i64| is_lowest(self@.asks, c);
                    assert(c <= *p && *p <= c);
                }
                Some((*p, *q))
            },
            None => None,
        }
    }
}

impl MarketDepth for OrderBookL2 {
    open spec fn depth_at(&self, side: Side, price: i64, order_id: u64) -> DepthAt {
        l2_depth_at(self@, side, price)
    }

    fn level_qty(&self, side: Side, price: i64) -> (r: i64) {
        OrderBookL2::level_qty(self, side, price)
    }

    fn qty_ahead(&self, side: Side, price: i64, order_id: u64) -> (r: i64) {
        OrderBookL2::level_qty(self, side, price)
    }

    fn orders_ahead(&self, side: Side, price: i64, order_id: u64) -> (r: VecDeque<(u64, i64)>) {
        VecDeque::new()
    }
}

/// An L2 book shows any order the whole level as ahead of it, and no venue order.
pub open spec fn l2_depth_at(levels: L2Levels, side: Side, price: i64) -> DepthAt {
    DepthAt {
        level_qty: levels.level(side, price),
        qty_ahead: levels.level(side, price),
        orders_ahead: Seq::empty(),
    }
}

/// A level reads back as it was last written, and no other level changes.
pub proof fn law_l2_read_after_write(
    levels: L2Levels,
    update: L2Update,
    side: Side,
    price: i64,
)
    ensures
        !(update.side is NoSide) ==> levels.updated(update).level(update.side, update.price)
            == update.qty,
        (side != update.side || price != update.price) ==> levels.updated(update).level(side, price)
            == levels.level(side, price),
{
}

/// An update with quantity 0 leaves no level at its price.
pub proof fn law_l2_zero_removes_level(levels: L2Levels, update: L2Update)
    requires
        update.qty == 0,
    ensures
        update.side is Buy ==> !levels.updated(update).bids.contains_key(update.price),
        update.side is Sell ==> !levels.updated(update).asks.contains_key(update.price),
{
}

/// A level disappears with its quantity: a new book has no level with the quantity 0, and
/// no update makes one.
pub proof fn law_l2_no_zero_level(levels: L2Levels, update: L2Update)
    requires
        no_zero_level(levels),
    ensures
        no_zero_level(L2Levels::empty()),
        no_zero_level(levels.updated(update)),
{
}

/// The best bid is the highest price with a bid, the best ask the lowest with an ask;
/// there is none exactly when the side is empty.
pub proof fn law_l2_best_prices(book: &OrderBookL2, price: i64)
    ensures
        book@.bids.dom().finite(),
        book@.asks.dom().finite(),
        match book@.best_bid() {
            Some((p, q)) => book@.bids.contains_key(p) && book@.bids[p] == q && (
            book@.bids.contains_key(price) ==> price <= p),
            None => !book@.bids.contains_key(price),
        },
        match book@.best_ask() {
            Some((p, q)) => book@.asks.contains_key(p) && book@.asks[p] == q && (
            book@.asks.contains_key(price) ==> p <= price),
            None => !book@.asks.contains_key(price),
        },
{
    if !(book@.bids =~= Map::empty()) {
        lemma_highest_exists(book@.bids);
    }
    if !(book@.asks =~= Map::empty()) {
        lemma_lowest_exists(book@.asks);
    }
}

/// A finite map with an entry has a largest key.
pub proof fn lemma_highest_exists<V>(m: Map<i64, V>)
    requires
        m.dom().finite(),
        !(m =~= Map::<i64, V>::empty()),
    ensures
        exists|p: i64| is_highest(m, p),
    decreases m.dom().len(),
{
    let k = choose|k: i64| m.contains_key(k);
    assert(exists|k: i64| m.contains_key(k)) by {
        if forall|k: i64| !m.contains_key(k) {
            assert(m =~= Map::empty());
        }
    }
    let rest = m.remove(k);
    if rest =~= Map::<i64, V>::empty() {
        assert forall|q: i64| #[trigger] m.contains_key(q) implies q <= k by {
            if q != k {
                assert(rest.contains_key(q));
            }
        }
        assert(is_highest(m, k));
    } else {
        lemma_highest_exists(rest);
        let p = choose|p: i64| is_highest(rest, p);
        let best = if p < k {
            k
        } else {
            p
        };
        assert forall|q: i64| #[trigger] m.contains_key(q) implies q <= best by {
            if q != k {
                assert(rest.contains_key(q));
            }
        }
        assert(is_highest(m, best));
    }
}

/// A finite map with an entry has a smallest key.
pub proof fn lemma_lowest_exists<V>(m: Map<i64, V>)
    requires
        m.dom().finite(),
        !(m =~= Map::<i64, V>::empty()),
    ensures
        exists|p: i64| is_lowest(m, p),
    decreases m.dom().len(),
{
    let k = choose|k: i64| m.contains_key(k);
    assert(exists|k: i64| m.contains_key(k)) by {
        if forall|k: i64| !m.contains_key(k) {
            assert(m =~= Map::empty());
        }
    }
    let rest = m.remove(k);
    if rest =~= Map::<i64, V>::empty() {
        assert forall|q: i64| #[trigger] m.contains_key(q) implies k <= q by {
            if q != k {
                assert(rest.contains_key(q));
            }
        }
        assert(is_lowest(m, k));
    } else {
        lemma_lowest_exists(rest);
        let p = choose|p: i64| is_lowest(rest, p);
        let best = if k < p {
            k
        } else {
            p
        };
        assert forall|q: i64| #[trigger] m.contains_key(q) implies best <= q by {
            if q != k {
                assert(rest.contains_key(q));
            }
        }
        assert(is_lowest(m, best));
    }
}

/// What a price-level book shows of a price: the quantity of the bids there to a buy, that
/// of the asks to a sell, and all of it as ahead of any order.
pub proof fn law_l2_shows_the_level(levels: L2Levels, side: Side, price: i64)
    ensures
        ({
            let shown = l2_depth_at(levels, side, price);
            &&& side is Buy && levels.bids.contains_key(price) ==> shown.level_qty
                == levels.bids[price]
            &&& side is Buy && !levels.bids.contains_key(price) ==> shown.level_qty == 0
            &&& side is Sell && levels.asks.contains_key(price) ==> shown.level_qty
                == levels.asks[price]
            &&& side is Sell && !levels.asks.contains_key(price) ==> shown.level_qty == 0
            &&& side is NoSide ==> shown.level_qty == 0
            &&& shown.qty_ahead == shown.level_qty
            &&& shown.orders_ahead.len() == 0
            &&& levels.level(side, price) == shown.level_qty
        }),
{
}

/// An update of bids leaves the asks alone, and the other way round; one without a side
/// changes nothing.
pub proof fn law_l2_sides_are_apart(levels: L2Levels, update: L2Update)
    ensures
        update.side is Buy ==> levels.updated(update).asks == levels.asks,
        update.side is Sell ==> levels.updated(update).bids == levels.bids,
        update.side is NoSide ==> levels.updated(update) == levels,
        update.side is Buy && update.qty != 0 ==> levels.updated(update).bids.contains_key(
            update.price,
        ) && levels.updated(update).bids[update.price] == update.qty,
        update.side is Sell && update.qty != 0 ==> levels.updated(update).asks.contains_key(
            update.price,
        ) && levels.updated(update).asks[update.price] == update.qty,
{
}

} // verus!
