//! Positions, realised PnL and funding.
use std::collections::BTreeMap;

use vstd::prelude::*;

use crate::cost_basis::{after_fill, apply_fill, realised, PosState};
use crate::math::{
    clamp_i128, clamp_i64, clamp_to_i64, div_toward_zero, law_division_rounds_toward_zero,
    lemma_product_bounds, lemma_trunc_div_bounds, sat_add, sat_mul_wide, sat_neg, trunc_div,
};
use crate::types::{FundingEvent, Order, Side, FIXED_SCALE};

verus! {

/// Position in one symbol.
#[derive(Debug, Clone, Copy, PartialEq, Eq, Structural)]
pub struct Position {
    /// Base asset position size (scaled by 1e8). Positive = long, negative = short.
    pub qty: i64,
    /// Accumulated funding PnL (scaled by 1e8). Positive = received, negative = paid.
    pub funding_pnl: i64,
    /// Average entry price of the quantity that was filled at a known price.
    pub avg_price: i64,
}

impl Position {
    pub open spec fn flat() -> Position {
        Position { qty: 0, funding_pnl: 0, avg_price: 0 }
    }

    /// The part of the position that the average-cost model works on.
    pub open spec fn cost(self) -> PosState {
        PosState { qty: self.qty, avg_price: self.avg_price, last_open_ts: 0 }
    }
}

impl Default for Position {
    fn default() -> (r: Self)
        ensures
            r == Position::flat(),
    {
        Position { qty: 0, funding_pnl: 0, avg_price: 0 }
    }
}

/// The change of position that a fill of an order brings.
pub open spec fn fill_change(side: Side, fill_qty: i64) -> i64 {
    match side {
        Side::Buy => fill_qty,
        Side::Sell => clamp_i64(-fill_qty),
        Side::NoSide => 0,
    }
}

/// Funding cashflow of a position: what a positive rate makes longs pay and shorts
/// receive. Quantities are fixed-point, and each division rounds toward zero.
pub open spec fn funding_cashflow(qty: i64, mark_price: i64, rate: i64) -> i64 {
    let notional = trunc_div(qty * mark_price, FIXED_SCALE as int);
    let payment = trunc_div(clamp_i128(notional * rate), FIXED_SCALE as int);
    clamp_i64(-payment)
}

/// The mathematical value of an account.
#[verifier::ext_equal]
pub struct AccountView {
    pub positions: Map<u32, Position>,
    pub total_funding_pnl: i64,
}

impl AccountView {
    pub open spec fn empty() -> AccountView {
        AccountView { positions: Map::empty(), total_funding_pnl: 0 }
    }

    /// The position of a symbol, flat where there is none.
    pub open spec fn position(self, symbol_id: u32) -> Position {
        if self.positions.contains_key(symbol_id) {
            self.positions[symbol_id]
        } else {
            Position::flat()
        }
    }

    /// After a fill of which only the quantity counts.
    pub open spec fn with_fill(self, order: Order, fill_qty: i64) -> AccountView {
        let delta = fill_change(order.side, fill_qty);
        let p = self.position(order.symbol_id);
        if delta == 0 {
            self
        } else {
            AccountView {
                positions: self.positions.insert(
                    order.symbol_id,
                    Position { qty: clamp_i64(p.qty + delta), ..p },
                ),
                ..self
            }
        }
    }

    /// After a fill at a price.
    pub open spec fn with_fill_at(self, order: Order, fill_qty: i64, price: i64) -> AccountView {
        let delta = fill_change(order.side, fill_qty);
        let p = self.position(order.symbol_id);
        let cost = after_fill(p.cost(), 0, price, delta as int);
        if delta == 0 {
            self
        } else {
            AccountView {
                positions: self.positions.insert(
                    order.symbol_id,
                    Position { qty: cost.qty, avg_price: cost.avg_price, ..p },
                ),
                ..self
            }
        }
    }

    /// What a fill at a price realises.
    pub open spec fn realised_at(self, order: Order, fill_qty: i64, price: i64) -> i64 {
        realised(
            self.position(order.symbol_id).cost(),
            price,
            fill_change(order.side, fill_qty) as int,
        )
    }

    /// The cashflow of a funding event.
    pub open spec fn funding(self, event: FundingEvent, mark_price: i64) -> i64 {
        let p = self.position(event.symbol_id);
        if p.qty == 0 || event.rate == 0 || mark_price == 0 {
            0
        } else {
            funding_cashflow(p.qty, mark_price, event.rate)
        }
    }

    /// After a funding event.
    pub open spec fn with_funding(self, event: FundingEvent, mark_price: i64) -> AccountView {
        let p = self.position(event.symbol_id);
        let pnl = self.funding(event, mark_price);
        if p.qty == 0 || event.rate == 0 || mark_price == 0 {
            self
        } else {
            AccountView {
                positions: self.positions.insert(
                    event.symbol_id,
                    Position { funding_pnl: clamp_i64(p.funding_pnl + pnl), ..p },
                ),
                total_funding_pnl: clamp_i64(self.total_funding_pnl + pnl),
            }
        }
    }
}

/// Positions and funding of one trading session.
#[derive(Debug)]
pub struct Account {
    positions: BTreeMap<u32, Position>,
    total_funding_pnl: i64,
}

impl View for Account {
    type V = AccountView;

    closed spec fn view(&self) -> AccountView {
        AccountView { positions: self.positions@, total_funding_pnl: self.total_funding_pnl }
    }
}

impl Default for Account {
    fn default() -> (r: Self)
        ensures
            r@ == AccountView::empty(),
    {
        Account { positions: BTreeMap::new(), total_funding_pnl: 0 }
    }
}

fn change_of(order: &Order, fill_qty: i64) -> (r: i64)
    ensures
        r == fill_change(order.side, fill_qty),
{
    match order.side {
        Side::Buy => fill_qty,
        Side::Sell => sat_neg(fill_qty),
        Side::NoSide => 0,
    }
}

impl Account {
    pub fn position(&self, symbol_id: u32) -> (r: Option<&Position>)
        ensures
            match r {
                Some(p) => self@.positions.contains_key(symbol_id) && *p
                    == self@.positions[symbol_id],
                None => !self@.positions.contains_key(symbol_id),
            },
    {
        self.positions.get(&symbol_id)
    }

    pub fn position_qty(&self, symbol_id: u32) -> (r: i64)
        ensures
            r == self@.position(symbol_id).qty,
    {
        match self.positions.get(&symbol_id) {
            Some(p) => p.qty,
            None => 0,
        }
    }

    pub fn total_funding_pnl(&self) -> (r: i64)
        ensures
            r == self@.total_funding_pnl,
    {
        self.total_funding_pnl
    }

    fn position_or_flat(&self, symbol_id: u32) -> (r: Position)
        ensures
            r == self@.position(symbol_id),
    {
        match self.positions.get(&symbol_id) {
            Some(p) => *p,
            None => Position::default(),
        }
    }

    /// Moves the position by a fill. The price of the fill is not known here: the
    /// average entry price stays as it is.
    pub fn on_fill(&mut self, order: &Order, fill_qty: i64)
        ensures
            final(self)@ == old(self)@.with_fill(*order, fill_qty),
    {
        let delta: i64 = change_of(order, fill_qty);
        if delta == 0 {
            return ;
        }
        let mut p: Position = self.position_or_flat(order.symbol_id);
        p.qty = sat_add(p.qty, delta);
        self.positions.insert(order.symbol_id, p);
    }

    /// Moves the position by a fill at a price and returns the realised PnL (quote,
    /// scaled by 1e8): 0 for a fill that opens or adds.
    pub fn on_fill_at(&mut self, order: &Order, fill_qty: i64, fill_price: i64) -> (pnl: i64)
        ensures
            final(self)@ == old(self)@.with_fill_at(*order, fill_qty, fill_price),
            pnl == old(self)@.realised_at(*order, fill_qty, fill_price),
    {
        let delta: i64 = change_of(order, fill_qty);
        if delta == 0 {
            return 0;
        }
        let mut p: Position = self.position_or_flat(order.symbol_id);
        let mut cost = PosState { qty: p.qty, avg_price: p.avg_price, last_open_ts: 0 };
        let pnl: i64 = apply_fill(&mut cost, 0, fill_price, delta);
        p.qty = cost.qty;
        p.avg_price = cost.avg_price;
        self.positions.insert(order.symbol_id, p);
        pnl
    }

    /// Apply a funding event using the given mark price.
    ///
    /// Funding cashflow convention:
    /// - Positive rate => longs pay shorts.
    /// - Negative rate => shorts pay longs.
    ///
    /// Returns the funding cashflow (quote, scaled by 1e8): positive = received, negative = paid.
    pub fn apply_funding(&mut self, event: &FundingEvent, mark_price: i64) -> (pnl: i64)
        ensures
            pnl == old(self)@.funding(*event, mark_price),
            final(self)@ == old(self)@.with_funding(*event, mark_price),
    {
        let mut p: Position = match self.positions.get(&event.symbol_id) {
            Some(p) => *p,
            None => {
                return 0;
            },
        };
        if p.qty == 0 || event.rate == 0 || mark_price == 0 {
            return 0;
        }
        let scale: i128 = FIXED_SCALE as i128;
        proof {
            lemma_product_bounds(p.qty as int, mark_price as int);
            lemma_trunc_div_bounds(p.qty * mark_price, FIXED_SCALE as int);
        }
        // quote_scaled = qty_scaled * price_scaled / SCALE
        let notional: i128 = div_toward_zero(p.qty as i128 * mark_price as i128, scale);
        // payment_scaled = notional_scaled * rate_scaled / SCALE
        let due: i128 = sat_mul_wide(notional, event.rate as i128);
        let payment: i128 = div_toward_zero(due, scale);
        proof {
            lemma_payment_bounds(due as int);
        }
        // A positive payment means that the long pays under a positive rate.
        let pnl: i64 = clamp_to_i64(-payment);
        p.funding_pnl = sat_add(p.funding_pnl, pnl);
        self.positions.insert(event.symbol_id, p);
        self.total_funding_pnl = sat_add(self.total_funding_pnl, pnl);
        pnl
    }
}

proof fn lemma_payment_bounds(due: int)
    requires
        i128::MIN <= due <= i128::MAX,
    ensures
        i128::MIN < trunc_div(due, FIXED_SCALE as int) <= i128::MAX,
{
    lemma_trunc_div_bounds(due, FIXED_SCALE as int);
}

/// The direction of funding: under a positive rate and price a long never receives and a
/// short never pays; under a negative rate the other way round.
pub proof fn law_funding_direction(account: AccountView, event: FundingEvent, mark_price: i64)
    requires
        mark_price > 0,
    ensures
        ({
            let qty = account.position(event.symbol_id).qty;
            let pnl = account.funding(event, mark_price);
            &&& (qty >= 0) == (event.rate >= 0) ==> pnl <= 0
            &&& qty >= 0 && event.rate <= 0 ==> pnl >= 0
            &&& qty <= 0 && event.rate >= 0 ==> pnl >= 0
        }),
{
    let qty = account.position(event.symbol_id).qty;
    if qty != 0 && event.rate != 0 {
        let notional = trunc_div(qty * mark_price, FIXED_SCALE as int);
        let (q, m, r) = (qty as int, mark_price as int, event.rate as int);
        if q > 0 {
            assert(q * m >= 0) by (nonlinear_arith)
                requires
                    q > 0,
                    m > 0,
            ;
        } else {
            assert(q * m <= 0) by (nonlinear_arith)
                requires
                    q < 0,
                    m > 0,
            ;
        }
        lemma_trunc_div_bounds(q * m, FIXED_SCALE as int);
        if (q > 0) == (r > 0) {
            assert(notional * r >= 0) by (nonlinear_arith)
                requires
                    q > 0 ==> notional >= 0 && r > 0,
                    q < 0 ==> notional <= 0 && r < 0,
                    q != 0,
            ;
        } else {
            assert(notional * r <= 0) by (nonlinear_arith)
                requires
                    q > 0 ==> notional >= 0 && r < 0,
                    q < 0 ==> notional <= 0 && r > 0,
                    q != 0,
            ;
        }
        lemma_trunc_div_bounds(clamp_i128(notional * r), FIXED_SCALE as int);
    }
}

/// Funding moves cash, not positions: no quantity and no entry price changes, and the
/// total changes by exactly the cashflow that is returned.
pub proof fn law_funding_keeps_positions(
    account: AccountView,
    event: FundingEvent,
    mark_price: i64,
    symbol_id: u32,
)
    ensures
        ({
            let after = account.with_funding(event, mark_price);
            &&& after.position(symbol_id).qty == account.position(symbol_id).qty
            &&& after.position(symbol_id).avg_price == account.position(symbol_id).avg_price
            &&& after.total_funding_pnl == clamp_i64(
                account.total_funding_pnl + account.funding(event, mark_price),
            )
            &&& symbol_id != event.symbol_id ==> after.position(symbol_id) == account.position(
                symbol_id,
            )
        }),
{
}

/// Both kinds of fill move the quantity alike, and touch only the symbol of the order.
pub proof fn law_fills_move_quantity_alike(
    account: AccountView,
    order: Order,
    fill_qty: i64,
    price: i64,
    symbol_id: u32,
)
    ensures
        account.with_fill_at(order, fill_qty, price).position(symbol_id).qty == account.with_fill(
            order,
            fill_qty,
        ).position(symbol_id).qty,
        symbol_id != order.symbol_id ==> account.with_fill_at(order, fill_qty, price).position(
            symbol_id,
        ) == account.position(symbol_id),
{
}

/// Something that happens to an account.
pub ghost enum AccountEvent {
    Fill { order: Order, qty: i64 },
    PricedFill { order: Order, qty: i64, price: i64 },
    Funding { event: FundingEvent, mark_price: i64 },
}

impl AccountView {
    /// After something happened.
    pub open spec fn after(self, e: AccountEvent) -> AccountView {
        match e {
            AccountEvent::Fill { order, qty } => self.with_fill(order, qty),
            AccountEvent::PricedFill { order, qty, price } => self.with_fill_at(order, qty, price),
            AccountEvent::Funding { event, mark_price } => self.with_funding(event, mark_price),
        }
    }

    /// The cashflow of something that happens, for one symbol.
    pub open spec fn cashflow(self, e: AccountEvent, symbol_id: u32) -> int {
        match e {
            AccountEvent::Funding { event, mark_price } if event.symbol_id == symbol_id =>
                self.funding(event, mark_price) as int,
            _ => 0,
        }
    }
}

/// The account after a sequence of events, from an empty one.
pub open spec fn account_after(events: Seq<AccountEvent>) -> AccountView
    decreases events.len(),
{
    if events.len() == 0 {
        AccountView::empty()
    } else {
        account_after(events.drop_last()).after(events.last())
    }
}

/// The cashflows of one symbol, added up.
pub open spec fn symbol_cash(events: Seq<AccountEvent>, symbol_id: u32) -> int
    decreases events.len(),
{
    if events.len() == 0 {
        0
    } else {
        symbol_cash(events.drop_last(), symbol_id) + account_after(events.drop_last()).cashflow(
            events.last(),
            symbol_id,
        )
    }
}

/// All values that funding returned, added up.
pub open spec fn returned_cash(events: Seq<AccountEvent>) -> int
    decreases events.len(),
{
    if events.len() == 0 {
        0
    } else {
        returned_cash(events.drop_last()) + match events.last() {
            AccountEvent::Funding { event, mark_price } => account_after(
                events.drop_last(),
            ).funding(event, mark_price) as int,
            _ => 0,
        }
    }
}

/// Whether no sum of cashflows ever leaves the range of `i64`.
pub open spec fn cash_fits(events: Seq<AccountEvent>) -> bool
    decreases events.len(),
{
    events.len() > 0 ==> {
        &&& cash_fits(events.drop_last())
        &&& i64::MIN <= returned_cash(events) <= i64::MAX
        &&& forall|symbol_id: u32| i64::MIN <= #[trigger] symbol_cash(events, symbol_id) <= i64::MAX
    }
}

/// The funding of all positions, added up.
pub open spec fn funding_sum(positions: Map<u32, Position>) -> int
    decreases positions.dom().len(),
    when positions.dom().finite()
{
    if positions.dom().len() == 0 {
        0
    } else {
        let k = positions.dom().choose();
        positions[k].funding_pnl + funding_sum(positions.remove(k))
    }
}

proof fn lemma_funding_sum_takes_out(positions: Map<u32, Position>, k: u32)
    requires
        positions.dom().finite(),
        positions.contains_key(k),
    ensures
        funding_sum(positions) == positions[k].funding_pnl + funding_sum(positions.remove(k)),
    decreases positions.dom().len(),
{
    let c = positions.dom().choose();
    assert(positions.dom().contains(k));
    assert(positions.dom().len() != 0) by {
        if positions.dom().len() == 0 {
            assert(positions.dom() =~= Set::empty());
        }
    }
    assert(positions.dom().contains(c));
    if c != k {
        let without_c = positions.remove(c);
        let without_k = positions.remove(k);
        lemma_funding_sum_takes_out(without_c, k);
        lemma_funding_sum_takes_out(without_k, c);
        assert(without_c.remove(k) =~= without_k.remove(c));
    }
}

proof fn lemma_funding_sum_replaces(positions: Map<u32, Position>, k: u32, p: Position)
    requires
        positions.dom().finite(),
    ensures
        funding_sum(positions.insert(k, p)) == funding_sum(positions) + p.funding_pnl - (
        if positions.contains_key(k) {
            positions[k].funding_pnl as int
        } else {
            0
        }),
{
    let after = positions.insert(k, p);
    lemma_funding_sum_takes_out(after, k);
    if positions.contains_key(k) {
        lemma_funding_sum_takes_out(positions, k);
        assert(after.remove(k) =~= positions.remove(k));
    } else {
        assert(after.remove(k) =~= positions);
    }
}

/// Funding adds up: as long as no sum leaves the range of `i64`, the total is the sum of
/// what the positions received, and the sum of all cashflows that were returned.
pub proof fn law_funding_adds_up(events: Seq<AccountEvent>)
    requires
        cash_fits(events),
    ensures
        account_after(events).positions.dom().finite(),
        account_after(events).total_funding_pnl == returned_cash(events),
        account_after(events).total_funding_pnl == funding_sum(account_after(events).positions),
        forall|symbol_id: u32| #[trigger]
            account_after(events).position(symbol_id).funding_pnl == symbol_cash(
                events,
                symbol_id,
            ),
    decreases events.len(),
{
    if events.len() > 0 {
        let front = events.drop_last();
        law_funding_adds_up(front);
        let before = account_after(front);
        let after = account_after(events);
        assert forall|symbol_id: u32| #[trigger]
            after.position(symbol_id).funding_pnl == symbol_cash(events, symbol_id) by {
            assert(before.position(symbol_id).funding_pnl == symbol_cash(front, symbol_id));
        }
        match events.last() {
            AccountEvent::Fill { order, qty } => {
                let p = after.position(order.symbol_id);
                lemma_funding_sum_replaces(before.positions, order.symbol_id, p);
            },
            AccountEvent::PricedFill { order, qty, price } => {
                let p = after.position(order.symbol_id);
                lemma_funding_sum_replaces(before.positions, order.symbol_id, p);
            },
            AccountEvent::Funding { event, mark_price } => {
                let p = after.position(event.symbol_id);
                assert(p.funding_pnl == symbol_cash(events, event.symbol_id));
                lemma_funding_sum_replaces(before.positions, event.symbol_id, p);
            },
        }
    }
}

/// A fill moves the position of its symbol by its quantity: up for a buy, down for a sell,
/// and not at all without a side. Funding has no part in it.
pub proof fn law_fill_moves_position(account: AccountView, order: Order, fill_qty: i64, price: i64)
    ensures
        ({
            let before = account.position(order.symbol_id);
            let after = account.with_fill(order, fill_qty).position(order.symbol_id);
            let priced = account.with_fill_at(order, fill_qty, price).position(order.symbol_id);
            &&& order.side is Buy && i64::MIN <= before.qty + fill_qty <= i64::MAX ==> after.qty
                == before.qty + fill_qty && priced.qty == before.qty + fill_qty
            &&& order.side is Sell && fill_qty > i64::MIN && i64::MIN <= before.qty - fill_qty
                <= i64::MAX ==> after.qty == before.qty - fill_qty && priced.qty == before.qty
                - fill_qty
            &&& order.side is NoSide ==> after == before && priced == before
            &&& after.avg_price == before.avg_price
            &&& after.funding_pnl == before.funding_pnl
            &&& priced.funding_pnl == before.funding_pnl
            &&& account.with_fill_at(order, fill_qty, price).total_funding_pnl
                == account.total_funding_pnl
            &&& account.with_fill(order, fill_qty).total_funding_pnl == account.total_funding_pnl
        }),
{
}

/// The account realises what the average-cost model realises on a position of the same
/// quantity and average price, and keeps the average price that the model leaves.
pub proof fn law_account_keeps_average_cost(
    account: AccountView,
    order: Order,
    fill_qty: i64,
    price: i64,
    s: PosState,
    ts: i64,
)
    requires
        s.qty == account.position(order.symbol_id).qty,
        s.avg_price == account.position(order.symbol_id).avg_price,
        fill_qty > 0,
    ensures
        ({
            let delta = if order.side is Buy {
                fill_qty as int
            } else if order.side is Sell {
                -fill_qty
            } else {
                0
            };
            let after = account.with_fill_at(order, fill_qty, price).position(order.symbol_id);
            &&& account.realised_at(order, fill_qty, price) == realised(s, price, delta)
            &&& after.qty == after_fill(s, ts, price, delta).qty
            &&& after.avg_price == after_fill(s, ts, price, delta).avg_price
        }),
{
}

/// Whether `q` is `x` in units of 10^8, rounded toward zero.
pub open spec fn is_scaled_down(x: int, q: int) -> bool {
    &&& x >= 0 ==> q * 100_000_000 <= x < q * 100_000_000 + 100_000_000
    &&& x <= 0 ==> q * 100_000_000 - 100_000_000 < x <= q * 100_000_000
}

/// Funding is the rate of the notional: a position of `qty` at the mark price has the
/// notional `qty * mark / 10^8`, of which the rate is paid where it is positive, and received
/// where it is negative; both divisions round toward zero.
pub proof fn law_funding_is_rate_of_notional(
    account: AccountView,
    event: FundingEvent,
    mark_price: i64,
    notional: int,
    payment: int,
)
    requires
        is_scaled_down(account.position(event.symbol_id).qty * mark_price, notional),
        is_scaled_down(notional * event.rate, payment),
    ensures
        ({
            let pnl = account.funding(event, mark_price);
            &&& i64::MIN <= -payment <= i64::MAX ==> pnl == -payment
            &&& -payment > i64::MAX ==> pnl == i64::MAX
            &&& -payment < i64::MIN ==> pnl == i64::MIN
        }),
{
    let qty = account.position(event.symbol_id).qty;
    let x = qty * mark_price;
    let n = trunc_div(x, 100_000_000);
    law_division_rounds_toward_zero(x, 100_000_000);
    let y = n * event.rate;
    let p = trunc_div(y, 100_000_000);
    law_division_rounds_toward_zero(y, 100_000_000);
    assert(n == notional);
    assert(p == payment);
    if qty == 0 || event.rate == 0 || mark_price == 0 {
        assert(x == 0 || event.rate == 0) by (nonlinear_arith)
            requires
                x == qty * mark_price,
                qty == 0 || event.rate == 0 || mark_price == 0,
        ;
        assert(y == 0) by (nonlinear_arith)
            requires
                y == n * event.rate,
                n == 0 || event.rate == 0,
        ;
    } else if y > i128::MAX || y < i128::MIN {
        let d = clamp_i128(y);
        lemma_trunc_div_bounds(d, 100_000_000);
        law_division_rounds_toward_zero(d, 100_000_000);
    }
}

} // verus!
