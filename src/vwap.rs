use vstd::prelude::*;
use crate::clock::{new_order_id, now_millis};
use crate::decimal::{div_toward_zero, fits_i64, i128_div_toward_zero, Decimal};
use crate::order::{is_terminal, is_terminal_state, ExecutionStrategy, Order, OrderSide, OrderState, OrderType};
use crate::order_book::{is_max_key, is_min_key, BookView, OrderBook};
use crate::strategy::{has_id, min_int, order_has_id, StrategyAction};

verus! {

/// Volume-weighted slicing: a parent quantity is worked through a series of
/// limit orders, one per interval, over a time window.
#[derive(Debug)]
pub struct VWAPStrategy {
    pub symbol: String,
    pub side: OrderSide,
    pub limit_price: Option<Decimal>,
    pub total_volume: i64,
    /// Milliseconds between slices.
    pub interval_ms: i64,
    /// Milliseconds over which the whole volume is to be worked.
    pub timeout_ms: i64,
    pub start_time: i64,
    pub next_trigger: i64,
    pub remaining_volume: i64,
    pub current_slice_order_id: Option<String>,
    pub waiting_for_cancel: bool,
}

pub open spec fn ceil_div(a: int, b: int) -> int {
    (a + b - 1) / b
}

/// The size of the next slice: what remains, spread evenly over the intervals
/// still to come (at least one), rounded up.
pub open spec fn slice_quantity(remaining: int, elapsed: int, interval: int, timeout: int) -> int {
    let total = ceil_div(timeout, interval);
    let passed = ceil_div(
        if elapsed > 0 {
            elapsed
        } else {
            0
        },
        interval,
    );
    let left = if total - passed >= 1 {
        total - passed
    } else {
        1
    };
    min_int(ceil_div(remaining, left), remaining)
}

/// The price of a slice: a tenth of a percent through the touch (above the
/// best ask for a buy, below the best bid for a sell), capped by the limit.
pub open spec fn slice_price(side: OrderSide, best: int, limit: Option<Decimal>) -> int {
    let spread = div_toward_zero(best, 1000);
    let p = match side {
        OrderSide::BUY => best + spread,
        OrderSide::SELL => best - spread,
    };
    match limit {
        None => p,
        Some(l) => match side {
            OrderSide::BUY => if p <= l.units {
                p
            } else {
                l.units as int
            },
            OrderSide::SELL => if p >= l.units {
                p
            } else {
                l.units as int
            },
        },
    }
}

/// The next slice time, one interval on, held at the largest timestamp.
pub open spec fn advance(t: int, interval: int) -> int {
    if t + interval <= i64::MAX {
        t + interval
    } else {
        i64::MAX as int
    }
}

/// The two strategies agree in their fixed settings.
pub open spec fn vwap_same_settings(a: VWAPStrategy, b: VWAPStrategy) -> bool {
    &&& a.symbol == b.symbol
    &&& a.side == b.side
    &&& a.limit_price == b.limit_price
    &&& a.total_volume == b.total_volume
    &&& a.interval_ms == b.interval_ms
    &&& a.timeout_ms == b.timeout_ms
    &&& a.start_time == b.start_time
}

/// What a slicer does on a book update.
pub open spec fn vwap_book_post(a: VWAPStrategy, book: BookView, b: VWAPStrategy, r: StrategyAction) -> bool {
    &&& vwap_same_settings(b, a)
    &&& b.remaining_volume == a.remaining_volume
    &&& ({
                let due = book.symbol == a.symbol@ && book.timestamp >= a.next_trigger
                    && a.remaining_volume > 0;
                &&& !due ==> r is NoAction && b == a
                &&& due && a.current_slice_order_id.is_some() && !a.waiting_for_cancel ==> {
                    &&& r == StrategyAction::CancelOrder(a.current_slice_order_id.unwrap())
                    &&& b.waiting_for_cancel
                    &&& b.current_slice_order_id == a.current_slice_order_id
                    &&& b.next_trigger == advance(a.next_trigger as int, a.interval_ms as int)
                }
                &&& due && a.current_slice_order_id.is_some() && a.waiting_for_cancel ==> r is NoAction
                    && b == a
                &&& r matches StrategyAction::PlaceOrder(o) ==> {
                    &&& due && a.current_slice_order_id.is_none()
                    &&& o.symbol@ == a.symbol@
                    &&& o.side == a.side
                    &&& o.order_type == OrderType::LIMIT
                    &&& o.quantity == slice_quantity(
                        a.remaining_volume as int,
                        book.timestamp - a.start_time,
                        a.interval_ms as int,
                        a.timeout_ms as int,
                    )
                    &&& o.price matches Some(p) && (exists|best: int|
                        match a.side {
                            OrderSide::BUY => is_min_key(book.asks, best),
                            OrderSide::SELL => is_max_key(book.bids, best),
                        } && p.units == slice_price(a.side, best, a.limit_price))
                    &&& o.state == OrderState::CREATED
                    &&& o.strategy == ExecutionStrategy::NONE
                    &&& o.order_id.is_some()
                    &&& b.current_slice_order_id == o.order_id
                    &&& !b.waiting_for_cancel
                    &&& b.next_trigger == advance(a.next_trigger as int, a.interval_ms as int)
                }
                &&& due && a.current_slice_order_id.is_none() && slice_priceable(a, book) ==> r is PlaceOrder
                &&& r is NoAction ==> b == a
            })
}

/// The book has a touch on the side a slice trades against, and the slice
/// price taken from it fits in 64 bits of millionths.
pub open spec fn slice_priceable(a: VWAPStrategy, book: BookView) -> bool {
    exists|best: int|
        match a.side {
            OrderSide::BUY => is_min_key(book.asks, best),
            OrderSide::SELL => is_max_key(book.bids, best),
        } && fits_i64(#[trigger] slice_price(a.side, best, a.limit_price))
}

/// What a slicer does when an order's status changes.
pub open spec fn vwap_status_post(a: VWAPStrategy, order: Order, b: VWAPStrategy, r: StrategyAction) -> bool {
    &&& r is NoAction
    &&& vwap_same_settings(b, a)
    &&& b.next_trigger == a.next_trigger
    &&& if a.current_slice_order_id matches Some(id) && has_id(order, id@) && is_terminal(order.state) {
                &&& b.remaining_volume == if a.remaining_volume >= order.filled_quantity {
                    a.remaining_volume - order.filled_quantity
                } else {
                    0
                }
                &&& b.current_slice_order_id.is_none()
                &&& !b.waiting_for_cancel
            } else {
                b == a
            }
}

fn ceil_div_u128(a: u128, b: u128) -> (r: u128)
    requires
        b > 0,
        a <= 0x1_0000_0000_0000_0000,
        b <= 0x1_0000_0000_0000_0000,
    ensures
        r == ceil_div(a as int, b as int),
{
    (a + b - 1) / b
}

impl VWAPStrategy {
    /// Settings a slicer can run with.
    pub open spec fn wf(&self) -> bool {
        self.interval_ms > 0 && self.timeout_ms >= 0 && self.remaining_volume >= 0
    }

    /// A slicer whose window starts now.
    pub fn new(
        symbol: String,
        side: OrderSide,
        price: Option<Decimal>,
        volume: i64,
        interval_ms: i64,
        timeout_ms: i64,
    ) -> (r: VWAPStrategy)
        requires
            interval_ms > 0,
            timeout_ms >= 0,
            volume >= 0,
        ensures
            r.wf(),
            r.symbol == symbol,
            r.side == side,
            r.limit_price == price,
            r.total_volume == volume,
            r.interval_ms == interval_ms,
            r.timeout_ms == timeout_ms,
            r.remaining_volume == volume,
            r.next_trigger == advance(r.start_time as int, interval_ms as int),
            r.current_slice_order_id.is_none(),
    {
        let now = now_millis();
        Self::starting_at(symbol, side, price, volume, interval_ms, timeout_ms, now)
    }

    /// A slicer whose window starts at `now`.
    pub fn starting_at(
        symbol: String,
        side: OrderSide,
        price: Option<Decimal>,
        volume: i64,
        interval_ms: i64,
        timeout_ms: i64,
        now: i64,
    ) -> (r: VWAPStrategy)
        requires
            interval_ms > 0,
            timeout_ms >= 0,
            volume >= 0,
        ensures
            r.wf(),
            r.symbol == symbol,
            r.side == side,
            r.limit_price == price,
            r.total_volume == volume,
            r.interval_ms == interval_ms,
            r.timeout_ms == timeout_ms,
            r.start_time == now,
            r.next_trigger == advance(now as int, interval_ms as int),
            r.remaining_volume == volume,
            r.current_slice_order_id.is_none(),
            !r.waiting_for_cancel,
    {
        let next = if now <= i64::MAX - interval_ms {
            now + interval_ms
        } else {
            i64::MAX
        };
        VWAPStrategy {
            symbol,
            side,
            limit_price: price,
            total_volume: volume,
            interval_ms,
            timeout_ms,
            start_time: now,
            next_trigger: next,
            remaining_volume: volume,
            current_slice_order_id: None,
            waiting_for_cancel: false,
        }
    }

    fn advance_trigger(&mut self)
        requires
            old(self).wf(),
        ensures
            final(self).wf(),
            vwap_same_settings(*final(self), *old(self)),
            final(self).next_trigger == advance(old(self).next_trigger as int, old(self).interval_ms as int),
            final(self).remaining_volume == old(self).remaining_volume,
            final(self).current_slice_order_id == old(self).current_slice_order_id,
            final(self).waiting_for_cancel == old(self).waiting_for_cancel,
    {
        if self.next_trigger <= i64::MAX - self.interval_ms {
            self.next_trigger = self.next_trigger + self.interval_ms;
        } else {
            self.next_trigger = i64::MAX;
        }
    }

    /// The size of the slice to place at `now`.
    pub fn slice_size(&self, now: i64) -> (r: i64)
        requires
            self.wf(),
        ensures
            r == slice_quantity(
                self.remaining_volume as int,
                now - self.start_time,
                self.interval_ms as int,
                self.timeout_ms as int,
            ),
    {
        let interval = self.interval_ms as u128;
        let total = ceil_div_u128(self.timeout_ms as u128, interval);
        let elapsed: i128 = now as i128 - self.start_time as i128;
        let e: u128 = if elapsed > 0 {
            elapsed as u128
        } else {
            0
        };
        let passed = ceil_div_u128(e, interval);
        let left: u128 = if total >= passed + 1 {
            total - passed
        } else {
            1
        };
        assert(left <= total || left == 1);
        assert(total <= self.timeout_ms) by (nonlinear_arith)
            requires
                total == (self.timeout_ms + interval - 1) / (interval as int),
                interval >= 1,
                self.timeout_ms >= 0,
        {}
        let rem = self.remaining_volume as u128;
        let q = ceil_div_u128(rem, left);
        assert(q <= rem || rem == 0) by (nonlinear_arith)
            requires
                q == (rem + left - 1) / (left as int),
                left >= 1,
        {}
        if q <= rem {
            q as i64
        } else {
            rem as i64
        }
    }

    /// On a book update of its symbol, at each interval boundary: cancel the
    /// outstanding slice if there is one (what it did not fill rolls into the
    /// next), or else place a new slice priced off the touch.
    pub fn on_order_book_update(&mut self, book: &OrderBook) -> (r: StrategyAction)
        requires
            old(self).wf(),
            book.wf(),
        ensures
            final(self).wf(),
            vwap_book_post(*old(self), book@, *final(self), r),
    {
        if *book.get_symbol() != self.symbol || book.get_timestamp() < self.next_trigger || self.remaining_volume <= 0 {
            return StrategyAction::NoAction;
        }
        match &self.current_slice_order_id {
            Some(id) => {
                if !self.waiting_for_cancel {
                    let id = id.clone();
                    self.waiting_for_cancel = true;
                    self.advance_trigger();
                    return StrategyAction::CancelOrder(id);
                }
                return StrategyAction::NoAction;
            },
            None => {},
        }
        let touch = match self.side {
            OrderSide::BUY => book.get_best_ask(),
            OrderSide::SELL => book.get_best_bid(),
        };
        if touch.is_none() {
            return StrategyAction::NoAction;
        }
        let (best, _) = touch.unwrap();
        let spread = i128_div_toward_zero(best.units as i128, 1000);
        let p: i128 = match self.side {
            OrderSide::BUY => best.units as i128 + spread,
            OrderSide::SELL => best.units as i128 - spread,
        };
        let capped: i128 = match self.limit_price {
            None => p,
            Some(l) => match self.side {
                OrderSide::BUY => if p <= l.units as i128 {
                    p
                } else {
                    l.units as i128
                },
                OrderSide::SELL => if p >= l.units as i128 {
                    p
                } else {
                    l.units as i128
                },
            },
        };
        if capped < i64::MIN as i128 || capped > i64::MAX as i128 {
            return StrategyAction::NoAction;
        }
        let qty = self.slice_size(book.get_timestamp());
        let mut o = Order::child(self.symbol.clone(), self.side, OrderType::LIMIT, qty, Some(Decimal { units: capped as i64 }));
        let id = new_order_id();
        o.order_id = Some(id.clone());
        self.current_slice_order_id = Some(id);
        self.waiting_for_cancel = false;
        self.advance_trigger();
        proof {
            assert(match self.side {
                OrderSide::BUY => is_min_key(book@.asks, best.units as int),
                OrderSide::SELL => is_max_key(book@.bids, best.units as int),
            });
            assert(capped == slice_price(self.side, best.units as int, self.limit_price));
            assert(exists|b: int|
                match self.side {
                    OrderSide::BUY => is_min_key(book@.asks, b),
                    OrderSide::SELL => is_max_key(book@.bids, b),
                } && capped == slice_price(self.side, b, self.limit_price));
        }
        StrategyAction::PlaceOrder(o)
    }

    /// Trades are not used for pricing.
    pub fn on_trade_update(&mut self, price: Decimal) -> (r: StrategyAction)
        ensures
            r is NoAction,
    {
        StrategyAction::NoAction
    }

    /// When the outstanding slice reaches a final state, its filled quantity
    /// comes off the remaining volume and the next slice may be placed.
    pub fn on_order_status_update(&mut self, order: &Order) -> (r: StrategyAction)
        requires
            old(self).wf(),
            order.wf(),
        ensures
            final(self).wf(),
            vwap_status_post(*old(self), *order, *final(self), r),
    {
        let mine = match &self.current_slice_order_id {
            Some(id) => order_has_id(order, id),
            None => false,
        };
        if mine && is_terminal_state(order.state) {
            self.remaining_volume = if self.remaining_volume >= order.filled_quantity {
                self.remaining_volume - order.filled_quantity
            } else {
                0
            };
            self.current_slice_order_id = None;
            self.waiting_for_cancel = false;
        }
        StrategyAction::NoAction
    }
}

} // verus!
