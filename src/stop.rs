use vstd::prelude::*;
use crate::decimal::Decimal;
use crate::order::{ExecutionStrategy, Order, OrderSide, OrderState, OrderType};
use crate::order_book::{BookView, OrderBook};
use crate::strategy::{check_trigger, has_id, order_has_id, trigger_fires, StrategyAction};

verus! {

/// A stop: once triggered it cancels the original order, and when the cancel
/// is confirmed it places a new order for whatever was left unfilled.
#[derive(Debug)]
pub struct StopStrategy {
    pub original_order_id: String,
    pub original_symbol: String,
    pub original_side: OrderSide,
    pub original_qty: i64,
    /// BUY watches the best bid rising to the trigger price; SELL watches the
    /// best ask falling to it.
    pub trigger_side: OrderSide,
    pub trigger_price: Decimal,
    /// Epoch milliseconds; zero or less means no time trigger.
    pub trigger_timestamp: i64,
    /// Price of the follow-up order; without one it is a market order.
    pub stop_limit_price: Option<Decimal>,
    pub filled_qty: i64,
    pub triggered: bool,
    pub finished: bool,
}

/// The two strategies agree but for the `triggered` and `finished` flags.
pub open spec fn stop_same_settings(a: StopStrategy, b: StopStrategy) -> bool {
    &&& a.original_order_id == b.original_order_id
    &&& a.original_symbol == b.original_symbol
    &&& a.original_side == b.original_side
    &&& a.original_qty == b.original_qty
    &&& a.trigger_side == b.trigger_side
    &&& a.trigger_price == b.trigger_price
    &&& a.trigger_timestamp == b.trigger_timestamp
    &&& a.stop_limit_price == b.stop_limit_price
    &&& a.filled_qty == b.filled_qty
}


/// What a stop does on a book update (`Some`) or a timer tick (`None`): when
/// the trigger fires for the first time, it asks for the original order to be
/// canceled.
pub open spec fn stop_event_post(a: StopStrategy, book: Option<BookView>, now: i64, b: StopStrategy, r: StrategyAction) -> bool {
    &&& stop_same_settings(b, a)
    &&& b.finished == a.finished
    &&& if !a.triggered && !a.finished && trigger_fires(a.trigger_side, a.trigger_price, a.trigger_timestamp, book, now) {
        b.triggered && r == StrategyAction::CancelOrder(a.original_order_id)
    } else {
        b.triggered == a.triggered && r is NoAction
    }
}

/// What a stop does when an order's status changes.
pub open spec fn stop_status_post(a: StopStrategy, order: Order, b: StopStrategy, r: StrategyAction) -> bool {
    &&& stop_same_settings(b, a)
    &&& b.triggered == a.triggered
    &&& ({
                let mine = !a.finished && has_id(order, a.original_order_id@);
                let rest = a.original_qty - order.filled_quantity;
                &&& b.finished == (a.finished || (mine && (order.state == OrderState::FILLED || (
                order.state == OrderState::CANCELED && a.triggered))))
                &&& (r is PlaceOrder) == (mine && order.state == OrderState::CANCELED && a.triggered && rest > 0)
                &&& !(r is PlaceOrder) ==> r is NoAction
                &&& r matches StrategyAction::PlaceOrder(o) ==> {
                    &&& o.symbol == a.original_symbol
                    &&& o.side == a.original_side
                    &&& o.quantity == rest
                    &&& o.price == a.stop_limit_price
                    &&& o.order_type == if a.stop_limit_price.is_some() {
                        OrderType::LIMIT
                    } else {
                        OrderType::MARKET
                    }
                    &&& o.state == OrderState::CREATED
                    &&& o.strategy == ExecutionStrategy::NONE
                    &&& o.order_id.is_none()
                    &&& o.filled_quantity == 0
                }
            })
}

impl StopStrategy {
    #[allow(clippy::too_many_arguments)]
    pub fn new(
        original_order_id: String,
        original_symbol: String,
        original_side: OrderSide,
        original_qty: i64,
        trigger_side: OrderSide,
        trigger_price: Decimal,
        trigger_timestamp: i64,
        stop_limit_price: Option<Decimal>,
    ) -> (r: StopStrategy)
        ensures
            r.original_order_id == original_order_id,
            r.original_symbol == original_symbol,
            r.original_side == original_side,
            r.original_qty == original_qty,
            r.trigger_side == trigger_side,
            r.trigger_price == trigger_price,
            r.trigger_timestamp == trigger_timestamp,
            r.stop_limit_price == stop_limit_price,
            r.filled_qty == 0,
            !r.triggered,
            !r.finished,
    {
        StopStrategy {
            original_order_id,
            original_symbol,
            original_side,
            original_qty,
            trigger_side,
            trigger_price,
            trigger_timestamp,
            stop_limit_price,
            filled_qty: 0,
            triggered: false,
            finished: false,
        }
    }

    /// On a book update: when the trigger fires, ask for the original order to
    /// be canceled, once.
    pub fn on_order_book_update(&mut self, book: &OrderBook, now: i64) -> (r: StrategyAction)
        requires
            book.wf(),
        ensures
            stop_event_post(*old(self), Some(book@), now, *final(self), r),
    {
        if self.triggered || self.finished {
            return StrategyAction::NoAction;
        }
        if check_trigger(self.trigger_side, self.trigger_price, self.trigger_timestamp, Some(book), now) {
            self.triggered = true;
            return StrategyAction::CancelOrder(self.original_order_id.clone());
        }
        StrategyAction::NoAction
    }

    /// On the periodic timer: only the time trigger can fire here.
    pub fn on_timer(&mut self, now: i64) -> (r: StrategyAction)
        ensures
            stop_event_post(*old(self), None, now, *final(self), r),
    {
        if self.triggered || self.finished {
            return StrategyAction::NoAction;
        }
        if check_trigger(self.trigger_side, self.trigger_price, self.trigger_timestamp, None, now) {
            self.triggered = true;
            return StrategyAction::CancelOrder(self.original_order_id.clone());
        }
        StrategyAction::NoAction
    }

    /// Trades are not watched by a stop.
    pub fn on_trade_update(&mut self, price: Decimal) -> (r: StrategyAction)
        ensures
            r is NoAction,
    {
        StrategyAction::NoAction
    }

    /// On a status change of an order: a FILLED original ends the stop; a
    /// CANCELED original after the trigger places the follow-up order for the
    /// unfilled rest, and ends the stop.
    pub fn on_order_status_update(&mut self, order: &Order) -> (r: StrategyAction)
        requires
            order.wf(),
        ensures
            stop_status_post(*old(self), *order, *final(self), r),
    {
        if self.finished || !order_has_id(order, &self.original_order_id) {
            return StrategyAction::NoAction;
        }
        if order.state == OrderState::FILLED {
            self.finished = true;
            return StrategyAction::NoAction;
        }
        if order.state == OrderState::CANCELED && self.triggered {
            self.finished = true;
            let rest: i128 = self.original_qty as i128 - order.filled_quantity as i128;
            if rest <= 0 {
                return StrategyAction::NoAction;
            }
            let order_type = if self.stop_limit_price.is_some() {
                OrderType::LIMIT
            } else {
                OrderType::MARKET
            };
            let o = Order::child(
                self.original_symbol.clone(),
                self.original_side,
                order_type,
                rest as i64,
                self.stop_limit_price,
            );
            return StrategyAction::PlaceOrder(o);
        }
        StrategyAction::NoAction
    }
}

} // verus!
