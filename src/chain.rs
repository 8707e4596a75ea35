use vstd::prelude::*;
use crate::decimal::Decimal;
use crate::order::{same_but_status, Order, OrderSide, OrderState};
use crate::order_book::{BookView, OrderBook};
use crate::strategy::{check_trigger, trigger_fires, StrategyAction};

verus! {

/// A chain: once triggered it cancels the original order, and when the cancel
/// is confirmed it places a prepared follow-up order.
#[derive(Debug)]
pub struct ChainStrategy {
    pub original_order_id: String,
    pub trigger_price_side: OrderSide,
    pub trigger_price: Decimal,
    /// Epoch milliseconds; zero or less means no time trigger.
    pub trigger_timestamp: i64,
    pub chained_order: Order,
    pub triggered: bool,
    pub finished: bool,
}

/// The two strategies agree but for the `triggered` and `finished` flags.
pub open spec fn chain_same_settings(a: ChainStrategy, b: ChainStrategy) -> bool {
    &&& a.original_order_id == b.original_order_id
    &&& a.trigger_price_side == b.trigger_price_side
    &&& a.trigger_price == b.trigger_price
    &&& a.trigger_timestamp == b.trigger_timestamp
    &&& a.chained_order == b.chained_order
}

/// What a chain does on a book update (`Some`) or a timer tick (`None`): when
/// the trigger fires for the first time, it asks for the original order to be
/// canceled.
pub open spec fn chain_event_post(a: ChainStrategy, book: Option<BookView>, now: i64, b: ChainStrategy, r: StrategyAction) -> bool {
    &&& chain_same_settings(b, a)
    &&& b.finished == a.finished
    &&& if !a.triggered && !a.finished && trigger_fires(a.trigger_price_side, a.trigger_price, a.trigger_timestamp, book, now) {
        b.triggered && r == StrategyAction::CancelOrder(a.original_order_id)
    } else {
        b.triggered == a.triggered && r is NoAction
    }
}

/// What a chain does when the order `order_id` reaches `state`.
pub open spec fn chain_status_post(a: ChainStrategy, order_id: Seq<char>, state: OrderState, b: ChainStrategy, r: StrategyAction) -> bool {
    &&& chain_same_settings(b, a)
    &&& b.triggered == a.triggered
    &&& ({
                let fire = !a.finished && a.triggered && order_id == a.original_order_id@
                    && state == OrderState::CANCELED;
                &&& b.finished == (a.finished || fire)
                &&& (r is PlaceOrder) == fire
                &&& !fire ==> r is NoAction
                &&& r matches StrategyAction::PlaceOrder(o) ==> same_but_status(o, a.chained_order)
                    && o.state == OrderState::CREATED && o.error_message == a.chained_order.error_message
                    && o.updated_at == a.chained_order.updated_at
            })
}

impl ChainStrategy {
    pub fn new(
        original_order_id: String,
        trigger_price_side: OrderSide,
        trigger_price: Decimal,
        trigger_timestamp: i64,
        chained_order: Order,
    ) -> (r: ChainStrategy)
        ensures
            r.original_order_id == original_order_id,
            r.trigger_price_side == trigger_price_side,
            r.trigger_price == trigger_price,
            r.trigger_timestamp == trigger_timestamp,
            r.chained_order == chained_order,
            !r.triggered,
            !r.finished,
    {
        ChainStrategy {
            original_order_id,
            trigger_price_side,
            trigger_price,
            trigger_timestamp,
            chained_order,
            triggered: false,
            finished: false,
        }
    }

    /// On a book update: when the trigger fires, ask for the original order to
    /// be canceled, once.
    pub fn on_order_book_update(&mut self, book: &OrderBook, now: i64) -> (r: StrategyAction)
        requires
            book.wf(),
        ensures
            chain_event_post(*old(self), Some(book@), now, *final(self), r),
    {
        if self.triggered || self.finished {
            return StrategyAction::NoAction;
        }
        if check_trigger(self.trigger_price_side, self.trigger_price, self.trigger_timestamp, Some(book), now) {
            self.triggered = true;
            return StrategyAction::CancelOrder(self.original_order_id.clone());
        }
        StrategyAction::NoAction
    }

    /// On the periodic timer: only the time trigger can fire here.
    pub fn on_timer(&mut self, now: i64) -> (r: StrategyAction)
        ensures
            chain_event_post(*old(self), None, now, *final(self), r),
    {
        if self.triggered || self.finished {
            return StrategyAction::NoAction;
        }
        if check_trigger(self.trigger_price_side, self.trigger_price, self.trigger_timestamp, None, now) {
            self.triggered = true;
            return StrategyAction::CancelOrder(self.original_order_id.clone());
        }
        StrategyAction::NoAction
    }

    /// Trades are not watched by a chain.
    pub fn on_trade_update(&mut self, price: Decimal) -> (r: StrategyAction)
        ensures
            r is NoAction,
    {
        StrategyAction::NoAction
    }

    /// On a status change of an order: the confirmed cancel of the original,
    /// after the trigger, places the chained order (as a fresh CREATED order)
    /// and ends the chain.
    pub fn on_order_status_update(&mut self, order_id: &String, state: OrderState) -> (r: StrategyAction)
        ensures
            chain_status_post(*old(self), order_id@, state, *final(self), r),
    {
        if !self.finished && self.triggered && *order_id == self.original_order_id && state == OrderState::CANCELED {
            self.finished = true;
            let mut o = self.chained_order.duplicate();
            o.state = OrderState::CREATED;
            return StrategyAction::PlaceOrder(o);
        }
        StrategyAction::NoAction
    }
}

} // verus!
