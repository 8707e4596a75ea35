use vstd::prelude::*;
use crate::chain::{chain_event_post, chain_status_post, ChainStrategy};
use crate::decimal::{parse_decimal, div_toward_zero, parsed_decimal, Decimal};
use crate::order::{parsed_price, ExecutionStrategy, Order, OrderSide, OrderType};
use crate::order_book::{BookView, OrderBook};
use crate::stop::{stop_event_post, stop_status_post, StopStrategy};
use crate::strategy::StrategyAction;
use crate::vwap::{vwap_book_post, vwap_status_post, VWAPStrategy};

verus! {

broadcast use vstd::string::to_string_from_display_ensures_for_str;

/// A registered strategy, of one of the stateful kinds.
#[derive(Debug)]
pub enum ActiveStrategy {
    Stop(StopStrategy),
    Chain(ChainStrategy),
    Vwap(VWAPStrategy),
}

/// The text stored under `key`; a later entry overrides an earlier one.
pub open spec fn param_text(params: Seq<(String, String)>, key: Seq<char>) -> Option<Seq<char>>
    decreases params.len(),
{
    if params.len() == 0 {
        None
    } else if params.last().0@ == key {
        Some(params.last().1@)
    } else {
        param_text(params.drop_last(), key)
    }
}

/// The decimal stored under `key`, if it is there and reads as one.
pub open spec fn param_decimal(params: Seq<(String, String)>, key: Seq<char>) -> Option<Decimal> {
    match param_text(params, key) {
        Some(t) => parsed_decimal(t),
        None => None,
    }
}

/// A side stored under `key`: SELL for the text `SELL`, BUY otherwise.
pub open spec fn param_side(params: Seq<(String, String)>, key: Seq<char>) -> OrderSide {
    if param_text(params, key) == Some("SELL"@) {
        OrderSide::SELL
    } else {
        OrderSide::BUY
    }
}

/// A number of seconds (possibly fractional) stored under `key`, in
/// milliseconds rounded toward zero.
pub open spec fn param_millis(params: Seq<(String, String)>, key: Seq<char>) -> Option<int> {
    match param_decimal(params, key) {
        Some(d) => Some(div_toward_zero(d.units as int, 1000)),
        None => None,
    }
}

/// A whole quantity stored under `key`.
pub open spec fn param_whole(params: Seq<(String, String)>, key: Seq<char>) -> Option<int> {
    match param_decimal(params, key) {
        Some(d) => if d.units % 1_000_000 == 0 {
            Some(d.units / 1_000_000)
        } else {
            None
        },
        None => None,
    }
}

fn param(params: &Vec<(String, String)>, key: &str) -> (r: Option<String>)
    ensures
        match r {
            Some(t) => param_text(params@, key@) == Some(t@),
            None => param_text(params@, key@).is_none(),
        },
{
    let k = key.to_string();
    let mut i: usize = params.len();
    assert(params@.subrange(0, i as int) =~= params@);
    while i > 0
        invariant
            0 <= i <= params@.len(),
            k@ == key@,
            param_text(params@, key@) == param_text(params@.subrange(0, i as int), key@),
        decreases i,
    {
        let ghost pre = params@.subrange(0, i as int);
        proof {
            assert(pre.last() == params@[i - 1]);
            assert(pre.drop_last() =~= params@.subrange(0, i - 1));
        }
        if params[i - 1].0 == k {
            return Some(params[i - 1].1.clone());
        }
        i = i - 1;
    }
    None
}

fn param_decimal_exec(params: &Vec<(String, String)>, key: &str) -> (r: Option<Decimal>)
    ensures
        r == param_decimal(params@, key@),
{
    match param(params, key) {
        Some(t) => parse_decimal(t.as_str()),
        None => None,
    }
}

fn param_millis_exec(params: &Vec<(String, String)>, key: &str) -> (r: Option<i64>)
    ensures
        match r {
            Some(v) => param_millis(params@, key@) == Some(v as int),
            None => param_millis(params@, key@).is_none(),
        },
{
    match param_decimal_exec(params, key) {
        Some(d) => {
            let q = crate::decimal::i128_div_toward_zero(d.units as i128, 1000);
            assert(-0x8000_0000_0000_0000 <= q < 0x8000_0000_0000_0000) by {
                assert(crate::decimal::abs_int(d.units as int) / 1000 <= crate::decimal::abs_int(d.units as int));
            }
            Some(q as i64)
        },
        None => None,
    }
}

fn param_side_exec(params: &Vec<(String, String)>, key: &str) -> (r: OrderSide)
    ensures
        r == param_side(params@, key@),
{
    match param(params, key) {
        Some(t) => {
            let sell = "SELL".to_string();
            if t == sell {
                OrderSide::SELL
            } else {
                OrderSide::BUY
            }
        },
        None => OrderSide::BUY,
    }
}

fn param_whole_exec(params: &Vec<(String, String)>, key: &str) -> (r: Option<i64>)
    ensures
        match r {
            Some(v) => param_whole(params@, key@) == Some(v as int),
            None => param_whole(params@, key@).is_none(),
        },
{
    match param_decimal_exec(params, key) {
        Some(d) => {
            if d.units % 1_000_000 == 0 {
                Some(d.units / 1_000_000)
            } else {
                None
            }
        },
        None => None,
    }
}

/// A stop built from an order's parameters: `trigger_price` (required),
/// `trigger_side`, `trigger_timestamp` in seconds, and `chained_price` for
/// the follow-up order.
pub open spec fn stop_matches(s: StopStrategy, order: Order, id: Seq<char>) -> bool {
    let p = order.strategy_params@;
    &&& param_decimal(p, "trigger_price"@) == Some(s.trigger_price)
    &&& s.trigger_side == param_side(p, "trigger_side"@)
    &&& s.trigger_timestamp == match param_millis(p, "trigger_timestamp"@) {
        Some(t) => t,
        None => 0,
    }
    &&& s.stop_limit_price == param_decimal(p, "chained_price"@)
    &&& s.original_order_id@ == id
    &&& s.original_symbol == order.symbol
    &&& s.original_side == order.side
    &&& s.original_qty == order.quantity
    &&& !s.triggered
    &&& !s.finished
}

/// The follow-up quantity of a chain: present, whole and positive.
pub open spec fn chain_quantity_usable(order: Order) -> bool {
    param_whole(order.strategy_params@, "chained_quantity"@) matches Some(q) && q > 0
}

/// A chain built from an order's parameters: the trigger as for a stop, and
/// the follow-up from `chained_symbol`, `chained_side`, `chained_quantity` and
/// `chained_price` (a market order when there is no price).
pub open spec fn chain_matches(c: ChainStrategy, order: Order, id: Seq<char>) -> bool {
    let p = order.strategy_params@;
    &&& param_decimal(p, "trigger_price"@) == Some(c.trigger_price)
    &&& c.trigger_price_side == param_side(p, "trigger_side"@)
    &&& c.trigger_timestamp == match param_millis(p, "trigger_timestamp"@) {
        Some(t) => t,
        None => 0,
    }
    &&& c.original_order_id@ == id
    &&& c.chained_order.symbol@ == match param_text(p, "chained_symbol"@) {
        Some(t) => t,
        None => order.symbol@,
    }
    &&& c.chained_order.side == param_side(p, "chained_side"@)
    &&& c.chained_order.order_type == if param_decimal(p, "chained_price"@).is_some() {
        OrderType::LIMIT
    } else {
        OrderType::MARKET
    }
    &&& param_whole(p, "chained_quantity"@) == Some(c.chained_order.quantity as int)
    &&& c.chained_order.price == param_decimal(p, "chained_price"@)
    &&& c.chained_order.strategy == ExecutionStrategy::NONE
    &&& c.chained_order.order_id.is_none()
    &&& c.chained_order.filled_quantity == 0
    &&& !c.triggered
    &&& !c.finished
}

/// A slicer built from an order's parameters: `total_volume` (the order's
/// quantity when absent), `interval_seconds` (required, at least a
/// millisecond), `timeout_seconds` (required, not negative) and `limit_price`
/// (the order's price when absent).
pub open spec fn vwap_matches(v: VWAPStrategy, order: Order) -> bool {
    let p = order.strategy_params@;
    &&& v.symbol == order.symbol
    &&& v.side == order.side
    &&& v.total_volume == match param_whole(p, "total_volume"@) {
        Some(q) => q,
        None => order.quantity as int,
    }
    &&& param_millis(p, "interval_seconds"@) == Some(v.interval_ms as int)
    &&& param_millis(p, "timeout_seconds"@) == Some(v.timeout_ms as int)
    &&& v.limit_price == match param_decimal(p, "limit_price"@) {
        Some(l) => Some(l),
        None => order.price,
    }
    &&& v.remaining_volume == v.total_volume
    &&& v.current_slice_order_id.is_none()
}

/// The VWAP settings an order's parameters describe, when they are usable.
pub open spec fn vwap_params_usable(order: Order) -> bool {
    let p = order.strategy_params@;
    &&& param_millis(p, "interval_seconds"@) matches Some(i) && i > 0
    &&& param_millis(p, "timeout_seconds"@) matches Some(t) && t >= 0
    &&& match param_whole(p, "total_volume"@) {
        Some(q) => q >= 0,
        None => order.quantity >= 0,
    }
}

/// Turns an order's text parameters into the strategy they describe. Returns
/// `None` for an order without a stateful strategy, or whose parameters lack
/// what the strategy needs.
pub fn parse_strategy(order: &Order, id: &String) -> (r: Option<ActiveStrategy>)
    ensures
        r.is_some() == match order.strategy {
            ExecutionStrategy::STOP => param_decimal(order.strategy_params@, "trigger_price"@).is_some(),
            ExecutionStrategy::CHAIN => param_decimal(order.strategy_params@, "trigger_price"@).is_some() && chain_quantity_usable(
                *order,
            ),
            ExecutionStrategy::VWAP => vwap_params_usable(*order),
            _ => false,
        },
        r matches Some(ActiveStrategy::Stop(s)) ==> order.strategy == ExecutionStrategy::STOP && stop_matches(s, *order, id@),
        r matches Some(ActiveStrategy::Chain(c)) ==> order.strategy == ExecutionStrategy::CHAIN && chain_matches(c, *order, id@),
        r matches Some(ActiveStrategy::Vwap(v)) ==> order.strategy == ExecutionStrategy::VWAP && vwap_matches(v, *order) && v.wf(),
{
    let p = &order.strategy_params;
    match order.strategy {
        ExecutionStrategy::STOP => {
            let tp = param_decimal_exec(p, "trigger_price");
            if tp.is_none() {
                return None;
            }
            let ts = match param_millis_exec(p, "trigger_timestamp") {
                Some(t) => t,
                None => 0,
            };
            let s = StopStrategy::new(
                id.clone(),
                order.symbol.clone(),
                order.side,
                order.quantity,
                param_side_exec(p, "trigger_side"),
                tp.unwrap(),
                ts,
                param_decimal_exec(p, "chained_price"),
            );
            Some(ActiveStrategy::Stop(s))
        },
        ExecutionStrategy::CHAIN => {
            let tp = param_decimal_exec(p, "trigger_price");
            if tp.is_none() {
                return None;
            }
            let ts = match param_millis_exec(p, "trigger_timestamp") {
                Some(t) => t,
                None => 0,
            };
            let symbol = match param(p, "chained_symbol") {
                Some(t) => t,
                None => order.symbol.clone(),
            };
            let qty = match param_whole_exec(p, "chained_quantity") {
                Some(q) => q,
                None => {
                    return None;
                },
            };
            if qty <= 0 {
                return None;
            }
            let chained_price = param_decimal_exec(p, "chained_price");
            let chained_type = if chained_price.is_some() {
                OrderType::LIMIT
            } else {
                OrderType::MARKET
            };
            let chained = Order::child(symbol, param_side_exec(p, "chained_side"), chained_type, qty, chained_price);
            let c = ChainStrategy::new(id.clone(), param_side_exec(p, "trigger_side"), tp.unwrap(), ts, chained);
            Some(ActiveStrategy::Chain(c))
        },
        ExecutionStrategy::VWAP => {
            let interval = param_millis_exec(p, "interval_seconds");
            let timeout = param_millis_exec(p, "timeout_seconds");
            if interval.is_none() || timeout.is_none() {
                return None;
            }
            let interval = interval.unwrap();
            let timeout = timeout.unwrap();
            let volume = match param_whole_exec(p, "total_volume") {
                Some(q) => q,
                None => order.quantity,
            };
            if interval <= 0 || timeout < 0 || volume < 0 {
                return None;
            }
            let limit = match param_decimal_exec(p, "limit_price") {
                Some(l) => Some(l),
                None => order.price,
            };
            let v = VWAPStrategy::new(order.symbol.clone(), order.side, limit, volume, interval, timeout);
            Some(ActiveStrategy::Vwap(v))
        },
        _ => None,
    }
}

/// How a strategy moves on a book update.
pub open spec fn book_step(a: ActiveStrategy, book: BookView, now: i64, b: ActiveStrategy, r: StrategyAction) -> bool {
    match (a, b) {
        (ActiveStrategy::Stop(x), ActiveStrategy::Stop(y)) => stop_event_post(x, Some(book), now, y, r),
        (ActiveStrategy::Chain(x), ActiveStrategy::Chain(y)) => chain_event_post(x, Some(book), now, y, r),
        (ActiveStrategy::Vwap(x), ActiveStrategy::Vwap(y)) => vwap_book_post(x, book, y, r),
        _ => false,
    }
}

/// How a strategy moves on a timer tick; a slicer only acts on book updates.
pub open spec fn timer_step(a: ActiveStrategy, now: i64, b: ActiveStrategy, r: StrategyAction) -> bool {
    match (a, b) {
        (ActiveStrategy::Stop(x), ActiveStrategy::Stop(y)) => stop_event_post(x, None, now, y, r),
        (ActiveStrategy::Chain(x), ActiveStrategy::Chain(y)) => chain_event_post(x, None, now, y, r),
        (ActiveStrategy::Vwap(x), ActiveStrategy::Vwap(y)) => y == x && r is NoAction,
        _ => false,
    }
}

/// How a strategy moves when order `order_id`, now `order`, changes status.
pub open spec fn status_step(a: ActiveStrategy, order_id: Seq<char>, order: Order, b: ActiveStrategy, r: StrategyAction) -> bool {
    match (a, b) {
        (ActiveStrategy::Stop(x), ActiveStrategy::Stop(y)) => stop_status_post(x, order, y, r),
        (ActiveStrategy::Chain(x), ActiveStrategy::Chain(y)) => chain_status_post(x, order_id, order.state, y, r),
        (ActiveStrategy::Vwap(x), ActiveStrategy::Vwap(y)) => vwap_status_post(x, order, y, r),
        _ => false,
    }
}

/// The strategies of a list that have not finished, in order.
pub open spec fn live_strategies(s: Seq<ActiveStrategy>) -> Seq<ActiveStrategy>
    decreases s.len(),
{
    if s.len() == 0 {
        s
    } else if s.last().done() {
        live_strategies(s.drop_last())
    } else {
        live_strategies(s.drop_last()).push(s.last())
    }
}

impl ActiveStrategy {
    /// A strategy with nothing left to do: a stop or chain that has placed its
    /// follow-up or seen its original filled, a slicer with no volume left and
    /// no slice outstanding.
    pub open spec fn done(&self) -> bool {
        match self {
            ActiveStrategy::Stop(s) => s.finished,
            ActiveStrategy::Chain(c) => c.finished,
            ActiveStrategy::Vwap(v) => v.remaining_volume == 0 && v.current_slice_order_id.is_none(),
        }
    }

    pub fn is_done(&self) -> (r: bool)
        ensures
            r == self.done(),
    {
        match self {
            ActiveStrategy::Stop(s) => s.finished,
            ActiveStrategy::Chain(c) => c.finished,
            ActiveStrategy::Vwap(v) => v.remaining_volume == 0 && v.current_slice_order_id.is_none(),
        }
    }

    pub open spec fn wf(&self) -> bool {
        match self {
            ActiveStrategy::Vwap(v) => v.wf(),
            _ => true,
        }
    }

    pub(crate) fn on_order_book_update(&mut self, book: &OrderBook, now: i64) -> (r: StrategyAction)
        requires
            old(self).wf(),
            book.wf(),
        ensures
            final(self).wf(),
            book_step(*old(self), book@, now, *final(self), r),
    {
        match self {
            ActiveStrategy::Stop(s) => s.on_order_book_update(book, now),
            ActiveStrategy::Chain(c) => c.on_order_book_update(book, now),
            ActiveStrategy::Vwap(v) => v.on_order_book_update(book),
        }
    }

    pub(crate) fn on_timer(&mut self, now: i64) -> (r: StrategyAction)
        requires
            old(self).wf(),
        ensures
            final(self).wf(),
            timer_step(*old(self), now, *final(self), r),
    {
        match self {
            ActiveStrategy::Stop(s) => s.on_timer(now),
            ActiveStrategy::Chain(c) => c.on_timer(now),
            ActiveStrategy::Vwap(_) => StrategyAction::NoAction,
        }
    }

    pub(crate) fn on_order_status_update(&mut self, order_id: &String, order: &Order) -> (r: StrategyAction)
        requires
            old(self).wf(),
            order.wf(),
        ensures
            final(self).wf(),
            status_step(*old(self), order_id@, *order, *final(self), r),
    {
        match self {
            ActiveStrategy::Stop(s) => s.on_order_status_update(order),
            ActiveStrategy::Chain(c) => c.on_order_status_update(order_id, order.state),
            ActiveStrategy::Vwap(v) => v.on_order_status_update(order),
        }
    }
}

} // verus!
