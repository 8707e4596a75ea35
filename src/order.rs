use vstd::prelude::*;
use crate::clock::now_millis;
use crate::decimal::{parse_decimal, div_toward_zero, fits_i64, i128_div_toward_zero, parsed_decimal, wide_mul, Decimal};

verus! {

#[allow(non_camel_case_types)]
#[derive(Clone, Copy, Debug, PartialEq, Eq, Structural, Hash)]
pub enum OrderSide {
    BUY,
    SELL,
}

#[allow(non_camel_case_types)]
#[derive(Clone, Copy, Debug, PartialEq, Eq, Structural, Hash)]
pub enum OrderType {
    MARKET,
    LIMIT,
}

#[allow(non_camel_case_types)]
#[derive(Clone, Copy, Debug, PartialEq, Eq, Structural, Hash)]
pub enum OrderState {
    CREATED,
    PENDING_NEW,
    NEW,
    PARTIALLY_FILLED,
    FILLED,
    CANCELED,
    REJECTED,
    PENDING_CANCEL,
    PENDING_REPLACE,
}

#[allow(non_camel_case_types)]
#[derive(Clone, Copy, Debug, PartialEq, Eq, Structural, Hash)]
pub enum ExecutionStrategy {
    NONE,
    IOC,
    FOK,
    STOP,
    CHAIN,
    VWAP,
}

/// A client order and what is known of its life at the venue.
#[derive(Clone, Debug)]
pub struct Order {
    pub symbol: String,
    pub side: OrderSide,
    pub order_type: OrderType,
    pub quantity: i64,
    pub price: Option<Decimal>,
    pub order_id: Option<String>,
    pub exchange_order_id: Option<String>,
    pub state: OrderState,
    pub filled_quantity: i64,
    pub average_fill_price: Decimal,
    pub strategy: ExecutionStrategy,
    /// Strategy parameters as text, keyed by name; a later entry overrides an
    /// earlier one with the same key.
    pub strategy_params: Vec<(String, String)>,
    pub stop_price: Option<Decimal>,
    /// Epoch milliseconds.
    pub created_at: i64,
    /// Epoch milliseconds.
    pub updated_at: i64,
    pub error_message: Option<String>,
}

/// FILLED, CANCELED and REJECTED are final: no event moves an order out of them.
pub open spec fn is_terminal(s: OrderState) -> bool {
    s == OrderState::FILLED || s == OrderState::CANCELED || s == OrderState::REJECTED
}

/// What a text price becomes on an order: its decimal value, or nothing when
/// absent or unreadable.
pub open spec fn parsed_price(p: Option<String>) -> Option<Decimal> {
    match p {
        Some(s) => parsed_decimal(s@),
        None => None,
    }
}

/// The average price over `old_filled` units at `old_avg` and `fill` units at
/// `price`, in millionths rounded toward zero.
pub open spec fn fill_average(old_filled: int, old_avg: int, fill: int, price: int) -> int {
    div_toward_zero(old_filled * old_avg + fill * price, old_filled + fill)
}

/// Everything but the state, the error message and the update time agree.
pub open spec fn same_but_status(a: Order, b: Order) -> bool {
    &&& a.symbol == b.symbol
    &&& a.side == b.side
    &&& a.order_type == b.order_type
    &&& a.quantity == b.quantity
    &&& a.price == b.price
    &&& a.order_id == b.order_id
    &&& a.exchange_order_id == b.exchange_order_id
    &&& a.filled_quantity == b.filled_quantity
    &&& a.average_fill_price == b.average_fill_price
    &&& a.strategy == b.strategy
    &&& a.strategy_params@ == b.strategy_params@
    &&& a.stop_price == b.stop_price
    &&& a.created_at == b.created_at
}

/// Two orders that agree in every field.
pub open spec fn same_order(a: Order, b: Order) -> bool {
    &&& same_but_status(a, b)
    &&& a.state == b.state
    &&& a.error_message == b.error_message
    &&& a.updated_at == b.updated_at
}

fn copy_text(t: &Option<String>) -> (r: Option<String>)
    ensures
        r == *t,
{
    match t {
        Some(s) => Some(s.clone()),
        None => None,
    }
}

/// What `update_state` makes of an order.
pub open spec fn status_applied(a: Order, b: Order, new_state: OrderState, msg: Option<String>) -> bool {
    if a.accepts_state(new_state) {
        &&& b.state == new_state
        &&& same_but_status(b, a)
        &&& b.error_message == match msg {
            Some(m) => Some(m),
            None => a.error_message,
        }
    } else {
        same_order(b, a)
    }
}

pub fn is_terminal_state(s: OrderState) -> (r: bool)
    ensures
        r == is_terminal(s),
{
    s == OrderState::FILLED || s == OrderState::CANCELED || s == OrderState::REJECTED
}

impl Order {
    /// A valid order: a positive quantity, never overfilled, and FILLED exactly
    /// when the whole quantity has been filled.
    pub open spec fn wf(&self) -> bool {
        &&& self.quantity > 0
        &&& 0 <= self.filled_quantity <= self.quantity
        &&& (self.state == OrderState::FILLED <==> self.filled_quantity == self.quantity)
    }

    /// A status change that an order accepts: none once it is final, and FILLED
    /// only once the whole quantity has been filled.
    pub open spec fn accepts_state(&self, new_state: OrderState) -> bool {
        !is_terminal(self.state) && (new_state == OrderState::FILLED ==> self.filled_quantity == self.quantity)
    }

    /// A fill that an order accepts: a positive quantity, within what remains
    /// open, on an order that is not final.
    pub open spec fn accepts_fill(&self, fill_qty: i64, fill_price: Decimal) -> bool {
        &&& !is_terminal(self.state)
        &&& fill_qty > 0
        &&& self.filled_quantity + fill_qty <= self.quantity
        &&& fits_i64(
            fill_average(self.filled_quantity as int, self.average_fill_price.units as int, fill_qty as int, fill_price.units as int),
        )
    }

    #[allow(clippy::too_many_arguments)]
    pub fn new(
        symbol: String,
        side: OrderSide,
        order_type: OrderType,
        quantity: i64,
        price: Option<String>,
        strategy: Option<ExecutionStrategy>,
        strategy_params: Option<Vec<(String, String)>>,
        stop_price: Option<String>,
    ) -> (r: Order)
        ensures
            r.symbol == symbol,
            r.side == side,
            r.order_type == order_type,
            r.quantity == quantity,
            r.price == parsed_price(price),
            r.order_id.is_none(),
            r.exchange_order_id.is_none(),
            r.state == OrderState::CREATED,
            r.filled_quantity == 0,
            r.average_fill_price.units == 0,
            r.strategy == match strategy {
                Some(s) => s,
                None => ExecutionStrategy::NONE,
            },
            r.strategy_params@ == match strategy_params {
                Some(p) => p@,
                None => Seq::<(String, String)>::empty(),
            },
            r.stop_price == parsed_price(stop_price),
            r.created_at == r.updated_at,
            r.error_message.is_none(),
    {
        let now = now_millis();
        let price_dec = match &price {
            Some(p) => parse_decimal(p.as_str()),
            None => None,
        };
        let stop_dec = match &stop_price {
            Some(p) => parse_decimal(p.as_str()),
            None => None,
        };
        let strategy = match strategy {
            Some(s) => s,
            None => ExecutionStrategy::NONE,
        };
        let strategy_params = match strategy_params {
            Some(p) => p,
            None => Vec::new(),
        };
        Order {
            symbol,
            side,
            order_type,
            quantity,
            price: price_dec,
            order_id: None,
            exchange_order_id: None,
            state: OrderState::CREATED,
            filled_quantity: 0,
            average_fill_price: Decimal { units: 0 },
            strategy,
            strategy_params,
            stop_price: stop_dec,
            created_at: now,
            updated_at: now,
            error_message: None,
        }
    }

    /// A fresh order with no strategy, priced by a `Decimal`.
    pub fn child(symbol: String, side: OrderSide, order_type: OrderType, quantity: i64, price: Option<Decimal>) -> (r: Order)
        ensures
            r.symbol == symbol,
            r.side == side,
            r.order_type == order_type,
            r.quantity == quantity,
            r.price == price,
            r.order_id.is_none(),
            r.exchange_order_id.is_none(),
            r.state == OrderState::CREATED,
            r.filled_quantity == 0,
            r.average_fill_price.units == 0,
            r.strategy == ExecutionStrategy::NONE,
            r.strategy_params@.len() == 0,
            r.stop_price.is_none(),
            r.error_message.is_none(),
    {
        let now = now_millis();
        Order {
            symbol,
            side,
            order_type,
            quantity,
            price,
            order_id: None,
            exchange_order_id: None,
            state: OrderState::CREATED,
            filled_quantity: 0,
            average_fill_price: Decimal { units: 0 },
            strategy: ExecutionStrategy::NONE,
            strategy_params: Vec::new(),
            stop_price: None,
            created_at: now,
            updated_at: now,
            error_message: None,
        }
    }

    /// An independent copy of the order.
    pub fn duplicate(&self) -> (r: Order)
        ensures
            same_order(r, *self),
    {
        let mut params: Vec<(String, String)> = Vec::new();
        let mut i: usize = 0;
        while i < self.strategy_params.len()
            invariant
                0 <= i <= self.strategy_params@.len(),
                params@ == self.strategy_params@.subrange(0, i as int),
            decreases self.strategy_params@.len() - i,
        {
            let (k, v) = &self.strategy_params[i];
            params.push((k.clone(), v.clone()));
            i = i + 1;
            assert(params@ =~= self.strategy_params@.subrange(0, i as int));
        }
        assert(params@ =~= self.strategy_params@);
        Order {
            symbol: self.symbol.clone(),
            side: self.side,
            order_type: self.order_type,
            quantity: self.quantity,
            price: self.price,
            order_id: copy_text(&self.order_id),
            exchange_order_id: copy_text(&self.exchange_order_id),
            state: self.state,
            filled_quantity: self.filled_quantity,
            average_fill_price: self.average_fill_price,
            strategy: self.strategy,
            strategy_params: params,
            stop_price: self.stop_price,
            created_at: self.created_at,
            updated_at: self.updated_at,
            error_message: copy_text(&self.error_message),
        }
    }

    /// Checks the order's invariant at run time.
    pub fn is_valid(&self) -> (r: bool)
        ensures
            r == self.wf(),
    {
        self.quantity > 0 && 0 <= self.filled_quantity && self.filled_quantity <= self.quantity && ((self.state
            == OrderState::FILLED) == (self.filled_quantity == self.quantity))
    }

    /// Whether the order may still trade or be acted on at the venue.
    pub fn is_active(&self) -> (r: bool)
        ensures
            r == (self.state == OrderState::PENDING_NEW || self.state == OrderState::NEW || self.state
                == OrderState::PARTIALLY_FILLED || self.state == OrderState::PENDING_CANCEL || self.state
                == OrderState::PENDING_REPLACE),
    {
        match self.state {
            OrderState::PENDING_NEW | OrderState::NEW | OrderState::PARTIALLY_FILLED | OrderState::PENDING_CANCEL
            | OrderState::PENDING_REPLACE => true,
            _ => false,
        }
    }

    /// Moves the order to `new_state`, recording `msg` as its error message when
    /// given. A final order, or a FILLED status on an order not wholly filled,
    /// leaves the order as it is.
    pub fn update_state(&mut self, new_state: OrderState, msg: Option<String>)
        requires
            old(self).wf(),
        ensures
            final(self).wf(),
            if old(self).accepts_state(new_state) {
                &&& final(self).state == new_state
                &&& same_but_status(*final(self), *old(self))
                &&& final(self).error_message == match msg {
                    Some(m) => Some(m),
                    None => old(self).error_message,
                }
            } else {
                *final(self) == *old(self)
            },
    {
        if is_terminal_state(self.state) {
            return;
        }
        if new_state == OrderState::FILLED && self.filled_quantity != self.quantity {
            return;
        }
        self.state = new_state;
        self.updated_at = now_millis();
        if let Some(m) = msg {
            self.error_message = Some(m);
        }
    }

    /// Evaluates `accepts_fill`.
    pub fn can_fill(&self, fill_qty: i64, fill_price: Decimal) -> (r: bool)
        requires
            self.wf(),
        ensures
            r == self.accepts_fill(fill_qty, fill_price),
    {
        if is_terminal_state(self.state) || fill_qty <= 0 || fill_qty > self.quantity - self.filled_quantity {
            return false;
        }
        let new_filled: i64 = self.filled_quantity + fill_qty;
        let total: i128 = wide_mul(self.filled_quantity, self.average_fill_price.units) + wide_mul(
            fill_qty,
            fill_price.units,
        );
        let avg = i128_div_toward_zero(total, new_filled as i128);
        !(avg < i64::MIN as i128 || avg > i64::MAX as i128)
    }

    /// Records an execution of `fill_qty` units at `fill_price`: the filled
    /// quantity grows, the average fill price is re-weighted, and the state
    /// becomes FILLED or PARTIALLY_FILLED. Returns false, changing nothing,
    /// when the order does not accept the fill.
    pub fn record_fill(&mut self, fill_qty: i64, fill_price: Decimal) -> (r: bool)
        requires
            old(self).wf(),
        ensures
            final(self).wf(),
            r == old(self).accepts_fill(fill_qty, fill_price),
            r ==> {
                &&& final(self).filled_quantity == old(self).filled_quantity + fill_qty
                &&& final(self).average_fill_price.units == fill_average(
                    old(self).filled_quantity as int,
                    old(self).average_fill_price.units as int,
                    fill_qty as int,
                    fill_price.units as int,
                )
                &&& final(self).state == if final(self).filled_quantity == old(self).quantity {
                    OrderState::FILLED
                } else {
                    OrderState::PARTIALLY_FILLED
                }
                &&& final(self).symbol == old(self).symbol
                &&& final(self).side == old(self).side
                &&& final(self).quantity == old(self).quantity
                &&& final(self).order_id == old(self).order_id
                &&& final(self).strategy == old(self).strategy
                &&& final(self).error_message == old(self).error_message
            },
            !r ==> *final(self) == *old(self),
    {
        if is_terminal_state(self.state) || fill_qty <= 0 || fill_qty > self.quantity - self.filled_quantity {
            return false;
        }
        let new_filled: i64 = self.filled_quantity + fill_qty;
        let total: i128 = wide_mul(self.filled_quantity, self.average_fill_price.units) + wide_mul(
            fill_qty,
            fill_price.units,
        );
        let avg = i128_div_toward_zero(total, new_filled as i128);
        if avg < i64::MIN as i128 || avg > i64::MAX as i128 {
            return false;
        }
        self.filled_quantity = new_filled;
        self.average_fill_price = Decimal { units: avg as i64 };
        self.state = if new_filled == self.quantity {
            OrderState::FILLED
        } else {
            OrderState::PARTIALLY_FILLED
        };
        self.updated_at = now_millis();
        true
    }
}

} // verus!
