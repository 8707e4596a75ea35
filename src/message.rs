use vstd::prelude::*;
use crate::decimal::Decimal;
use crate::order::OrderState;
use crate::order_book::{OrderBookDelta, OrderBookSnapshot};

verus! {

/// Everything a venue connection reports to the engine.
#[derive(Debug)]
pub enum Message {
    ConnectionStatus(ConnectionStatus),
    /// A full book: replaces what was held.
    OrderBookSnapshot(OrderBookSnapshot),
    /// An absolute-quantity update of some levels.
    OrderBookUpdate { symbol: String, delta: OrderBookDelta },
    /// A trade between other parties.
    MarketTrade { symbol: String, price: Decimal, quantity: i64, timestamp: i64 },
    /// A status change of one of our orders.
    OrderStatus {
        order_id: String,
        state: OrderState,
        filled_qty: i64,
        filled_price: Option<Decimal>,
        msg: Option<String>,
        updated_at: i64,
    },
    AccountUpdate { account_id: String, balance: Option<Decimal>, locked: Option<Decimal> },
    /// A fill of one of our orders.
    Execution { order_id: String, fill_qty: i64, fill_price: Decimal },
    Error { code: i32, message: String },
}

#[derive(Clone, Copy, Debug, PartialEq, Eq, Structural)]
pub enum ConnectionStatus {
    Disconnected,
    Connecting,
    Connected,
    Reconnecting,
}

} // verus!
