use vstd::prelude::*;
use crate::order::Order;
use crate::order_book::OrderBook;
use crate::strategy::{liquidity_up_to, min_int, opposite_liquidity};

verus! {

/// Immediate-or-cancel sizing: an order is cut down to what the book can fill
/// right now.
pub struct IOCStrategy;

impl IOCStrategy {
    /// The part of the order that the resting quantity within its limit price
    /// can fill; zero for an order of no positive quantity.
    pub fn calculate_fillable_qty(order: &Order, book: &OrderBook) -> (r: i64)
        requires
            book.wf(),
        ensures
            r == if order.quantity <= 0 {
                0
            } else {
                min_int(order.quantity as int, opposite_liquidity(*book, order.side, order.price))
            },
    {
        if order.quantity <= 0 {
            return 0;
        }
        liquidity_up_to(book, order.side, order.price, order.quantity)
    }
}

} // verus!
