use vstd::prelude::*;
use crate::order::Order;
use crate::order_book::OrderBook;
use crate::strategy::{liquidity_up_to, opposite_liquidity};

verus! {

/// Fill-or-kill gating: an order is admitted only when the book can fill it
/// whole right now.
pub struct FOKStrategy;

impl FOKStrategy {
    pub fn new() -> (r: FOKStrategy) {
        FOKStrategy
    }

    /// True exactly when the quantity resting against the order, within its
    /// limit price, covers the order's quantity.
    pub fn check(order: &Order, book: &OrderBook) -> (r: bool)
        requires
            book.wf(),
        ensures
            r == (opposite_liquidity(*book, order.side, order.price) >= order.quantity),
    {
        if order.quantity <= 0 {
            proof {
                crate::strategy::lemma_liquidity_nonneg(*book, order.side, order.price);
            }
            return true;
        }
        let avail = liquidity_up_to(book, order.side, order.price, order.quantity);
        avail >= order.quantity
    }
}

} // verus!
