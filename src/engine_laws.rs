use vstd::prelude::*;
use crate::decimal::Decimal;
use crate::dispatch::{book_step, timer_step, ActiveStrategy};
use crate::engine::{
    cancel_effect, cancel_post, fill_post, fok_passes, saw_book_with, saw_tick_with, strategies_saw_book, send_post, status_post, status_update_post,
    strategies_saw_status, strategies_saw_tick, submittable, EngineView,
};
use crate::order::{same_order, status_applied, ExecutionStrategy, Order, OrderSide, OrderState};
use crate::strategy::StrategyAction;
use crate::order_book::{has_price, ladder_map, BookView, OrderBook};
use crate::strategy::price_reached;
use crate::strategy::opposite_liquidity;

verus! {

/// Placing an order that the venue takes and canceling it before any fill
/// leaves cash and positions as they were, and the order CANCELED with
/// nothing filled.
pub proof fn lemma_place_then_cancel(
    e0: EngineView,
    order: Order,
    id: Seq<char>,
    e1: EngineView,
    e2: EngineView,
    e3: EngineView,
)
    requires
        send_post(e0, order, id, e1),
        e1.orders[id].state == OrderState::PENDING_NEW,
        cancel_post(e1, id, e2),
        status_post(e2, id, OrderState::CANCELED, e3),
    ensures
        e3.account == e0.account,
        e3.orders.contains_key(id),
        e3.orders[id].state == OrderState::CANCELED,
        e3.orders[id].filled_quantity == 0,
{
    assert(e1.orders.dom().contains(id));
    assert(e1.orders[id].accepts_state(OrderState::PENDING_CANCEL));
    assert(e2.orders.contains_key(id));
    assert(e2.orders[id].state == OrderState::PENDING_CANCEL);
    assert(e2.orders[id].accepts_state(OrderState::CANCELED));
}

/// A partial fill followed by a cancel: the fill stays on the order and in
/// the account, and the order ends CANCELED, so nothing more of it can trade.
pub proof fn lemma_partial_fill_then_cancel(
    e0: EngineView,
    id: Seq<char>,
    q: i64,
    p: Decimal,
    e1: EngineView,
    msg: Option<String>,
    e2: EngineView,
)
    requires
        fill_post(e0, id, q, p, e1),
        e0.orders[id].filled_quantity + q < e0.orders[id].quantity,
        status_update_post(e1, id, OrderState::CANCELED, msg, e2),
    ensures
        e2.orders.contains_key(id),
        e2.orders[id].filled_quantity == e0.orders[id].filled_quantity + q,
        e2.orders[id].average_fill_price == e1.orders[id].average_fill_price,
        e2.orders[id].state == OrderState::CANCELED,
        e2.account == e1.account,
{
    assert(e1.orders.dom().contains(id));
    assert(e1.orders[id].state == OrderState::PARTIALLY_FILLED);
    assert(e1.orders[id].accepts_state(OrderState::CANCELED));
    let mid = choose|mid: Order| #[trigger] status_applied(e1.orders[id], mid, OrderState::CANCELED, msg) && e2.orders.contains_key(id)
        && (same_order(e2.orders[id], mid) || status_applied(mid, e2.orders[id], OrderState::PENDING_CANCEL, None))
        && strategies_saw_status(e1, id, mid, e2);
    assert(mid.state == OrderState::CANCELED);
}

/// On a book update, a stop whose trigger price the new book has reached asks
/// for its original order to be canceled, and that order, if it still accepts
/// a cancel, ends PENDING_CANCEL.
pub proof fn lemma_book_fires_stop(e0: EngineView, book: BookView, e1: EngineView, i: int)
    requires
        strategies_saw_book(e0, book, e1),
        0 <= i < e0.strategies.len(),
        e0.strategies[i] matches ActiveStrategy::Stop(s) && !s.triggered && !s.finished && price_reached(
            s.trigger_side,
            s.trigger_price.units as int,
            book,
        ) && e0.orders.contains_key(s.original_order_id@) && e0.orders[s.original_order_id@].accepts_state(
            OrderState::PENDING_CANCEL,
        ),
    ensures
        e0.strategies[i] matches ActiveStrategy::Stop(s) && e1.orders[s.original_order_id@].state == OrderState::PENDING_CANCEL,
{
    let (now, acts) = choose|now: i64, acts: Seq<StrategyAction>| #[trigger] saw_book_with(e0, book, e1, now, acts);
    assert(book_step(e0.strategies[i], book, now, e1.strategies[i], acts[i]));
    assert(cancel_effect(e0.orders, acts[i], e1.orders));
}

/// On a timer tick, a stop or chain whose trigger time has come asks for its
/// original order to be canceled, and that order, if it still accepts a
/// cancel, ends PENDING_CANCEL.
pub proof fn lemma_timer_fires_stop(e0: EngineView, now: i64, e1: EngineView, i: int)
    requires
        strategies_saw_tick(e0, now, e1),
        0 <= i < e0.strategies.len(),
        ({
            let (id, fires) = match e0.strategies[i] {
                ActiveStrategy::Stop(s) => (s.original_order_id@, !s.triggered && !s.finished && s.trigger_timestamp > 0
                    && now >= s.trigger_timestamp),
                ActiveStrategy::Chain(c) => (c.original_order_id@, !c.triggered && !c.finished && c.trigger_timestamp > 0
                    && now >= c.trigger_timestamp),
                ActiveStrategy::Vwap(_) => (Seq::<char>::empty(), false),
            };
            fires && e0.orders.contains_key(id) && e0.orders[id].accepts_state(OrderState::PENDING_CANCEL)
        }),
    ensures
        match e0.strategies[i] {
            ActiveStrategy::Stop(s) => e1.orders[s.original_order_id@].state == OrderState::PENDING_CANCEL,
            ActiveStrategy::Chain(c) => e1.orders[c.original_order_id@].state == OrderState::PENDING_CANCEL,
            ActiveStrategy::Vwap(_) => true,
        },
{
    let acts = choose|acts: Seq<StrategyAction>| #[trigger] saw_tick_with(e0, now, e1, acts);
    assert(timer_step(e0.strategies[i], now, e1.strategies[i], acts[i]));
    assert(cancel_effect(e0.orders, acts[i], e1.orders));
}

/// A side of a well-formed book that holds no level offers nothing.
pub proof fn lemma_empty_side_offers_nothing(book: OrderBook, side: OrderSide, limit: Option<Decimal>)
    requires
        book.wf(),
        match side {
            OrderSide::BUY => book@.asks.dom() == Set::<int>::empty(),
            OrderSide::SELL => book@.bids.dom() == Set::<int>::empty(),
        },
    ensures
        opposite_liquidity(book, side, limit) == 0,
{
    book.lemma_ladders();
    let a = book.ask_ladder();
    let b = book.bid_ladder();
    match side {
        OrderSide::BUY => {
            if a.len() > 0 {
                assert(has_price(a, a[0].price.units as int));
                assert(ladder_map(a).dom().contains(a[0].price.units as int));
            }
        },
        OrderSide::SELL => {
            if b.len() > 0 {
                assert(has_price(b, b[0].price.units as int));
                assert(ladder_map(b).dom().contains(b[0].price.units as int));
            }
        },
    }
}

/// A fill-or-kill order for a symbol with no book, or whose book is empty on
/// the side it would trade against, is recorded as REJECTED.
pub proof fn lemma_fok_empty_book_rejected(e0: EngineView, order: Order, id: Seq<char>, e1: EngineView)
    requires
        send_post(e0, order, id, e1),
        order.strategy == ExecutionStrategy::FOK,
        submittable(order),
        e0.books.contains_key(order.symbol@) ==> e0.books[order.symbol@].wf() && match order.side {
            OrderSide::BUY => e0.books[order.symbol@]@.asks.dom() == Set::<int>::empty(),
            OrderSide::SELL => e0.books[order.symbol@]@.bids.dom() == Set::<int>::empty(),
        },
    ensures
        e1.orders[id].state == OrderState::REJECTED,
{
    if e0.books.contains_key(order.symbol@) {
        lemma_empty_side_offers_nothing(e0.books[order.symbol@], order.side, order.price);
    }
    assert(!fok_passes(e0, order));
}

} // verus!
