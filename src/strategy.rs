use vstd::prelude::*;
use crate::decimal::Decimal;
use crate::order::{Order, OrderSide};
use crate::order_book::{ladder_wf, BookView, OrderBook, PriceLevel};

verus! {

/// What a strategy asks the engine to do next.
#[derive(Debug)]
pub enum StrategyAction {
    PlaceOrder(Order),
    CancelOrder(String),
    NoAction,
}

/// A price at which an order may trade: any price for a market order.
pub open spec fn within_limit(price: int, limit: Option<Decimal>, side: OrderSide) -> bool {
    match limit {
        None => true,
        Some(l) => match side {
            OrderSide::BUY => price <= l.units,
            OrderSide::SELL => price >= l.units,
        },
    }
}

/// The quantity a buyer can take by walking the asks from the lowest price up,
/// stopping at the first level beyond the limit.
pub open spec fn ask_liquidity(s: Seq<PriceLevel>, limit: Option<Decimal>) -> int
    decreases s.len(),
{
    if s.len() == 0 || !within_limit(s[0].price.units as int, limit, OrderSide::BUY) {
        0
    } else {
        s[0].quantity + ask_liquidity(s.drop_first(), limit)
    }
}

/// The quantity a seller can take by walking the bids from the highest price
/// down, stopping at the first level beyond the limit.
pub open spec fn bid_liquidity(s: Seq<PriceLevel>, limit: Option<Decimal>) -> int
    decreases s.len(),
{
    if s.len() == 0 || !within_limit(s.last().price.units as int, limit, OrderSide::SELL) {
        0
    } else {
        s.last().quantity + bid_liquidity(s.drop_last(), limit)
    }
}

/// The quantity resting on the side an order would trade against, within its
/// limit price.
pub open spec fn opposite_liquidity(book: OrderBook, side: OrderSide, limit: Option<Decimal>) -> int {
    match side {
        OrderSide::BUY => ask_liquidity(book.ask_ladder(), limit),
        OrderSide::SELL => bid_liquidity(book.bid_ladder(), limit),
    }
}

pub open spec fn min_int(a: int, b: int) -> int {
    if a <= b {
        a
    } else {
        b
    }
}

proof fn lemma_ask_liquidity_nonneg(s: Seq<PriceLevel>, limit: Option<Decimal>)
    requires
        forall|i: int| 0 <= i < s.len() ==> (#[trigger] s[i]).quantity > 0,
    ensures
        ask_liquidity(s, limit) >= 0,
    decreases s.len(),
{
    if s.len() > 0 {
        assert(s[0].quantity > 0);
        assert forall|i: int| 0 <= i < s.drop_first().len() implies (#[trigger] s.drop_first()[i]).quantity > 0 by {
            assert(s.drop_first()[i] == s[i + 1]);
        }
        lemma_ask_liquidity_nonneg(s.drop_first(), limit);
    }
}

proof fn lemma_bid_liquidity_nonneg(s: Seq<PriceLevel>, limit: Option<Decimal>)
    requires
        forall|i: int| 0 <= i < s.len() ==> (#[trigger] s[i]).quantity > 0,
    ensures
        bid_liquidity(s, limit) >= 0,
    decreases s.len(),
{
    if s.len() > 0 {
        assert(s[s.len() - 1].quantity > 0);
        assert forall|i: int| 0 <= i < s.drop_last().len() implies (#[trigger] s.drop_last()[i]).quantity > 0 by {
            assert(s.drop_last()[i] == s[i]);
        }
        lemma_bid_liquidity_nonneg(s.drop_last(), limit);
    }
}

/// No side of a well-formed book offers a negative quantity.
pub proof fn lemma_liquidity_nonneg(book: OrderBook, side: OrderSide, limit: Option<Decimal>)
    requires
        book.wf(),
    ensures
        opposite_liquidity(book, side, limit) >= 0,
{
    book.lemma_ladders();
    let a = book.ask_ladder();
    let b = book.bid_ladder();
    assert forall|i: int| 0 <= i < a.len() implies (#[trigger] a[i]).quantity > 0 by {}
    assert forall|i: int| 0 <= i < b.len() implies (#[trigger] b[i]).quantity > 0 by {}
    lemma_ask_liquidity_nonneg(a, limit);
    lemma_bid_liquidity_nonneg(b, limit);
}

/// The smaller of `cap` and the quantity resting against `side` within
/// `limit`.
pub fn liquidity_up_to(book: &OrderBook, side: OrderSide, limit: Option<Decimal>, cap: i64) -> (r: i64)
    requires
        book.wf(),
        cap > 0,
    ensures
        r == min_int(cap as int, opposite_liquidity(*book, side, limit)),
{
    proof {
        book.lemma_ladders();
    }
    let mut acc: i64 = 0;
    match side {
        OrderSide::BUY => {
            let ghost s = book.ask_ladder();
            let n = book.ask_depth();
            let mut i: usize = 0;
            assert(s.subrange(0, n as int) =~= s);
            while i < n
                invariant
                    s == book.ask_ladder(),
                    side == OrderSide::BUY,
                    ladder_wf(s),
                    n == s.len(),
                    0 <= i <= n,
                    0 <= acc < cap,
                    ask_liquidity(s, limit) == acc + ask_liquidity(s.subrange(i as int, n as int), limit),
                decreases n - i,
            {
                let l = book.ask_level(i);
                let ghost rest = s.subrange(i as int, n as int);
                proof {
                    assert(rest[0] == l);
                    assert(rest.drop_first() =~= s.subrange(i + 1, n as int));
                }
                let ok = match limit {
                    None => true,
                    Some(p) => l.price.units <= p.units,
                };
                if !ok {
                    assert(ask_liquidity(rest, limit) == 0);
                    return acc;
                }
                assert(ask_liquidity(rest, limit) == l.quantity + ask_liquidity(s.subrange(i + 1, n as int), limit));
                assert(l.quantity > 0);
                if l.quantity >= cap - acc {
                    proof {
                        let r2 = s.subrange(i + 1, n as int);
                        assert forall|j: int| 0 <= j < r2.len() implies (#[trigger] r2[j]).quantity > 0 by {
                            assert(r2[j] == s[i + 1 + j]);
                        }
                        lemma_ask_liquidity_nonneg(r2, limit);
                    }
                    return cap;
                }
                acc = acc + l.quantity;
                i = i + 1;
            }
            proof {
                assert(s.subrange(n as int, n as int).len() == 0);
            }
            acc
        },
        OrderSide::SELL => {
            let ghost s = book.bid_ladder();
            let n = book.bid_depth();
            let mut j: usize = n;
            assert(s.subrange(0, n as int) =~= s);
            while j > 0
                invariant
                    s == book.bid_ladder(),
                    side == OrderSide::SELL,
                    ladder_wf(s),
                    n == s.len(),
                    0 <= j <= n,
                    0 <= acc < cap,
                    bid_liquidity(s, limit) == acc + bid_liquidity(s.subrange(0, j as int), limit),
                decreases j,
            {
                let l = book.bid_level(j - 1);
                let ghost rest = s.subrange(0, j as int);
                proof {
                    assert(rest.last() == l);
                    assert(rest.drop_last() =~= s.subrange(0, j - 1));
                }
                let ok = match limit {
                    None => true,
                    Some(p) => l.price.units >= p.units,
                };
                if !ok {
                    assert(bid_liquidity(rest, limit) == 0);
                    return acc;
                }
                assert(bid_liquidity(rest, limit) == l.quantity + bid_liquidity(s.subrange(0, j - 1), limit));
                assert(l.quantity > 0);
                if l.quantity >= cap - acc {
                    proof {
                        let r2 = s.subrange(0, j - 1);
                        assert forall|k: int| 0 <= k < r2.len() implies (#[trigger] r2[k]).quantity > 0 by {
                            assert(r2[k] == s[k]);
                        }
                        lemma_bid_liquidity_nonneg(r2, limit);
                    }
                    return cap;
                }
                acc = acc + l.quantity;
                j = j - 1;
            }
            proof {
                assert(s.subrange(0, 0).len() == 0);
            }
            acc
        },
    }
}

/// Whether the book has reached a trigger price: some bid at or above it
/// (BUY), or some ask at or below it (SELL).
pub open spec fn price_reached(side: OrderSide, trigger_price: int, b: BookView) -> bool {
    match side {
        OrderSide::BUY => exists|p: int| #[trigger] b.bids.contains_key(p) && p >= trigger_price,
        OrderSide::SELL => exists|p: int| #[trigger] b.asks.contains_key(p) && p <= trigger_price,
    }
}

/// Whether a trigger fires: once the clock reaches a positive trigger time, or
/// when the book reaches the trigger price.
pub open spec fn trigger_fires(
    side: OrderSide,
    trigger_price: Decimal,
    trigger_timestamp: i64,
    book: Option<BookView>,
    now: i64,
) -> bool {
    (trigger_timestamp > 0 && now >= trigger_timestamp) || (book.is_some() && price_reached(
        side,
        trigger_price.units as int,
        book.unwrap(),
    ))
}

pub open spec fn book_view(book: Option<&OrderBook>) -> Option<BookView> {
    match book {
        Some(b) => Some(b@),
        None => None,
    }
}

/// Evaluates `trigger_fires`.
pub fn check_trigger(
    side: OrderSide,
    trigger_price: Decimal,
    trigger_timestamp: i64,
    book: Option<&OrderBook>,
    now: i64,
) -> (r: bool)
    requires
        book matches Some(b) ==> b.wf(),
    ensures
        r == trigger_fires(side, trigger_price, trigger_timestamp, book_view(book), now),
{
    if trigger_timestamp > 0 && now >= trigger_timestamp {
        return true;
    }
    if book.is_none() {
        return false;
    }
    let b = book.unwrap();
    assert(book_view(book) == Some(b@));
    if side == OrderSide::BUY {
        let bb = b.get_best_bid();
        if bb.is_none() {
            assert forall|q: int| !(#[trigger] b@.bids.contains_key(q)) by {
                assert(!b@.bids.dom().contains(q));
            }
            return false;
        }
        let (p, _) = bb.unwrap();
        if p.units >= trigger_price.units {
            assert(b@.bids.contains_key(p.units as int));
            true
        } else {
            assert forall|q: int| #[trigger] b@.bids.contains_key(q) implies q < trigger_price.units by {
                assert(q <= p.units);
            }
            false
        }
    } else {
        let ba = b.get_best_ask();
        if ba.is_none() {
            assert forall|q: int| !(#[trigger] b@.asks.contains_key(q)) by {
                assert(!b@.asks.dom().contains(q));
            }
            return false;
        }
        let (p, _) = ba.unwrap();
        if p.units <= trigger_price.units {
            assert(b@.asks.contains_key(p.units as int));
            true
        } else {
            assert forall|q: int| #[trigger] b@.asks.contains_key(q) implies q > trigger_price.units by {
                assert(q >= p.units);
            }
            false
        }
    }
}

/// Whether an order's id is `id`.
pub open spec fn has_id(order: Order, id: Seq<char>) -> bool {
    match order.order_id {
        Some(o) => o@ == id,
        None => false,
    }
}

pub fn order_has_id(order: &Order, id: &String) -> (r: bool)
    ensures
        r == has_id(*order, id@),
{
    match &order.order_id {
        Some(o) => *o == *id,
        None => false,
    }
}

} // verus!
