use vstd::prelude::*;
use crate::account::{execution_spec, positions_from_list, AccountState, AccountView};
use crate::adapter::{AccountSnapshot, Adapter};
use crate::clock::{new_order_id, now_millis};
use crate::decimal::Decimal;
use crate::dispatch::{
    live_strategies,
    chain_quantity_usable,
    book_step, chain_matches, param_decimal, parse_strategy, status_step, stop_matches, timer_step, vwap_matches,
    vwap_params_usable, ActiveStrategy,
};
use crate::fok::FOKStrategy;
use crate::ioc::IOCStrategy;
use crate::order::{
    is_terminal, same_but_status, same_order, status_applied, ExecutionStrategy, Order, OrderSide, OrderState, OrderType,
};
use crate::message::Message;
use crate::order_book::{apply_delta_spec, is_crossed, levels_from_pairs, BookView, OrderBook, OrderBookDelta, OrderBookSnapshot};
use crate::registry::{
    keyed_has, keyed_map, keys_unique, lemma_keyed_at, lemma_keyed_empty, lemma_keyed_len, lemma_keyed_push, lemma_keyed_update,
};
use crate::strategy::{min_int, opposite_liquidity, StrategyAction};

verus! {

broadcast use vstd::string::to_string_from_display_ensures_for_str;

/// Failures that the engine reports to its caller.
#[derive(Debug)]
pub enum EngineError {
    /// The order breaks the order invariant, or is already part filled.
    InvalidOrder,
    /// An order with this id is already known.
    DuplicateOrderId,
    /// A STOP, CHAIN or VWAP order lacks a parameter its strategy needs, or
    /// one does not read.
    MissingStrategyParams,
    OrderNotFound,
    /// The order or the account refuses the execution.
    FillRefused,
    /// The venue connection failed; the text says how.
    Adapter(String),
}

pub open spec fn order_key(o: Order) -> Seq<char> {
    match o.order_id {
        Some(id) => id@,
        None => Seq::<char>::empty(),
    }
}

pub open spec fn order_key_fn() -> spec_fn(Order) -> Seq<char> {
    |o: Order| order_key(o)
}

pub open spec fn order_val_fn() -> spec_fn(Order) -> Order {
    |o: Order| o
}

pub open spec fn book_key_fn() -> spec_fn(OrderBook) -> Seq<char> {
    |b: OrderBook| b@.symbol
}

pub open spec fn book_val_fn() -> spec_fn(OrderBook) -> OrderBook {
    |b: OrderBook| b
}

/// The engine's state: books by symbol, orders by id, the account, and whether
/// it is running.
pub struct EngineView {
    pub books: Map<Seq<char>, OrderBook>,
    pub orders: Map<Seq<char>, Order>,
    pub account: AccountView,
    pub running: bool,
    /// The registered strategies, in the order they were registered.
    pub strategies: Seq<ActiveStrategy>,
    /// Structured events not yet drained.
    pub events: Seq<EngineEvent>,
}

/// A structured event for the audit log.
#[derive(Debug)]
pub enum EngineEvent {
    /// An order was recorded as REJECTED, with the reason.
    OrderRejected { order_id: String, reason: String },
    /// A cancel was forwarded to the venue; `success` is the venue's answer.
    OrderCancelRequested { order_id: String, success: bool },
}

pub open spec fn is_rejection_of(ev: EngineEvent, id: Seq<char>) -> bool {
    ev matches EngineEvent::OrderRejected { order_id, reason: _ } && order_id@ == id
}

pub open spec fn is_cancel_request_of(ev: EngineEvent, id: Seq<char>) -> bool {
    ev matches EngineEvent::OrderCancelRequested { order_id, success: _ } && order_id@ == id
}

/// `a` is an initial part of `b`.
pub open spec fn grows<T>(a: Seq<T>, b: Seq<T>) -> bool {
    a.len() <= b.len() && b.subrange(0, a.len() as int) == a
}

/// Every order known before is still there, untouched or asked to cancel.
pub open spec fn only_cancels(a: Map<Seq<char>, Order>, b: Map<Seq<char>, Order>) -> bool {
    forall|id: Seq<char>|
        #[trigger] a.contains_key(id) ==> b.contains_key(id) && (same_order(b[id], a[id]) || status_applied(
            a[id],
            b[id],
            OrderState::PENDING_CANCEL,
            None,
        ))
}

/// `only_cancels` composes.
pub proof fn lemma_only_cancels_trans(a: Map<Seq<char>, Order>, b: Map<Seq<char>, Order>, c: Map<Seq<char>, Order>)
    requires
        only_cancels(a, b),
        only_cancels(b, c),
    ensures
        only_cancels(a, c),
{
    assert forall|id: Seq<char>| #[trigger] a.contains_key(id) implies c.contains_key(id) && (same_order(c[id], a[id])
        || status_applied(a[id], c[id], OrderState::PENDING_CANCEL, None)) by {
        assert(b.contains_key(id));
    }
}

proof fn lemma_grows_trans<T>(a: Seq<T>, b: Seq<T>, c: Seq<T>)
    requires
        grows(a, b),
        grows(b, c),
    ensures
        grows(a, c),
{
    assert(c.subrange(0, a.len() as int) =~= b.subrange(0, a.len() as int));
}

/// The strategy, if any, that `send_order` registers for an order.
pub open spec fn registers_strategy(order: Order) -> bool {
    match order.strategy {
        ExecutionStrategy::STOP => param_decimal(order.strategy_params@, "trigger_price"@).is_some(),
        ExecutionStrategy::CHAIN => param_decimal(order.strategy_params@, "trigger_price"@).is_some() && chain_quantity_usable(
            order,
        ),
        ExecutionStrategy::VWAP => vwap_params_usable(order),
        _ => false,
    }
}

/// A strategy built from the parameters of order `id`.
pub open spec fn strategy_for(st: ActiveStrategy, order: Order, id: Seq<char>) -> bool {
    match st {
        ActiveStrategy::Stop(s) => order.strategy == ExecutionStrategy::STOP && stop_matches(s, order, id),
        ActiveStrategy::Chain(c) => order.strategy == ExecutionStrategy::CHAIN && chain_matches(c, order, id),
        ActiveStrategy::Vwap(v) => order.strategy == ExecutionStrategy::VWAP && vwap_matches(v, order) && v.wf(),
    }
}

/// How the orders known before an operation stand after it: none is lost,
/// none changes its symbol, side, quantity or filled quantity, and a final
/// order does not change at all.
pub open spec fn orders_evolve(a: Map<Seq<char>, Order>, b: Map<Seq<char>, Order>) -> bool {
    forall|id: Seq<char>|
        #[trigger] a.contains_key(id) ==> {
            &&& b.contains_key(id)
            &&& b[id].symbol == a[id].symbol
            &&& b[id].side == a[id].side
            &&& b[id].quantity == a[id].quantity
            &&& b[id].filled_quantity == a[id].filled_quantity
            &&& is_terminal(a[id].state) ==> same_order(b[id], a[id])
        }
}

/// A fill-or-kill order that the book can fill whole.
pub open spec fn fok_passes(e: EngineView, o: Order) -> bool {
    e.books.contains_key(o.symbol@) && opposite_liquidity(e.books[o.symbol@], o.side, o.price) >= o.quantity
}

/// The part of an immediate-or-cancel order that the book can fill now.
pub open spec fn ioc_fillable(e: EngineView, o: Order) -> int {
    if e.books.contains_key(o.symbol@) {
        min_int(o.quantity as int, opposite_liquidity(e.books[o.symbol@], o.side, o.price))
    } else {
        0
    }
}

/// An order the engine takes in: valid, and not yet filled at all.
pub open spec fn submittable(o: Order) -> bool {
    &&& o.wf()
    &&& o.filled_quantity == 0
    &&& o.order_type == OrderType::LIMIT ==> o.price.is_some()
}

/// A stateful strategy's parameters describe a strategy that can be run.
pub open spec fn strategy_ready(o: Order) -> bool {
    (o.strategy == ExecutionStrategy::STOP || o.strategy == ExecutionStrategy::CHAIN || o.strategy == ExecutionStrategy::VWAP)
        ==> registers_strategy(o)
}

/// Of an order sent to the venue: still pending, or refused there.
pub open spec fn sent_state(s: OrderState) -> bool {
    s == OrderState::PENDING_NEW || s == OrderState::REJECTED
}

/// What `send_order` records for an order it took in under the id `id`.
pub open spec fn send_outcome(e: EngineView, order: Order, o: Order, id: Seq<char>) -> bool {
    &&& order_key(o) == id
    &&& o.symbol == order.symbol
    &&& o.side == order.side
    &&& o.order_type == order.order_type
    &&& o.price == order.price
    &&& o.strategy == order.strategy
    &&& o.filled_quantity == 0
    &&& if order.strategy == ExecutionStrategy::FOK && !fok_passes(e, order) {
        o.state == OrderState::REJECTED && o.quantity == order.quantity && o.error_message.is_some()
    } else if order.strategy == ExecutionStrategy::IOC && ioc_fillable(e, order) == 0 {
        o.state == OrderState::REJECTED && o.quantity == order.quantity && o.error_message.is_some()
    } else if order.strategy == ExecutionStrategy::IOC {
        sent_state(o.state) && o.quantity == ioc_fillable(e, order)
    } else if order.strategy == ExecutionStrategy::VWAP {
        o.state == OrderState::CREATED && o.quantity == order.quantity
    } else {
        sent_state(o.state) && o.quantity == order.quantity
    }
}

/// The state after `send_order` took in `order` under the id `id`.
pub open spec fn send_post(e: EngineView, order: Order, id: Seq<char>, f: EngineView) -> bool {
    &&& f.account == e.account
    &&& f.books == e.books
    &&& f.running == e.running
    &&& orders_evolve(e.orders, f.orders)
    &&& !e.orders.contains_key(id)
    &&& f.orders.dom() == e.orders.dom().insert(id)
    &&& forall|k: Seq<char>| #[trigger] e.orders.contains_key(k) ==> f.orders[k] == e.orders[k]
    &&& send_outcome(e, order, f.orders[id], id)
    &&& if registers_strategy(order) {
        f.strategies.len() == e.strategies.len() + 1 && f.strategies.drop_last() == e.strategies && strategy_for(
            f.strategies.last(),
            order,
            id,
        )
    } else {
        f.strategies == e.strategies
    }
    &&& if f.orders[id].state == OrderState::REJECTED {
        f.events.len() == e.events.len() + 1 && f.events.drop_last() == e.events && is_rejection_of(f.events.last(), id)
    } else {
        f.events == e.events
    }
}

/// The state after `cancel_order(id)`.
pub open spec fn cancel_post(e: EngineView, id: Seq<char>, f: EngineView) -> bool {
    &&& f.account == e.account
    &&& f.books == e.books
    &&& f.running == e.running
    &&& f.orders.dom() == e.orders.dom()
    &&& orders_evolve(e.orders, f.orders)
    &&& e.orders.contains_key(id) ==> status_applied(e.orders[id], f.orders[id], OrderState::PENDING_CANCEL, None)
    &&& forall|k: Seq<char>| k != id && #[trigger] e.orders.contains_key(k) ==> f.orders[k] == e.orders[k]
    &&& f.strategies == e.strategies
    &&& if e.orders.contains_key(id) {
        f.events.len() == e.events.len() + 1 && f.events.drop_last() == e.events && is_cancel_request_of(f.events.last(), id)
    } else {
        f.events == e.events
    }
}

/// The state after `on_order_status_update(id, state, ..)`: the account and
/// the books untouched, and a final status that the order accepted kept.
pub open spec fn status_post(e: EngineView, id: Seq<char>, state: OrderState, f: EngineView) -> bool {
    &&& f.account == e.account
    &&& f.books == e.books
    &&& f.running == e.running
    &&& orders_evolve(e.orders, f.orders)
    &&& e.orders.contains_key(id) && e.orders[id].accepts_state(state) && is_terminal(state) ==> f.orders[id].state == state
}

/// An execution that `on_trade_update` books: the order exists, accepts the
/// fill, and the account can take it.
pub open spec fn fill_succeeds(e: EngineView, id: Seq<char>, q: i64, p: Decimal) -> bool {
    &&& e.orders.contains_key(id)
    &&& e.orders[id].accepts_fill(q, p)
    &&& execution_spec(e.account, e.orders[id].symbol@, e.orders[id].side, q as int, p.units as int, 0).is_some()
}

/// The state after `on_trade_update(id, q, p)` succeeded.
pub open spec fn fill_post(e: EngineView, id: Seq<char>, q: i64, p: Decimal, f: EngineView) -> bool {
    &&& e.orders.contains_key(id)
    &&& f.books == e.books
    &&& f.running == e.running
    &&& f.orders.dom() == e.orders.dom()
    &&& ({
        let o = e.orders[id];
        let n = f.orders[id];
        &&& o.accepts_fill(q, p)
        &&& f.account == execution_spec(e.account, o.symbol@, o.side, q as int, p.units as int, 0).unwrap()
        &&& n.filled_quantity == o.filled_quantity + q
        &&& n.symbol == o.symbol
        &&& n.side == o.side
        &&& n.quantity == o.quantity
        &&& n.state == if o.filled_quantity + q == o.quantity {
            OrderState::FILLED
        } else {
            OrderState::PARTIALLY_FILLED
        }
    })
    &&& forall|k: Seq<char>| k != id && #[trigger] e.orders.contains_key(k) ==> f.orders[k] == e.orders[k]
}

/// What the venue's answer to a placement does to the order: nothing on
/// acceptance, REJECTED with a message otherwise.
pub open spec fn place_result_applied(a: Order, b: Order, result: Result<bool, String>) -> bool {
    match result {
        Ok(true) => same_order(b, a),
        Ok(false) => if a.accepts_state(OrderState::REJECTED) {
            &&& b.state == OrderState::REJECTED
            &&& same_but_status(b, a)
            &&& b.error_message matches Some(m) && m@ == adapter_refusal_text()
        } else {
            same_order(b, a)
        },
        Err(e) => status_applied(a, b, OrderState::REJECTED, Some(e)),
    }
}

/// The error message of an order that the venue refused.
pub open spec fn adapter_refusal_text() -> Seq<char> {
    "Adapter Send Failed"@
}

/// The central state holder: order books, orders, the account, and the
/// strategies that watch them. Every change of state goes through it.
pub struct OMSEngine<A: Adapter> {
    adapter: A,
    order_books: Vec<OrderBook>,
    account: AccountState,
    orders: Vec<Order>,
    is_running: bool,
    margin_requirement: Decimal,
    active_strategies: Vec<ActiveStrategy>,
    events: Vec<EngineEvent>,
}

impl<A: Adapter> View for OMSEngine<A> {
    type V = EngineView;

    closed spec fn view(&self) -> EngineView {
        EngineView {
            books: keyed_map(self.order_books@, book_key_fn(), book_val_fn()),
            orders: keyed_map(self.orders@, order_key_fn(), order_val_fn()),
            account: self.account@,
            running: self.is_running,
            strategies: self.active_strategies@,
            events: self.events@,
        }
    }
}

impl<A: Adapter> OMSEngine<A> {
    pub closed spec fn wf(&self) -> bool {
        &&& keys_unique(self.orders@, order_key_fn())
        &&& forall|i: int| 0 <= i < self.orders@.len() ==> (#[trigger] self.orders@[i]).wf() && self.orders@[i].order_id.is_some()
        &&& keys_unique(self.order_books@, book_key_fn())
        &&& forall|i: int| 0 <= i < self.order_books@.len() ==> (#[trigger] self.order_books@[i]).wf()
        &&& self.account.wf()
        &&& forall|i: int| 0 <= i < self.active_strategies@.len() ==> (#[trigger] self.active_strategies@[i]).wf()
    }

    /// Every order the engine holds is valid and filed under its own id, and
    /// every book is well formed and filed under its own symbol.
    pub proof fn lemma_registry_valid(&self)
        requires
            self.wf(),
        ensures
            forall|id: Seq<char>| #[trigger] self@.orders.contains_key(id) ==> self@.orders[id].wf() && order_key(self@.orders[id]) == id,
            forall|s: Seq<char>| #[trigger] self@.books.contains_key(s) ==> self@.books[s].wf() && self@.books[s]@.symbol == s,
    {
        assert forall|id: Seq<char>| #[trigger] self@.orders.contains_key(id) implies self@.orders[id].wf() && order_key(self@.orders[id]) == id by {
            let i = choose|i: int| 0 <= i < self.orders@.len() && order_key_fn()(#[trigger] self.orders@[i]) == id;
            lemma_keyed_at(self.orders@, order_key_fn(), order_val_fn(), i);
        }
        assert forall|s: Seq<char>| #[trigger] self@.books.contains_key(s) implies self@.books[s].wf() && self@.books[s]@.symbol == s by {
            let i = choose|i: int| 0 <= i < self.order_books@.len() && book_key_fn()(#[trigger] self.order_books@[i]) == s;
            lemma_keyed_at(self.order_books@, book_key_fn(), book_val_fn(), i);
        }
    }

    pub fn new(adapter: A, margin_requirement: Decimal) -> (r: OMSEngine<A>)
        ensures
            r.wf(),
            r@.books == Map::<Seq<char>, OrderBook>::empty(),
            r@.orders == Map::<Seq<char>, Order>::empty(),
            r@.account.balance == 0,
            r@.account.positions == Map::<Seq<char>, crate::account::PositionView>::empty(),
            !r@.running,
    {
        let r = OMSEngine {
            adapter,
            order_books: Vec::new(),
            account: AccountState::new(),
            orders: Vec::new(),
            is_running: false,
            margin_requirement,
            active_strategies: Vec::new(),
            events: Vec::new(),
        };
        proof {
            lemma_keyed_empty(r.orders@, order_key_fn(), order_val_fn());
            lemma_keyed_empty(r.order_books@, book_key_fn(), book_val_fn());
        }
        r
    }

    /// The venue connection.
    pub fn adapter(&self) -> &A {
        &self.adapter
    }

    fn find_order(&self, id: &String) -> (r: Option<usize>)
        requires
            self.wf(),
        ensures
            match r {
                Some(i) => {
                    &&& i < self.orders@.len()
                    &&& order_key(self.orders@[i as int]) == id@
                    &&& self@.orders.contains_key(id@)
                    &&& self@.orders[id@] == self.orders@[i as int]
                },
                None => !self@.orders.contains_key(id@),
            },
    {
        let mut i: usize = 0;
        while i < self.orders.len()
            invariant
                0 <= i <= self.orders@.len(),
                self.wf(),
                forall|j: int| 0 <= j < i ==> order_key(#[trigger] self.orders@[j]) != id@,
                forall|j: int| 0 <= j < self.orders@.len() ==> (#[trigger] self.orders@[j]).order_id.is_some(),
            decreases self.orders@.len() - i,
        {
            let hit = match &self.orders[i].order_id {
                Some(o) => *o == *id,
                None => false,
            };
            if hit {
                proof {
                    lemma_keyed_at(self.orders@, order_key_fn(), order_val_fn(), i as int);
                }
                return Some(i);
            }
            i = i + 1;
        }
        proof {
            if keyed_has(self.orders@, order_key_fn(), id@) {
                let j = choose|j: int| 0 <= j < self.orders@.len() && order_key_fn()(#[trigger] self.orders@[j]) == id@;
                assert(order_key(self.orders@[j]) != id@);
            }
        }
        None
    }

    fn set_order(&mut self, i: usize, o: Order)
        requires
            old(self).wf(),
            i < old(self).orders@.len(),
            order_key(o) == order_key(old(self).orders@[i as int]),
            o.wf(),
            o.order_id.is_some(),
        ensures
            final(self)@.strategies == old(self)@.strategies,
            final(self)@.events == old(self)@.events,
            final(self).wf(),
            final(self)@.orders == old(self)@.orders.insert(order_key(o), o),
            final(self)@.books == old(self)@.books,
            final(self)@.account == old(self)@.account,
            final(self)@.running == old(self)@.running,
    {
        let ghost s = self.orders@;
        proof {
            lemma_keyed_update(s, order_key_fn(), order_val_fn(), i as int, o);
        }
        self.orders.set(i, o);
        proof {
            assert(self.orders@ == s.update(i as int, o));
        }
    }

    fn add_order(&mut self, o: Order)
        requires
            old(self).wf(),
            o.wf(),
            o.order_id.is_some(),
            !old(self)@.orders.contains_key(order_key(o)),
        ensures
            final(self)@.strategies == old(self)@.strategies,
            final(self)@.events == old(self)@.events,
            final(self).wf(),
            final(self)@.orders == old(self)@.orders.insert(order_key(o), o),
            final(self)@.books == old(self)@.books,
            final(self)@.account == old(self)@.account,
            final(self)@.running == old(self)@.running,
    {
        let ghost s = self.orders@;
        proof {
            lemma_keyed_push(s, order_key_fn(), order_val_fn(), o);
        }
        self.orders.push(o);
    }

    /// Moves the order at `i` to `state`, as `Order::update_state` does.
    fn change_order_state(&mut self, i: usize, state: OrderState, msg: Option<String>)
        requires
            old(self).wf(),
            i < old(self).orders@.len(),
        ensures
            final(self)@.strategies == old(self)@.strategies,
            final(self)@.events == old(self)@.events,
            final(self).wf(),
            final(self)@.books == old(self)@.books,
            final(self)@.account == old(self)@.account,
            final(self)@.running == old(self)@.running,
            final(self)@.orders.dom() == old(self)@.orders.dom(),
            ({
                let id = order_key(old(self).orders@[i as int]);
                &&& status_applied(old(self).orders@[i as int], final(self)@.orders[id], state, msg)
                &&& forall|k: Seq<char>| k != id && #[trigger] old(self)@.orders.contains_key(k) ==> final(self)@.orders[k] == old(self)@.orders[k]
            }),
    {
        let mut o = self.orders[i].duplicate();
        o.update_state(state, msg);
        self.set_order(i, o);
        proof {
            lemma_keyed_at(old(self).orders@, order_key_fn(), order_val_fn(), i as int);
            assert(final(self)@.orders.dom() =~= old(self)@.orders.dom());
        }
    }

    /// What the venue's answer to placing order `order_id` does to it.
    pub fn apply_place_result(&mut self, order_id: &String, result: Result<bool, String>)
        requires
            old(self).wf(),
        ensures
            final(self)@.strategies == old(self)@.strategies,
            final(self)@.events == old(self)@.events,
            final(self).wf(),
            final(self)@.books == old(self)@.books,
            final(self)@.account == old(self)@.account,
            final(self)@.running == old(self)@.running,
            final(self)@.orders.dom() == old(self)@.orders.dom(),
            old(self)@.orders.contains_key(order_id@) ==> place_result_applied(
                old(self)@.orders[order_id@],
                final(self)@.orders[order_id@],
                result,
            ),
            forall|k: Seq<char>| k != order_id@ && #[trigger] old(self)@.orders.contains_key(k) ==> final(self)@.orders[k]
                == old(self)@.orders[k],
    {
        let found = self.find_order(order_id);
        match found {
            None => {},
            Some(i) => {
                match result {
                    Ok(true) => {
                        proof {
                            assert(same_order(old(self)@.orders[order_id@], old(self)@.orders[order_id@]));
                        }
                    },
                    Ok(false) => {
                        let text = refusal_text();
                        self.change_order_state(i, OrderState::REJECTED, Some(text));
                    },
                    Err(e) => {
                        self.change_order_state(i, OrderState::REJECTED, Some(e));
                    },
                }
            },
        }
    }
}

impl<A: Adapter> OMSEngine<A> {
    fn find_book(&self, symbol: &String) -> (r: Option<usize>)
        requires
            self.wf(),
        ensures
            match r {
                Some(i) => {
                    &&& i < self.order_books@.len()
                    &&& self.order_books@[i as int]@.symbol == symbol@
                    &&& self@.books.contains_key(symbol@)
                    &&& self@.books[symbol@] == self.order_books@[i as int]
                },
                None => !self@.books.contains_key(symbol@),
            },
    {
        let mut i: usize = 0;
        while i < self.order_books.len()
            invariant
                0 <= i <= self.order_books@.len(),
                self.wf(),
                forall|j: int| 0 <= j < i ==> (#[trigger] self.order_books@[j])@.symbol != symbol@,
            decreases self.order_books@.len() - i,
        {
            if *self.order_books[i].get_symbol() == *symbol {
                proof {
                    lemma_keyed_at(self.order_books@, book_key_fn(), book_val_fn(), i as int);
                }
                return Some(i);
            }
            i = i + 1;
        }
        proof {
            if keyed_has(self.order_books@, book_key_fn(), symbol@) {
                let j = choose|j: int| 0 <= j < self.order_books@.len() && book_key_fn()(#[trigger] self.order_books@[j]) == symbol@;
                assert(self.order_books@[j]@.symbol != symbol@);
            }
        }
        None
    }

    /// Takes in a client order: assigns an id when it has none, applies the
    /// fill-or-kill or immediate-or-cancel gate, registers the strategy its
    /// parameters describe, and sends it to the venue as PENDING_NEW. A gated
    /// order is recorded as REJECTED and never reaches the venue. A VWAP parent
    /// is recorded and worked by its slicer instead of being sent.
    pub fn send_order(&mut self, order: Order) -> (r: Result<String, EngineError>)
        requires
            old(self).wf(),
        ensures
            final(self).wf(),
            final(self)@.account == old(self)@.account,
            final(self)@.books == old(self)@.books,
            final(self)@.running == old(self)@.running,
            orders_evolve(old(self)@.orders, final(self)@.orders),
            (r is Err && r->Err_0 is InvalidOrder) <==> !submittable(order),
            r is Err ==> final(self)@ == old(self)@,
            r is Err && !(r->Err_0 is InvalidOrder) ==> r->Err_0 is DuplicateOrderId || r->Err_0 is MissingStrategyParams,
            r is Err && r->Err_0 is MissingStrategyParams ==> submittable(order) && !strategy_ready(order),
            submittable(order) && !strategy_ready(order) ==> r is Err,
            r is Ok ==> strategy_ready(order),
            r is Err && r->Err_0 is DuplicateOrderId ==> match order.order_id {
                Some(x) => old(self)@.orders.contains_key(x@),
                None => exists|k: Seq<char>| #[trigger] old(self)@.orders.contains_key(k) && k.len() == 36,
            },
            submittable(order) && strategy_ready(order) && (order.order_id matches Some(x) && !old(self)@.orders.contains_key(
                x@,
            )) ==> r is Ok,
            r matches Ok(id) ==> send_post(old(self)@, order, id@, final(self)@),
            r matches Ok(id) ==> (order.order_id matches Some(x) ==> id@ == x@),
    {
        let ghost order0 = order;
        if !order.is_valid() || order.filled_quantity != 0 || (order.order_type == OrderType::LIMIT && order.price.is_none()) {
            return Err(EngineError::InvalidOrder);
        }
        let id: String = match &order.order_id {
            Some(x) => x.clone(),
            None => new_order_id(),
        };
        if self.find_order(&id).is_some() {
            return Err(EngineError::DuplicateOrderId);
        }
        let ghost e0 = self@;
        let mut order = order;
        order.order_id = Some(id.clone());
        let ghost given = order;
        if order.strategy == ExecutionStrategy::FOK {
            let passed = match self.find_book(&order.symbol) {
                Some(i) => {
                    proof {
                        self.lemma_registry_valid();
                    }
                    FOKStrategy::check(&order, &self.order_books[i])
                },
                None => false,
            };
            if !passed {
                order.state = OrderState::REJECTED;
                order.error_message = Some("FOK verification failed".to_string());
                self.add_order(order);
                self.events.push(EngineEvent::OrderRejected { order_id: id.clone(), reason: "FOK verification failed".to_string() });
                proof {
                    assert(self@.events.drop_last() =~= e0.events);
                    assert(!registers_strategy(order0));
                }
                return Ok(id);
            }
        } else if order.strategy == ExecutionStrategy::IOC {
            let fillable = match self.find_book(&order.symbol) {
                Some(i) => {
                    proof {
                        crate::strategy::lemma_liquidity_nonneg(self.order_books@[i as int], order.side, order.price);
                    }
                    IOCStrategy::calculate_fillable_qty(&order, &self.order_books[i])
                },
                None => 0,
            };
            if fillable == 0 {
                order.state = OrderState::REJECTED;
                order.error_message = Some("IOC: No liquidity".to_string());
                self.add_order(order);
                self.events.push(EngineEvent::OrderRejected { order_id: id.clone(), reason: "IOC: No liquidity".to_string() });
                proof {
                    assert(self@.events.drop_last() =~= e0.events);
                    assert(!registers_strategy(order0));
                }
                return Ok(id);
            }
            order.quantity = fillable;
        } else if order.strategy == ExecutionStrategy::STOP || order.strategy == ExecutionStrategy::CHAIN
            || order.strategy == ExecutionStrategy::VWAP {
            let parsed = parse_strategy(&order, &id);
            proof {
                assert(registers_strategy(order0) == parsed.is_some());
            }
            match parsed {
                Some(st) => {
                    self.active_strategies.push(st);
                    proof {
                        assert(self@.strategies.drop_last() =~= e0.strategies);
                        assert(strategy_for(st, order0, id@));
                    }
                },
                None => {
                    return Err(EngineError::MissingStrategyParams);
                },
            }
            let ghost e_reg = self@;
            if order.strategy == ExecutionStrategy::VWAP {
                order.state = OrderState::CREATED;
                self.add_order(order);
                return Ok(id);
            }
        }
        order.state = OrderState::PENDING_NEW;
        self.add_order(order);
        let found = self.find_order(&id);
        let i = found.unwrap();
        let result = self.adapter.place_order(&self.orders[i]);
        let ghost e1 = self@;
        let reason: Option<String> = match &result {
            Ok(true) => None,
            Ok(false) => Some(refusal_text()),
            Err(e) => Some(e.clone()),
        };
        self.apply_place_result(&id, result);
        proof {
            assert forall|k: Seq<char>| #[trigger] e0.orders.contains_key(k) implies self@.orders[k] == e0.orders[k] by {
                assert(k != id@);
                assert(e1.orders.contains_key(k));
                assert(e1.orders[k] == e0.orders[k]);
            }
        }
        match reason {
            Some(text) => {
                self.events.push(EngineEvent::OrderRejected { order_id: id.clone(), reason: text });
                proof {
                    assert(self@.events.drop_last() =~= e0.events);
                }
            },
            None => {},
        }
        Ok(id)
    }

    /// Asks the venue to cancel an order, marking it PENDING_CANCEL. Fails
    /// when no order has that id; a venue failure is reported after the mark.
    pub fn cancel_order(&mut self, order_id: &str) -> (r: Result<(), EngineError>)
        requires
            old(self).wf(),
        ensures
            final(self).wf(),
            cancel_post(old(self)@, order_id@, final(self)@),
            (r is Err && r->Err_0 is OrderNotFound) <==> !old(self)@.orders.contains_key(order_id@),
            r is Err ==> r->Err_0 is OrderNotFound || r->Err_0 is Adapter,
    {
        let key = order_id.to_string();
        let found = self.find_order(&key);
        match found {
            None => Err(EngineError::OrderNotFound),
            Some(i) => {
                self.change_order_state(i, OrderState::PENDING_CANCEL, None);
                let ghost e1 = self@;
                let answer = self.adapter.cancel_order(order_id);
                let success = match &answer {
                    Ok(b) => *b,
                    Err(_) => false,
                };
                self.events.push(EngineEvent::OrderCancelRequested { order_id: key, success });
                proof {
                    assert(self@.events.drop_last() =~= e1.events);
                }
                match answer {
                    Ok(_) => Ok(()),
                    Err(e) => Err(EngineError::Adapter(e)),
                }
            },
        }
    }

    /// Books an execution of an order: the order's filled quantity and average
    /// price, its state, and the account's cash and position all move
    /// together, or nothing moves.
    pub fn on_trade_update(&mut self, order_id: &str, fill_qty: i64, fill_price: Decimal) -> (r: Result<(), EngineError>)
        requires
            old(self).wf(),
        ensures
            (r is Ok) == fill_succeeds(old(self)@, order_id@, fill_qty, fill_price),
            final(self)@.strategies == old(self)@.strategies,
            final(self)@.events == old(self)@.events,
            final(self).wf(),
            r is Ok ==> fill_post(old(self)@, order_id@, fill_qty, fill_price, final(self)@),
            final(self)@.books == old(self)@.books,
            final(self)@.running == old(self)@.running,
            final(self)@.orders.dom() == old(self)@.orders.dom(),
            (r is Err && r->Err_0 is OrderNotFound) <==> !old(self)@.orders.contains_key(order_id@),
            r is Err ==> final(self)@ == old(self)@,
            old(self)@.orders.contains_key(order_id@) ==> ({
                let o = old(self)@.orders[order_id@];
                let acct = execution_spec(
                    old(self)@.account,
                    o.symbol@,
                    o.side,
                    fill_qty as int,
                    fill_price.units as int,
                    0,
                );
                &&& (r is Ok) == (o.accepts_fill(fill_qty, fill_price) && acct.is_some())
                &&& r is Ok ==> {
                    &&& final(self)@.account == acct.unwrap()
                    &&& final(self)@.orders[order_id@].filled_quantity == o.filled_quantity + fill_qty
                    &&& final(self)@.orders[order_id@].state == if o.filled_quantity + fill_qty == o.quantity {
                        OrderState::FILLED
                    } else {
                        OrderState::PARTIALLY_FILLED
                    }
                    &&& final(self)@.orders[order_id@].symbol == o.symbol
                    &&& final(self)@.orders[order_id@].side == o.side
                    &&& final(self)@.orders[order_id@].quantity == o.quantity
                    &&& final(self)@.orders[order_id@].average_fill_price.units == crate::order::fill_average(
                        o.filled_quantity as int,
                        o.average_fill_price.units as int,
                        fill_qty as int,
                        fill_price.units as int,
                    )
                }
            }),
            forall|k: Seq<char>| k != order_id@ && #[trigger] old(self)@.orders.contains_key(k) ==> final(self)@.orders[k]
                == old(self)@.orders[k],
    {
        let key = order_id.to_string();
        let found = self.find_order(&key);
        if found.is_none() {
            return Err(EngineError::OrderNotFound);
        }
        let i = found.unwrap();
        if !self.orders[i].can_fill(fill_qty, fill_price) {
            return Err(EngineError::FillRefused);
        }
        let symbol = self.orders[i].symbol.clone();
        let side = self.orders[i].side;
        if !self.account.on_execution(symbol, side, fill_qty, fill_price, Decimal { units: 0 }) {
            return Err(EngineError::FillRefused);
        }
        let mut o = self.orders[i].duplicate();
        let ok = o.record_fill(fill_qty, fill_price);
        assert(ok);
        self.set_order(i, o);
        proof {
            lemma_keyed_at(old(self).orders@, order_key_fn(), order_val_fn(), i as int);
            assert(final(self)@.orders.dom() =~= old(self)@.orders.dom());
        }
        Ok(())
    }

    /// Records a status reported by the venue for one of our orders.
    pub fn update_order_status(&mut self, order_id: &str, state: OrderState, msg: Option<String>)
        requires
            old(self).wf(),
        ensures
            final(self)@.strategies == old(self)@.strategies,
            final(self)@.events == old(self)@.events,
            final(self).wf(),
            final(self)@.account == old(self)@.account,
            final(self)@.books == old(self)@.books,
            final(self)@.running == old(self)@.running,
            final(self)@.orders.dom() == old(self)@.orders.dom(),
            orders_evolve(old(self)@.orders, final(self)@.orders),
            old(self)@.orders.contains_key(order_id@) ==> status_applied(
                old(self)@.orders[order_id@],
                final(self)@.orders[order_id@],
                state,
                msg,
            ),
            forall|k: Seq<char>| k != order_id@ && #[trigger] old(self)@.orders.contains_key(k) ==> final(self)@.orders[k]
                == old(self)@.orders[k],
    {
        let key = order_id.to_string();
        match self.find_order(&key) {
            None => {},
            Some(i) => {
                self.change_order_state(i, state, msg);
            },
        }
    }

    /// A copy of the account.
    pub fn get_account(&self) -> (r: AccountState)
        requires
            self.wf(),
        ensures
            r.wf(),
            r@ == self@.account,
    {
        self.account.duplicate()
    }

    /// A copy of the book of `symbol`, if there is one.
    pub fn get_order_book(&self, symbol: &str) -> (r: Option<OrderBook>)
        requires
            self.wf(),
        ensures
            r.is_some() == self@.books.contains_key(symbol@),
            r matches Some(b) ==> b.wf() && b@ == self@.books[symbol@]@,
    {
        let key = symbol.to_string();
        match self.find_book(&key) {
            Some(i) => Some(self.order_books[i].duplicate()),
            None => None,
        }
    }

    /// A copy of the order with id `order_id`, if there is one.
    pub fn get_order(&self, order_id: &str) -> (r: Option<Order>)
        requires
            self.wf(),
        ensures
            r.is_some() == self@.orders.contains_key(order_id@),
            r matches Some(o) ==> same_order(o, self@.orders[order_id@]),
    {
        let key = order_id.to_string();
        match self.find_order(&key) {
            Some(i) => Some(self.orders[i].duplicate()),
            None => None,
        }
    }

    /// Copies of all orders, in the order they were taken in.
    pub fn get_orders(&self) -> (r: Vec<Order>)
        requires
            self.wf(),
        ensures
            r@.len() == self@.orders.len(),
            forall|i: int| 0 <= i < r@.len() ==> self@.orders.contains_key(order_key(#[trigger] r@[i])) && same_order(r@[i], self@.orders[order_key(r@[i])]),
    {
        proof {
            lemma_keyed_len(self.orders@, order_key_fn(), order_val_fn());
        }
        let mut r: Vec<Order> = Vec::new();
        let mut i: usize = 0;
        while i < self.orders.len()
            invariant
                0 <= i <= self.orders@.len(),
                self.wf(),
                r@.len() == i,
                forall|j: int| 0 <= j < i ==> self@.orders.contains_key(order_key(#[trigger] r@[j])) && same_order(r@[j], self@.orders[order_key(r@[j])]),
            decreases self.orders@.len() - i,
        {
            proof {
                lemma_keyed_at(self.orders@, order_key_fn(), order_val_fn(), i as int);
            }
            r.push(self.orders[i].duplicate());
            i = i + 1;
        }
        r
    }
}

/// The account that a snapshot describes.
pub open spec fn snapshot_account(s: AccountSnapshot) -> AccountView {
    AccountView {
        balance: s.balance.units as int,
        locked: s.locked.units as int,
        positions: positions_from_list(s.positions@),
    }
}

/// The book a symbol starts from before any message arrives.
pub open spec fn empty_book_view(symbol: Seq<char>) -> BookView {
    BookView {
        symbol,
        bids: Map::empty(),
        asks: Map::empty(),
        last_update_id: 0,
        timestamp: 0,
    }
}

/// The book that a snapshot fetched for `symbol` builds.
pub open spec fn snapshot_view(symbol: Seq<char>, s: OrderBookSnapshot) -> BookView {
    BookView {
        symbol,
        bids: levels_from_pairs(s.bids@),
        asks: levels_from_pairs(s.asks@),
        last_update_id: s.update_id as int,
        timestamp: s.timestamp as int,
    }
}

/// The engine's book of `symbol`, or the empty book.
pub open spec fn book_or_empty(e: EngineView, symbol: Seq<char>) -> BookView {
    if e.books.contains_key(symbol) {
        e.books[symbol]@
    } else {
        empty_book_view(symbol)
    }
}

/// Only the book of `symbol` may have changed or appeared.
pub open spec fn other_books_kept(a: Map<Seq<char>, OrderBook>, b: Map<Seq<char>, OrderBook>, symbol: Seq<char>) -> bool {
    &&& b.dom() == a.dom().insert(symbol)
    &&& forall|k: Seq<char>| k != symbol && #[trigger] a.contains_key(k) ==> b[k] == a[k]
}

/// `orders_evolve` composes.
pub proof fn lemma_evolve_trans(a: Map<Seq<char>, Order>, b: Map<Seq<char>, Order>, c: Map<Seq<char>, Order>)
    requires
        orders_evolve(a, b),
        orders_evolve(b, c),
    ensures
        orders_evolve(a, c),
{
    assert forall|id: Seq<char>| #[trigger] a.contains_key(id) implies {
        &&& c.contains_key(id)
        &&& c[id].symbol == a[id].symbol
        &&& c[id].side == a[id].side
        &&& c[id].quantity == a[id].quantity
        &&& c[id].filled_quantity == a[id].filled_quantity
        &&& is_terminal(a[id].state) ==> same_order(c[id], a[id])
    } by {
        assert(b.contains_key(id));
    }
}

impl<A: Adapter> OMSEngine<A> {
    fn set_book(&mut self, i: usize, b: OrderBook)
        requires
            old(self).wf(),
            i < old(self).order_books@.len(),
            b@.symbol == old(self).order_books@[i as int]@.symbol,
            b.wf(),
        ensures
            final(self)@.strategies == old(self)@.strategies,
            final(self)@.events == old(self)@.events,
            final(self).wf(),
            final(self)@.books == old(self)@.books.insert(b@.symbol, b),
            final(self)@.orders == old(self)@.orders,
            final(self)@.account == old(self)@.account,
            final(self)@.running == old(self)@.running,
    {
        let ghost s = self.order_books@;
        proof {
            lemma_keyed_update(s, book_key_fn(), book_val_fn(), i as int, b);
        }
        self.order_books.set(i, b);
    }

    /// Files a book under its symbol, replacing any book held for it.
    fn put_book(&mut self, b: OrderBook)
        requires
            old(self).wf(),
            b.wf(),
        ensures
            final(self)@.strategies == old(self)@.strategies,
            final(self)@.events == old(self)@.events,
            final(self).wf(),
            final(self)@.books == old(self)@.books.insert(b@.symbol, b),
            final(self)@.orders == old(self)@.orders,
            final(self)@.account == old(self)@.account,
            final(self)@.running == old(self)@.running,
    {
        let found = self.find_book(b.get_symbol());
        match found {
            Some(i) => self.set_book(i, b),
            None => {
                let ghost s = self.order_books@;
                proof {
                    lemma_keyed_push(s, book_key_fn(), book_val_fn(), b);
                }
                self.order_books.push(b);
            },
        }
    }

    proof fn lemma_books_replaced(&self, old_books: Map<Seq<char>, OrderBook>, symbol: Seq<char>)
        requires
            self@.books == old_books.insert(symbol, self@.books[symbol]),
        ensures
            other_books_kept(old_books, self@.books, symbol),
    {
        assert(self@.books.dom() =~= old_books.dom().insert(symbol));
    }

    /// What a snapshot fetched to reconcile `symbol` does: on success the book
    /// of `symbol` becomes exactly the snapshot; on failure nothing changes.
    pub fn apply_reconcile_result(&mut self, symbol: &String, result: Result<OrderBookSnapshot, String>) -> (r: Result<(), String>)
        requires
            old(self).wf(),
        ensures
            final(self)@.strategies == old(self)@.strategies,
            final(self)@.events == old(self)@.events,
            final(self).wf(),
            final(self)@.orders == old(self)@.orders,
            final(self)@.account == old(self)@.account,
            final(self)@.running == old(self)@.running,
            r is Ok == result is Ok,
            result matches Ok(s) ==> other_books_kept(old(self)@.books, final(self)@.books, symbol@)
                && final(self)@.books[symbol@]@ == snapshot_view(symbol@, s),
            result is Err ==> final(self)@ == old(self)@,
    {
        match result {
            Ok(s) => {
                let mut b = OrderBook::new(symbol.clone());
                b.rebuild(s.bids, s.asks, s.update_id, s.timestamp);
                let ghost bv = b@;
                self.put_book(b);
                proof {
                    self.lemma_books_replaced(old(self)@.books, symbol@);
                    assert(bv == snapshot_view(symbol@, s));
                }
                Ok(())
            },
            Err(e) => Err(e),
        }
    }

    /// Replaces the book of `symbol` by a snapshot fetched from the venue.
    pub fn reconcile_orderbook(&mut self, symbol: &str) -> (r: Result<(), String>)
        requires
            old(self).wf(),
        ensures
            final(self).wf(),
            final(self)@.orders == old(self)@.orders,
            final(self)@.account == old(self)@.account,
            final(self)@.running == old(self)@.running,
            r is Ok ==> other_books_kept(old(self)@.books, final(self)@.books, symbol@) && exists|s: OrderBookSnapshot|
                final(self)@.books[symbol@]@ == #[trigger] snapshot_view(symbol@, s),
            r is Err ==> final(self)@ == old(self)@,
    {
        let key = symbol.to_string();
        let result = self.adapter.get_order_book_snapshot(symbol);
        let ghost g = result;
        let r = self.apply_reconcile_result(&key, result);
        proof {
            if r is Ok {
                let s = g->Ok_0;
                assert(self@.books[symbol@]@ == snapshot_view(symbol@, s));
            }
        }
        r
    }

    /// Fetches the book of `symbol` from the venue and holds it.
    pub fn initialize_symbol(&mut self, symbol: &str) -> (r: Result<(), String>)
        requires
            old(self).wf(),
        ensures
            final(self).wf(),
            final(self)@.orders == old(self)@.orders,
            final(self)@.account == old(self)@.account,
            final(self)@.running == old(self)@.running,
            r is Ok ==> other_books_kept(old(self)@.books, final(self)@.books, symbol@) && exists|s: OrderBookSnapshot|
                final(self)@.books[symbol@]@ == #[trigger] snapshot_view(symbol@, s),
            r is Err ==> final(self)@ == old(self)@,
    {
        self.reconcile_orderbook(symbol)
    }

    /// What an account snapshot does: on success the account becomes it; on
    /// failure nothing changes.
    pub fn apply_account_snapshot(&mut self, result: Result<AccountSnapshot, String>) -> (r: Result<(), String>)
        requires
            old(self).wf(),
        ensures
            final(self)@.strategies == old(self)@.strategies,
            final(self)@.events == old(self)@.events,
            final(self).wf(),
            final(self)@.orders == old(self)@.orders,
            final(self)@.books == old(self)@.books,
            final(self)@.running == old(self)@.running,
            r is Ok == result is Ok,
            result matches Ok(s) ==> final(self)@.account == snapshot_account(s),
            result is Err ==> final(self)@ == old(self)@,
    {
        match result {
            Ok(s) => {
                self.account.rebuild(s.balance, s.locked, s.positions);
                Ok(())
            },
            Err(e) => Err(e),
        }
    }

    /// Replaces the account by a snapshot fetched from the venue.
    pub fn initialize_account(&mut self, account_id: &str) -> (r: Result<(), String>)
        requires
            old(self).wf(),
        ensures
            final(self)@.strategies == old(self)@.strategies,
            final(self)@.events == old(self)@.events,
            final(self).wf(),
            final(self)@.orders == old(self)@.orders,
            final(self)@.books == old(self)@.books,
            final(self)@.running == old(self)@.running,
            r is Ok ==> exists|s: AccountSnapshot| final(self)@.account == #[trigger] snapshot_account(s),
            r is Err ==> final(self)@ == old(self)@,
    {
        let result = self.adapter.get_account_snapshot(account_id);
        let ghost g = result;
        let r = self.apply_account_snapshot(result);
        proof {
            if r is Ok {
                assert(self@.account == snapshot_account(g->Ok_0));
            }
        }
        r
    }

    /// Connects to the venue and, given an account id, loads the account; the
    /// engine runs once both succeed. Starting a running engine does nothing
    /// and succeeds.
    pub fn start(&mut self, account_id: Option<String>) -> (r: Result<(), String>)
        requires
            old(self).wf(),
        ensures
            final(self).wf(),
            final(self)@.running == (old(self)@.running || r is Ok),
            final(self)@.orders == old(self)@.orders,
            final(self)@.books == old(self)@.books,
            final(self)@.strategies == old(self)@.strategies,
            final(self)@.events == old(self)@.events,
            old(self)@.running ==> r is Ok && final(self)@ == old(self)@,
            !old(self)@.running && account_id.is_some() && r is Ok ==> exists|s: AccountSnapshot|
                final(self)@.account == #[trigger] snapshot_account(s),
            account_id.is_none() || r is Err ==> final(self)@.account == old(self)@.account,
    {
        if self.is_running {
            return Ok(());
        }
        match self.adapter.connect() {
            Ok(()) => {},
            Err(e) => {
                return Err(e);
            },
        }
        let r = match account_id {
            Some(acc) => self.initialize_account(acc.as_str()),
            None => Ok(()),
        };
        if r.is_ok() {
            self.is_running = true;
        }
        r
    }

    /// Stops the engine and disconnects from the venue.
    pub fn stop(&mut self) -> (r: Result<(), String>)
        requires
            old(self).wf(),
        ensures
            final(self).wf(),
            !final(self)@.running,
            final(self)@.orders == old(self)@.orders,
            final(self)@.books == old(self)@.books,
            final(self)@.account == old(self)@.account,
    {
        self.is_running = false;
        self.adapter.disconnect()
    }

    pub fn is_running(&self) -> (r: bool)
        ensures
            r == self@.running,
    {
        self.is_running
    }

    /// Carries out strategy actions in order: placements go through
    /// `send_order`, cancels through `cancel_order`; their failures are
    /// dropped.
    fn run_actions(&mut self, actions: Vec<StrategyAction>)
        requires
            old(self).wf(),
        ensures
            final(self).wf(),
            dispatch_post(old(self)@, final(self)@),
            final(self)@.books == old(self)@.books,
            grows(old(self)@.strategies, final(self)@.strategies),
            forall|j: int| 0 <= j < actions@.len() ==> cancel_effect(old(self)@.orders, #[trigger] actions@[j], final(self)@.orders),
    {
        let ghost e0 = self@;
        let ghost orig = actions@;
        let n = actions.len();
        let mut k: usize = 0;
        let mut actions = actions;
        proof {
            assert(e0.strategies.subrange(0, e0.strategies.len() as int) =~= e0.strategies);
            assert(e0.events.subrange(0, e0.events.len() as int) =~= e0.events);
        }
        while actions.len() > 0
            invariant
                self.wf(),
                self@.account == e0.account,
                self@.books == e0.books,
                self@.running == e0.running,
                orders_evolve(e0.orders, self@.orders),
                only_cancels(e0.orders, self@.orders),
                grows(e0.strategies, self@.strategies),
                grows(e0.events, self@.events),
                n == orig.len(),
                k <= n,
                actions@ == orig.subrange(k as int, n as int),
                forall|j: int| 0 <= j < k ==> cancel_effect(e0.orders, #[trigger] orig[j], self@.orders),
            decreases actions@.len(),
        {
            let a = actions.remove(0);
            proof {
                assert(a == orig[k as int]);
                assert(actions@ =~= orig.subrange(k + 1, n as int));
            }
            let ghost mid = self@;
            match a {
                StrategyAction::PlaceOrder(o) => {
                    let r = self.send_order(o);
                    proof {
                        match r {
                            Ok(id) => {
                                assert forall|x: Seq<char>| #[trigger] mid.orders.contains_key(x) implies self@.orders.contains_key(x)
                                    && same_order(self@.orders[x], mid.orders[x]) by {
                                    assert(self@.orders.dom().contains(x));
                                }
                            },
                            Err(_) => {},
                        }
                    }
                },
                StrategyAction::CancelOrder(id) => {
                    let _ = self.cancel_order(id.as_str());
                    proof {
                        assert forall|x: Seq<char>| #[trigger] mid.orders.contains_key(x) implies self@.orders.contains_key(x) && (
                        same_order(self@.orders[x], mid.orders[x]) || status_applied(
                            mid.orders[x],
                            self@.orders[x],
                            OrderState::PENDING_CANCEL,
                            None,
                        )) by {
                            assert(self@.orders.dom().contains(x));
                        }
                    }
                },
                StrategyAction::NoAction => {},
            }
            proof {
                assert(only_cancels(mid.orders, self@.orders));
                assert(grows(mid.strategies, self@.strategies)) by {
                    assert(self@.strategies.subrange(0, mid.strategies.len() as int) =~= mid.strategies);
                }
                assert(grows(mid.events, self@.events)) by {
                    assert(self@.events.subrange(0, mid.events.len() as int) =~= mid.events);
                }
                lemma_evolve_trans(e0.orders, mid.orders, self@.orders);
                lemma_only_cancels_trans(e0.orders, mid.orders, self@.orders);
                lemma_grows_trans(e0.strategies, mid.strategies, self@.strategies);
                lemma_grows_trans(e0.events, mid.events, self@.events);
                assert forall|j: int| 0 <= j < k + 1 implies cancel_effect(e0.orders, #[trigger] orig[j], self@.orders) by {
                    if orig[j] is CancelOrder {
                        let c = orig[j]->CancelOrder_0@;
                        if e0.orders.contains_key(c) && e0.orders[c].accepts_state(OrderState::PENDING_CANCEL) {
                            assert(mid.orders.contains_key(c));
                            if j < k {
                                assert(mid.orders[c].state == OrderState::PENDING_CANCEL);
                            } else {
                                assert(mid.orders[c].accepts_state(OrderState::PENDING_CANCEL));
                            }
                        }
                    }
                }
            }
            k = k + 1;
        }
        proof {
            assert(k == n);
        }
    }

    fn notify_book(&mut self, book: &OrderBook, now: i64) -> (r: Vec<StrategyAction>)
        requires
            old(self).wf(),
            book.wf(),
        ensures
            final(self).wf(),
            final(self)@ == (EngineView { strategies: final(self)@.strategies, ..old(self)@ }),
            final(self)@.strategies.len() == old(self)@.strategies.len(),
            r@.len() == old(self)@.strategies.len(),
            forall|i: int| 0 <= i < r@.len() ==> book_step(old(self)@.strategies[i], book@, now, final(self)@.strategies[i], #[trigger] r@[i]),
    {
        let ghost s0 = self.active_strategies@;
        let mut out: Vec<StrategyAction> = Vec::new();
        let mut i: usize = 0;
        while i < self.active_strategies.len()
            invariant
                self.wf(),
                self@ == (EngineView { strategies: self@.strategies, ..old(self)@ }),
                s0 == old(self)@.strategies,
                self.active_strategies@.len() == s0.len(),
                out@.len() == i,
                i <= s0.len(),
                book.wf(),
                forall|j: int| 0 <= j < i ==> book_step(s0[j], book@, now, self.active_strategies@[j], #[trigger] out@[j]),
                forall|j: int| i <= j < s0.len() ==> #[trigger] self.active_strategies@[j] == s0[j],
            decreases s0.len() - i,
        {
            let ghost before = self.active_strategies@;
            let mut st = self.active_strategies.remove(i);
            let a = st.on_order_book_update(book, now);
            self.active_strategies.insert(i, st);
            proof {
                assert(self.active_strategies@ =~= before.update(i as int, st));
            }
            out.push(a);
            i = i + 1;
        }
        out
    }

    fn notify_timer(&mut self, now: i64) -> (r: Vec<StrategyAction>)
        requires
            old(self).wf(),
        ensures
            final(self).wf(),
            final(self)@ == (EngineView { strategies: final(self)@.strategies, ..old(self)@ }),
            final(self)@.strategies.len() == old(self)@.strategies.len(),
            r@.len() == old(self)@.strategies.len(),
            forall|i: int| 0 <= i < r@.len() ==> timer_step(old(self)@.strategies[i], now, final(self)@.strategies[i], #[trigger] r@[i]),
    {
        let ghost s0 = self.active_strategies@;
        let mut out: Vec<StrategyAction> = Vec::new();
        let mut i: usize = 0;
        while i < self.active_strategies.len()
            invariant
                self.wf(),
                self@ == (EngineView { strategies: self@.strategies, ..old(self)@ }),
                s0 == old(self)@.strategies,
                self.active_strategies@.len() == s0.len(),
                out@.len() == i,
                i <= s0.len(),
                forall|j: int| 0 <= j < i ==> timer_step(s0[j], now, self.active_strategies@[j], #[trigger] out@[j]),
                forall|j: int| i <= j < s0.len() ==> #[trigger] self.active_strategies@[j] == s0[j],
            decreases s0.len() - i,
        {
            let ghost before = self.active_strategies@;
            let mut st = self.active_strategies.remove(i);
            let a = st.on_timer(now);
            self.active_strategies.insert(i, st);
            proof {
                assert(self.active_strategies@ =~= before.update(i as int, st));
            }
            out.push(a);
            i = i + 1;
        }
        out
    }

    fn notify_status(&mut self, order_id: &String, order: &Order) -> (r: Vec<StrategyAction>)
        requires
            old(self).wf(),
            order.wf(),
        ensures
            final(self).wf(),
            final(self)@ == (EngineView { strategies: final(self)@.strategies, ..old(self)@ }),
            final(self)@.strategies.len() == old(self)@.strategies.len(),
            r@.len() == old(self)@.strategies.len(),
            forall|i: int| 0 <= i < r@.len() ==> status_step(old(self)@.strategies[i], order_id@, *order, final(self)@.strategies[i], #[trigger] r@[i]),
    {
        let ghost s0 = self.active_strategies@;
        let mut out: Vec<StrategyAction> = Vec::new();
        let mut i: usize = 0;
        while i < self.active_strategies.len()
            invariant
                self.wf(),
                self@ == (EngineView { strategies: self@.strategies, ..old(self)@ }),
                s0 == old(self)@.strategies,
                self.active_strategies@.len() == s0.len(),
                out@.len() == i,
                i <= s0.len(),
                order.wf(),
                forall|j: int| 0 <= j < i ==> status_step(s0[j], order_id@, *order, self.active_strategies@[j], #[trigger] out@[j]),
                forall|j: int| i <= j < s0.len() ==> #[trigger] self.active_strategies@[j] == s0[j],
            decreases s0.len() - i,
        {
            let ghost before = self.active_strategies@;
            let mut st = self.active_strategies.remove(i);
            let a = st.on_order_status_update(order_id, order);
            self.active_strategies.insert(i, st);
            proof {
                assert(self.active_strategies@ =~= before.update(i as int, st));
            }
            out.push(a);
            i = i + 1;
        }
        out
    }

    /// Applies a book delta (creating the book on the first message for its
    /// symbol). A delta that leaves the book crossed makes the engine replace
    /// the book by a snapshot from the venue; otherwise every strategy sees the
    /// new book and its actions are carried out.
    pub fn on_order_book_update(&mut self, delta: OrderBookDelta) -> (r: Result<(), String>)
        requires
            old(self).wf(),
        ensures
            final(self).wf(),
            book_update_post(
                old(self)@,
                delta.symbol@,
                apply_delta_spec(book_or_empty(old(self)@, delta.symbol@), delta),
                final(self)@,
                r is Ok,
            ),
    {
        let sym = delta.symbol.clone();
        let base = match self.find_book(&sym) {
            Some(i) => self.order_books[i].duplicate(),
            None => OrderBook::new(sym.clone()),
        };
        let mut b = base;
        b.apply_delta(&delta);
        let fine = b.validate();
        let copy = b.duplicate();
        self.put_book(b);
        let ghost e1 = self@;
        proof {
            self.lemma_books_replaced(old(self)@.books, sym@);
        }
        if !fine {
            let result = self.adapter.get_order_book_snapshot(sym.as_str());
            let ghost g = result;
            let r = self.apply_reconcile_result(&sym, result);
            proof {
                assert(self@.events.subrange(0, self@.events.len() as int) =~= self@.events);
                if r is Ok {
                    let s = g->Ok_0;
                    assert(self@.books[sym@]@ == snapshot_view(sym@, s));
                    assert(self@.books.dom() =~= old(self)@.books.dom().insert(sym@));
                    assert forall|k: Seq<char>| k != sym@ && #[trigger] old(self)@.books.contains_key(k) implies self@.books[k]
                        == old(self)@.books[k] by {
                        assert(e1.books.contains_key(k));
                    }
                }
            }
            return r;
        }
        let now = now_millis();
        let ghost e1b = self@;
        let actions = self.notify_book(&copy, now);
        let ghost e2 = self@;
        let ghost acts = actions@;
        self.run_actions(actions);
        proof {
            lemma_saw_book(old(self)@, e2, acts, copy@, now, self@);
            assert(self@.events.subrange(0, old(self)@.events.len() as int) =~= old(self)@.events);
        }
        Ok(())
    }

    /// Replaces the book of the snapshot's symbol; a crossed snapshot is
    /// reconciled as a crossed delta is, and otherwise every strategy sees the
    /// new book.
    pub fn on_order_book_snapshot(&mut self, snapshot: OrderBookSnapshot) -> (r: Result<(), String>)
        requires
            old(self).wf(),
        ensures
            final(self).wf(),
            book_update_post(old(self)@, snapshot.symbol@, snapshot_view(snapshot.symbol@, snapshot), final(self)@, r is Ok),
    {
        let sym = snapshot.symbol.clone();
        let ghost snap = snapshot;
        let mut b = OrderBook::new(sym.clone());
        b.rebuild(snapshot.bids, snapshot.asks, snapshot.update_id, snapshot.timestamp);
        let fine = b.validate();
        let copy = b.duplicate();
        self.put_book(b);
        proof {
            self.lemma_books_replaced(old(self)@.books, sym@);
        }
        if !fine {
            let result = self.adapter.get_order_book_snapshot(sym.as_str());
            let ghost g = result;
            let r = self.apply_reconcile_result(&sym, result);
            proof {
                assert(self@.events.subrange(0, self@.events.len() as int) =~= self@.events);
                if r is Ok {
                    let s = g->Ok_0;
                    assert(self@.books[sym@]@ == snapshot_view(sym@, s));
                    assert(self@.books.dom() =~= old(self)@.books.dom().insert(sym@));
                }
            }
            return r;
        }
        let now = now_millis();
        let ghost e1b = self@;
        let actions = self.notify_book(&copy, now);
        let ghost e2 = self@;
        let ghost acts = actions@;
        self.run_actions(actions);
        proof {
            lemma_saw_book(old(self)@, e2, acts, copy@, now, self@);
            assert(self@.events.subrange(0, old(self)@.events.len() as int) =~= old(self)@.events);
        }
        Ok(())
    }

    /// Records a status reported for one of our orders, lets every strategy
    /// see the order, and carries out their actions. A final status that the
    /// order accepts is where the order stays.
    pub fn on_order_status_update(&mut self, order_id: &str, state: OrderState, msg: Option<String>)
        requires
            old(self).wf(),
        ensures
            final(self).wf(),
            status_update_post(old(self)@, order_id@, state, msg, final(self)@),
    {
        let ghost e0 = self@;
        let ghost m0 = msg;
        self.update_order_status(order_id, state, msg);
        let ghost e1 = self@;
        let key = order_id.to_string();
        match self.find_order(&key) {
            None => {
                proof {
                    assert(self@.orders =~= e0.orders);
                    assert(self@.events.subrange(0, e0.events.len() as int) =~= e0.events);
                }
            },
            Some(i) => {
                let o = self.orders[i].duplicate();
                let actions = self.notify_status(&key, &o);
                let ghost e2 = self@;
                let ghost acts = actions@;
                self.run_actions(actions);
                proof {
                    let mid = e1.orders[order_id@];
                    lemma_evolve_trans(e0.orders, e1.orders, self@.orders);
                    lemma_saw_status(e0, e2, acts, order_id@, o, self@);
                    assert(saw_status_with(e0, order_id@, o, self@, acts) && same_order(o, mid));
                    assert(strategies_saw_status(e0, order_id@, mid, self@));
                    assert(status_applied(e0.orders[order_id@], mid, state, m0));
                    assert(self@.orders.contains_key(order_id@));
                    assert forall|k: Seq<char>| k != order_id@ && #[trigger] e0.orders.contains_key(k) implies self@.orders.contains_key(k)
                        && (same_order(self@.orders[k], e0.orders[k]) || status_applied(
                        e0.orders[k],
                        self@.orders[k],
                        OrderState::PENDING_CANCEL,
                        None,
                    )) by {
                        assert(e1.orders.contains_key(k));
                    }
                }
            },
        }
    }

    /// Hands out the queued events, oldest first, and empties the queue.
    pub fn drain_events(&mut self) -> (r: Vec<EngineEvent>)
        requires
            old(self).wf(),
        ensures
            final(self).wf(),
            r@ == old(self)@.events,
            final(self)@ == (EngineView { events: Seq::empty(), ..old(self)@ }),
    {
        let mut out: Vec<EngineEvent> = Vec::new();
        std::mem::swap(&mut self.events, &mut out);
        proof {
            assert(self@.events =~= Seq::<EngineEvent>::empty());
        }
        out
    }

    /// Runs the periodic strategy tick at `now`.
    pub fn on_timer_at(&mut self, now: i64)
        requires
            old(self).wf(),
        ensures
            final(self).wf(),
            dispatch_post(old(self)@, final(self)@),
            final(self)@.books == old(self)@.books,
            strategies_saw_tick(old(self)@, now, final(self)@),
    {
        let ghost e0 = self@;
        let actions = self.notify_timer(now);
        let ghost e1 = self@;
        let ghost acts = actions@;
        self.run_actions(actions);
        proof {
            lemma_saw_tick(e0, e1, acts, now, self@);
        }
    }

    /// Drops the strategies that have finished their work.
    pub fn prune_strategies(&mut self)
        requires
            old(self).wf(),
        ensures
            final(self).wf(),
            final(self)@ == (EngineView { strategies: live_strategies(old(self)@.strategies), ..old(self)@ }),
    {
        let mut rest: Vec<ActiveStrategy> = Vec::new();
        std::mem::swap(&mut self.active_strategies, &mut rest);
        let ghost orig = rest@;
        let n = rest.len();
        let mut k: usize = 0;
        proof {
            assert(orig.subrange(0, 0) =~= Seq::<ActiveStrategy>::empty());
            assert(rest@ =~= orig.subrange(0, n as int));
        }
        while rest.len() > 0
            invariant
                n == orig.len(),
                k <= n,
                rest@ == orig.subrange(k as int, n as int),
                self.active_strategies@ == live_strategies(orig.subrange(0, k as int)),
                forall|i: int| 0 <= i < orig.len() ==> (#[trigger] orig[i]).wf(),
                forall|i: int| 0 <= i < self.active_strategies@.len() ==> (#[trigger] self.active_strategies@[i]).wf(),
                self.orders == old(self).orders,
                self.order_books == old(self).order_books,
                self.account == old(self).account,
                self.is_running == old(self).is_running,
                self.events == old(self).events,
                orig == old(self).active_strategies@,
            decreases rest@.len(),
        {
            let st = rest.remove(0);
            proof {
                assert(st == orig[k as int]);
                assert(rest@ =~= orig.subrange(k + 1, n as int));
                let t = orig.subrange(0, k + 1);
                assert(t.drop_last() =~= orig.subrange(0, k as int));
                assert(t.last() == st);
            }
            if !st.is_done() {
                self.active_strategies.push(st);
            }
            k = k + 1;
        }
        proof {
            assert(orig.subrange(0, n as int) =~= orig);
        }
    }

    /// Runs the periodic strategy tick at the current time, then drops the
    /// strategies that have finished.
    pub fn on_timer(&mut self)
        requires
            old(self).wf(),
        ensures
            final(self).wf(),
            exists|now: i64, m: EngineView|
                #![trigger strategies_saw_tick(old(self)@, now, m)]
                strategies_saw_tick(old(self)@, now, m) && dispatch_post(old(self)@, m) && m.books == old(self)@.books
                    && final(self)@ == (EngineView { strategies: live_strategies(m.strategies), ..m }),
    {
        let now = now_millis();
        self.on_timer_at(now);
        let ghost m = self@;
        self.prune_strategies();
        assert(strategies_saw_tick(old(self)@, now, m));
    }

    /// Handles one message from the venue connection.
    pub fn on_message(&mut self, msg: Message) -> (r: Result<(), EngineError>)
        requires
            old(self).wf(),
        ensures
            final(self).wf(),
            match msg {
                Message::OrderBookUpdate { symbol: _, delta } => book_update_post(
                    old(self)@,
                    delta.symbol@,
                    apply_delta_spec(book_or_empty(old(self)@, delta.symbol@), delta),
                    final(self)@,
                    r is Ok,
                ),
                Message::OrderBookSnapshot(s) => book_update_post(
                    old(self)@,
                    s.symbol@,
                    snapshot_view(s.symbol@, s),
                    final(self)@,
                    r is Ok,
                ),
                Message::Execution { order_id, fill_qty, fill_price } => {
                    &&& (r is Ok) == fill_succeeds(old(self)@, order_id@, fill_qty, fill_price)
                    &&& r is Ok ==> fill_post(old(self)@, order_id@, fill_qty, fill_price, final(self)@)
                    &&& r is Err ==> final(self)@ == old(self)@
                },
                Message::OrderStatus { order_id, state, filled_qty: _, filled_price: _, msg: m, updated_at: _ } => {
                    r is Ok && status_update_post(old(self)@, order_id@, state, m, final(self)@)
                },
                _ => r is Ok && final(self)@ == old(self)@,
            },
    {
        match msg {
            Message::OrderBookUpdate { symbol: _, delta } => match self.on_order_book_update(delta) {
                Ok(()) => Ok(()),
                Err(e) => Err(EngineError::Adapter(e)),
            },
            Message::OrderBookSnapshot(s) => match self.on_order_book_snapshot(s) {
                Ok(()) => Ok(()),
                Err(e) => Err(EngineError::Adapter(e)),
            },
            Message::Execution { order_id, fill_qty, fill_price } => self.on_trade_update(order_id.as_str(), fill_qty, fill_price),
            Message::OrderStatus { order_id, state, filled_qty: _, filled_price: _, msg, updated_at: _ } => {
                self.on_order_status_update(order_id.as_str(), state, msg);
                Ok(())
            },
            _ => Ok(()),
        }
    }
}

/// A strategy action's effect on the orders: a cancel moves an order that
/// accepts it to PENDING_CANCEL.
pub open spec fn cancel_effect(a: Map<Seq<char>, Order>, act: StrategyAction, b: Map<Seq<char>, Order>) -> bool {
    act is CancelOrder ==> ({
        let c = act->CancelOrder_0@;
        a.contains_key(c) && a[c].accepts_state(OrderState::PENDING_CANCEL) ==> b.contains_key(c) && b[c].state
            == OrderState::PENDING_CANCEL
    })
}

/// What every dispatch of strategy actions keeps: the account, the running
/// flag, the orders (apart from cancels), and the events already queued.
pub open spec fn dispatch_post(e: EngineView, f: EngineView) -> bool {
    &&& f.account == e.account
    &&& f.running == e.running
    &&& orders_evolve(e.orders, f.orders)
    &&& only_cancels(e.orders, f.orders)
    &&& grows(e.events, f.events)
}

/// Every strategy registered before saw the book `book` at some time `now`,
/// answering with `acts[i]`, and the cancels they asked for were carried out.
pub open spec fn strategies_saw_book(e: EngineView, book: BookView, f: EngineView) -> bool {
    &&& f.strategies.len() >= e.strategies.len()
    &&& exists|now: i64, acts: Seq<StrategyAction>|
        #[trigger] saw_book_with(e, book, f, now, acts)
}

pub open spec fn saw_book_with(e: EngineView, book: BookView, f: EngineView, now: i64, acts: Seq<StrategyAction>) -> bool {
    &&& acts.len() == e.strategies.len()
    &&& forall|i: int|
        0 <= i < acts.len() ==> book_step(e.strategies[i], book, now, f.strategies[i], #[trigger] acts[i])
            && cancel_effect(e.orders, acts[i], f.orders)
}

/// Every strategy registered before saw the tick at `now`, answering with
/// `acts[i]`, and the cancels they asked for were carried out.
pub open spec fn strategies_saw_tick(e: EngineView, now: i64, f: EngineView) -> bool {
    &&& f.strategies.len() >= e.strategies.len()
    &&& exists|acts: Seq<StrategyAction>| #[trigger] saw_tick_with(e, now, f, acts)
}

pub open spec fn saw_tick_with(e: EngineView, now: i64, f: EngineView, acts: Seq<StrategyAction>) -> bool {
    &&& acts.len() == e.strategies.len()
    &&& forall|i: int|
        0 <= i < acts.len() ==> timer_step(e.strategies[i], now, f.strategies[i], #[trigger] acts[i]) && cancel_effect(
            e.orders,
            acts[i],
            f.orders,
        )
}

/// Every strategy registered before saw order `id` as it stood after `mid`
/// (a copy `o` of it), answering with `acts[i]`.
pub open spec fn strategies_saw_status(e: EngineView, id: Seq<char>, mid: Order, f: EngineView) -> bool {
    &&& f.strategies.len() >= e.strategies.len()
    &&& exists|o: Order, acts: Seq<StrategyAction>| #[trigger] saw_status_with(e, id, o, f, acts) && same_order(o, mid)
}

pub open spec fn saw_status_with(e: EngineView, id: Seq<char>, o: Order, f: EngineView, acts: Seq<StrategyAction>) -> bool {
    &&& acts.len() == e.strategies.len()
    &&& forall|i: int| 0 <= i < acts.len() ==> status_step(e.strategies[i], id, o, f.strategies[i], #[trigger] acts[i])
}

/// The state after a book message for `symbol` that makes the book `b1`:
/// a crossed book is replaced by a venue snapshot when one comes (`ok`);
/// otherwise the book is `b1` and every strategy sees it.
pub open spec fn book_update_post(e: EngineView, symbol: Seq<char>, b1: BookView, f: EngineView, ok: bool) -> bool {
    &&& dispatch_post(e, f)
    &&& other_books_kept(e.books, f.books, symbol)
    &&& !is_crossed(b1) ==> ok && f.books[symbol]@ == b1 && strategies_saw_book(e, b1, f)
    &&& is_crossed(b1) && ok ==> (exists|s: OrderBookSnapshot| f.books[symbol]@ == #[trigger] snapshot_view(symbol, s))
        && f.strategies == e.strategies
    &&& is_crossed(b1) && !ok ==> f.books[symbol]@ == b1 && f.strategies == e.strategies
}

/// The state after a status report `state` for order `id`: the order takes
/// the status as `status_applied` says (a cancel that a strategy asks for in
/// reply may follow), every strategy sees the order, and other orders see at
/// most a cancel.
pub open spec fn status_update_post(e: EngineView, id: Seq<char>, state: OrderState, msg: Option<String>, f: EngineView) -> bool {
    &&& status_post(e, id, state, f)
    &&& grows(e.events, f.events)
    &&& !e.orders.contains_key(id) ==> f == e
    &&& e.orders.contains_key(id) ==> exists|mid: Order|
        #[trigger] status_applied(e.orders[id], mid, state, msg) && f.orders.contains_key(id) && (same_order(
            f.orders[id],
            mid,
        ) || status_applied(mid, f.orders[id], OrderState::PENDING_CANCEL, None)) && strategies_saw_status(e, id, mid, f)
    &&& forall|k: Seq<char>|
        k != id && #[trigger] e.orders.contains_key(k) ==> f.orders.contains_key(k) && (same_order(f.orders[k], e.orders[k])
            || status_applied(e.orders[k], f.orders[k], OrderState::PENDING_CANCEL, None))
}

proof fn lemma_saw_tick(e0: EngineView, e1: EngineView, acts: Seq<StrategyAction>, now: i64, f: EngineView)
    requires
        e1.orders == e0.orders,
        e1.strategies.len() == e0.strategies.len(),
        acts.len() == e0.strategies.len(),
        forall|i: int| 0 <= i < acts.len() ==> timer_step(e0.strategies[i], now, e1.strategies[i], #[trigger] acts[i]),
        grows(e1.strategies, f.strategies),
        forall|j: int| 0 <= j < acts.len() ==> cancel_effect(e1.orders, #[trigger] acts[j], f.orders),
    ensures
        strategies_saw_tick(e0, now, f),
{
    assert forall|i: int| 0 <= i < acts.len() implies timer_step(e0.strategies[i], now, f.strategies[i], #[trigger] acts[i])
        && cancel_effect(e0.orders, acts[i], f.orders) by {
        assert(f.strategies.subrange(0, e1.strategies.len() as int)[i] == f.strategies[i]);
    }
    assert(saw_tick_with(e0, now, f, acts));
}

proof fn lemma_saw_book(e0: EngineView, e1: EngineView, acts: Seq<StrategyAction>, book: BookView, now: i64, f: EngineView)
    requires
        e1.orders == e0.orders,
        e1.strategies.len() == e0.strategies.len(),
        acts.len() == e0.strategies.len(),
        forall|i: int| 0 <= i < acts.len() ==> book_step(e0.strategies[i], book, now, e1.strategies[i], #[trigger] acts[i]),
        grows(e1.strategies, f.strategies),
        forall|j: int| 0 <= j < acts.len() ==> cancel_effect(e1.orders, #[trigger] acts[j], f.orders),
    ensures
        strategies_saw_book(e0, book, f),
{
    assert forall|i: int| 0 <= i < acts.len() implies book_step(e0.strategies[i], book, now, f.strategies[i], #[trigger] acts[i])
        && cancel_effect(e0.orders, acts[i], f.orders) by {
        assert(f.strategies.subrange(0, e1.strategies.len() as int)[i] == f.strategies[i]);
    }
    assert(saw_book_with(e0, book, f, now, acts));
}

proof fn lemma_saw_status(e0: EngineView, e1: EngineView, acts: Seq<StrategyAction>, id: Seq<char>, o: Order, f: EngineView)
    requires
        e1.strategies.len() == e0.strategies.len(),
        acts.len() == e0.strategies.len(),
        forall|i: int| 0 <= i < acts.len() ==> status_step(e0.strategies[i], id, o, e1.strategies[i], #[trigger] acts[i]),
        grows(e1.strategies, f.strategies),
    ensures
        saw_status_with(e0, id, o, f, acts),
        f.strategies.len() >= e0.strategies.len(),
{
    assert forall|i: int| 0 <= i < acts.len() implies status_step(e0.strategies[i], id, o, f.strategies[i], #[trigger] acts[i]) by {
        assert(f.strategies.subrange(0, e1.strategies.len() as int)[i] == f.strategies[i]);
    }
}

fn refusal_text() -> (r: String)
    ensures
        r@ == adapter_refusal_text(),
{
    "Adapter Send Failed".to_string()
}

} // verus!
