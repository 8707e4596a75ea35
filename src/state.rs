use vstd::prelude::*;
use crate::account::{AccountState, AccountView, PositionView};
use crate::message::{ConnectionStatus, Message};
use crate::order_book::{apply_delta_spec, levels_from_pairs, BookView, OrderBook};
use crate::registry::{keyed_has, keyed_map, keys_unique, lemma_keyed_at, lemma_keyed_empty, lemma_keyed_push, lemma_keyed_update};

verus! {

/// A client-side picture of a venue built from its messages alone: the
/// connection status, the books by symbol and the accounts by id.
#[derive(Debug)]
pub struct State {
    pub connection_status: ConnectionStatus,
    order_books: Vec<OrderBook>,
    accounts: Vec<(String, AccountState)>,
}

pub struct StateView {
    pub connection_status: ConnectionStatus,
    pub books: Map<Seq<char>, BookView>,
    pub accounts: Map<Seq<char>, AccountView>,
}

pub open spec fn state_book_key() -> spec_fn(OrderBook) -> Seq<char> {
    |b: OrderBook| b@.symbol
}

pub open spec fn state_book_val() -> spec_fn(OrderBook) -> BookView {
    |b: OrderBook| b@
}

pub open spec fn account_key() -> spec_fn((String, AccountState)) -> Seq<char> {
    |p: (String, AccountState)| p.0@
}

pub open spec fn account_val() -> spec_fn((String, AccountState)) -> AccountView {
    |p: (String, AccountState)| p.1@
}

/// The empty book of a symbol.
pub open spec fn fresh_book(symbol: Seq<char>) -> BookView {
    BookView { symbol, bids: Map::empty(), asks: Map::empty(), last_update_id: 0, timestamp: 0 }
}

/// A new account: no cash and no positions.
pub open spec fn fresh_account() -> AccountView {
    AccountView { balance: 0, locked: 0, positions: Map::empty() }
}

/// What `State::apply` makes of a picture.
pub open spec fn apply_message(s: StateView, msg: Message) -> StateView {
    match msg {
        Message::ConnectionStatus(c) => StateView { connection_status: c, ..s },
        Message::OrderBookUpdate { symbol, delta } => {
            let b = if s.books.contains_key(symbol@) {
                s.books[symbol@]
            } else {
                fresh_book(symbol@)
            };
            StateView { books: s.books.insert(symbol@, apply_delta_spec(b, delta)), ..s }
        },
        Message::OrderBookSnapshot(snap) => {
            let b = if s.books.contains_key(snap.symbol@) {
                s.books[snap.symbol@]
            } else {
                fresh_book(snap.symbol@)
            };
            StateView {
                books: s.books.insert(
                    snap.symbol@,
                    BookView {
                        symbol: b.symbol,
                        bids: levels_from_pairs(snap.bids@),
                        asks: levels_from_pairs(snap.asks@),
                        last_update_id: snap.update_id as int,
                        timestamp: snap.timestamp as int,
                    },
                ),
                ..s
            }
        },
        Message::AccountUpdate { account_id, balance, locked } => {
            let a = if s.accounts.contains_key(account_id@) {
                s.accounts[account_id@]
            } else {
                fresh_account()
            };
            StateView {
                accounts: s.accounts.insert(
                    account_id@,
                    AccountView {
                        balance: match balance {
                            Some(b) => b.units as int,
                            None => a.balance,
                        },
                        locked: match locked {
                            Some(l) => l.units as int,
                            None => a.locked,
                        },
                        positions: a.positions,
                    },
                ),
                ..s
            }
        },
        _ => s,
    }
}

impl View for State {
    type V = StateView;

    closed spec fn view(&self) -> StateView {
        StateView {
            connection_status: self.connection_status,
            books: keyed_map(self.order_books@, state_book_key(), state_book_val()),
            accounts: keyed_map(self.accounts@, account_key(), account_val()),
        }
    }
}

impl State {
    pub closed spec fn wf(&self) -> bool {
        &&& keys_unique(self.order_books@, state_book_key())
        &&& forall|i: int| 0 <= i < self.order_books@.len() ==> (#[trigger] self.order_books@[i]).wf()
        &&& keys_unique(self.accounts@, account_key())
        &&& forall|i: int| 0 <= i < self.accounts@.len() ==> (#[trigger] self.accounts@[i]).1.wf()
    }

    pub fn new() -> (r: State)
        ensures
            r.wf(),
            r@.connection_status == ConnectionStatus::Disconnected,
            r@.books == Map::<Seq<char>, BookView>::empty(),
            r@.accounts == Map::<Seq<char>, AccountView>::empty(),
    {
        let r = State { connection_status: ConnectionStatus::Disconnected, order_books: Vec::new(), accounts: Vec::new() };
        proof {
            lemma_keyed_empty(r.order_books@, state_book_key(), state_book_val());
            lemma_keyed_empty(r.accounts@, account_key(), account_val());
        }
        r
    }

    fn book_index(&self, symbol: &String) -> (r: Option<usize>)
        requires
            self.wf(),
        ensures
            match r {
                Some(i) => i < self.order_books@.len() && self.order_books@[i as int]@.symbol == symbol@ && self@.books.contains_key(
                    symbol@,
                ) && self@.books[symbol@] == self.order_books@[i as int]@,
                None => !self@.books.contains_key(symbol@),
            },
    {
        let mut i: usize = 0;
        while i < self.order_books.len()
            invariant
                0 <= i <= self.order_books@.len(),
                self.wf(),
                forall|j: int| 0 <= j < i ==> (#[trigger] self.order_books@[j])@.symbol != symbol@,
            decreases self.order_books@.len() - i,
        {
            if *self.order_books[i].get_symbol() == *symbol {
                proof {
                    lemma_keyed_at(self.order_books@, state_book_key(), state_book_val(), i as int);
                }
                return Some(i);
            }
            i = i + 1;
        }
        proof {
            if keyed_has(self.order_books@, state_book_key(), symbol@) {
                let j = choose|j: int| 0 <= j < self.order_books@.len() && state_book_key()(#[trigger] self.order_books@[j]) == symbol@;
                assert(self.order_books@[j]@.symbol != symbol@);
            }
        }
        None
    }

    fn account_index(&self, id: &String) -> (r: Option<usize>)
        requires
            self.wf(),
        ensures
            match r {
                Some(i) => i < self.accounts@.len() && self.accounts@[i as int].0@ == id@ && self@.accounts.contains_key(id@)
                    && self@.accounts[id@] == self.accounts@[i as int].1@,
                None => !self@.accounts.contains_key(id@),
            },
    {
        let mut i: usize = 0;
        while i < self.accounts.len()
            invariant
                0 <= i <= self.accounts@.len(),
                self.wf(),
                forall|j: int| 0 <= j < i ==> (#[trigger] self.accounts@[j]).0@ != id@,
            decreases self.accounts@.len() - i,
        {
            if self.accounts[i].0 == *id {
                proof {
                    lemma_keyed_at(self.accounts@, account_key(), account_val(), i as int);
                }
                return Some(i);
            }
            i = i + 1;
        }
        proof {
            if keyed_has(self.accounts@, account_key(), id@) {
                let j = choose|j: int| 0 <= j < self.accounts@.len() && account_key()(#[trigger] self.accounts@[j]) == id@;
                assert(self.accounts@[j].0@ != id@);
            }
        }
        None
    }

    /// Files a book under its symbol, replacing any book held for it.
    fn store_book(&mut self, b: OrderBook)
        requires
            old(self).wf(),
            b.wf(),
        ensures
            final(self).wf(),
            final(self)@ == (StateView { books: old(self)@.books.insert(b@.symbol, b@), ..old(self)@ }),
    {
        match self.book_index(b.get_symbol()) {
            Some(i) => {
                proof {
                    lemma_keyed_update(self.order_books@, state_book_key(), state_book_val(), i as int, b);
                }
                self.order_books.set(i, b);
            },
            None => {
                proof {
                    lemma_keyed_push(self.order_books@, state_book_key(), state_book_val(), b);
                }
                self.order_books.push(b);
            },
        }
    }

    /// Folds one message into the picture.
    pub fn apply(&mut self, msg: &Message)
        requires
            old(self).wf(),
        ensures
            final(self).wf(),
            final(self)@ == apply_message(old(self)@, *msg),
    {
        match msg {
            Message::ConnectionStatus(status) => {
                self.connection_status = *status;
            },
            Message::OrderBookUpdate { symbol, delta } => {
                let mut b = match self.book_index(symbol) {
                    Some(i) => self.order_books[i].duplicate(),
                    None => OrderBook::new(symbol.clone()),
                };
                b.apply_delta(delta);
                self.store_book(b);
            },
            Message::OrderBookSnapshot(snapshot) => {
                let mut b = match self.book_index(&snapshot.symbol) {
                    Some(i) => self.order_books[i].duplicate(),
                    None => OrderBook::new(snapshot.symbol.clone()),
                };
                b.rebuild(copy_pairs(&snapshot.bids), copy_pairs(&snapshot.asks), snapshot.update_id, snapshot.timestamp);
                self.store_book(b);
            },
            Message::AccountUpdate { account_id, balance, locked } => {
                match self.account_index(account_id) {
                    Some(i) => {
                        let ghost s = self.accounts@;
                        let (id, mut acc) = self.accounts.remove(i);
                        if let Some(b) = balance {
                            acc.set_balance(*b);
                        }
                        if let Some(l) = locked {
                            acc.set_locked(*l);
                        }
                        let entry = (id, acc);
                        proof {
                            lemma_keyed_update(s, account_key(), account_val(), i as int, entry);
                        }
                        self.accounts.insert(i, entry);
                        proof {
                            assert(self.accounts@ =~= s.update(i as int, entry));
                        }
                    },
                    None => {
                        let mut acc = AccountState::new();
                        if let Some(b) = balance {
                            acc.set_balance(*b);
                        }
                        if let Some(l) = locked {
                            acc.set_locked(*l);
                        }
                        let entry = (account_id.clone(), acc);
                        proof {
                            lemma_keyed_push(self.accounts@, account_key(), account_val(), entry);
                        }
                        self.accounts.push(entry);
                    },
                }
            },
            _ => {},
        }
    }

    /// A copy of the book of `symbol`, if one was reported.
    pub fn get_order_book(&self, symbol: &String) -> (r: Option<OrderBook>)
        requires
            self.wf(),
        ensures
            r.is_some() == self@.books.contains_key(symbol@),
            r matches Some(b) ==> b.wf() && b@ == self@.books[symbol@],
    {
        match self.book_index(symbol) {
            Some(i) => Some(self.order_books[i].duplicate()),
            None => None,
        }
    }

    /// A copy of account `id`, if one was reported.
    pub fn get_account(&self, id: &String) -> (r: Option<AccountState>)
        requires
            self.wf(),
        ensures
            r.is_some() == self@.accounts.contains_key(id@),
            r matches Some(a) ==> a.wf() && a@ == self@.accounts[id@],
    {
        match self.account_index(id) {
            Some(i) => Some(self.accounts[i].1.duplicate()),
            None => None,
        }
    }
}

fn copy_pairs(v: &Vec<(crate::decimal::Decimal, i64)>) -> (r: Vec<(crate::decimal::Decimal, i64)>)
    ensures
        r@ == v@,
{
    let mut r: Vec<(crate::decimal::Decimal, i64)> = Vec::new();
    let mut i: usize = 0;
    while i < v.len()
        invariant
            0 <= i <= v@.len(),
            r@ == v@.subrange(0, i as int),
        decreases v@.len() - i,
    {
        r.push(v[i]);
        i = i + 1;
        assert(r@ =~= v@.subrange(0, i as int));
    }
    assert(r@ =~= v@);
    r
}

} // verus!
