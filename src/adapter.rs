use vstd::prelude::*;
use crate::account::Position;
use crate::decimal::Decimal;
use crate::order::Order;
use crate::order_book::OrderBookSnapshot;

verus! {

/// What a venue reports of an account: cash, cash set aside, and positions.
#[derive(Clone, Debug)]
pub struct AccountSnapshot {
    pub balance: Decimal,
    pub locked: Decimal,
    pub positions: Vec<Position>,
}

/// A venue connection. `Err` carries the text of a transport failure;
/// `Ok(false)` from an order call means the venue refused the request.
pub trait Adapter {
    fn connect(&self) -> Result<(), String>;

    fn disconnect(&self) -> Result<(), String>;

    fn place_order(&self, order: &Order) -> Result<bool, String>;

    fn cancel_order(&self, order_id: &str) -> Result<bool, String>;

    fn get_order_book_snapshot(&self, symbol: &str) -> Result<OrderBookSnapshot, String>;

    fn get_account_snapshot(&self, account_id: &str) -> Result<AccountSnapshot, String>;

    fn modify_order(&self, order_id: &str, price: Option<Decimal>, qty: Option<i64>) -> Result<bool, String>;

    fn subscribe(&self, symbols: &Vec<String>) -> Result<(), String>;
}

/// A venue that accepts every request, reports empty books, and reports the
/// account it was given.
#[derive(Debug)]
pub struct MockAdapter {
    account_state: AccountSnapshot,
}

impl MockAdapter {
    pub fn new() -> (r: MockAdapter)
        ensures
            r.account().balance.units == 0,
            r.account().locked.units == 0,
            r.account().positions@.len() == 0,
    {
        MockAdapter {
            account_state: AccountSnapshot {
                balance: Decimal { units: 0 },
                locked: Decimal { units: 0 },
                positions: Vec::new(),
            },
        }
    }

    pub closed spec fn account(&self) -> AccountSnapshot {
        self.account_state
    }

    pub fn with_account_state(state: AccountSnapshot) -> (r: MockAdapter)
        ensures
            r.account() == state,
    {
        MockAdapter { account_state: state }
    }

    pub fn set_account_state(&mut self, state: AccountSnapshot)
        ensures
            final(self).account() == state,
    {
        self.account_state = state;
    }
}

impl Adapter for MockAdapter {
    fn connect(&self) -> Result<(), String> {
        Ok(())
    }

    fn disconnect(&self) -> Result<(), String> {
        Ok(())
    }

    fn place_order(&self, order: &Order) -> Result<bool, String> {
        Ok(true)
    }

    fn cancel_order(&self, order_id: &str) -> Result<bool, String> {
        Ok(true)
    }

    fn get_order_book_snapshot(&self, symbol: &str) -> Result<OrderBookSnapshot, String> {
        Ok(
            OrderBookSnapshot {
                symbol: symbol.to_string(),
                bids: Vec::new(),
                asks: Vec::new(),
                update_id: 0,
                timestamp: 0,
            },
        )
    }

    fn get_account_snapshot(&self, account_id: &str) -> Result<AccountSnapshot, String> {
        Ok(self.account_state.clone())
    }

    fn modify_order(&self, order_id: &str, price: Option<Decimal>, qty: Option<i64>) -> Result<bool, String> {
        Ok(true)
    }

    fn subscribe(&self, symbols: &Vec<String>) -> Result<(), String> {
        Ok(())
    }
}

} // verus!
