use didius::adapter::{AccountSnapshot, Adapter};
use didius::decimal::Decimal;
use didius::engine::OMSEngine;
use didius::order::Order;
use didius::order_book::{OrderBookDelta, OrderBookSnapshot};
use std::sync::Mutex;

// A venue whose book snapshot the test sets.
struct ControllableMockAdapter {
    snapshot: Mutex<Option<OrderBookSnapshot>>,
}

impl ControllableMockAdapter {
    fn new() -> Self {
        Self { snapshot: Mutex::new(None) }
    }

    fn set_snapshot(&self, book: OrderBookSnapshot) {
        *self.snapshot.lock().unwrap() = Some(book);
    }
}

impl Adapter for ControllableMockAdapter {
    fn connect(&self) -> Result<(), String> {
        Ok(())
    }
    fn disconnect(&self) -> Result<(), String> {
        Ok(())
    }
    fn place_order(&self, _: &Order) -> Result<bool, String> {
        Ok(true)
    }
    fn cancel_order(&self, _: &str) -> Result<bool, String> {
        Ok(true)
    }
    fn get_order_book_snapshot(&self, symbol: &str) -> Result<OrderBookSnapshot, String> {
        if let Some(s) = self.snapshot.lock().unwrap().clone() {
            Ok(s)
        } else {
            Ok(OrderBookSnapshot {
                symbol: symbol.to_string(),
                bids: vec![],
                asks: vec![],
                update_id: 0,
                timestamp: 0,
            })
        }
    }
    fn get_account_snapshot(&self, _: &str) -> Result<AccountSnapshot, String> {
        Ok(AccountSnapshot { balance: Decimal::zero(), locked: Decimal::zero(), positions: vec![] })
    }
    fn modify_order(&self, _: &str, _: Option<Decimal>, _: Option<i64>) -> Result<bool, String> {
        Ok(true)
    }
    fn subscribe(&self, _: &Vec<String>) -> Result<(), String> {
        Ok(())
    }
}

#[test]
fn test_reconcile_flow() {
    let mut engine = OMSEngine::new(ControllableMockAdapter::new(), Decimal::from_int(1));
    let symbol = "TEST".to_string();

    // a valid book
    engine
        .on_order_book_update(OrderBookDelta {
            symbol: symbol.clone(),
            bids: vec![(Decimal::from_int(100), 10)],
            asks: vec![(Decimal::from_int(101), 10)],
            update_id: 1,
            timestamp: 100_000,
        })
        .unwrap();

    let book = engine.get_order_book(&symbol).unwrap();
    assert!(book.validate());

    // the venue's view at t = 110 s
    engine.adapter().set_snapshot(OrderBookSnapshot {
        symbol: symbol.clone(),
        bids: vec![(Decimal::from_int(100), 20)],
        asks: vec![(Decimal::from_int(102), 20)],
        update_id: 2,
        timestamp: 110_000,
    });

    // a crossing delta makes the engine fetch the snapshot
    engine
        .on_order_book_update(OrderBookDelta {
            symbol: symbol.clone(),
            bids: vec![(Decimal::from_int(105), 10)],
            asks: vec![],
            update_id: 3,
            timestamp: 105_000,
        })
        .unwrap();

    let book = engine.get_order_book(&symbol).unwrap();
    assert_eq!(book.timestamp, 110_000);
    assert_eq!(book.bid_quantity(Decimal::from_int(100)), Some(20));
    assert_eq!(book.bid_quantity(Decimal::from_int(105)), None);
}
