use didius::decimal::Decimal;
use didius::message::{ConnectionStatus, Message};
use didius::order_book::{OrderBookDelta, OrderBookSnapshot};
use didius::state::State;

#[test]
fn state_follows_messages() {
    let mut s = State::new();
    assert_eq!(s.connection_status, ConnectionStatus::Disconnected);
    s.apply(&Message::ConnectionStatus(ConnectionStatus::Connected));
    assert_eq!(s.connection_status, ConnectionStatus::Connected);

    s.apply(&Message::OrderBookSnapshot(OrderBookSnapshot {
        symbol: "T".to_string(),
        bids: vec![(Decimal::from_int(9), 1)],
        asks: vec![(Decimal::from_int(11), 2)],
        update_id: 1,
        timestamp: 10,
    }));
    s.apply(&Message::OrderBookUpdate {
        symbol: "T".to_string(),
        delta: OrderBookDelta { symbol: "T".to_string(), bids: vec![(Decimal::from_int(10), 3)], asks: vec![], update_id: 2, timestamp: 20 },
    });
    let b = s.get_order_book(&"T".to_string()).unwrap();
    assert_eq!(b.get_best_bid(), Some((Decimal::from_int(10), 3)));
    assert_eq!(b.get_best_ask(), Some((Decimal::from_int(11), 2)));
    assert!(s.get_order_book(&"U".to_string()).is_none());

    s.apply(&Message::AccountUpdate { account_id: "a".to_string(), balance: Some(Decimal::from_int(5)), locked: None });
    s.apply(&Message::AccountUpdate { account_id: "a".to_string(), balance: None, locked: Some(Decimal::from_int(2)) });
    let a = s.get_account(&"a".to_string()).unwrap();
    assert_eq!(a.balance, Decimal::from_int(5));
    assert_eq!(a.locked, Decimal::from_int(2));

    s.apply(&Message::Error { code: 1, message: "x".to_string() });
    assert!(s.get_account(&"b".to_string()).is_none());
}
