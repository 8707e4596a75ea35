use didius::account::Position;
use didius::adapter::{AccountSnapshot, MockAdapter};
use didius::decimal::Decimal;
use didius::engine::OMSEngine;
use didius::order::{Order, OrderSide, OrderState, OrderType};

fn create_account(balance: i32, positions: Vec<Position>) -> AccountSnapshot {
    AccountSnapshot { balance: Decimal::from_int(balance), locked: Decimal::zero(), positions }
}

fn engine_with(state: AccountSnapshot) -> OMSEngine<MockAdapter> {
    let adapter = MockAdapter::with_account_state(state);
    let mut engine = OMSEngine::new(adapter, Decimal::from_int(1));
    engine.initialize_account("test_acc").unwrap();
    engine
}

fn buy_intc(id: Option<&str>) -> Order {
    let mut order = Order::new(
        "INTC".to_string(),
        OrderSide::BUY,
        OrderType::LIMIT,
        10,
        Some("50".to_string()),
        None,
        None,
        None,
    );
    order.order_id = id.map(|s| s.to_string());
    order
}

#[test]
fn test_account_initial_balance_long() {
    let pos1 = Position::new("AAPL".to_string(), 20, Decimal::from_int(100), Decimal::from_int(105));
    let pos2 = Position::new("MSFT".to_string(), 20, Decimal::from_int(200), Decimal::from_int(210));
    let engine = engine_with(create_account(10000, vec![pos1, pos2]));

    let acc = engine.get_account();
    assert_eq!(acc.balance, Decimal::from_int(10000));
    assert_eq!(acc.position_count(), 2);
    assert_eq!(acc.get_position(&"AAPL".to_string()).unwrap().quantity, 20);
    assert_eq!(acc.get_position(&"MSFT".to_string()).unwrap().quantity, 20);
}

#[test]
fn test_account_initial_balance_short() {
    let pos1 = Position::new("NQ".to_string(), -1, Decimal::from_int(15000), Decimal::from_int(15100));
    let engine = engine_with(create_account(50000, vec![pos1]));

    let acc = engine.get_account();
    assert_eq!(acc.get_position(&"NQ".to_string()).unwrap().quantity, -1);
}

#[test]
fn test_new_order_hold_balance() {
    let mut engine = engine_with(create_account(1000, vec![]));
    engine.send_order(buy_intc(None)).unwrap();

    let acc = engine.get_account();
    assert_eq!(acc.balance, Decimal::from_int(1000));
    assert_eq!(acc.position_count(), 0);
}

#[test]
fn test_partial_fill() {
    let mut engine = engine_with(create_account(1000, vec![]));
    engine.send_order(buy_intc(Some("ord_1"))).unwrap();

    engine.on_trade_update("ord_1", 5, Decimal::from_int(50)).unwrap();
    let acc = engine.get_account();
    assert_eq!(acc.balance, Decimal::from_int(750));
    assert_eq!(acc.locked, Decimal::zero());
    assert_eq!(acc.get_position(&"INTC".to_string()).unwrap().quantity, 5);

    engine.on_trade_update("ord_1", 5, Decimal::from_int(50)).unwrap();
    let acc = engine.get_account();
    assert_eq!(acc.balance, Decimal::from_int(500));
    assert_eq!(acc.locked, Decimal::zero());
    assert_eq!(acc.get_position(&"INTC".to_string()).unwrap().quantity, 10);
}

#[test]
fn test_cancel_order() {
    let mut engine = engine_with(create_account(1000, vec![]));
    engine.send_order(buy_intc(Some("ord_2"))).unwrap();

    let acc = engine.get_account();
    assert_eq!(acc.locked, Decimal::zero());

    engine.on_order_status_update("ord_2", OrderState::CANCELED, None);

    let acc = engine.get_account();
    assert_eq!(acc.locked, Decimal::zero());
    assert_eq!(acc.balance, Decimal::from_int(1000));
}

#[test]
fn test_partial_fill_then_cancel() {
    let mut engine = engine_with(create_account(1000, vec![]));
    engine.send_order(buy_intc(Some("ord_3"))).unwrap();

    engine.on_trade_update("ord_3", 2, Decimal::from_int(50)).unwrap();
    let acc = engine.get_account();
    assert_eq!(acc.locked, Decimal::zero());
    assert_eq!(acc.balance, Decimal::from_int(900));

    engine.on_order_status_update("ord_3", OrderState::CANCELED, None);

    let acc = engine.get_account();
    assert_eq!(acc.locked, Decimal::zero());
    assert_eq!(acc.balance, Decimal::from_int(900));
}
