use didius::adapter::{AccountSnapshot, Adapter};
use didius::decimal::Decimal;
use didius::engine::{EngineError, EngineEvent, OMSEngine};
use didius::message::Message;
use didius::order::{ExecutionStrategy, Order, OrderSide, OrderState, OrderType};
use didius::order_book::{OrderBookDelta, OrderBookSnapshot};
use std::cell::Cell;

// A venue that counts the calls made to it and answers placements as told.
struct CountingAdapter {
    placed: Cell<usize>,
    canceled: Cell<usize>,
    place_answer: Result<bool, String>,
}

impl CountingAdapter {
    fn accepting() -> Self {
        CountingAdapter { placed: Cell::new(0), canceled: Cell::new(0), place_answer: Ok(true) }
    }
}

impl Adapter for CountingAdapter {
    fn connect(&self) -> Result<(), String> {
        Ok(())
    }
    fn disconnect(&self) -> Result<(), String> {
        Ok(())
    }
    fn place_order(&self, _: &Order) -> Result<bool, String> {
        self.placed.set(self.placed.get() + 1);
        self.place_answer.clone()
    }
    fn cancel_order(&self, _: &str) -> Result<bool, String> {
        self.canceled.set(self.canceled.get() + 1);
        Ok(true)
    }
    fn get_order_book_snapshot(&self, symbol: &str) -> Result<OrderBookSnapshot, String> {
        Ok(OrderBookSnapshot { symbol: symbol.to_string(), bids: vec![], asks: vec![], update_id: 0, timestamp: 0 })
    }
    fn get_account_snapshot(&self, _: &str) -> Result<AccountSnapshot, String> {
        Ok(AccountSnapshot { balance: Decimal::from_int(1000), locked: Decimal::zero(), positions: vec![] })
    }
    fn modify_order(&self, _: &str, _: Option<Decimal>, _: Option<i64>) -> Result<bool, String> {
        Ok(true)
    }
    fn subscribe(&self, _: &Vec<String>) -> Result<(), String> {
        Ok(())
    }
}

fn limit(symbol: &str, side: OrderSide, qty: i64, price: &str, id: &str) -> Order {
    let mut o = Order::new(symbol.to_string(), side, OrderType::LIMIT, qty, Some(price.to_string()), None, None, None);
    o.order_id = Some(id.to_string());
    o
}

fn ask_delta(symbol: &str, price: i32, qty: i64, ts: i64) -> OrderBookDelta {
    OrderBookDelta { symbol: symbol.to_string(), bids: vec![], asks: vec![(Decimal::from_int(price), qty)], update_id: ts, timestamp: ts }
}

fn bid_delta(symbol: &str, price: i32, qty: i64, ts: i64) -> OrderBookDelta {
    OrderBookDelta { symbol: symbol.to_string(), bids: vec![(Decimal::from_int(price), qty)], asks: vec![], update_id: ts, timestamp: ts }
}

#[test]
fn fok_without_enough_liquidity_is_rejected_before_the_venue() {
    let mut engine = OMSEngine::new(CountingAdapter::accepting(), Decimal::from_int(1));
    engine.initialize_account("acc").unwrap();
    engine.on_order_book_update(ask_delta("INTC", 50, 3, 1)).unwrap();

    let mut order = limit("INTC", OrderSide::BUY, 10, "50", "fok1");
    order.strategy = ExecutionStrategy::FOK;
    let id = engine.send_order(order).unwrap();

    assert_eq!(id, "fok1");
    assert_eq!(engine.get_order("fok1").unwrap().state, OrderState::REJECTED);
    assert_eq!(engine.get_order("fok1").unwrap().error_message, Some("FOK verification failed".to_string()));
    assert_eq!(engine.adapter().placed.get(), 0);
    assert_eq!(engine.get_account().balance, Decimal::from_int(1000));
}

#[test]
fn fok_on_an_empty_book_is_rejected() {
    let mut engine = OMSEngine::new(CountingAdapter::accepting(), Decimal::from_int(1));
    let mut order = limit("INTC", OrderSide::BUY, 1, "50", "fok2");
    order.strategy = ExecutionStrategy::FOK;
    engine.send_order(order).unwrap();
    assert_eq!(engine.get_order("fok2").unwrap().state, OrderState::REJECTED);
    assert_eq!(engine.adapter().placed.get(), 0);
}

#[test]
fn fok_with_enough_liquidity_is_sent() {
    let mut engine = OMSEngine::new(CountingAdapter::accepting(), Decimal::from_int(1));
    engine.on_order_book_update(ask_delta("INTC", 50, 6, 1)).unwrap();
    engine.on_order_book_update(ask_delta("INTC", 51, 6, 2)).unwrap();
    let mut order = limit("INTC", OrderSide::BUY, 10, "51", "fok3");
    order.strategy = ExecutionStrategy::FOK;
    engine.send_order(order).unwrap();
    assert_eq!(engine.get_order("fok3").unwrap().state, OrderState::PENDING_NEW);
    assert_eq!(engine.adapter().placed.get(), 1);
}

#[test]
fn ioc_is_cut_to_what_the_book_can_fill() {
    let mut engine = OMSEngine::new(CountingAdapter::accepting(), Decimal::from_int(1));
    engine.on_order_book_update(bid_delta("INTC", 50, 4, 1)).unwrap();
    engine.on_order_book_update(bid_delta("INTC", 49, 4, 2)).unwrap();
    engine.on_order_book_update(bid_delta("INTC", 48, 4, 3)).unwrap();
    let mut order = limit("INTC", OrderSide::SELL, 10, "49", "ioc1");
    order.strategy = ExecutionStrategy::IOC;
    engine.send_order(order).unwrap();
    let o = engine.get_order("ioc1").unwrap();
    assert_eq!(o.quantity, 8);
    assert_eq!(o.state, OrderState::PENDING_NEW);
}

#[test]
fn ioc_with_nothing_to_fill_is_rejected() {
    let mut engine = OMSEngine::new(CountingAdapter::accepting(), Decimal::from_int(1));
    engine.on_order_book_update(bid_delta("INTC", 40, 4, 1)).unwrap();
    let mut order = limit("INTC", OrderSide::SELL, 10, "49", "ioc2");
    order.strategy = ExecutionStrategy::IOC;
    engine.send_order(order).unwrap();
    let o = engine.get_order("ioc2").unwrap();
    assert_eq!(o.state, OrderState::REJECTED);
    assert_eq!(o.error_message, Some("IOC: No liquidity".to_string()));
    assert_eq!(engine.adapter().placed.get(), 0);
}

#[test]
fn venue_refusal_and_failure_reject_the_order() {
    let refusing = CountingAdapter { placed: Cell::new(0), canceled: Cell::new(0), place_answer: Ok(false) };
    let mut engine = OMSEngine::new(refusing, Decimal::from_int(1));
    engine.send_order(limit("INTC", OrderSide::BUY, 1, "50", "r1")).unwrap();
    let o = engine.get_order("r1").unwrap();
    assert_eq!(o.state, OrderState::REJECTED);
    assert_eq!(o.error_message, Some("Adapter Send Failed".to_string()));

    let failing = CountingAdapter { placed: Cell::new(0), canceled: Cell::new(0), place_answer: Err("timeout".to_string()) };
    let mut engine = OMSEngine::new(failing, Decimal::from_int(1));
    engine.send_order(limit("INTC", OrderSide::BUY, 1, "50", "r2")).unwrap();
    let o = engine.get_order("r2").unwrap();
    assert_eq!(o.state, OrderState::REJECTED);
    assert_eq!(o.error_message, Some("timeout".to_string()));
}

#[test]
fn engine_errors_are_reported() {
    let mut engine = OMSEngine::new(CountingAdapter::accepting(), Decimal::from_int(1));
    let bad = limit("INTC", OrderSide::BUY, 0, "50", "bad");
    assert!(matches!(engine.send_order(bad), Err(EngineError::InvalidOrder)));

    engine.send_order(limit("INTC", OrderSide::BUY, 1, "50", "dup")).unwrap();
    let again = limit("INTC", OrderSide::BUY, 1, "50", "dup");
    assert!(matches!(engine.send_order(again), Err(EngineError::DuplicateOrderId)));

    assert!(matches!(engine.cancel_order("nope"), Err(EngineError::OrderNotFound)));
    assert!(matches!(engine.on_trade_update("nope", 1, Decimal::from_int(50)), Err(EngineError::OrderNotFound)));
    assert!(matches!(engine.on_trade_update("dup", 2, Decimal::from_int(50)), Err(EngineError::FillRefused)));
}

#[test]
fn an_order_without_id_gets_a_generated_one() {
    let mut engine = OMSEngine::new(CountingAdapter::accepting(), Decimal::from_int(1));
    let o = Order::new("INTC".to_string(), OrderSide::BUY, OrderType::LIMIT, 1, Some("50".to_string()), None, None, None);
    let id = engine.send_order(o).unwrap();
    assert_eq!(id.len(), 36);
    assert!(engine.get_order(&id).is_some());
    assert_eq!(engine.get_orders().len(), 1);
}

#[test]
fn place_then_cancel_leaves_account_and_cancels() {
    let mut engine = OMSEngine::new(CountingAdapter::accepting(), Decimal::from_int(1));
    engine.initialize_account("acc").unwrap();
    engine.send_order(limit("INTC", OrderSide::BUY, 10, "50", "pc")).unwrap();
    engine.cancel_order("pc").unwrap();
    assert_eq!(engine.get_order("pc").unwrap().state, OrderState::PENDING_CANCEL);
    assert_eq!(engine.adapter().canceled.get(), 1);
    engine.on_order_status_update("pc", OrderState::CANCELED, None);
    let o = engine.get_order("pc").unwrap();
    assert_eq!(o.state, OrderState::CANCELED);
    assert_eq!(o.filled_quantity, 0);
    let acc = engine.get_account();
    assert_eq!(acc.balance, Decimal::from_int(1000));
    assert_eq!(acc.position_count(), 0);
}

#[test]
fn partial_fill_then_cancel_keeps_the_fill() {
    let mut engine = OMSEngine::new(CountingAdapter::accepting(), Decimal::from_int(1));
    engine.initialize_account("acc").unwrap();
    engine.send_order(limit("INTC", OrderSide::BUY, 10, "50", "pf")).unwrap();
    engine.on_trade_update("pf", 4, Decimal::from_int(50)).unwrap();
    assert_eq!(engine.get_order("pf").unwrap().state, OrderState::PARTIALLY_FILLED);
    engine.on_order_status_update("pf", OrderState::CANCELED, None);
    let o = engine.get_order("pf").unwrap();
    assert_eq!(o.state, OrderState::CANCELED);
    assert_eq!(o.filled_quantity, 4);
    assert!(!o.is_active());
    // a late fill on a final order is refused
    assert!(matches!(engine.on_trade_update("pf", 1, Decimal::from_int(50)), Err(EngineError::FillRefused)));
    assert_eq!(engine.get_account().balance, Decimal::from_int(800));
}

#[test]
fn partial_fill_accounting_through_the_engine() {
    let mut engine = OMSEngine::new(CountingAdapter::accepting(), Decimal::from_int(1));
    engine.initialize_account("acc").unwrap();
    engine.send_order(limit("INTC", OrderSide::BUY, 10, "50", "acct")).unwrap();
    engine.on_trade_update("acct", 5, Decimal::from_int(50)).unwrap();
    let acc = engine.get_account();
    assert_eq!(acc.balance, Decimal::from_int(750));
    let p = acc.get_position(&"INTC".to_string()).unwrap();
    assert_eq!(p.quantity, 5);
    assert_eq!(p.average_price, Decimal::from_int(50));
    engine.on_trade_update("acct", 5, Decimal::from_int(50)).unwrap();
    let acc = engine.get_account();
    assert_eq!(acc.balance, Decimal::from_int(500));
    assert_eq!(acc.get_position(&"INTC".to_string()).unwrap().quantity, 10);
    let o = engine.get_order("acct").unwrap();
    assert_eq!(o.state, OrderState::FILLED);
    assert_eq!(o.average_fill_price, Decimal::from_int(50));
}

#[test]
fn stop_trigger_cancels_then_places_the_rest() {
    let mut engine = OMSEngine::new(CountingAdapter::accepting(), Decimal::from_int(1));
    let params = vec![
        ("trigger_price".to_string(), "100".to_string()),
        ("trigger_side".to_string(), "BUY".to_string()),
        ("chained_price".to_string(), "99.5".to_string()),
    ];
    let mut order = Order::new(
        "INTC".to_string(),
        OrderSide::BUY,
        OrderType::LIMIT,
        10,
        Some("95".to_string()),
        Some(ExecutionStrategy::STOP),
        Some(params),
        None,
    );
    order.order_id = Some("orig".to_string());
    engine.send_order(order).unwrap();
    assert_eq!(engine.get_order("orig").unwrap().state, OrderState::PENDING_NEW);

    // best bid 99: nothing happens
    engine.on_order_book_update(bid_delta("INTC", 99, 5, 1)).unwrap();
    assert_eq!(engine.adapter().canceled.get(), 0);

    // best bid 101: the stop cancels the original
    engine.on_order_book_update(bid_delta("INTC", 101, 5, 2)).unwrap();
    assert_eq!(engine.adapter().canceled.get(), 1);
    assert_eq!(engine.get_order("orig").unwrap().state, OrderState::PENDING_CANCEL);

    // the cancel is confirmed with nothing filled: the follow-up goes out
    engine.on_order_status_update("orig", OrderState::CANCELED, None);
    let orders = engine.get_orders();
    assert_eq!(orders.len(), 2);
    let follow = orders.iter().find(|o| o.order_id != Some("orig".to_string())).unwrap();
    assert_eq!(follow.quantity, 10);
    assert_eq!(follow.side, OrderSide::BUY);
    assert_eq!(follow.price, Some(Decimal::from_units(99_500_000)));
    assert_eq!(follow.state, OrderState::PENDING_NEW);
    assert_eq!(engine.adapter().placed.get(), 2);
}

#[test]
fn chain_places_the_prepared_order_after_cancel() {
    let mut engine = OMSEngine::new(CountingAdapter::accepting(), Decimal::from_int(1));
    let params = vec![
        ("trigger_price".to_string(), "90".to_string()),
        ("trigger_side".to_string(), "SELL".to_string()),
        ("chained_symbol".to_string(), "AMD".to_string()),
        ("chained_side".to_string(), "SELL".to_string()),
        ("chained_quantity".to_string(), "7".to_string()),
        ("chained_price".to_string(), "120".to_string()),
    ];
    let mut order = Order::new(
        "INTC".to_string(),
        OrderSide::BUY,
        OrderType::LIMIT,
        3,
        Some("95".to_string()),
        Some(ExecutionStrategy::CHAIN),
        Some(params),
        None,
    );
    order.order_id = Some("c0".to_string());
    engine.send_order(order).unwrap();
    engine.on_order_book_update(ask_delta("INTC", 89, 5, 1)).unwrap();
    assert_eq!(engine.get_order("c0").unwrap().state, OrderState::PENDING_CANCEL);
    engine.on_order_status_update("c0", OrderState::CANCELED, None);
    let orders = engine.get_orders();
    let chained = orders.iter().find(|o| o.symbol == "AMD").unwrap();
    assert_eq!(chained.quantity, 7);
    assert_eq!(chained.side, OrderSide::SELL);
    assert_eq!(chained.price, Some(Decimal::from_int(120)));
}

#[test]
fn messages_drive_the_engine() {
    let mut engine = OMSEngine::new(CountingAdapter::accepting(), Decimal::from_int(1));
    engine.initialize_account("acc").unwrap();
    engine.send_order(limit("INTC", OrderSide::SELL, 2, "50", "m1")).unwrap();
    engine
        .on_message(Message::OrderBookUpdate { symbol: "INTC".to_string(), delta: ask_delta("INTC", 51, 2, 5) })
        .unwrap();
    assert_eq!(engine.get_order_book("INTC").unwrap().get_best_ask(), Some((Decimal::from_int(51), 2)));
    engine
        .on_message(Message::Execution { order_id: "m1".to_string(), fill_qty: 2, fill_price: Decimal::from_int(50) })
        .unwrap();
    let acc = engine.get_account();
    assert_eq!(acc.balance, Decimal::from_int(1100));
    assert_eq!(acc.get_position(&"INTC".to_string()).unwrap().quantity, -2);
    assert_eq!(engine.get_order("m1").unwrap().state, OrderState::FILLED);
}

#[test]
fn start_is_idempotent_and_stop_halts() {
    let mut engine = OMSEngine::new(CountingAdapter::accepting(), Decimal::from_int(1));
    engine.start(Some("acc".to_string())).unwrap();
    assert!(engine.is_running());
    assert_eq!(engine.get_account().balance, Decimal::from_int(1000));
    engine.start(None).unwrap();
    assert!(engine.is_running());
    engine.stop().unwrap();
    assert!(!engine.is_running());
}

#[test]
fn rejections_and_cancels_are_queued_as_events() {
    let mut engine = OMSEngine::new(CountingAdapter::accepting(), Decimal::from_int(1));
    let mut order = limit("INTC", OrderSide::BUY, 1, "50", "ev1");
    order.strategy = ExecutionStrategy::FOK;
    engine.send_order(order).unwrap();
    engine.send_order(limit("INTC", OrderSide::BUY, 1, "50", "ev2")).unwrap();
    engine.cancel_order("ev2").unwrap();
    let events = engine.drain_events();
    assert_eq!(events.len(), 2);
    assert!(matches!(&events[0], EngineEvent::OrderRejected { order_id, .. } if order_id == "ev1"));
    assert!(matches!(&events[1], EngineEvent::OrderCancelRequested { order_id, success: true } if order_id == "ev2"));
    assert!(engine.drain_events().is_empty());
}

#[test]
fn stop_time_trigger_fires_on_the_engine_timer() {
    let mut engine = OMSEngine::new(CountingAdapter::accepting(), Decimal::from_int(1));
    let params = vec![
        ("trigger_price".to_string(), "1000".to_string()),
        ("trigger_timestamp".to_string(), "5".to_string()),
    ];
    let mut order = Order::new(
        "INTC".to_string(),
        OrderSide::BUY,
        OrderType::LIMIT,
        4,
        Some("95".to_string()),
        Some(ExecutionStrategy::STOP),
        Some(params),
        None,
    );
    order.order_id = Some("t0".to_string());
    engine.send_order(order).unwrap();
    engine.on_timer_at(4_999);
    assert_eq!(engine.get_order("t0").unwrap().state, OrderState::PENDING_NEW);
    engine.on_timer_at(5_000);
    assert_eq!(engine.get_order("t0").unwrap().state, OrderState::PENDING_CANCEL);
}

#[test]
fn vwap_parent_is_sliced_on_book_updates() {
    let mut engine = OMSEngine::new(CountingAdapter::accepting(), Decimal::from_int(1));
    let params = vec![
        ("total_volume".to_string(), "9".to_string()),
        ("interval_seconds".to_string(), "0.001".to_string()),
        ("timeout_seconds".to_string(), "0.003".to_string()),
    ];
    let mut order = Order::new(
        "INTC".to_string(),
        OrderSide::BUY,
        OrderType::LIMIT,
        9,
        Some("60".to_string()),
        Some(ExecutionStrategy::VWAP),
        Some(params),
        None,
    );
    order.order_id = Some("parent".to_string());
    engine.send_order(order).unwrap();
    assert_eq!(engine.get_order("parent").unwrap().state, OrderState::CREATED);
    assert_eq!(engine.adapter().placed.get(), 0);
    // far in the future: a slice is due
    engine.on_order_book_update(ask_delta("INTC", 50, 100, i64::MAX / 2)).unwrap();
    assert_eq!(engine.adapter().placed.get(), 1);
    let slice = engine.get_orders().into_iter().find(|o| o.order_id != Some("parent".to_string())).unwrap();
    assert_eq!(slice.quantity, 9);
    assert_eq!(slice.price, Some(Decimal::from_units(50_050_000)));
}

#[test]
fn cancel_after_partial_fill_keeps_the_average_price() {
    let mut engine = OMSEngine::new(CountingAdapter::accepting(), Decimal::from_int(1));
    engine.initialize_account("acc").unwrap();
    engine.send_order(limit("INTC", OrderSide::BUY, 10, "50", "avg")).unwrap();
    engine.on_trade_update("avg", 2, Decimal::from_int(48)).unwrap();
    engine.on_trade_update("avg", 2, Decimal::from_int(50)).unwrap();
    engine.on_order_status_update("avg", OrderState::NEW, None);
    assert_eq!(engine.get_order("avg").unwrap().state, OrderState::NEW);
    engine.on_order_status_update("avg", OrderState::CANCELED, Some("user".to_string()));
    let o = engine.get_order("avg").unwrap();
    assert_eq!(o.state, OrderState::CANCELED);
    assert_eq!(o.average_fill_price, Decimal::from_int(49));
    assert_eq!(o.error_message, Some("user".to_string()));
}

#[test]
fn strategy_orders_need_their_parameters() {
    let mut engine = OMSEngine::new(CountingAdapter::accepting(), Decimal::from_int(1));
    let mut stop = limit("INTC", OrderSide::BUY, 1, "50", "s1");
    stop.strategy = ExecutionStrategy::STOP;
    assert!(matches!(engine.send_order(stop), Err(EngineError::MissingStrategyParams)));
    let mut chain = limit("INTC", OrderSide::BUY, 1, "50", "c1");
    chain.strategy = ExecutionStrategy::CHAIN;
    chain.strategy_params = vec![("trigger_price".to_string(), "10".to_string())];
    assert!(matches!(engine.send_order(chain), Err(EngineError::MissingStrategyParams)));
    let mut vwap = limit("INTC", OrderSide::BUY, 1, "50", "v1");
    vwap.strategy = ExecutionStrategy::VWAP;
    vwap.strategy_params = vec![("interval_seconds".to_string(), "x".to_string())];
    assert!(matches!(engine.send_order(vwap), Err(EngineError::MissingStrategyParams)));
    assert!(engine.get_orders().is_empty());
    assert_eq!(engine.adapter().placed.get(), 0);
}

#[test]
fn a_limit_order_needs_a_price() {
    let mut engine = OMSEngine::new(CountingAdapter::accepting(), Decimal::from_int(1));
    let o = Order::new("INTC".to_string(), OrderSide::BUY, OrderType::LIMIT, 1, None, None, None, None);
    assert!(matches!(engine.send_order(o), Err(EngineError::InvalidOrder)));
    let m = Order::new("INTC".to_string(), OrderSide::BUY, OrderType::MARKET, 1, None, None, None, None);
    assert!(engine.send_order(m).is_ok());
}

struct RefusingConnection;

impl Adapter for RefusingConnection {
    fn connect(&self) -> Result<(), String> {
        Err("down".to_string())
    }
    fn disconnect(&self) -> Result<(), String> {
        Ok(())
    }
    fn place_order(&self, _: &Order) -> Result<bool, String> {
        Ok(true)
    }
    fn cancel_order(&self, _: &str) -> Result<bool, String> {
        Ok(true)
    }
    fn get_order_book_snapshot(&self, _: &str) -> Result<OrderBookSnapshot, String> {
        Err("down".to_string())
    }
    fn get_account_snapshot(&self, _: &str) -> Result<AccountSnapshot, String> {
        Err("down".to_string())
    }
    fn modify_order(&self, _: &str, _: Option<Decimal>, _: Option<i64>) -> Result<bool, String> {
        Ok(true)
    }
    fn subscribe(&self, _: &Vec<String>) -> Result<(), String> {
        Ok(())
    }
}

#[test]
fn a_failed_start_leaves_the_engine_stopped() {
    let mut engine = OMSEngine::new(RefusingConnection, Decimal::from_int(1));
    assert!(engine.start(None).is_err());
    assert!(!engine.is_running());
    assert!(engine.start(None).is_err());
}

#[test]
fn finished_strategies_are_dropped_on_the_tick() {
    let mut engine = OMSEngine::new(CountingAdapter::accepting(), Decimal::from_int(1));
    let params = vec![("trigger_price".to_string(), "100".to_string())];
    let mut order = Order::new(
        "INTC".to_string(),
        OrderSide::BUY,
        OrderType::LIMIT,
        2,
        Some("95".to_string()),
        Some(ExecutionStrategy::STOP),
        Some(params),
        None,
    );
    order.order_id = Some("f0".to_string());
    engine.send_order(order).unwrap();
    engine.on_trade_update("f0", 2, Decimal::from_int(95)).unwrap();
    engine.on_order_status_update("f0", OrderState::FILLED, None);
    engine.on_timer();
    // the stop finished with its order: a later rise of the bid does nothing
    engine.on_order_book_update(bid_delta("INTC", 101, 5, 1)).unwrap();
    assert_eq!(engine.adapter().canceled.get(), 0);
}
