use didius::account::{AccountState, Position};
use didius::chain::ChainStrategy;
use didius::decimal::{parse_decimal, Decimal};
use didius::fok::FOKStrategy;
use didius::ioc::IOCStrategy;
use didius::logger_config::{LogDestinationInfo, LoggerConfig};
use didius::order::{Order, OrderSide, OrderState, OrderType};
use didius::order_book::{OrderBook, OrderBookDelta, OrderBookSnapshot};
use didius::stop::StopStrategy;
use didius::strategy::StrategyAction;
use didius::vwap::VWAPStrategy;

fn d(n: i32) -> Decimal {
    Decimal::from_int(n)
}

fn book_with(bids: Vec<(i32, i64)>, asks: Vec<(i32, i64)>) -> OrderBook {
    let mut b = OrderBook::new("T".to_string());
    b.rebuild(
        bids.into_iter().map(|(p, q)| (d(p), q)).collect(),
        asks.into_iter().map(|(p, q)| (d(p), q)).collect(),
        1,
        1,
    );
    b
}

#[test]
fn decimal_parse_reads_text() {
    assert_eq!(parse_decimal("101.25"), Some(Decimal::from_units(101_250_000)));
    assert_eq!(parse_decimal("-3"), Some(Decimal::from_units(-3_000_000)));
    assert_eq!(parse_decimal("0.000001"), Some(Decimal::from_units(1)));
    assert_eq!(parse_decimal("0.0000001"), None);
    assert_eq!(parse_decimal("0.0000010"), Some(Decimal::from_units(1)));
    assert_eq!(parse_decimal("abc"), None);
    assert_eq!(parse_decimal("99999999999999999999"), None);
}

#[test]
fn decimal_from_parts_scales_exactly() {
    assert_eq!(Decimal::from_parts(12345, 2), Some(Decimal::from_units(123_450_000)));
    assert_eq!(Decimal::from_parts(-5, 0), Some(Decimal::from_units(-5_000_000)));
    assert_eq!(Decimal::from_parts(1_500_000_000, 9), Some(Decimal::from_units(1_500_000)));
    assert_eq!(Decimal::from_parts(1_500_000_001, 9), None);
    assert_eq!(Decimal::from_parts(0, 40), Some(Decimal::from_units(0)));
    assert_eq!(Decimal::from_parts(i128::MAX, 0), None);
    assert_eq!(Decimal::from_int(7).units, 7_000_000);
}

#[test]
fn empty_book_has_no_touch_and_is_valid() {
    let b = OrderBook::new("T".to_string());
    assert_eq!(b.get_best_bid(), None);
    assert_eq!(b.get_best_ask(), None);
    assert_eq!(b.get_mid_price(), None);
    assert!(b.validate());
}

#[test]
fn book_touch_and_mid() {
    let b = book_with(vec![(99, 1), (100, 2)], vec![(103, 4), (101, 3)]);
    assert_eq!(b.get_best_bid(), Some((d(100), 2)));
    assert_eq!(b.get_best_ask(), Some((d(101), 3)));
    assert_eq!(b.get_mid_price(), Some(Decimal::from_units(100_500_000)));
    assert_eq!(b.get_bids(), vec![(d(99), 1), (d(100), 2)]);
    assert_eq!(b.get_asks(), vec![(d(101), 3), (d(103), 4)]);
    assert!(b.validate());
}

#[test]
fn mid_price_rounds_down() {
    let b = book_with(vec![], vec![]);
    let mut b2 = b;
    b2.rebuild(vec![(Decimal::from_units(-3), 1)], vec![(Decimal::from_units(0), 1)], 1, 1);
    assert_eq!(b2.get_mid_price(), Some(Decimal::from_units(-2)));
}

#[test]
fn zero_quantity_deletes_a_level_and_stale_deltas_are_ignored() {
    let mut b = OrderBook::new("T".to_string());
    b.apply_delta(&OrderBookDelta { symbol: "T".to_string(), bids: vec![(d(10), 5)], asks: vec![], update_id: 1, timestamp: 10 });
    b.apply_delta(&OrderBookDelta { symbol: "T".to_string(), bids: vec![(d(10), 0)], asks: vec![], update_id: 2, timestamp: 20 });
    assert_eq!(b.bid_quantity(d(10)), None);
    b.apply_delta(&OrderBookDelta { symbol: "T".to_string(), bids: vec![(d(10), 9)], asks: vec![], update_id: 3, timestamp: 15 });
    assert_eq!(b.bid_quantity(d(10)), None);
    b.apply_delta(&OrderBookDelta { symbol: "X".to_string(), bids: vec![(d(10), 9)], asks: vec![], update_id: 4, timestamp: 30 });
    assert_eq!(b.bid_quantity(d(10)), None);
    assert_eq!(b.last_update_id, 2);
    assert_eq!(b.timestamp, 20);
}

#[test]
fn same_delta_twice_changes_nothing() {
    let delta = OrderBookDelta {
        symbol: "T".to_string(),
        bids: vec![(d(10), 5), (d(11), 0), (d(12), 3)],
        asks: vec![(d(13), 2)],
        update_id: 7,
        timestamp: 70,
    };
    let mut b = book_with(vec![(11, 4)], vec![]);
    b.apply_delta(&delta);
    let once = (b.get_bids(), b.get_asks(), b.last_update_id, b.timestamp);
    b.apply_delta(&delta);
    assert_eq!((b.get_bids(), b.get_asks(), b.last_update_id, b.timestamp), once);
}

#[test]
fn deltas_writing_the_same_levels_commute() {
    let a = OrderBookDelta { symbol: "T".to_string(), bids: vec![(d(10), 5)], asks: vec![(d(12), 1)], update_id: 1, timestamp: 1 };
    let b = OrderBookDelta { symbol: "T".to_string(), bids: vec![(d(10), 0)], asks: vec![(d(12), 7)], update_id: 2, timestamp: 2 };
    let mut x = OrderBook::new("T".to_string());
    x.apply_delta(&a);
    x.apply_delta(&b);
    let mut y = OrderBook::new("T".to_string());
    y.apply_delta(&b);
    y.apply_delta(&a);
    assert_eq!(x.get_bids(), y.get_bids());
    assert_eq!(x.get_asks(), y.get_asks());
    assert_eq!(x.get_asks(), vec![(d(12), 7)]);
    assert_eq!(x.timestamp, y.timestamp);
}

#[test]
fn snapshot_builds_the_book() {
    let s = OrderBookSnapshot { symbol: "T".to_string(), bids: vec![(d(5), 1), (d(5), 2)], asks: vec![(d(6), 0)], update_id: 9, timestamp: 90 };
    let b = OrderBook::from_snapshot(&s);
    assert_eq!(b.get_bids(), vec![(d(5), 2)]);
    assert_eq!(b.get_asks(), vec![]);
    assert_eq!(b.last_update_id, 9);
}

#[test]
fn fok_and_ioc_walk_the_opposite_side() {
    let b = book_with(vec![(98, 5), (99, 5)], vec![(101, 3), (102, 4), (104, 10)]);
    let mut buy = Order::new("T".to_string(), OrderSide::BUY, OrderType::LIMIT, 7, Some("102".to_string()), None, None, None);
    assert!(FOKStrategy::check(&buy, &b));
    assert_eq!(IOCStrategy::calculate_fillable_qty(&buy, &b), 7);
    buy.quantity = 8;
    assert!(!FOKStrategy::check(&buy, &b));
    assert_eq!(IOCStrategy::calculate_fillable_qty(&buy, &b), 7);
    let market = Order::new("T".to_string(), OrderSide::SELL, OrderType::MARKET, 12, None, None, None, None);
    assert!(!FOKStrategy::check(&market, &b));
    assert_eq!(IOCStrategy::calculate_fillable_qty(&market, &b), 10);
}

#[test]
fn execution_accounting_follows_the_position_rules() {
    let mut a = AccountState::new();
    a.rebuild(d(1000), d(0), vec![]);
    assert!(a.on_execution("X".to_string(), OrderSide::BUY, 10, d(10), d(1)));
    assert_eq!(a.balance, d(899));
    assert!(a.on_execution("X".to_string(), OrderSide::BUY, 10, d(20), d(0)));
    assert_eq!(a.get_position(&"X".to_string()).unwrap().average_price, d(15));
    assert!(a.on_execution("X".to_string(), OrderSide::SELL, 5, d(30), d(0)));
    let p = a.get_position(&"X".to_string()).unwrap();
    assert_eq!(p.quantity, 15);
    assert_eq!(p.average_price, d(15));
    assert_eq!(p.current_price, d(30));
    assert!(a.on_execution("X".to_string(), OrderSide::SELL, 20, d(40), d(0)));
    let p = a.get_position(&"X".to_string()).unwrap();
    assert_eq!(p.quantity, -5);
    assert_eq!(p.average_price, d(40));
    assert!(a.on_execution("X".to_string(), OrderSide::BUY, 5, d(40), d(0)));
    assert!(a.get_position(&"X".to_string()).is_none());
    assert_eq!(a.balance, d(899 - 200 + 150 + 800 - 200));
    assert!(!a.on_execution("X".to_string(), OrderSide::BUY, i64::MAX, d(40), d(0)));
    assert!(!a.on_execution("X".to_string(), OrderSide::SELL, i64::MIN, d(0), d(0)));
}

#[test]
fn zero_and_negative_executions_follow_the_signed_rule() {
    let mut a = AccountState::new();
    a.rebuild(d(1000), d(0), vec![]);
    assert!(a.on_execution("X".to_string(), OrderSide::BUY, 0, d(50), d(1)));
    assert_eq!(a.balance, d(999));
    assert_eq!(a.position_count(), 0);
    assert!(a.on_execution("X".to_string(), OrderSide::BUY, -5, d(10), d(0)));
    assert_eq!(a.balance, d(1049));
    assert_eq!(a.get_position(&"X".to_string()).unwrap().quantity, -5);
    assert!(a.on_execution("X".to_string(), OrderSide::SELL, -5, d(10), d(0)));
    assert!(a.get_position(&"X".to_string()).is_none());
    assert_eq!(a.balance, d(999));
}

#[test]
fn weighted_average_rounds_toward_zero() {
    let mut a = AccountState::new();
    assert!(a.on_execution("X".to_string(), OrderSide::BUY, 1, Decimal::from_units(1), d(0)));
    assert!(a.on_execution("X".to_string(), OrderSide::BUY, 2, Decimal::from_units(2), d(0)));
    assert_eq!(a.get_position(&"X".to_string()).unwrap().average_price, Decimal::from_units(1));
}

#[test]
fn account_positions_are_set_and_removed() {
    let mut a = AccountState::new();
    a.update_position("X".to_string(), 4, d(3));
    assert_eq!(a.position_count(), 1);
    assert_eq!(a.get_position(&"X".to_string()).unwrap().current_price, d(0));
    a.update_position("X".to_string(), 0, d(3));
    assert_eq!(a.position_count(), 0);
    a.rebuild(d(1), d(2), vec![Position::new("A".to_string(), 1, d(1), d(1)), Position::new("A".to_string(), 3, d(2), d(2)), Position::new("B".to_string(), 0, d(1), d(1))]);
    assert_eq!(a.position_count(), 1);
    assert_eq!(a.get_position(&"A".to_string()).unwrap().quantity, 3);
    assert_eq!(a.locked, d(2));
}

#[test]
fn unrealized_pnl_is_price_move_times_quantity() {
    let p = Position::new("X".to_string(), -3, d(100), d(90));
    assert_eq!(p.unrealized_pnl(), Some(d(30)));
    let big = Position::new("X".to_string(), i64::MAX, d(0), d(2));
    assert_eq!(big.unrealized_pnl(), None);
}

#[test]
fn order_invariant_is_kept() {
    let mut o = Order::new("T".to_string(), OrderSide::BUY, OrderType::LIMIT, 10, Some("1".to_string()), None, None, None);
    assert!(o.is_valid());
    o.update_state(OrderState::FILLED, None);
    assert_eq!(o.state, OrderState::CREATED);
    assert!(!o.record_fill(11, d(1)));
    assert!(o.record_fill(4, d(2)));
    assert!(o.record_fill(6, d(3)));
    assert_eq!(o.state, OrderState::FILLED);
    assert_eq!(o.filled_quantity, 10);
    assert_eq!(o.average_fill_price, Decimal::from_units(2_600_000));
    o.update_state(OrderState::CANCELED, Some("late".to_string()));
    assert_eq!(o.state, OrderState::FILLED);
    assert_eq!(o.error_message, None);
    assert!(o.is_valid());
}

#[test]
fn order_text_prices_are_parsed() {
    let o = Order::new("T".to_string(), OrderSide::SELL, OrderType::LIMIT, 1, Some("12.5".to_string()), None, None, Some("x".to_string()));
    assert_eq!(o.price, Some(Decimal::from_units(12_500_000)));
    assert_eq!(o.stop_price, None);
}

#[test]
fn stop_fires_once_and_places_the_rest() {
    let mut s = StopStrategy::new("o".to_string(), "T".to_string(), OrderSide::SELL, 10, OrderSide::SELL, d(100), 0, None);
    let high = book_with(vec![], vec![(101, 1)]);
    assert!(matches!(s.on_order_book_update(&high, 0), StrategyAction::NoAction));
    let low = book_with(vec![], vec![(100, 1)]);
    assert!(matches!(s.on_order_book_update(&low, 0), StrategyAction::CancelOrder(ref id) if id == "o"));
    assert!(matches!(s.on_order_book_update(&low, 0), StrategyAction::NoAction));
    let mut o = Order::new("T".to_string(), OrderSide::SELL, OrderType::LIMIT, 10, None, None, None, None);
    o.order_id = Some("o".to_string());
    assert!(o.record_fill(3, d(1)));
    o.update_state(OrderState::CANCELED, None);
    match s.on_order_status_update(&o) {
        StrategyAction::PlaceOrder(n) => {
            assert_eq!(n.quantity, 7);
            assert_eq!(n.order_type, OrderType::MARKET);
            assert_eq!(n.side, OrderSide::SELL);
        },
        _ => panic!("expected a placement"),
    }
    assert!(s.finished);
}

#[test]
fn stop_time_trigger_fires_on_timer() {
    let mut s = StopStrategy::new("o".to_string(), "T".to_string(), OrderSide::BUY, 1, OrderSide::BUY, d(100), 5000, Some(d(1)));
    assert!(matches!(s.on_timer(4999), StrategyAction::NoAction));
    assert!(matches!(s.on_timer(5000), StrategyAction::CancelOrder(_)));
}

#[test]
fn chain_needs_the_trigger_before_placing() {
    let chained = Order::new("U".to_string(), OrderSide::BUY, OrderType::LIMIT, 2, Some("5".to_string()), None, None, None);
    let mut c = ChainStrategy::new("o".to_string(), OrderSide::BUY, d(10), 0, chained);
    assert!(matches!(c.on_order_status_update(&"o".to_string(), OrderState::CANCELED), StrategyAction::NoAction));
    let b = book_with(vec![(10, 1)], vec![]);
    assert!(matches!(c.on_order_book_update(&b, 0), StrategyAction::CancelOrder(_)));
    match c.on_order_status_update(&"o".to_string(), OrderState::CANCELED) {
        StrategyAction::PlaceOrder(n) => {
            assert_eq!(n.symbol, "U");
            assert_eq!(n.quantity, 2);
            assert_eq!(n.state, OrderState::CREATED);
        },
        _ => panic!("expected a placement"),
    }
    assert!(matches!(c.on_order_status_update(&"o".to_string(), OrderState::CANCELED), StrategyAction::NoAction));
}

#[test]
fn vwap_slices_and_rolls_over() {
    let mut v = VWAPStrategy::starting_at("T".to_string(), OrderSide::BUY, None, 100, 1000, 4000, 0);
    assert_eq!(v.slice_size(0), 25);
    let mut b = book_with(vec![(99, 1)], vec![(100, 5)]);
    b.timestamp = 500;
    assert!(matches!(v.on_order_book_update(&b), StrategyAction::NoAction));
    b.timestamp = 1000;
    let first = match v.on_order_book_update(&b) {
        StrategyAction::PlaceOrder(o) => o,
        _ => panic!("expected a slice"),
    };
    // 4 intervals in the window, 1 gone: 100 over 3, rounded up
    assert_eq!(first.quantity, 34);
    assert_eq!(first.price, Some(Decimal::from_units(100_100_000)));
    b.timestamp = 2000;
    assert!(matches!(v.on_order_book_update(&b), StrategyAction::CancelOrder(_)));
    let mut done = first;
    assert!(done.record_fill(10, d(100)));
    done.update_state(OrderState::CANCELED, None);
    v.on_order_status_update(&done);
    assert_eq!(v.remaining_volume, 90);
    assert!(v.current_slice_order_id.is_none());
}

#[test]
fn vwap_price_is_capped_by_the_limit() {
    let mut v = VWAPStrategy::starting_at("T".to_string(), OrderSide::SELL, Some(d(99)), 10, 1000, 1000, 0);
    let mut b = book_with(vec![(99, 1)], vec![]);
    b.timestamp = 1000;
    match v.on_order_book_update(&b) {
        StrategyAction::PlaceOrder(o) => {
            assert_eq!(o.price, Some(d(99)));
            assert_eq!(o.quantity, 10);
        },
        _ => panic!("expected a slice"),
    }
}

#[test]
fn logger_config_default() {
    let c = LoggerConfig::default();
    assert_eq!(c.flush_interval_seconds, 60);
    assert_eq!(c.batch_size, 100);
    assert!(matches!(c.destination, LogDestinationInfo::LocalFile { ref path } if path == "logs/trade.log"));
}

#[test]
fn books_compare_by_symbol_and_levels() {
    let a = book_with(vec![(9, 1)], vec![(11, 2)]);
    let mut b = book_with(vec![(9, 1)], vec![(11, 2)]);
    b.timestamp = 99;
    assert!(a == b);
    let c = book_with(vec![(9, 2)], vec![(11, 2)]);
    assert!(a != c);
    let mut d = OrderBook::new("U".to_string());
    d.rebuild(vec![(Decimal::from_int(9), 1)], vec![(Decimal::from_int(11), 2)], 1, 1);
    assert!(a != d);
}

#[test]
fn plain_decimal_texts_read_digit_by_digit() {
    assert_eq!(parse_decimal("5."), Some(d(5)));
    assert_eq!(parse_decimal(".5"), Some(Decimal::from_units(500_000)));
    assert_eq!(parse_decimal("+7"), Some(d(7)));
    assert_eq!(parse_decimal("-0.50"), Some(Decimal::from_units(-500_000)));
    assert_eq!(parse_decimal("007"), Some(d(7)));
    assert_eq!(parse_decimal("-"), None);
    assert_eq!(parse_decimal("."), None);
}
