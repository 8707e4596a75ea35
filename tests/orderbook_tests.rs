use didius::decimal::Decimal;
use didius::order_book::{OrderBook, OrderBookDelta};
use rand::seq::SliceRandom;
use rand::thread_rng;

#[test]
fn test_orderbook_sequential_add() {
    let mut book = OrderBook::new("TEST".to_string());
    let prices = vec![
        Decimal::from_int(100),
        Decimal::from_int(101),
        Decimal::from_int(102),
        Decimal::from_int(103),
        Decimal::from_int(104),
    ];

    for _ in 0..10 {
        for &p in &prices {
            // deltas carry absolute quantities: read the level, add one, write it back
            let current_qty = book.bid_quantity(p).unwrap_or(0);
            let new_qty = current_qty + 1;

            let delta = OrderBookDelta {
                symbol: "TEST".to_string(),
                bids: vec![(p, new_qty)],
                asks: vec![],
                update_id: 1,
                timestamp: 100_000,
            };
            book.apply_delta(&delta);
        }
    }

    for &p in &prices {
        assert_eq!(book.bid_quantity(p).unwrap(), 10);
    }
}

#[test]
fn test_orderbook_random_shuffle() {
    let mut book1 = OrderBook::new("TEST".to_string());
    let mut book2 = OrderBook::new("TEST".to_string());

    let mut deltas = Vec::new();
    for i in 1..=20i64 {
        deltas.push(OrderBookDelta {
            symbol: "TEST".to_string(),
            bids: vec![(Decimal::from_int(100), i)],
            asks: vec![],
            update_id: i,
            timestamp: i * 1000,
        });
    }

    for d in &deltas {
        book1.apply_delta(d);
    }

    let mut rng = thread_rng();
    let mut shuffled = deltas.clone();
    shuffled.shuffle(&mut rng);
    for d in &shuffled {
        book2.apply_delta(d);
    }

    assert_eq!(book1.bid_quantity(Decimal::from_int(100)), Some(20));
    assert_eq!(book2.bid_quantity(Decimal::from_int(100)), Some(20));
}

#[test]
fn test_orderbook_validate_fail() {
    let mut book = OrderBook::new("TEST".to_string());

    book.apply_delta(&OrderBookDelta {
        symbol: "TEST".to_string(),
        bids: vec![(Decimal::from_int(100), 10)],
        asks: vec![(Decimal::from_int(101), 10)],
        update_id: 1,
        timestamp: 1000,
    });
    assert!(book.validate());

    book.apply_delta(&OrderBookDelta {
        symbol: "TEST".to_string(),
        bids: vec![(Decimal::from_int(102), 10)],
        asks: vec![],
        update_id: 2,
        timestamp: 2000,
    });

    assert!(!book.validate());
}
