use whim::decimal::Decimal;
use whim::feed::message::{
    BaseCurrencyAmount, OrderBookSnapshot, OrderBookUpdate, Product, QuoteCurrencyPrice, Side,
};
use whim::order_book::{OrderBook, ProductMismatch};

fn price(s: &str) -> QuoteCurrencyPrice {
    QuoteCurrencyPrice(Decimal::parse(s).unwrap())
}

fn size(s: &str) -> BaseCurrencyAmount {
    BaseCurrencyAmount(Decimal::parse(s).unwrap())
}

fn snapshot() -> OrderBookSnapshot {
    OrderBookSnapshot {
        product_id: Product::BtcUsd,
        bids: vec![(price("100.0"), size("5.0"))],
        asks: vec![(price("101.0"), size("2.0")), (price("102.5"), size("1.0"))],
    }
}

#[test]
fn snapshot_builds_both_sides() {
    let book = OrderBook::from_snapshot(&snapshot());
    assert_eq!(book.product_id(), Product::BtcUsd);
    assert_eq!(book.bid_count(), 1);
    assert_eq!(book.ask_count(), 2);
    assert_eq!(book.bid(&price("100.")), Some(size("5.0")));
    assert_eq!(book.ask(&price("102.50")), Some(size("1.0")));
    assert_eq!(book.bid(&price("101.0")), None);
}

#[test]
fn later_duplicate_in_snapshot_wins() {
    let snap = OrderBookSnapshot {
        product_id: Product::EthUsd,
        bids: vec![(price("10.0"), size("1.0")), (price("10.00"), size("3.0"))],
        asks: vec![],
    };
    let book = OrderBook::from_snapshot(&snap);
    assert_eq!(book.bid_count(), 1);
    assert_eq!(book.bid(&price("10.")), Some(size("3.0")));
    assert_eq!(book.ask_count(), 0);
}

#[test]
fn zero_size_update_keeps_level() {
    let mut book = OrderBook::from_snapshot(&snapshot());
    let update = OrderBookUpdate {
        product_id: Product::BtcUsd,
        changes: vec![(Side::Buy, price("100.0"), size("0.0"))],
    };
    assert_eq!(book.update(&update), Ok(()));
    assert_eq!(book.bid_count(), 1);
    assert_eq!(book.bid(&price("100.0")), Some(size("0.0")));
}

#[test]
fn update_changes_in_order() {
    let mut book = OrderBook::from_snapshot(&snapshot());
    let update = OrderBookUpdate {
        product_id: Product::BtcUsd,
        changes: vec![
            (Side::Sell, price("103.0"), size("4.0")),
            (Side::Buy, price("99.5"), size("1.0")),
            (Side::Sell, price("103.0"), size("6.0")),
        ],
    };
    assert_eq!(book.update(&update), Ok(()));
    assert_eq!(book.ask(&price("103.")), Some(size("6.0")));
    assert_eq!(book.ask_count(), 3);
    assert_eq!(book.bid(&price("99.5")), Some(size("1.0")));
    assert_eq!(book.bid_count(), 2);
}

#[test]
fn update_for_other_product_is_refused() {
    let mut book = OrderBook::from_snapshot(&snapshot());
    let update = OrderBookUpdate {
        product_id: Product::LtcUsd,
        changes: vec![(Side::Buy, price("100.0"), size("0.0"))],
    };
    assert_eq!(
        book.update(&update),
        Err(ProductMismatch { book: Product::BtcUsd, update: Product::LtcUsd })
    );
    assert_eq!(book.bid(&price("100.0")), Some(size("5.0")));
}
