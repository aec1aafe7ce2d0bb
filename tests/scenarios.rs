use orderbook::book::{
    side_from_label, Book, L2UpdateData, PriceData, PriceDataWithSide, Side, SnapshotData,
};
use orderbook::decimal::parse_decimal;
use orderbook::feed::{
    classify, handle_message, handle_text, kind_from_label, message_from_text, FeedError, FeedEvent,
    FeedMessage, MessageKind,
};

const UNIT: u64 = 100_000_000;

fn level(price: u64, size: u64) -> PriceData {
    PriceData { price, size }
}

fn change(side: &str, price: u64, size: u64) -> PriceDataWithSide {
    PriceDataWithSide { side: side.to_owned(), price, size }
}

fn update(changes: Vec<PriceDataWithSide>) -> L2UpdateData {
    L2UpdateData { product_id: "BTC-USD".to_owned(), changes }
}

fn small_book() -> Book {
    let mut book = Book::new();
    book.UpdateFullBook(SnapshotData {
        product_id: "BTC-USD".to_owned(),
        bids: vec![level(100 * UNIT, UNIT)],
        asks: vec![level(101 * UNIT, 2 * UNIT)],
    });
    book
}

fn rows(cells: &[&[&str]]) -> Vec<Vec<String>> {
    cells.iter().map(|r| r.iter().map(|c| c.to_string()).collect()).collect()
}

#[test]
fn snapshot_gives_best_levels_mid_and_spread() {
    let book = small_book();
    assert_eq!(book.BestBidPrice(), Some((100 * UNIT, UNIT)));
    assert_eq!(book.BestAskPrice(), Some((101 * UNIT, 2 * UNIT)));
    assert_eq!(book.MidPrice(), Some(10_050_000_000));
    // (101 - 100) / 101 = 0.00990099...
    assert_eq!(book.BidAskSpread(), Some(990_099));
}

#[test]
fn zero_size_change_empties_bid_side() {
    let mut book = small_book();
    assert_eq!(book.UpdateBook(update(vec![change("buy", 100 * UNIT, 0)])), 0);
    assert_eq!(book.BestBidPrice(), None);
    assert_eq!(book.MidPrice(), None);
    assert_eq!(book.BidAskSpread(), None);
}

#[test]
fn change_overwrites_size() {
    let mut book = small_book();
    book.UpdateBook(update(vec![change("sell", 101 * UNIT, 350_000_000)]));
    assert_eq!(book.BestAskPrice(), Some((101 * UNIT, 350_000_000)));
    assert_eq!(book.level_count(Side::Ask), 1);
}

#[test]
fn other_instrument_is_rejected_and_book_kept() {
    let mut book = small_book();
    let msg = FeedMessage {
        kind: Some("l2update".to_owned()),
        product_id: Some("ETH-USD".to_owned()),
        bids: None,
        asks: None,
        changes: Some(rows(&[&["buy", "100.00", "0.0"]])),
    };
    assert_eq!(handle_message(&mut book, &msg, "BTC-USD"), Err(FeedError::InstrumentMismatch));
    assert_eq!(book.BestBidPrice(), Some((100 * UNIT, UNIT)));
    assert_eq!(book.BestAskPrice(), Some((101 * UNIT, 2 * UNIT)));
}

#[test]
fn missing_instrument_is_rejected() {
    let mut book = small_book();
    let msg = FeedMessage {
        kind: Some("snapshot".to_owned()),
        product_id: None,
        bids: Some(vec![]),
        asks: Some(vec![]),
        changes: None,
    };
    assert_eq!(handle_message(&mut book, &msg, "BTC-USD"), Err(FeedError::InstrumentMismatch));
    assert_eq!(book.level_count(Side::Bid), 1);
}

#[test]
fn malformed_number_drops_whole_message() {
    let mut book = small_book();
    let msg = FeedMessage {
        kind: Some("l2update".to_owned()),
        product_id: Some("BTC-USD".to_owned()),
        bids: None,
        asks: None,
        changes: Some(rows(&[&["buy", "99.00", "1.0"], &["sell", "1O2.00", "1.0"]])),
    };
    assert_eq!(handle_message(&mut book, &msg, "BTC-USD"), Err(FeedError::Decode));
    assert_eq!(book.size_at(Side::Bid, 99 * UNIT), None);
    assert_eq!(book.level_count(Side::Bid), 1);
}

#[test]
fn wrong_row_shape_and_missing_field_are_decode_errors() {
    let mut book = small_book();
    let short_row = FeedMessage {
        kind: Some("snapshot".to_owned()),
        product_id: Some("BTC-USD".to_owned()),
        bids: Some(rows(&[&["99.00"]])),
        asks: Some(vec![]),
        changes: None,
    };
    assert_eq!(handle_message(&mut book, &short_row, "BTC-USD"), Err(FeedError::Decode));
    let no_asks = FeedMessage {
        kind: Some("snapshot".to_owned()),
        product_id: Some("BTC-USD".to_owned()),
        bids: Some(vec![]),
        asks: None,
        changes: None,
    };
    assert_eq!(handle_message(&mut book, &no_asks, "BTC-USD"), Err(FeedError::Decode));
    assert_eq!(book.BestAskPrice(), Some((101 * UNIT, 2 * UNIT)));
}

#[test]
fn acknowledgement_and_unknown_kinds_change_nothing() {
    let mut book = small_book();
    let ack = FeedMessage {
        kind: Some("subscriptions".to_owned()),
        product_id: None,
        bids: None,
        asks: None,
        changes: None,
    };
    assert!(matches!(classify(&ack, "BTC-USD"), Ok(FeedEvent::SubscriptionAck)));
    assert_eq!(handle_message(&mut book, &ack, "BTC-USD"), Ok(0));
    let other = FeedMessage {
        kind: Some("heartbeat".to_owned()),
        product_id: Some("BTC-USD".to_owned()),
        bids: None,
        asks: None,
        changes: None,
    };
    assert!(matches!(classify(&other, "BTC-USD"), Ok(FeedEvent::Unrecognized)));
    assert_eq!(handle_message(&mut book, &other, "BTC-USD"), Ok(0));
    let untyped = FeedMessage { kind: None, product_id: None, bids: None, asks: None, changes: None };
    assert!(matches!(classify(&untyped, "BTC-USD"), Ok(FeedEvent::Unrecognized)));
    assert_eq!(book.BestBidPrice(), Some((100 * UNIT, UNIT)));
}

#[test]
fn snapshot_message_replaces_book() {
    let mut book = small_book();
    let msg = FeedMessage {
        kind: Some("snapshot".to_owned()),
        product_id: Some("BTC-USD".to_owned()),
        bids: Some(rows(&[&["10101.10", "0.45054140"]])),
        asks: Some(rows(&[&["10102.55", "0.57753524"]])),
        changes: None,
    };
    assert_eq!(handle_message(&mut book, &msg, "BTC-USD"), Ok(0));
    assert_eq!(book.BestBidPrice(), Some((1_010_110_000_000, 45_054_140)));
    assert_eq!(book.BestAskPrice(), Some((1_010_255_000_000, 57_753_524)));
    assert_eq!(book.level_count(Side::Bid), 1);
}

#[test]
fn unknown_side_label_skips_only_that_entry() {
    let mut book = small_book();
    let msg = FeedMessage {
        kind: Some("l2update".to_owned()),
        product_id: Some("BTC-USD".to_owned()),
        bids: None,
        asks: None,
        changes: Some(rows(&[
            &["hold", "99.00", "1.0"],
            &["buy", "99.50", "2.0"],
            &["sell", "102.00", "3.0"],
        ])),
    };
    assert_eq!(handle_message(&mut book, &msg, "BTC-USD"), Ok(1));
    assert_eq!(book.size_at(Side::Bid, 99 * UNIT), None);
    assert_eq!(book.size_at(Side::Bid, 9_950_000_000), Some(2 * UNIT));
    assert_eq!(book.size_at(Side::Ask, 102 * UNIT), Some(3 * UNIT));
}

#[test]
fn batch_equals_one_at_a_time() {
    let changes = vec![
        change("buy", 99 * UNIT, UNIT),
        change("sell", 102 * UNIT, UNIT),
        change("buy", 99 * UNIT, 3 * UNIT),
        change("buy", 100 * UNIT, 0),
        change("sell", 101 * UNIT, 5 * UNIT),
    ];
    let mut batched = small_book();
    batched.UpdateBook(update(changes.clone()));
    let mut single = small_book();
    for c in changes {
        single.UpdateBook(update(vec![c]));
    }
    assert_eq!(batched.dump(), single.dump());
    let (bids, asks) = batched.dump();
    assert_eq!(bids, vec![level(99 * UNIT, 3 * UNIT)]);
    assert_eq!(asks, vec![level(101 * UNIT, 5 * UNIT), level(102 * UNIT, UNIT)]);
}

#[test]
fn same_change_twice_equals_once() {
    let mut once = small_book();
    once.UpdateBook(update(vec![change("buy", 98 * UNIT, 7 * UNIT)]));
    let mut twice = small_book();
    twice.UpdateBook(update(vec![change("buy", 98 * UNIT, 7 * UNIT), change("buy", 98 * UNIT, 7 * UNIT)]));
    assert_eq!(once.dump(), twice.dump());
    assert_eq!(twice.size_at(Side::Bid, 98 * UNIT), Some(7 * UNIT));
}

#[test]
fn dump_orders_sides_and_keeps_last_write() {
    let mut book = Book::new();
    book.UpdateFullBook(SnapshotData {
        product_id: "BTC-USD".to_owned(),
        bids: vec![level(5, 1), level(9, 2), level(7, 3), level(9, 4)],
        asks: vec![level(20, 1), level(11, 0), level(15, 6), level(11, 8)],
    });
    let (bids, asks) = book.dump();
    assert_eq!(bids, vec![level(9, 4), level(7, 3), level(5, 1)]);
    assert_eq!(asks, vec![level(11, 8), level(15, 6), level(20, 1)]);
}

#[test]
fn snapshot_keeps_zero_sizes_verbatim() {
    let mut book = Book::new();
    book.UpdateFullBook(SnapshotData {
        product_id: "BTC-USD".to_owned(),
        bids: vec![level(5, 0)],
        asks: vec![],
    });
    assert_eq!(book.BestBidPrice(), Some((5, 0)));
    assert_eq!(book.BestAskPrice(), None);
}

#[test]
fn zero_size_at_absent_price_is_noop() {
    let mut book = small_book();
    let before = book.dump();
    assert_eq!(book.UpdateBook(update(vec![change("buy", 42 * UNIT, 0), change("sell", 43 * UNIT, 0)])), 0);
    assert_eq!(book.dump(), before);
}

#[test]
fn crossed_book_has_no_mid_or_spread() {
    let mut book = Book::new();
    book.UpdateFullBook(SnapshotData {
        product_id: "BTC-USD".to_owned(),
        bids: vec![level(102 * UNIT, UNIT)],
        asks: vec![level(101 * UNIT, UNIT)],
    });
    assert_eq!(book.MidPrice(), None);
    assert_eq!(book.BidAskSpread(), None);
    book.apply_change(Side::Bid, 102 * UNIT, 0);
    book.apply_change(Side::Bid, 101 * UNIT, UNIT);
    assert_eq!(book.MidPrice(), Some(101 * UNIT));
    assert_eq!(book.BidAskSpread(), Some(0));
}

#[test]
fn empty_book_has_nothing() {
    let book = Book::new();
    assert_eq!(book.BestBidPrice(), None);
    assert_eq!(book.BestAskPrice(), None);
    assert_eq!(book.MidPrice(), None);
    assert_eq!(book.BidAskSpread(), None);
    assert_eq!(book.dump(), (vec![], vec![]));
}

#[test]
fn zero_ask_price_has_mid_but_no_spread() {
    let mut book = Book::new();
    book.apply_change(Side::Bid, 0, UNIT);
    book.apply_change(Side::Ask, 0, UNIT);
    assert_eq!(book.MidPrice(), Some(0));
    assert_eq!(book.BidAskSpread(), None);
}

#[test]
fn mid_price_rounds_down_and_does_not_overflow() {
    let mut book = Book::new();
    book.apply_change(Side::Bid, u64::MAX - 1, 1);
    book.apply_change(Side::Ask, u64::MAX, 1);
    assert_eq!(book.MidPrice(), Some(u64::MAX - 1));
    assert_eq!(book.BidAskSpread(), Some(0));
}

#[test]
fn best_levels_pick_extremes() {
    let mut book = Book::new();
    for p in [30u64, 10, 50, 20] {
        book.apply_change(Side::Bid, p, p + 1);
        book.apply_change(Side::Ask, p + 100, p + 2);
    }
    assert_eq!(book.BestBidPrice(), Some((50, 51)));
    assert_eq!(book.BestAskPrice(), Some((110, 12)));
}

#[test]
fn decimals_parse_to_units() {
    assert_eq!(parse_decimal("93811.50"), Some(9_381_150_000_000));
    assert_eq!(parse_decimal("27"), Some(27 * UNIT));
    assert_eq!(parse_decimal("0.00000001"), Some(1));
    assert_eq!(parse_decimal("22356.270000"), Some(2_235_627_000_000));
    assert_eq!(parse_decimal("0"), Some(0));
    assert_eq!(parse_decimal("184467440737.09551615"), Some(u64::MAX));
}

#[test]
fn malformed_decimals_are_rejected() {
    assert_eq!(parse_decimal(""), None);
    assert_eq!(parse_decimal(".5"), None);
    assert_eq!(parse_decimal("5."), None);
    assert_eq!(parse_decimal("1.123456789"), None);
    assert_eq!(parse_decimal("1.2.3"), None);
    assert_eq!(parse_decimal("-1"), None);
    assert_eq!(parse_decimal("1e5"), None);
    assert_eq!(parse_decimal("184467440737.09551616"), None);
    assert_eq!(parse_decimal("99999999999999999999999"), None);
}

#[test]
fn labels_are_read() {
    assert_eq!(side_from_label("buy"), Some(Side::Bid));
    assert_eq!(side_from_label("sell"), Some(Side::Ask));
    assert_eq!(side_from_label("Buy"), None);
    assert_eq!(side_from_label(""), None);
    assert_eq!(kind_from_label("snapshot"), MessageKind::Snapshot);
    assert_eq!(kind_from_label("l2update"), MessageKind::L2Update);
    assert_eq!(kind_from_label("subscriptions"), MessageKind::Subscriptions);
    assert_eq!(kind_from_label("ticker"), MessageKind::Other);
}

#[test]
fn json_text_is_read_and_applied() {
    let mut book = small_book();
    let text = r#"{"type":"l2update","product_id":"BTC-USD","changes":[["buy","99.00","2.5"],["sell","101.00","0"]],"time":"2022-08-04T15:25:05.010758Z"}"#;
    assert_eq!(handle_text(&mut book, text, "BTC-USD"), Ok(0));
    assert_eq!(book.BestBidPrice(), Some((100 * UNIT, UNIT)));
    assert_eq!(book.size_at(Side::Bid, 99 * UNIT), Some(250_000_000));
    assert_eq!(book.BestAskPrice(), None);
}

#[test]
fn json_fields_are_read_by_shape() {
    let msg = message_from_text(r#"{"type":"snapshot","product_id":7,"bids":[["1.0","2.0"]],"asks":[[1,2]]}"#);
    assert_eq!(msg.kind, Some("snapshot".to_owned()));
    assert_eq!(msg.product_id, None);
    assert_eq!(msg.bids, Some(rows(&[&["1.0", "2.0"]])));
    assert_eq!(msg.asks, None);
    assert_eq!(msg.changes, None);
}

#[test]
fn json_with_numbers_or_wrong_instrument_is_dropped() {
    let mut book = small_book();
    let numbers = r#"{"type":"snapshot","product_id":"BTC-USD","bids":[[1,2]],"asks":[]}"#;
    assert_eq!(handle_text(&mut book, numbers, "BTC-USD"), Err(FeedError::Decode));
    let other = r#"{"type":"snapshot","product_id":"ETH-USD","bids":[],"asks":[]}"#;
    assert_eq!(handle_text(&mut book, other, "BTC-USD"), Err(FeedError::InstrumentMismatch));
    assert_eq!(handle_text(&mut book, "not json", "BTC-USD"), Ok(0));
    assert_eq!(book.BestBidPrice(), Some((100 * UNIT, UNIT)));
    assert_eq!(book.BestAskPrice(), Some((101 * UNIT, 2 * UNIT)));
}
