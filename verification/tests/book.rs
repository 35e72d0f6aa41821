use limit_order_book::limit_order_book::LimitOrderBook;
use limit_order_book::order::{Action, Data, LevelChange};
use limit_order_book::price::PriceLevel;

fn entry(action: Action, ticks: u64, quantity: u64) -> LevelChange {
    LevelChange { action, price: PriceLevel::from_ticks(ticks), quantity }
}

fn record(change_id: i64, prev: Option<i64>, bids: Vec<LevelChange>, asks: Vec<LevelChange>) -> Data {
    Data {
        order_type: String::from("change"),
        timestamp: 0,
        prev_change_id: prev,
        instrument_name: String::from("BTC-PERPETUAL"),
        change_id,
        bids,
        asks,
    }
}

#[test]
fn new_action_adds_single_entry() {
    let mut book = LimitOrderBook::new();
    book.add_orders(record(1, None, vec![entry(Action::New, 10_000, 5)], vec![]));
    assert_eq!(book.bid_quantity(PriceLevel::from_ticks(10_000)), Some(5));
    assert_eq!(book.bid_depth(), 1);
    assert_eq!(book.get_best_bid(), Some((PriceLevel::from_ticks(10_000), 5)));
}

#[test]
fn change_action_overwrites_without_duplicate() {
    let mut book = LimitOrderBook::new();
    book.add_orders(record(1, None, vec![entry(Action::New, 10_000, 5)], vec![]));
    book.add_orders(record(2, None, vec![entry(Action::Change, 10_000, 9)], vec![]));
    assert_eq!(book.bid_quantity(PriceLevel::from_ticks(10_000)), Some(9));
    assert_eq!(book.bid_depth(), 1);
}

#[test]
fn delete_action_removes_entry() {
    let mut book = LimitOrderBook::new();
    book.add_orders(record(1, None, vec![entry(Action::New, 10_000, 5)], vec![]));
    book.add_orders(record(2, None, vec![entry(Action::Delete, 10_000, 0)], vec![]));
    assert_eq!(book.bid_quantity(PriceLevel::from_ticks(10_000)), None);
    assert_eq!(book.bid_depth(), 0);
    assert_eq!(book.get_best_bid(), None);
}

#[test]
fn delete_of_absent_price_is_a_no_op() {
    let mut book = LimitOrderBook::new();
    book.add_orders(record(1, None, vec![entry(Action::New, 10_000, 5)], vec![]));
    book.add_orders(record(2, None, vec![entry(Action::Delete, 77_777, 0)], vec![]));
    assert_eq!(book.bid_quantity(PriceLevel::from_ticks(10_000)), Some(5));
    assert_eq!(book.bid_depth(), 1);
}

#[test]
fn applying_same_new_twice_equals_once() {
    let mut once = LimitOrderBook::new();
    once.add_orders(record(1, None, vec![entry(Action::New, 10_000, 5)], vec![]));
    let mut twice = LimitOrderBook::new();
    twice.add_orders(record(1, None, vec![entry(Action::New, 10_000, 5)], vec![]));
    twice.add_orders(record(2, None, vec![entry(Action::New, 10_000, 5)], vec![]));
    assert_eq!(once.bid_depth(), twice.bid_depth());
    assert_eq!(
        once.bid_quantity(PriceLevel::from_ticks(10_000)),
        twice.bid_quantity(PriceLevel::from_ticks(10_000))
    );
    assert_eq!(once.get_best_bid(), twice.get_best_bid());
}

#[test]
fn best_bid_is_highest_and_best_ask_is_lowest() {
    let mut book = LimitOrderBook::new();
    book.add_orders(record(
        1,
        None,
        vec![
            entry(Action::New, 1_000, 1),
            entry(Action::New, 1_005, 2),
            entry(Action::New, 999, 3),
        ],
        vec![entry(Action::New, 10_100, 1), entry(Action::New, 10_050, 2)],
    ));
    assert_eq!(book.get_best_bid(), Some((PriceLevel::new(10, 5), 2)));
    assert_eq!(book.get_best_ask(), Some((PriceLevel::new(100, 50), 2)));
}

#[test]
fn fresh_engine_reports_both_sides_absent() {
    let book = LimitOrderBook::new();
    assert_eq!(book.get_best_bid(), None);
    assert_eq!(book.get_best_ask(), None);
    assert_eq!(book.bid_depth(), 0);
    assert_eq!(book.ask_depth(), 0);
}

#[test]
fn asks_are_kept_apart_from_bids() {
    let mut book = LimitOrderBook::new();
    book.add_orders(record(
        1,
        None,
        vec![entry(Action::New, 10_000, 5)],
        vec![entry(Action::New, 10_000, 3)],
    ));
    // A delete on the ask side must not touch the bid entry at the same price.
    book.add_orders(record(2, None, vec![], vec![entry(Action::Delete, 10_000, 0)]));
    assert_eq!(book.bid_quantity(PriceLevel::from_ticks(10_000)), Some(5));
    assert_eq!(book.ask_quantity(PriceLevel::from_ticks(10_000)), None);
}

#[test]
fn crossed_book_is_observable() {
    let mut book = LimitOrderBook::new();
    book.add_orders(record(
        1,
        None,
        vec![entry(Action::New, 10_100, 1)],
        vec![entry(Action::New, 10_000, 1)],
    ));
    assert!(book.is_crossed());
    let mut sane = LimitOrderBook::new();
    sane.add_orders(record(
        1,
        None,
        vec![entry(Action::New, 10_000, 1)],
        vec![entry(Action::New, 10_100, 1)],
    ));
    assert!(!sane.is_crossed());
    assert!(!LimitOrderBook::new().is_crossed());
}

#[test]
fn record_getters_hand_back_the_fields() {
    let rec = record(
        42,
        Some(41),
        vec![entry(Action::New, 10_000, 5)],
        vec![entry(Action::Delete, 10_100, 0)],
    );
    assert_eq!(rec.get_change_id(), 42);
    assert_eq!(rec.get_prev_change_id(), Some(41));
    assert_eq!(rec.get_bids().len(), 1);
    assert_eq!(rec.get_asks().len(), 1);
    assert_eq!(rec.get_bids()[0].price, PriceLevel::from_ticks(10_000));
    assert!(matches!(rec.get_asks()[0].action, Action::Delete));
}
