use limit_order_book::feed::{is_book_message, FeedOutcome, FeedSession, QuoteOutcome, QuoteTracker};
use limit_order_book::order::{Action, Data, LevelChange};
use limit_order_book::price::PriceLevel;

fn entry(action: Action, ticks: u64, quantity: u64) -> LevelChange {
    LevelChange { action, price: PriceLevel::from_ticks(ticks), quantity }
}

fn record(change_id: i64, prev: Option<i64>, bids: Vec<LevelChange>, asks: Vec<LevelChange>) -> Data {
    Data {
        order_type: String::from("change"),
        timestamp: 0,
        prev_change_id: prev,
        instrument_name: String::from("BTC-PERPETUAL"),
        change_id,
        bids,
        asks,
    }
}

#[test]
fn only_messages_naming_a_change_id_are_book_data() {
    assert!(is_book_message(
        r#"{"params":{"data":{"type":"snapshot","change_id":1,"bids":[],"asks":[]}}}"#
    ));
    assert!(is_book_message("change_id"));
    assert!(!is_book_message(r#"{"method":"heartbeat","params":{"type":"test_request"}}"#));
    assert!(!is_book_message(""));
    assert!(!is_book_message("change_i"));
    assert!(!is_book_message("CHANGE_ID"));
}

#[test]
fn matching_predecessor_is_applied() {
    let mut session = FeedSession::new();
    let first = session.process(record(5, None, vec![entry(Action::New, 10_000, 5)], vec![]));
    assert!(matches!(first, FeedOutcome::Applied { .. }));
    let second = session.process(record(6, Some(5), vec![entry(Action::Change, 10_000, 7)], vec![]));
    match second {
        FeedOutcome::Applied { best_bid, best_ask } => {
            assert_eq!(best_bid, Some((PriceLevel::from_ticks(10_000), 7)));
            assert_eq!(best_ask, None);
        }
        FeedOutcome::Gap => panic!("continuous record must not gap"),
    }
}

#[test]
fn mismatched_predecessor_gaps_and_is_not_applied() {
    let mut session = FeedSession::new();
    let first = session.process(record(5, None, vec![entry(Action::New, 10_000, 5)], vec![]));
    assert!(matches!(first, FeedOutcome::Applied { .. }));
    let gapped = session.process(record(8, Some(7), vec![entry(Action::New, 10_100, 9)], vec![]));
    assert!(matches!(gapped, FeedOutcome::Gap));
    // The rejected record did not touch the book.
    let (best_bid, _) = session.best_pair();
    assert_eq!(best_bid, Some((PriceLevel::from_ticks(10_000), 5)));
}

#[test]
fn first_record_with_predecessor_gaps() {
    let mut session = FeedSession::new();
    let outcome = session.process(record(2, Some(1), vec![entry(Action::New, 10_000, 5)], vec![]));
    assert!(matches!(outcome, FeedOutcome::Gap));
    let (best_bid, best_ask) = session.best_pair();
    assert_eq!(best_bid, None);
    assert_eq!(best_ask, None);
}

#[test]
fn session_stays_gapped() {
    let mut session = FeedSession::new();
    let gapped = session.process(record(2, Some(1), vec![], vec![]));
    assert!(matches!(gapped, FeedOutcome::Gap));
    // Even a snapshot is rejected once a gap was detected: the caller must
    // rebuild the session from scratch.
    let after = session.process(record(3, None, vec![entry(Action::New, 10_000, 5)], vec![]));
    assert!(matches!(after, FeedOutcome::Gap));
    let (best_bid, _) = session.best_pair();
    assert_eq!(best_bid, None);
}

#[test]
fn snapshot_without_predecessor_is_always_applied() {
    let mut session = FeedSession::new();
    let first = session.process(record(5, None, vec![entry(Action::New, 10_000, 5)], vec![]));
    assert!(matches!(first, FeedOutcome::Applied { .. }));
    // Arbitrary jump of the change id: accepted because no predecessor is named.
    let jump = session.process(record(50, None, vec![entry(Action::New, 10_100, 2)], vec![]));
    assert!(matches!(jump, FeedOutcome::Applied { .. }));
    let (best_bid, _) = session.best_pair();
    assert_eq!(best_bid, Some((PriceLevel::from_ticks(10_100), 2)));
}

#[test]
fn quote_tracker_keeps_running_extremes() {
    let mut tracker = QuoteTracker::new();
    let first = tracker.process(&record(
        1,
        None,
        vec![entry(Action::New, 10_000, 5), entry(Action::New, 9_900, 1)],
        vec![entry(Action::New, 10_100, 3)],
    ));
    match first {
        QuoteOutcome::Quoted { best_bid, best_ask } => {
            assert_eq!(best_bid, Some(PriceLevel::from_ticks(10_000)));
            assert_eq!(best_ask, Some(PriceLevel::from_ticks(10_100)));
        }
        QuoteOutcome::Gap => panic!("snapshot must not gap"),
    }
    // A delete never lowers a running best: that is the tracker's declared
    // limit against the full book.
    let second = tracker.process(&record(
        2,
        Some(1),
        vec![entry(Action::Delete, 10_000, 0)],
        vec![entry(Action::New, 10_050, 2)],
    ));
    match second {
        QuoteOutcome::Quoted { best_bid, best_ask } => {
            assert_eq!(best_bid, Some(PriceLevel::from_ticks(10_000)));
            assert_eq!(best_ask, Some(PriceLevel::from_ticks(10_050)));
        }
        QuoteOutcome::Gap => panic!("continuous record must not gap"),
    }
    let gapped = tracker.process(&record(9, Some(7), vec![], vec![]));
    assert!(matches!(gapped, QuoteOutcome::Gap));
}

#[test]
fn fresh_quote_tracker_reports_nothing() {
    let mut tracker = QuoteTracker::new();
    let outcome = tracker.process(&record(1, None, vec![], vec![]));
    match outcome {
        QuoteOutcome::Quoted { best_bid, best_ask } => {
            assert_eq!(best_bid, None);
            assert_eq!(best_ask, None);
        }
        QuoteOutcome::Gap => panic!("snapshot must not gap"),
    }
}

#[test]
fn snapshot_then_change_scenario() {
    let mut session = FeedSession::new();
    let snapshot = record(
        1,
        None,
        vec![entry(Action::New, 10_000, 5)],
        vec![entry(Action::New, 10_100, 3)],
    );
    assert!(matches!(session.process(snapshot), FeedOutcome::Applied { .. }));
    let change = record(2, Some(1), vec![entry(Action::Change, 10_000, 7)], vec![]);
    match session.process(change) {
        FeedOutcome::Applied { best_bid, best_ask } => {
            assert_eq!(best_bid, Some((PriceLevel::new(100, 0), 7)));
            assert_eq!(best_ask, Some((PriceLevel::new(101, 0), 3)));
        }
        FeedOutcome::Gap => panic!("continuous record must not gap"),
    }
}
