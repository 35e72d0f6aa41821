//! Maintains a live limit order book from an incremental feed: fixed-point
//! price levels, two price-indexed book sides, sequence-gap detection, and
//! best-bid / best-ask queries.

pub mod channel;
pub mod channel_handler;
pub mod feed;
pub mod limit_order_book;
pub mod order;
pub mod price;
