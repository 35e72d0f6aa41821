//! Parsed representation of one incremental feed message: venue-assigned
//! sequence markers plus the per-side lists of price-level actions.

use vstd::prelude::*;
use crate::price::PriceLevel;

verus! {

/// What a feed entry does to the price level it names.
#[derive(Clone, Copy, Debug, PartialEq, Eq, Structural)]
pub enum Action {
    New,
    Change,
    Delete,
}

/// One `(action, price, quantity)` entry of a feed record.
#[derive(Clone, Copy, Debug)]
pub struct LevelChange {
    pub action: Action,
    pub price: PriceLevel,
    pub quantity: u64,
}

/// One incremental order-book message, already decoded to plain values.
pub struct Data {
    pub order_type: String,
    pub timestamp: i64,
    pub prev_change_id: Option<i64>,
    pub instrument_name: String,
    pub change_id: i64,
    pub bids: Vec<LevelChange>,
    pub asks: Vec<LevelChange>,
}

impl Data {
    pub fn get_prev_change_id(&self) -> (r: Option<i64>)
        ensures
            r == self.prev_change_id,
    {
        self.prev_change_id
    }

    pub fn get_change_id(&self) -> (r: i64)
        ensures
            r == self.change_id,
    {
        self.change_id
    }

    pub fn get_bids(&self) -> (r: &Vec<LevelChange>)
        ensures
            r@ == self.bids@,
    {
        &self.bids
    }

    pub fn get_asks(&self) -> (r: &Vec<LevelChange>)
        ensures
            r@ == self.asks@,
    {
        &self.asks
    }
}

} // verus!
