//! The order-book engine: two price-indexed sides, incremental updates,
//! and best-bid / best-ask queries.
//!
//! A side is a list of `(price ticks, quantity)` pairs with pairwise
//! distinct prices; its mathematical model is the finite map from price to
//! quantity that the list spells out.

use vstd::prelude::*;
use crate::order::{Action, Data, LevelChange};
use crate::price::PriceLevel;

verus! {

/// No two entries of `s` name the same price.
pub open spec fn uniq_keys(s: Seq<(u64, u64)>) -> bool {
    forall|i: int, j: int|
        0 <= i < j < s.len() ==> (#[trigger] s[i]).0 != (#[trigger] s[j]).0
}

/// Some entry of `s` names the price `p`.
pub open spec fn has_key(s: Seq<(u64, u64)>, p: u64) -> bool {
    exists|i: int| 0 <= i < s.len() && (#[trigger] s[i]).0 == p
}

/// The quantity that `s` rests at price `p` (meaningful when `has_key`).
pub open spec fn value_of(s: Seq<(u64, u64)>, p: u64) -> u64 {
    s[choose|i: int| 0 <= i < s.len() && (#[trigger] s[i]).0 == p].1
}

/// The price-to-quantity map that the entry list `s` spells out.
pub open spec fn map_of(s: Seq<(u64, u64)>) -> Map<u64, u64> {
    Map::new(|p: u64| has_key(s, p), |p: u64| value_of(s, p))
}

/// With distinct keys, the entry at index `i` fixes the map's value there.
proof fn lemma_value_at(s: Seq<(u64, u64)>, i: int)
    requires
        uniq_keys(s),
        0 <= i < s.len(),
    ensures
        has_key(s, s[i].0),
        value_of(s, s[i].0) == s[i].1,
        map_of(s).dom().contains(s[i].0),
        map_of(s)[s[i].0] == s[i].1,
{
    let p = s[i].0;
    assert(has_key(s, p));
    let j = choose|j: int| 0 <= j < s.len() && (#[trigger] s[j]).0 == p;
    if j < i {
        assert((s[j]).0 != (s[i]).0);
    } else if i < j {
        assert((s[i]).0 != (s[j]).0);
    }
}

/// One side of the book: resting quantity indexed by price ticks.
pub struct BookSide {
    levels: Vec<(u64, u64)>,
}

impl View for BookSide {
    type V = Map<u64, u64>;

    closed spec fn view(&self) -> Map<u64, u64> {
        map_of(self.levels@)
    }
}

impl BookSide {
    /// The entry list behind the map, for size statements.
    pub closed spec fn entries(self) -> Seq<(u64, u64)> {
        self.levels@
    }

    /// Well-formed: no price occurs twice.
    pub closed spec fn wf(self) -> bool {
        uniq_keys(self.levels@)
    }

    pub fn new() -> (r: BookSide)
        ensures
            r.wf(),
            r@ == Map::<u64, u64>::empty(),
            r.entries().len() == 0,
    {
        let r = BookSide { levels: Vec::new() };
        proof {
            assert(r@ =~= Map::<u64, u64>::empty());
        }
        r
    }

    /// The number of distinct price levels resting on this side.
    pub fn depth(&self) -> (n: usize)
        requires
            self.wf(),
        ensures
            n == self.entries().len(),
            self@.dom().finite(),
            n == self@.dom().len(),
    {
        proof {
            self.lemma_dom_finite();
        }
        self.levels.len()
    }

    /// The side's domain is finite and as large as its entry list.
    pub proof fn lemma_dom_finite(self)
        requires
            self.wf(),
        ensures
            self@.dom().finite(),
            self@.dom().len() == self.entries().len(),
    {
        lemma_map_of_finite(self.levels@);
    }

    /// Index of the entry at `price`, if the side rests one there.
    fn find(&self, price: u64) -> (r: Option<usize>)
        ensures
            match r {
                Some(i) => i < self.entries().len() && self.entries()[i as int].0 == price,
                None => !has_key(self.entries(), price),
            },
    {
        let mut i: usize = 0;
        while i < self.levels.len()
            invariant
                i <= self.levels@.len(),
                forall|j: int| 0 <= j < i ==> (#[trigger] self.levels@[j]).0 != price,
            decreases self.levels@.len() - i,
        {
            if self.levels[i].0 == price {
                return Some(i);
            }
            i = i + 1;
        }
        None
    }

    /// The quantity resting at `price`, if any.
    pub fn get(&self, price: u64) -> (r: Option<u64>)
        requires
            self.wf(),
        ensures
            r == if self@.dom().contains(price) {
                Some(self@[price])
            } else {
                None::<u64>
            },
    {
        match self.find(price) {
            Some(i) => {
                proof {
                    lemma_value_at(self.levels@, i as int);
                }
                Some(self.levels[i].1)
            },
            None => None,
        }
    }

    /// Insert the quantity at `price`, overwriting any entry already there.
    pub fn upsert(&mut self, price: u64, quantity: u64)
        requires
            old(self).wf(),
        ensures
            final(self).wf(),
            final(self)@ == old(self)@.insert(price, quantity),
            final(self).entries().len() == if has_key(old(self).entries(), price) {
                old(self).entries().len()
            } else {
                old(self).entries().len() + 1
            },
    {
        let ghost s0 = self.levels@;
        match self.find(price) {
            Some(i) => {
                self.levels[i] = (price, quantity);
                proof {
                    let s = self.levels@;
                    assert forall|a: int, b: int| 0 <= a < b < s.len() implies (
                        #[trigger] s[a]).0 != (#[trigger] s[b]).0 by {
                        assert(s0[a].0 == s[a].0 && s0[b].0 == s[b].0);
                    }
                    assert(self@ =~= old(self)@.insert(price, quantity)) by {
                        lemma_map_after_set(s0, i as int, price, quantity);
                    }
                }
            },
            None => {
                self.levels.push((price, quantity));
                proof {
                    let s = self.levels@;
                    assert forall|a: int, b: int| 0 <= a < b < s.len() implies (
                        #[trigger] s[a]).0 != (#[trigger] s[b]).0 by {
                        if b < s.len() - 1 {
                            assert(s0[a].0 == s[a].0 && s0[b].0 == s[b].0);
                        } else {
                            assert(s[a] == s0[a]);
                            assert(has_key(s0, s0[a].0));
                        }
                    }
                    assert(self@ =~= old(self)@.insert(price, quantity)) by {
                        lemma_map_after_push(s0, price, quantity);
                    }
                }
            },
        }
    }

    /// Remove the entry at `price`; absence is not an error.
    pub fn remove(&mut self, price: u64)
        requires
            old(self).wf(),
        ensures
            final(self).wf(),
            final(self)@ == old(self)@.remove(price),
            final(self).entries().len() == if has_key(old(self).entries(), price) {
                old(self).entries().len() - 1
            } else {
                old(self).entries().len() as int
            },
    {
        let ghost s0 = self.levels@;
        match self.find(price) {
            Some(i) => {
                self.levels.remove(i);
                proof {
                    let s = self.levels@;
                    assert(s == s0.remove(i as int));
                    assert forall|a: int, b: int| 0 <= a < b < s.len() implies (
                        #[trigger] s[a]).0 != (#[trigger] s[b]).0 by {
                        let a0 = if a < i { a } else { a + 1 };
                        let b0 = if b < i { b } else { b + 1 };
                        assert(s[a] == s0[a0] && s[b] == s0[b0]);
                    }
                    assert(self@ =~= old(self)@.remove(price)) by {
                        lemma_map_after_remove(s0, i as int);
                    }
                }
            },
            None => {
                proof {
                    assert(self@ =~= old(self)@.remove(price));
                }
            },
        }
    }

    /// The entry with the highest price, or `None` on an empty side.
    pub fn best_high(&self) -> (r: Option<(u64, u64)>)
        requires
            self.wf(),
        ensures
            is_best_high(self@, r),
    {
        if self.levels.len() == 0 {
            proof {
                assert forall|p: u64| !self@.dom().contains(p) by {}
            }
            return None;
        }
        let mut best: (u64, u64) = self.levels[0];
        let mut i: usize = 1;
        while i < self.levels.len()
            invariant
                1 <= i <= self.levels@.len(),
                exists|j: int| 0 <= j < i && self.levels@[j] == best,
                forall|j: int| 0 <= j < i ==> (#[trigger] self.levels@[j]).0 <= best.0,
            decreases self.levels@.len() - i,
        {
            let cur = self.levels[i];
            if best.0 < cur.0 {
                best = cur;
            }
            i = i + 1;
        }
        proof {
            let j = choose|j: int| 0 <= j < self.levels@.len() && self.levels@[j] == best;
            lemma_value_at(self.levels@, j);
            assert forall|k: u64| #[trigger] self@.dom().contains(k) implies k <= best.0 by {
                let w = choose|w: int|
                    0 <= w < self.levels@.len() && (#[trigger] self.levels@[w]).0 == k;
                assert(self.levels@[w].0 <= best.0);
            }
        }
        Some(best)
    }

    /// The entry with the lowest price, or `None` on an empty side.
    pub fn best_low(&self) -> (r: Option<(u64, u64)>)
        requires
            self.wf(),
        ensures
            is_best_low(self@, r),
    {
        if self.levels.len() == 0 {
            proof {
                assert forall|p: u64| !self@.dom().contains(p) by {}
            }
            return None;
        }
        let mut best: (u64, u64) = self.levels[0];
        let mut i: usize = 1;
        while i < self.levels.len()
            invariant
                1 <= i <= self.levels@.len(),
                exists|j: int| 0 <= j < i && self.levels@[j] == best,
                forall|j: int| 0 <= j < i ==> (#[trigger] self.levels@[j]).0 >= best.0,
            decreases self.levels@.len() - i,
        {
            let cur = self.levels[i];
            if cur.0 < best.0 {
                best = cur;
            }
            i = i + 1;
        }
        proof {
            let j = choose|j: int| 0 <= j < self.levels@.len() && self.levels@[j] == best;
            lemma_value_at(self.levels@, j);
            assert forall|k: u64| #[trigger] self@.dom().contains(k) implies k >= best.0 by {
                let w = choose|w: int|
                    0 <= w < self.levels@.len() && (#[trigger] self.levels@[w]).0 == k;
                assert(self.levels@[w].0 >= best.0);
            }
        }
        Some(best)
    }
}

/// The map after one feed entry: a delete drops its price level, a new or
/// change entry rests its quantity there.
pub open spec fn apply_action(m: Map<u64, u64>, c: LevelChange) -> Map<u64, u64> {
    match c.action {
        Action::Delete => m.remove(c.price.ticks),
        _ => m.insert(c.price.ticks, c.quantity),
    }
}

/// The map after a whole list of feed entries, applied left to right.
pub open spec fn apply_actions(m: Map<u64, u64>, s: Seq<LevelChange>) -> Map<u64, u64>
    decreases s.len(),
{
    if s.len() == 0 {
        m
    } else {
        apply_action(apply_actions(m, s.drop_last()), s.last())
    }
}

/// Limit order book: one bid side and one ask side of one instrument,
/// quantities indexed by fixed-point price.
pub struct LimitOrderBook {
    bids: BookSide,
    asks: BookSide,
}

impl LimitOrderBook {
    /// The bid side's model: quantity resting per price tick.
    pub closed spec fn bids_view(self) -> Map<u64, u64> {
        self.bids@
    }

    /// The ask side's model: quantity resting per price tick.
    pub closed spec fn asks_view(self) -> Map<u64, u64> {
        self.asks@
    }

    /// Well-formed: both sides keep their prices pairwise distinct.
    pub closed spec fn wf(self) -> bool {
        self.bids.wf() && self.asks.wf()
    }

    pub fn new() -> (r: LimitOrderBook)
        ensures
            r.wf(),
            r.bids_view() == Map::<u64, u64>::empty(),
            r.asks_view() == Map::<u64, u64>::empty(),
    {
        LimitOrderBook { bids: BookSide::new(), asks: BookSide::new() }
    }

    /// Apply one feed record: each bid entry to the bid side and each ask
    /// entry to the ask side, in the order the record lists them.
    pub fn add_orders(&mut self, order: Data)
        requires
            old(self).wf(),
        ensures
            final(self).wf(),
            final(self).bids_view() == apply_actions(old(self).bids_view(), order.bids@),
            final(self).asks_view() == apply_actions(old(self).asks_view(), order.asks@),
    {
        let ghost bids0 = self.bids@;
        let ghost asks0 = self.asks@;
        let mut i: usize = 0;
        while i < order.bids.len()
            invariant
                i <= order.bids@.len(),
                self.bids.wf(),
                self.bids@ == apply_actions(bids0, order.bids@.take(i as int)),
                self.asks == old(self).asks,
            decreases order.bids@.len() - i,
        {
            let c = order.bids[i];
            match c.action {
                Action::Delete => self.bids.remove(c.price.ticks),
                _ => self.bids.upsert(c.price.ticks, c.quantity),
            }
            proof {
                assert(order.bids@.take(i + 1).drop_last() =~= order.bids@.take(i as int));
                assert(order.bids@.take(i + 1).last() == order.bids@[i as int]);
            }
            i = i + 1;
        }
        proof {
            assert(order.bids@.take(order.bids@.len() as int) =~= order.bids@);
        }
        let mut j: usize = 0;
        while j < order.asks.len()
            invariant
                j <= order.asks@.len(),
                self.asks.wf(),
                self.asks@ == apply_actions(asks0, order.asks@.take(j as int)),
                self.bids.wf(),
                self.bids@ == apply_actions(bids0, order.bids@),
            decreases order.asks@.len() - j,
        {
            let c = order.asks[j];
            match c.action {
                Action::Delete => self.asks.remove(c.price.ticks),
                _ => self.asks.upsert(c.price.ticks, c.quantity),
            }
            proof {
                assert(order.asks@.take(j + 1).drop_last() =~= order.asks@.take(j as int));
                assert(order.asks@.take(j + 1).last() == order.asks@[j as int]);
            }
            j = j + 1;
        }
        proof {
            assert(order.asks@.take(order.asks@.len() as int) =~= order.asks@);
        }
    }

    /// The highest bid with its quantity, or `None` while no bid rests.
    pub fn get_best_bid(&self) -> (r: Option<(PriceLevel, u64)>)
        requires
            self.wf(),
        ensures
            is_best_bid(self.bids_view(), r),
    {
        match self.bids.best_high() {
            Some((p, q)) => Some((PriceLevel::from_ticks(p), q)),
            None => None,
        }
    }

    /// The lowest ask with its quantity, or `None` while no ask rests.
    pub fn get_best_ask(&self) -> (r: Option<(PriceLevel, u64)>)
        requires
            self.wf(),
        ensures
            is_best_ask(self.asks_view(), r),
    {
        match self.asks.best_low() {
            Some((p, q)) => Some((PriceLevel::from_ticks(p), q)),
            None => None,
        }
    }

    /// The quantity resting on the bid side at `price`, if any.
    pub fn bid_quantity(&self, price: PriceLevel) -> (r: Option<u64>)
        requires
            self.wf(),
        ensures
            r == if self.bids_view().dom().contains(price.ticks) {
                Some(self.bids_view()[price.ticks])
            } else {
                None::<u64>
            },
    {
        self.bids.get(price.ticks)
    }

    /// The quantity resting on the ask side at `price`, if any.
    pub fn ask_quantity(&self, price: PriceLevel) -> (r: Option<u64>)
        requires
            self.wf(),
        ensures
            r == if self.asks_view().dom().contains(price.ticks) {
                Some(self.asks_view()[price.ticks])
            } else {
                None::<u64>
            },
    {
        self.asks.get(price.ticks)
    }

    /// The number of distinct price levels resting on the bid side.
    pub fn bid_depth(&self) -> (n: usize)
        requires
            self.wf(),
        ensures
            self.bids_view().dom().finite(),
            n == self.bids_view().dom().len(),
    {
        self.bids.depth()
    }

    /// The number of distinct price levels resting on the ask side.
    pub fn ask_depth(&self) -> (n: usize)
        requires
            self.wf(),
        ensures
            self.asks_view().dom().finite(),
            n == self.asks_view().dom().len(),
    {
        self.asks.depth()
    }

    /// Observable anomaly check: some resting bid prices at or above some
    /// resting ask.
    pub fn is_crossed(&self) -> (r: bool)
        requires
            self.wf(),
        ensures
            r == exists|b: u64, a: u64|
                #[trigger] self.bids_view().dom().contains(b)
                    && #[trigger] self.asks_view().dom().contains(a) && b >= a,
    {
        let best_bid = self.bids.best_high();
        let best_ask = self.asks.best_low();
        match (best_bid, best_ask) {
            (Some((bp, _bq)), Some((ap, _aq))) => {
                if bp >= ap {
                    proof {
                        assert(self.bids_view().dom().contains(bp)
                            && self.asks_view().dom().contains(ap) && bp >= ap);
                    }
                    true
                } else {
                    proof {
                        assert forall|b: u64, a: u64|
                            #[trigger] self.bids_view().dom().contains(b)
                                && #[trigger] self.asks_view().dom().contains(a) implies b
                            < a by {
                            assert(b <= bp);
                            assert(a >= ap);
                        }
                    }
                    false
                }
            },
            _ => {
                proof {
                    if best_bid is None {
                        assert forall|b: u64, a: u64| !(
                            #[trigger] self.bids_view().dom().contains(b)
                                && #[trigger] self.asks_view().dom().contains(a)
                                && b >= a) by {
                            assert(!self.bids_view().dom().contains(b));
                        }
                    } else {
                        assert forall|b: u64, a: u64| !(
                            #[trigger] self.bids_view().dom().contains(b)
                                && #[trigger] self.asks_view().dom().contains(a)
                                && b >= a) by {
                            assert(!self.asks_view().dom().contains(a));
                        }
                    }
                }
                false
            },
        }
    }
}

/// A side determines its best-of answers: two results that both satisfy
/// the best-bid description of one side, or both the best-ask one, are the
/// same result.
pub proof fn lemma_best_of_side_is_unique(
    m: Map<u64, u64>,
    r1: Option<(PriceLevel, u64)>,
    r2: Option<(PriceLevel, u64)>,
)
    requires
        is_best_bid(m, r1) && is_best_bid(m, r2) || is_best_ask(m, r1) && is_best_ask(m, r2),
    ensures
        r1 == r2,
{
    match (r1, r2) {
        (Some((p1, _q1)), Some((p2, _q2))) => {
            assert(p1.ticks == p2.ticks);
        },
        (Some((p1, _q1)), None) => {
            assert(m.dom().contains(p1.ticks));
        },
        (None, Some((p2, _q2))) => {
            assert(m.dom().contains(p2.ticks));
        },
        (None, None) => {},
    }
}

/// Applying a one-entry record twice in a row leaves the side exactly as
/// one application does.
pub proof fn lemma_single_entry_record_idempotent(m: Map<u64, u64>, c: LevelChange)
    ensures
        apply_actions(apply_actions(m, seq![c]), seq![c]) == apply_actions(m, seq![c]),
{
    assert(seq![c].drop_last() =~= Seq::<LevelChange>::empty());
    assert(apply_actions(m, Seq::<LevelChange>::empty()) == m);
    assert(apply_actions(m, seq![c]) == apply_action(m, c));
    let once = apply_actions(m, seq![c]);
    assert(apply_actions(once, Seq::<LevelChange>::empty()) == once);
    assert(apply_actions(once, seq![c]) == apply_action(once, c));
    lemma_apply_idempotent(m, c);
}

/// On empty sides the best-of queries can only report absence — never a
/// zero-priced stand-in value.
pub proof fn lemma_empty_sides_report_absent(
    r_bid: Option<(PriceLevel, u64)>,
    r_ask: Option<(PriceLevel, u64)>,
)
    requires
        is_best_bid(Map::<u64, u64>::empty(), r_bid),
        is_best_ask(Map::<u64, u64>::empty(), r_ask),
    ensures
        r_bid is None,
        r_ask is None,
{
}

/// A `new` entry at a price not yet resting adds exactly that level: the
/// named price now rests the given quantity, every other level is untouched,
/// and a finite side grows by one. When the fresh price tops every resting
/// one, it is what a best-of query reports.
pub proof fn lemma_new_adds_level(m: Map<u64, u64>, c: LevelChange)
    requires
        c.action is New,
        !m.dom().contains(c.price.ticks),
    ensures
        apply_action(m, c).dom() == m.dom().insert(c.price.ticks),
        apply_action(m, c)[c.price.ticks] == c.quantity,
        forall|k: u64| k != c.price.ticks ==> #[trigger] apply_action(m, c).dom().contains(
            k,
        ) == m.dom().contains(k),
        forall|k: u64| k != c.price.ticks && #[trigger] m.dom().contains(k) ==> apply_action(
            m,
            c,
        )[k] == m[k],
        m.dom().finite() ==> apply_action(m, c).dom().len() == m.dom().len() + 1,
        (forall|k: u64| #[trigger] m.dom().contains(k) ==> k < c.price.ticks) ==> is_best_high(
            apply_action(m, c),
            Some((c.price.ticks, c.quantity)),
        ),
{
    assert(apply_action(m, c).dom() =~= m.dom().insert(c.price.ticks));
}

/// A `change` entry at a resting price overwrites its quantity in place:
/// no level appears or disappears, and no other quantity moves.
pub proof fn lemma_change_overwrites_level(m: Map<u64, u64>, c: LevelChange)
    requires
        c.action is Change,
        m.dom().contains(c.price.ticks),
    ensures
        apply_action(m, c).dom() == m.dom(),
        apply_action(m, c)[c.price.ticks] == c.quantity,
        forall|k: u64| k != c.price.ticks && #[trigger] m.dom().contains(k) ==> apply_action(
            m,
            c,
        )[k] == m[k],
        m.dom().finite() ==> apply_action(m, c).dom().len() == m.dom().len(),
{
    assert(apply_action(m, c).dom() =~= m.dom());
}

/// A `delete` entry removes its level; deleting an absent price leaves the
/// side exactly as it was.
pub proof fn lemma_delete_removes_level(m: Map<u64, u64>, c: LevelChange)
    requires
        c.action is Delete,
    ensures
        !apply_action(m, c).dom().contains(c.price.ticks),
        forall|k: u64| k != c.price.ticks ==> #[trigger] apply_action(m, c).dom().contains(
            k,
        ) == m.dom().contains(k),
        forall|k: u64| k != c.price.ticks && #[trigger] m.dom().contains(k) ==> apply_action(
            m,
            c,
        )[k] == m[k],
        !m.dom().contains(c.price.ticks) ==> apply_action(m, c) == m,
{
    if !m.dom().contains(c.price.ticks) {
        assert(apply_action(m, c) =~= m);
    }
}

/// Applying the same entry twice in a row leaves the side exactly as one
/// application does.
pub proof fn lemma_apply_idempotent(m: Map<u64, u64>, c: LevelChange)
    ensures
        apply_action(apply_action(m, c), c) == apply_action(m, c),
{
    assert(apply_action(apply_action(m, c), c) =~= apply_action(m, c));
}

/// `r` is the highest-priced entry of `m`, or `None` when `m` is empty.
pub open spec fn is_best_high(m: Map<u64, u64>, r: Option<(u64, u64)>) -> bool {
    match r {
        None => forall|p: u64| !m.dom().contains(p),
        Some((p, q)) => m.dom().contains(p) && m[p] == q && forall|k: u64|
            #[trigger] m.dom().contains(k) ==> k <= p,
    }
}

/// `r` is the lowest-priced entry of `m`, or `None` when `m` is empty.
pub open spec fn is_best_low(m: Map<u64, u64>, r: Option<(u64, u64)>) -> bool {
    match r {
        None => forall|p: u64| !m.dom().contains(p),
        Some((p, q)) => m.dom().contains(p) && m[p] == q && forall|k: u64|
            #[trigger] m.dom().contains(k) ==> k >= p,
    }
}

/// `r` is the highest bid of `m` with its quantity, or `None` when no bid
/// rests: never a zero-priced stand-in.
pub open spec fn is_best_bid(m: Map<u64, u64>, r: Option<(PriceLevel, u64)>) -> bool {
    match r {
        None => forall|p: u64| !m.dom().contains(p),
        Some((pl, q)) => m.dom().contains(pl.ticks) && m[pl.ticks] == q && forall|k: u64|
            #[trigger] m.dom().contains(k) ==> k <= pl.ticks,
    }
}

/// `r` is the lowest ask of `m` with its quantity, or `None` when no ask
/// rests: never a zero-priced stand-in.
pub open spec fn is_best_ask(m: Map<u64, u64>, r: Option<(PriceLevel, u64)>) -> bool {
    match r {
        None => forall|p: u64| !m.dom().contains(p),
        Some((pl, q)) => m.dom().contains(pl.ticks) && m[pl.ticks] == q && forall|k: u64|
            #[trigger] m.dom().contains(k) ==> k >= pl.ticks,
    }
}

/// Overwriting the entry at index `i` in place is a map insert at its key.
proof fn lemma_map_after_set(s0: Seq<(u64, u64)>, i: int, price: u64, quantity: u64)
    requires
        uniq_keys(s0),
        0 <= i < s0.len(),
        s0[i].0 == price,
    ensures
        map_of(s0.update(i, (price, quantity))) =~= map_of(s0).insert(price, quantity),
{
    let s = s0.update(i, (price, quantity));
    assert(uniq_keys(s)) by {
        assert forall|a: int, b: int| 0 <= a < b < s.len() implies (#[trigger] s[a]).0 != (
        #[trigger] s[b]).0 by {
            assert(s0[a].0 == s[a].0 && s0[b].0 == s[b].0);
        }
    }
    assert forall|p: u64| has_key(s, p) implies has_key(s0, p) by {
        let j = choose|j: int| 0 <= j < s.len() && (#[trigger] s[j]).0 == p;
        assert(s0[j].0 == s[j].0);
    }
    assert forall|p: u64| has_key(s0, p) implies has_key(s, p) by {
        let j = choose|j: int| 0 <= j < s0.len() && (#[trigger] s0[j]).0 == p;
        assert(s[j].0 == s0[j].0);
    }
    assert forall|p: u64| has_key(s, p) implies value_of(s, p) == map_of(s0).insert(
        price,
        quantity,
    )[p] by {
        if p == price {
            lemma_value_at(s, i);
        } else {
            let j = choose|j: int| 0 <= j < s0.len() && (#[trigger] s0[j]).0 == p;
            assert(j != i);
            assert(s[j] == s0[j]);
            lemma_value_at(s, j);
            lemma_value_at(s0, j);
        }
    }
}

/// Appending a fresh key is a map insert at that key.
proof fn lemma_map_after_push(s0: Seq<(u64, u64)>, price: u64, quantity: u64)
    requires
        uniq_keys(s0),
        !has_key(s0, price),
    ensures
        map_of(s0.push((price, quantity))) =~= map_of(s0).insert(price, quantity),
{
    let s = s0.push((price, quantity));
    assert(uniq_keys(s)) by {
        assert forall|a: int, b: int| 0 <= a < b < s.len() implies (#[trigger] s[a]).0 != (
        #[trigger] s[b]).0 by {
            if b < s.len() - 1 {
                assert(s0[a].0 == s[a].0 && s0[b].0 == s[b].0);
            } else {
                assert(s[a] == s0[a]);
                assert(has_key(s0, s0[a].0));
            }
        }
    }
    assert forall|p: u64| has_key(s, p) && p != price implies has_key(s0, p) by {
        let j = choose|j: int| 0 <= j < s.len() && (#[trigger] s[j]).0 == p;
        assert(s[j] == s0[j]);
    }
    assert forall|p: u64| has_key(s0, p) implies has_key(s, p) by {
        let j = choose|j: int| 0 <= j < s0.len() && (#[trigger] s0[j]).0 == p;
        assert(s[j] == s0[j]);
    }
    assert(s[s.len() - 1].0 == price);
    assert(has_key(s, price));
    assert forall|p: u64| has_key(s, p) implies value_of(s, p) == map_of(s0).insert(
        price,
        quantity,
    )[p] by {
        if p == price {
            lemma_value_at(s, s.len() - 1);
        } else {
            let j = choose|j: int| 0 <= j < s0.len() && (#[trigger] s0[j]).0 == p;
            assert(s[j] == s0[j]);
            lemma_value_at(s, j);
            lemma_value_at(s0, j);
        }
    }
}

/// A list with distinct keys spells out a finite map of the same size.
proof fn lemma_map_of_finite(s: Seq<(u64, u64)>)
    requires
        uniq_keys(s),
    ensures
        map_of(s).dom().finite(),
        map_of(s).dom().len() == s.len(),
    decreases s.len(),
{
    if s.len() == 0 {
        assert(map_of(s).dom() =~= Set::<u64>::empty());
    } else {
        let t = s.drop_last();
        assert(uniq_keys(t)) by {
            assert forall|a: int, b: int| 0 <= a < b < t.len() implies (#[trigger] t[a]).0
                != (#[trigger] t[b]).0 by {
                assert(t[a] == s[a] && t[b] == s[b]);
            }
        }
        lemma_map_of_finite(t);
        let last_key = s[s.len() - 1].0;
        assert(!has_key(t, last_key)) by {
            if has_key(t, last_key) {
                let j = choose|j: int| 0 <= j < t.len() && (#[trigger] t[j]).0 == last_key;
                assert(t[j] == s[j]);
                assert((s[j]).0 != (s[s.len() - 1]).0);
            }
        }
        assert(map_of(s).dom() =~= map_of(t).dom().insert(last_key)) by {
            assert forall|p: u64| has_key(s, p) && p != last_key implies has_key(t, p) by {
                let j = choose|j: int| 0 <= j < s.len() && (#[trigger] s[j]).0 == p;
                assert(t[j] == s[j]);
            }
            assert forall|p: u64| has_key(t, p) implies has_key(s, p) by {
                let j = choose|j: int| 0 <= j < t.len() && (#[trigger] t[j]).0 == p;
                assert(s[j] == t[j]);
            }
            assert(has_key(s, last_key));
        }
    }
}

/// Dropping the entry at index `i` is a map remove at its key.
proof fn lemma_map_after_remove(s0: Seq<(u64, u64)>, i: int)
    requires
        uniq_keys(s0),
        0 <= i < s0.len(),
    ensures
        map_of(s0.remove(i)) =~= map_of(s0).remove(s0[i].0),
{
    let price = s0[i].0;
    let s = s0.remove(i);
    assert forall|a: int, b: int| 0 <= a < b < s.len() implies (#[trigger] s[a]).0 != (
    #[trigger] s[b]).0 by {
        let a0 = if a < i { a } else { a + 1 };
        let b0 = if b < i { b } else { b + 1 };
        assert(s[a] == s0[a0] && s[b] == s0[b0]);
    }
    assert forall|p: u64| has_key(s, p) implies has_key(s0, p) && p != price by {
        let j = choose|j: int| 0 <= j < s.len() && (#[trigger] s[j]).0 == p;
        let j0 = if j < i { j } else { j + 1 };
        assert(s[j] == s0[j0]);
        if j0 < i {
            assert(s0[j0].0 != s0[i].0);
        } else {
            assert(s0[i].0 != s0[j0].0);
        }
    }
    assert forall|p: u64| has_key(s0, p) && p != price implies has_key(s, p) by {
        let j0 = choose|j: int| 0 <= j < s0.len() && (#[trigger] s0[j]).0 == p;
        assert(j0 != i);
        let j = if j0 < i { j0 } else { j0 - 1 };
        assert(s[j] == s0[j0]);
    }
    assert forall|p: u64| has_key(s, p) implies value_of(s, p) == map_of(s0)[p] by {
        let j = choose|j: int| 0 <= j < s.len() && (#[trigger] s[j]).0 == p;
        let j0 = if j < i { j } else { j + 1 };
        assert(s[j] == s0[j0]);
        lemma_value_at(s, j);
        lemma_value_at(s0, j0);
    }
}

} // verus!
