//! The per-connection feed session: applies records in sequence, detects
//! gaps in the venue's change-id chain, and reports the best pair after
//! each applied record.
//!
//! A session is a two-state machine. While streaming it applies each
//! record whose `prev_change_id` either is absent (a snapshot, accepted as
//! a fresh baseline) or equals the last applied `change_id`. A mismatch is
//! a detected gap: the record is not applied, and the session stays in the
//! gap state until a caller rebuilds it from scratch.

use vstd::prelude::*;
use crate::limit_order_book::{
    apply_actions, is_best_ask, is_best_bid, LimitOrderBook,
};
use crate::order::{Action, Data, LevelChange};
use crate::price::PriceLevel;
use vstd::string::StringSliceAdditionalSpecFns;

verus! {

/// The UTF-8 bytes of the field name `change_id`.
pub open spec fn change_id_marker() -> Seq<u8> {
    seq![99u8, 104u8, 97u8, 110u8, 103u8, 101u8, 95u8, 105u8, 100u8]
}

/// `needle` occurs as a contiguous run somewhere inside `hay`.
pub open spec fn contains_seq(hay: Seq<u8>, needle: Seq<u8>) -> bool {
    exists|i: int|
        0 <= i && i + needle.len() <= hay.len() && #[trigger] hay.subrange(
            i,
            i + needle.len(),
        ) == needle
}

/// The needle starts at position `i` of the haystack.
fn matches_at(hay: &[u8], needle: &[u8], i: usize) -> (r: bool)
    requires
        i + needle@.len() <= hay@.len(),
    ensures
        r == (hay@.subrange(i as int, i + needle@.len()) == needle@),
{
    let n = needle.len();
    let hay_len = hay.len();
    let mut j: usize = 0;
    while j < n
        invariant
            j <= n,
            n == needle@.len(),
            hay_len == hay@.len(),
            i + n <= hay_len,
            forall|k: int| 0 <= k < j ==> hay@[i + k] == needle@[k],
        decreases n - j,
    {
        if hay[i + j] != needle[j] {
            proof {
                assert(hay@.subrange(i as int, i + needle@.len())[j as int] == hay@[i + j]);
            }
            return false;
        }
        j = j + 1;
    }
    proof {
        assert(hay@.subrange(i as int, i + needle@.len()) =~= needle@);
    }
    true
}

/// Whether `needle` occurs anywhere inside `hay`.
fn contains_bytes(hay: &[u8], needle: &[u8]) -> (r: bool)
    ensures
        r == contains_seq(hay@, needle@),
{
    if needle.len() > hay.len() {
        return false;
    }
    if needle.len() == 0 {
        proof {
            assert(hay@.subrange(0, 0 + needle@.len() as int) =~= needle@);
        }
        return true;
    }
    let last = hay.len() - needle.len();
    let mut i: usize = 0;
    while i <= last
        invariant
            i <= last + 1,
            last < usize::MAX,
            needle@.len() >= 1,
            last == hay@.len() - needle@.len(),
            forall|k: int|
                0 <= k < i ==> #[trigger] hay@.subrange(k, k + needle@.len()) != needle@,
        decreases last + 1 - i,
    {
        if matches_at(hay, needle, i) {
            return true;
        }
        i = i + 1;
    }
    false
}

/// Whether an inbound text message is order-book data: exactly the messages
/// that mention a `change_id` field are; heartbeats and subscription acks
/// do not and must be ignored.
pub fn is_book_message(msg: &str) -> (r: bool)
    ensures
        r == contains_seq(msg.spec_bytes(), change_id_marker()),
{
    let bytes = msg.as_bytes();
    let mut needle: Vec<u8> = Vec::new();
    needle.push(99);
    needle.push(104);
    needle.push(97);
    needle.push(110);
    needle.push(103);
    needle.push(101);
    needle.push(95);
    needle.push(105);
    needle.push(100);
    proof {
        assert(needle@ =~= change_id_marker());
    }
    contains_bytes(bytes, needle.as_slice())
}

/// What one record did to the session.
pub enum FeedOutcome {
    /// The record was applied; the fields carry the best pair afterwards.
    Applied {
        best_bid: Option<(PriceLevel, u64)>,
        best_ask: Option<(PriceLevel, u64)>,
    },
    /// The record broke the change-id chain and was not applied.
    Gap,
}

/// A record gaps when it names a predecessor other than the last applied
/// change id; a record without a predecessor never gaps.
pub open spec fn record_gaps(last: Option<i64>, prev: Option<i64>) -> bool {
    match prev {
        Some(p) => last != Some(p),
        None => false,
    }
}

/// One connection attempt's book and gap-detection state.
pub struct FeedSession {
    book: LimitOrderBook,
    last_change_id: Option<i64>,
    gapped: bool,
}

impl FeedSession {
    /// The bid side of the session's book.
    pub closed spec fn bids_view(self) -> Map<u64, u64> {
        self.book.bids_view()
    }

    /// The ask side of the session's book.
    pub closed spec fn asks_view(self) -> Map<u64, u64> {
        self.book.asks_view()
    }

    /// The last applied change id; `None` before the first record.
    pub closed spec fn last_id(self) -> Option<i64> {
        self.last_change_id
    }

    /// Whether the session has detected a gap and stopped applying.
    pub closed spec fn is_gapped(self) -> bool {
        self.gapped
    }

    pub closed spec fn wf(self) -> bool {
        self.book.wf()
    }

    /// A fresh session: empty book, no prior record, streaming.
    pub fn new() -> (r: FeedSession)
        ensures
            r.wf(),
            r.bids_view() == Map::<u64, u64>::empty(),
            r.asks_view() == Map::<u64, u64>::empty(),
            r.last_id() == None::<i64>,
            !r.is_gapped(),
    {
        FeedSession { book: LimitOrderBook::new(), last_change_id: None, gapped: false }
    }

    /// Feed one record through the session. A record whose predecessor does
    /// not match — or any record after a detected gap — is rejected without
    /// touching the book; every other record is applied and the resulting
    /// best pair reported.
    pub fn process(&mut self, record: Data) -> (r: FeedOutcome)
        requires
            old(self).wf(),
        ensures
            final(self).wf(),
            (old(self).is_gapped() || record_gaps(
                old(self).last_id(),
                record.prev_change_id,
            )) ==> {
                &&& r is Gap
                &&& final(self).bids_view() == old(self).bids_view()
                &&& final(self).asks_view() == old(self).asks_view()
                &&& final(self).last_id() == old(self).last_id()
                &&& final(self).is_gapped()
            },
            !(old(self).is_gapped() || record_gaps(
                old(self).last_id(),
                record.prev_change_id,
            )) ==> {
                &&& !final(self).is_gapped()
                &&& final(self).last_id() == Some(record.change_id)
                &&& final(self).bids_view() == apply_actions(
                    old(self).bids_view(),
                    record.bids@,
                )
                &&& final(self).asks_view() == apply_actions(
                    old(self).asks_view(),
                    record.asks@,
                )
                &&& (r matches FeedOutcome::Applied { best_bid, best_ask }
                    && is_best_bid(final(self).bids_view(), best_bid)
                    && is_best_ask(final(self).asks_view(), best_ask))
            },
    {
        if self.gapped {
            return FeedOutcome::Gap;
        }
        let gaps = match record.get_prev_change_id() {
            Some(p) => match self.last_change_id {
                Some(last) => last != p,
                None => true,
            },
            None => false,
        };
        if gaps {
            self.gapped = true;
            return FeedOutcome::Gap;
        }
        self.last_change_id = Some(record.get_change_id());
        self.book.add_orders(record);
        let best_bid = self.book.get_best_bid();
        let best_ask = self.book.get_best_ask();
        FeedOutcome::Applied { best_bid, best_ask }
    }

    /// The best pair right now, without feeding a record.
    pub fn best_pair(&self) -> (r: (Option<(PriceLevel, u64)>, Option<(PriceLevel, u64)>))
        requires
            self.wf(),
        ensures
            is_best_bid(self.bids_view(), r.0),
            is_best_ask(self.asks_view(), r.1),
    {
        (self.book.get_best_bid(), self.book.get_best_ask())
    }
}

/// The running best bid after one entry: a delete never moves it, any
/// other entry raises it to its price when that is higher.
pub open spec fn bump_high(cur: Option<u64>, c: LevelChange) -> Option<u64> {
    if c.action is Delete {
        cur
    } else {
        match cur {
            None => Some(c.price.ticks),
            Some(b) => if b < c.price.ticks {
                Some(c.price.ticks)
            } else {
                Some(b)
            },
        }
    }
}

/// The running best ask after one entry: a delete never moves it, any
/// other entry lowers it to its price when that is lower.
pub open spec fn bump_low(cur: Option<u64>, c: LevelChange) -> Option<u64> {
    if c.action is Delete {
        cur
    } else {
        match cur {
            None => Some(c.price.ticks),
            Some(b) => if c.price.ticks < b {
                Some(c.price.ticks)
            } else {
                Some(b)
            },
        }
    }
}

/// The running best bid after a whole list of entries, left to right.
pub open spec fn track_high(cur: Option<u64>, s: Seq<LevelChange>) -> Option<u64>
    decreases s.len(),
{
    if s.len() == 0 {
        cur
    } else {
        bump_high(track_high(cur, s.drop_last()), s.last())
    }
}

/// The running best ask after a whole list of entries, left to right.
pub open spec fn track_low(cur: Option<u64>, s: Seq<LevelChange>) -> Option<u64>
    decreases s.len(),
{
    if s.len() == 0 {
        cur
    } else {
        bump_low(track_low(cur, s.drop_last()), s.last())
    }
}

/// The running best bid is what its name says: an upper bound on every
/// non-delete bid price in the list, reached either by the starting value
/// or by one of those prices, and never below the starting value.
pub proof fn lemma_track_high_is_the_maximum(cur: Option<u64>, s: Seq<LevelChange>)
    ensures
        forall|k: int|
            0 <= k < s.len() && !((#[trigger] s[k]).action is Delete) ==> (track_high(
                cur,
                s,
            ) matches Some(b) && s[k].price.ticks <= b),
        match track_high(cur, s) {
            None => cur is None,
            Some(b) => cur == Some(b) || exists|k: int|
                0 <= k < s.len() && !((#[trigger] s[k]).action is Delete)
                    && s[k].price.ticks == b,
        },
        match cur {
            Some(c0) => track_high(cur, s) matches Some(b) && c0 <= b,
            None => true,
        },
    decreases s.len(),
{
    if s.len() > 0 {
        let t = s.drop_last();
        lemma_track_high_is_the_maximum(cur, t);
        assert forall|k: int| 0 <= k < t.len() implies t[k] == s[k] by {}
    }
}

/// The running best ask, symmetrically: a lower bound on every non-delete
/// ask price in the list, reached by the starting value or one of them,
/// and never above the starting value.
pub proof fn lemma_track_low_is_the_minimum(cur: Option<u64>, s: Seq<LevelChange>)
    ensures
        forall|k: int|
            0 <= k < s.len() && !((#[trigger] s[k]).action is Delete) ==> (track_low(
                cur,
                s,
            ) matches Some(b) && b <= s[k].price.ticks),
        match track_low(cur, s) {
            None => cur is None,
            Some(b) => cur == Some(b) || exists|k: int|
                0 <= k < s.len() && !((#[trigger] s[k]).action is Delete)
                    && s[k].price.ticks == b,
        },
        match cur {
            Some(c0) => track_low(cur, s) matches Some(b) && b <= c0,
            None => true,
        },
    decreases s.len(),
{
    if s.len() > 0 {
        let t = s.drop_last();
        lemma_track_low_is_the_minimum(cur, t);
        assert forall|k: int| 0 <= k < t.len() implies t[k] == s[k] by {}
    }
}

/// A tick count dressed as a price, kept `None` when nothing was quoted.
pub open spec fn as_price(t: Option<u64>) -> Option<PriceLevel> {
    match t {
        None => None,
        Some(ticks) => Some(PriceLevel { ticks }),
    }
}

/// What one record did to a quote tracker.
pub enum QuoteOutcome {
    /// The record was accepted; the fields carry the running best pair.
    Quoted { best_bid: Option<PriceLevel>, best_ask: Option<PriceLevel> },
    /// The record broke the change-id chain and was not tracked.
    Gap,
}

/// Storage-free alternative to the full book: keeps only the highest bid
/// price and the lowest ask price quoted so far, under the same gap rule
/// as `FeedSession`. Deletions never lower a running best; a consumer that
/// needs deletions reflected needs the full book.
pub struct QuoteTracker {
    last_change_id: Option<i64>,
    gapped: bool,
    best_bid: Option<u64>,
    best_ask: Option<u64>,
}

impl QuoteTracker {
    /// The highest bid price quoted so far, in ticks.
    pub closed spec fn best_bid_view(self) -> Option<u64> {
        self.best_bid
    }

    /// The lowest ask price quoted so far, in ticks.
    pub closed spec fn best_ask_view(self) -> Option<u64> {
        self.best_ask
    }

    /// The last accepted change id; `None` before the first record.
    pub closed spec fn last_id(self) -> Option<i64> {
        self.last_change_id
    }

    /// Whether the tracker has detected a gap and stopped.
    pub closed spec fn is_gapped(self) -> bool {
        self.gapped
    }

    /// A fresh tracker: nothing quoted yet, no prior record, streaming.
    pub fn new() -> (r: QuoteTracker)
        ensures
            r.best_bid_view() == None::<u64>,
            r.best_ask_view() == None::<u64>,
            r.last_id() == None::<i64>,
            !r.is_gapped(),
    {
        QuoteTracker { last_change_id: None, gapped: false, best_bid: None, best_ask: None }
    }

    /// Track one record. The gap rule is the session's; an accepted record
    /// folds its entries into the running best pair.
    pub fn process(&mut self, record: &Data) -> (r: QuoteOutcome)
        ensures
            (old(self).is_gapped() || record_gaps(
                old(self).last_id(),
                record.prev_change_id,
            )) ==> {
                &&& r is Gap
                &&& final(self).best_bid_view() == old(self).best_bid_view()
                &&& final(self).best_ask_view() == old(self).best_ask_view()
                &&& final(self).last_id() == old(self).last_id()
                &&& final(self).is_gapped()
            },
            !(old(self).is_gapped() || record_gaps(
                old(self).last_id(),
                record.prev_change_id,
            )) ==> {
                &&& !final(self).is_gapped()
                &&& final(self).last_id() == Some(record.change_id)
                &&& final(self).best_bid_view() == track_high(
                    old(self).best_bid_view(),
                    record.bids@,
                )
                &&& final(self).best_ask_view() == track_low(
                    old(self).best_ask_view(),
                    record.asks@,
                )
                &&& r == (QuoteOutcome::Quoted {
                    best_bid: as_price(final(self).best_bid_view()),
                    best_ask: as_price(final(self).best_ask_view()),
                })
            },
    {
        if self.gapped {
            return QuoteOutcome::Gap;
        }
        let gaps = match record.get_prev_change_id() {
            Some(p) => match self.last_change_id {
                Some(last) => last != p,
                None => true,
            },
            None => false,
        };
        if gaps {
            self.gapped = true;
            return QuoteOutcome::Gap;
        }
        self.last_change_id = Some(record.get_change_id());
        let ghost bid0 = self.best_bid;
        let ghost ask0 = self.best_ask;
        let bids = record.get_bids();
        let mut i: usize = 0;
        while i < bids.len()
            invariant
                i <= bids@.len(),
                bids@ == record.bids@,
                self.best_bid == track_high(bid0, bids@.take(i as int)),
                self.best_ask == ask0,
                self.last_change_id == Some(record.change_id),
                !self.gapped,
            decreases bids@.len() - i,
        {
            let c = bids[i];
            match c.action {
                Action::Delete => {},
                _ => {
                    let better = match self.best_bid {
                        Some(b) => b < c.price.ticks,
                        None => true,
                    };
                    if better {
                        self.best_bid = Some(c.price.ticks);
                    }
                },
            }
            proof {
                assert(bids@.take(i + 1).drop_last() =~= bids@.take(i as int));
                assert(bids@.take(i + 1).last() == bids@[i as int]);
            }
            i = i + 1;
        }
        proof {
            assert(bids@.take(bids@.len() as int) =~= bids@);
        }
        let asks = record.get_asks();
        let mut j: usize = 0;
        while j < asks.len()
            invariant
                j <= asks@.len(),
                asks@ == record.asks@,
                self.best_ask == track_low(ask0, asks@.take(j as int)),
                self.best_bid == track_high(bid0, record.bids@),
                self.last_change_id == Some(record.change_id),
                !self.gapped,
            decreases asks@.len() - j,
        {
            let c = asks[j];
            match c.action {
                Action::Delete => {},
                _ => {
                    let better = match self.best_ask {
                        Some(b) => c.price.ticks < b,
                        None => true,
                    };
                    if better {
                        self.best_ask = Some(c.price.ticks);
                    }
                },
            }
            proof {
                assert(asks@.take(j + 1).drop_last() =~= asks@.take(j as int));
                assert(asks@.take(j + 1).last() == asks@[j as int]);
            }
            j = j + 1;
        }
        proof {
            assert(asks@.take(asks@.len() as int) =~= asks@);
        }
        let best_bid = match self.best_bid {
            Some(t) => Some(PriceLevel::from_ticks(t)),
            None => None,
        };
        let best_ask = match self.best_ask {
            Some(t) => Some(PriceLevel::from_ticks(t)),
            None => None,
        };
        QuoteOutcome::Quoted { best_bid, best_ask }
    }
}

} // verus!
