//! Price-level order book repository: one sorted level list per side, a
//! periodic best-of-book snapshot keyed to exchange server time, and the
//! mid-price repair that drops crossed levels.
//!
//! Prices and sizes are binary64 words from the feed; the level lists are
//! kept strictly ascending by word order, which is the numeric price order
//! for the non-negative prices the feeds deliver. A size of zero never
//! appears as a stored level: callers translate a zero-size diff into a
//! removal.

use vstd::prelude::*;

use crate::kline::floor_ms;

verus! {

broadcast use vstd::std_specs::vec::group_vec_axioms;

/// Strictly ascending prices: each level's price is below the next one's.
pub open spec fn sorted_strict(s: Seq<(u64, u64)>) -> bool {
    forall|i: int, j: int| 0 <= i < j < s.len() ==> (#[trigger] s[i]).0 < (#[trigger] s[j]).0
}

/// The price-to-size map a level list represents.
pub open spec fn side_map(s: Seq<(u64, u64)>) -> Map<u64, u64>
    decreases s.len(),
{
    if s.len() == 0 {
        Map::empty()
    } else {
        side_map(s.drop_last()).insert(s.last().0, s.last().1)
    }
}

/// A price is in the map exactly when some level carries it.
pub proof fn lemma_side_map_dom(s: Seq<(u64, u64)>, p: u64)
    ensures
        side_map(s).contains_key(p) <==> exists|i: int| 0 <= i < s.len() && (#[trigger] s[i]).0
            == p,
    decreases s.len(),
{
    if s.len() > 0 {
        lemma_side_map_dom(s.drop_last(), p);
        if side_map(s).contains_key(p) {
            if p == s.last().0 {
                assert(s[s.len() - 1].0 == p);
            } else {
                let i = choose|i: int| 0 <= i < s.drop_last().len() && (#[trigger] s.drop_last()[
                    i]).0 == p;
                assert(s[i].0 == p);
            }
        }
        if exists|i: int| 0 <= i < s.len() && (#[trigger] s[i]).0 == p {
            let i = choose|i: int| 0 <= i < s.len() && (#[trigger] s[i]).0 == p;
            if i < s.len() - 1 {
                assert(s.drop_last()[i].0 == p);
            }
        }
    }
}

/// Inserting a fresh price at its ordered position is a map insert.
proof fn lemma_side_map_insert(s: Seq<(u64, u64)>, i: int, p: u64, v: u64)
    requires
        0 <= i <= s.len(),
        forall|j: int| 0 <= j < s.len() ==> (#[trigger] s[j]).0 != p,
    ensures
        side_map(s.insert(i, (p, v))) == side_map(s).insert(p, v),
    decreases s.len() - i,
{
    let t = s.insert(i, (p, v));
    if i == s.len() {
        assert(t.drop_last() =~= s);
        assert(t.last() == (p, v));
    } else {
        assert(t.drop_last() =~= s.drop_last().insert(i, (p, v)));
        assert(t.last() == s.last());
        lemma_side_map_insert(s.drop_last(), i, p, v);
        assert(s.drop_last().len() == s.len() - 1);
        assert(s[s.len() - 1].0 != p);
        assert(side_map(s.drop_last()).insert(p, v).insert(s.last().0, s.last().1) =~= side_map(
            s.drop_last(),
        ).insert(s.last().0, s.last().1).insert(p, v));
    }
}

/// Overwriting the level that carries a price is a map insert.
proof fn lemma_side_map_update(s: Seq<(u64, u64)>, i: int, v: u64)
    requires
        sorted_strict(s),
        0 <= i < s.len(),
    ensures
        side_map(s.update(i, (s[i].0, v))) == side_map(s).insert(s[i].0, v),
    decreases s.len(),
{
    let p = s[i].0;
    let t = s.update(i, (p, v));
    if i == s.len() - 1 {
        assert(t.drop_last() =~= s.drop_last());
        assert(side_map(t) =~= side_map(s).insert(p, v));
    } else {
        assert(t.drop_last() =~= s.drop_last().update(i, (p, v)));
        assert(t.last() == s.last());
        assert(sorted_strict(s.drop_last()));
        lemma_side_map_update(s.drop_last(), i, v);
        assert(s.drop_last()[i].0 == p);
        assert(p != s.last().0);
        assert(side_map(s.drop_last()).insert(p, v).insert(s.last().0, s.last().1) =~= side_map(
            s.drop_last(),
        ).insert(s.last().0, s.last().1).insert(p, v));
    }
}

/// Removing the level that carries a price is a map remove.
proof fn lemma_side_map_remove(s: Seq<(u64, u64)>, i: int)
    requires
        sorted_strict(s),
        0 <= i < s.len(),
    ensures
        side_map(s.remove(i)) == side_map(s).remove(s[i].0),
    decreases s.len(),
{
    let p = s[i].0;
    let t = s.remove(i);
    if i == s.len() - 1 {
        assert(t =~= s.drop_last());
        lemma_side_map_dom(s.drop_last(), p);
        assert(forall|j: int| 0 <= j < s.drop_last().len() ==> (#[trigger] s.drop_last()[j]).0
            != p);
        assert(side_map(s.drop_last()) =~= side_map(s).remove(p));
    } else {
        assert(t.drop_last() =~= s.drop_last().remove(i));
        assert(t.last() == s.last());
        assert(sorted_strict(s.drop_last()));
        lemma_side_map_remove(s.drop_last(), i);
        assert(s.drop_last()[i].0 == p);
        assert(p != s.last().0);
        assert(side_map(s.drop_last()).remove(p).insert(s.last().0, s.last().1) =~= side_map(
            s.drop_last(),
        ).insert(s.last().0, s.last().1).remove(p));
    }
}

/// Insert or overwrite one price level, keeping the list sorted.
fn level_insert(levels: &mut Vec<(u64, u64)>, price: u64, size: u64)
    requires
        sorted_strict(old(levels)@),
    ensures
        sorted_strict(final(levels)@),
        side_map(final(levels)@) == side_map(old(levels)@).insert(price, size),
{
    let n = levels.len();
    let mut i: usize = 0;
    while i < n && levels[i].0 < price
        invariant
            i <= n,
            n == levels@.len(),
            sorted_strict(levels@),
            levels@ == old(levels)@,
            forall|j: int| 0 <= j < i ==> (#[trigger] levels@[j]).0 < price,
        decreases n - i,
    {
        i = i + 1;
    }
    if i < n && levels[i].0 == price {
        let ghost s = levels@;
        levels.set(i, (price, size));
        proof {
            assert(s[i as int].0 == price);
            lemma_side_map_update(s, i as int, size);
            assert(sorted_strict(levels@));
        }
    } else {
        let ghost s = levels@;
        levels.insert(i, (price, size));
        proof {
            assert(forall|j: int| i <= j < s.len() ==> (#[trigger] s[j]).0 > price);
            assert(forall|j: int| 0 <= j < s.len() ==> (#[trigger] s[j]).0 != price);
            lemma_side_map_insert(s, i as int, price, size);
            assert(sorted_strict(levels@)) by {
                assert(forall|a: int, b: int|
                    0 <= a < b < levels@.len() ==> (#[trigger] levels@[a]).0 < (
                    #[trigger] levels@[b]).0);
            }
        }
    }
}

/// Remove one price level if it is present.
fn level_remove(levels: &mut Vec<(u64, u64)>, price: u64)
    requires
        sorted_strict(old(levels)@),
    ensures
        sorted_strict(final(levels)@),
        side_map(final(levels)@) == side_map(old(levels)@).remove(price),
{
    let n = levels.len();
    let mut i: usize = 0;
    while i < n && levels[i].0 < price
        invariant
            i <= n,
            n == levels@.len(),
            sorted_strict(levels@),
            levels@ == old(levels)@,
            forall|j: int| 0 <= j < i ==> (#[trigger] levels@[j]).0 < price,
        decreases n - i,
    {
        i = i + 1;
    }
    if i < n && levels[i].0 == price {
        let ghost s = levels@;
        let _removed = levels.remove(i);
        proof {
            lemma_side_map_remove(s, i as int);
            assert(sorted_strict(levels@)) by {
                assert(forall|a: int, b: int|
                    0 <= a < b < levels@.len() ==> (#[trigger] levels@[a]).0 < (
                    #[trigger] levels@[b]).0);
            }
        }
    } else {
        proof {
            lemma_side_map_dom(levels@, price);
            assert(forall|j: int| 0 <= j < levels@.len() ==> (#[trigger] levels@[j]).0 != price);
            assert(!side_map(levels@).contains_key(price));
            assert(side_map(levels@).remove(price) =~= side_map(levels@));
        }
    }
}

/// Filtering a sorted level list keeps it sorted, and keeps only levels
/// of the input list.
proof fn lemma_filter_sorted(s: Seq<(u64, u64)>, pred: spec_fn((u64, u64)) -> bool)
    requires
        sorted_strict(s),
    ensures
        sorted_strict(s.filter(pred)),
        forall|i: int| 0 <= i < s.filter(pred).len() ==> s.contains(#[trigger] s.filter(pred)[i]),
    decreases s.len(),
{
    reveal(Seq::filter);
    if s.len() > 0 {
        let d = s.drop_last();
        assert(sorted_strict(d));
        lemma_filter_sorted(d, pred);
        let fd = d.filter(pred);
        let f = s.filter(pred);
        assert forall|i: int| 0 <= i < fd.len() implies s.contains(#[trigger] fd[i]) by {
            assert(d.contains(fd[i]));
            let j = choose|j: int| 0 <= j < d.len() && d[j] == fd[i];
            assert(s[j] == fd[i]);
        }
        if pred(s.last()) {
            assert(f == fd.push(s.last()));
            assert forall|a: int, b: int| 0 <= a < b < f.len() implies (#[trigger] f[a]).0 < (
            #[trigger] f[b]).0 by {
                if b == f.len() - 1 {
                    assert(d.contains(fd[a]));
                    let j = choose|j: int| 0 <= j < d.len() && d[j] == fd[a];
                    assert(s[j].0 < s.last().0);
                }
            }
            assert forall|i: int| 0 <= i < f.len() implies s.contains(#[trigger] f[i]) by {
                if i == f.len() - 1 {
                    assert(s[s.len() - 1] == f[i]);
                } else {
                    assert(s.contains(fd[i]));
                }
            }
        } else {
            assert(f == fd);
        }
    }
}

/// The best `n` bid levels: highest price first, padded with zero words.
pub open spec fn best_desc(s: Seq<(u64, u64)>, n: nat) -> Seq<(u64, u64)> {
    Seq::new(
        n,
        |j: int|
            if j < s.len() {
                s[s.len() - 1 - j]
            } else {
                (0u64, 0u64)
            },
    )
}

/// The best `n` ask levels: lowest price first, padded with zero words.
pub open spec fn best_asc(s: Seq<(u64, u64)>, n: nat) -> Seq<(u64, u64)> {
    Seq::new(
        n,
        |j: int|
            if j < s.len() {
                s[j]
            } else {
                (0u64, 0u64)
            },
    )
}

/// A timestamped best-of-book snapshot: the top levels of both sides as of
/// the end of a snapshot bucket.
pub struct OrderbookBest {
    /// The snapshot bucket boundary, in milliseconds.
    pub timestamp_ms: i64,
    /// Top bid levels, price descending, padded with zero words.
    pub bids: Vec<(u64, u64)>,
    /// Top ask levels, price ascending, padded with zero words.
    pub asks: Vec<(u64, u64)>,
}

/// How many levels a periodic snapshot keeps per side.
pub const SNAPSHOT_DEPTH: usize = 5;

/// The two-sided book: sorted price levels per side, the last server time
/// seen, and the snapshot bucket width.
pub struct OrderbookRepository {
    /// Bid levels, price ascending (best bid last).
    pub bids: Vec<(u64, u64)>,
    /// Ask levels, price ascending (best ask first).
    pub asks: Vec<(u64, u64)>,
    /// The server time of the last update handed to `snapshot_on_update`.
    pub prev_time_ms: i64,
    /// Snapshot bucket width in milliseconds.
    pub timeframe_ms: i64,
}

impl OrderbookRepository {
    pub open spec fn well_formed(self) -> bool {
        &&& sorted_strict(self.bids@)
        &&& sorted_strict(self.asks@)
        &&& 1 <= self.timeframe_ms
        &&& 0 <= self.prev_time_ms
    }

    /// An empty book. `now_ms` seeds the previous server time, as the
    /// moment the repository was brought up.
    pub fn new(timeframe_ms: i64, now_ms: i64) -> (r: Self)
        requires
            1 <= timeframe_ms,
            0 <= now_ms,
        ensures
            r.well_formed(),
            r.timeframe_ms == timeframe_ms,
            r.prev_time_ms == now_ms,
            r.bids@ == Seq::<(u64, u64)>::empty(),
            r.asks@ == Seq::<(u64, u64)>::empty(),
    {
        Self { bids: Vec::new(), asks: Vec::new(), prev_time_ms: now_ms, timeframe_ms }
    }

    /// A book started from a supplied snapshot.
    pub fn new_with_state(timeframe_ms: i64, now_ms: i64, bids: Vec<(u64, u64)>, asks: Vec<
        (u64, u64),
    >) -> (r: Self)
        requires
            1 <= timeframe_ms,
            0 <= now_ms,
            sorted_strict(bids@),
            sorted_strict(asks@),
        ensures
            r.well_formed(),
            r.timeframe_ms == timeframe_ms,
            r.prev_time_ms == now_ms,
            r.bids@ == bids@,
            r.asks@ == asks@,
    {
        Self { bids, asks, prev_time_ms: now_ms, timeframe_ms }
    }

    /// Wholesale snapshot swap, used after a fresh snapshot fetch to
    /// correct accumulated diff drift.
    pub fn replace_state(&mut self, bids: Vec<(u64, u64)>, asks: Vec<(u64, u64)>)
        requires
            old(self).well_formed(),
            sorted_strict(bids@),
            sorted_strict(asks@),
        ensures
            final(self).well_formed(),
            final(self).bids@ == bids@,
            final(self).asks@ == asks@,
            final(self).prev_time_ms == old(self).prev_time_ms,
            final(self).timeframe_ms == old(self).timeframe_ms,
    {
        self.bids = bids;
        self.asks = asks;
    }

    /// Upsert one price level of one side (a diff with a nonzero size).
    /// Callers translate a zero-size diff into `remove`, never an insert.
    pub fn insert(&mut self, side: crate::order_types::Side, price: u64, size: u64)
        requires
            old(self).well_formed(),
        ensures
            final(self).well_formed(),
            final(self).prev_time_ms == old(self).prev_time_ms,
            final(self).timeframe_ms == old(self).timeframe_ms,
            side == crate::order_types::Side::Buy ==> side_map(final(self).bids@) == side_map(
                old(self).bids@,
            ).insert(price, size) && final(self).asks@ == old(self).asks@,
            side == crate::order_types::Side::Sell ==> side_map(final(self).asks@) == side_map(
                old(self).asks@,
            ).insert(price, size) && final(self).bids@ == old(self).bids@,
    {
        match side {
            crate::order_types::Side::Buy => level_insert(&mut self.bids, price, size),
            crate::order_types::Side::Sell => level_insert(&mut self.asks, price, size),
        }
    }

    /// Drop one price level of one side (a diff with size zero).
    pub fn remove(&mut self, side: crate::order_types::Side, price: u64)
        requires
            old(self).well_formed(),
        ensures
            final(self).well_formed(),
            final(self).prev_time_ms == old(self).prev_time_ms,
            final(self).timeframe_ms == old(self).timeframe_ms,
            side == crate::order_types::Side::Buy ==> side_map(final(self).bids@) == side_map(
                old(self).bids@,
            ).remove(price) && final(self).asks@ == old(self).asks@,
            side == crate::order_types::Side::Sell ==> side_map(final(self).asks@) == side_map(
                old(self).asks@,
            ).remove(price) && final(self).bids@ == old(self).bids@,
    {
        match side {
            crate::order_types::Side::Buy => level_remove(&mut self.bids, price),
            crate::order_types::Side::Sell => level_remove(&mut self.asks, price),
        }
    }

    /// Best-effort consistency repair against a known mid price: every bid
    /// above the mid and every ask at or below it is dropped; the count of
    /// dropped levels is returned.
    pub fn arrange(&mut self, mid_price: u64) -> (r: usize)
        requires
            old(self).well_formed(),
            old(self).bids@.len() + old(self).asks@.len() <= usize::MAX,
        ensures
            final(self).well_formed(),
            final(self).prev_time_ms == old(self).prev_time_ms,
            final(self).timeframe_ms == old(self).timeframe_ms,
            final(self).bids@ == old(self).bids@.filter(le_price(mid_price)),
            final(self).asks@ == old(self).asks@.filter(gt_price(mid_price)),
            r == old(self).bids@.len() + old(self).asks@.len() - final(self).bids@.len() - final(
                self).asks@.len(),
    {
        proof {
            old(self).bids@.lemma_filter_len(le_price(mid_price));
            old(self).asks@.lemma_filter_len(gt_price(mid_price));
            lemma_filter_sorted(old(self).bids@, le_price(mid_price));
            lemma_filter_sorted(old(self).asks@, gt_price(mid_price));
        }
        let b0 = self.bids.len();
        let a0 = self.asks.len();
        let new_bids = filter_levels_le(&self.bids, mid_price);
        let new_asks = filter_levels_gt(&self.asks, mid_price);
        let b1 = new_bids.len();
        let a1 = new_asks.len();
        self.bids = new_bids;
        self.asks = new_asks;
        (b0 - b1) + (a0 - a1)
    }

    /// The top `n` levels per side: bids price-descending, asks ascending,
    /// padded with zero-word levels past the available depth.
    pub fn get_best(&self, n: usize) -> (r: (Vec<(u64, u64)>, Vec<(u64, u64)>))
        requires
            self.well_formed(),
        ensures
            r.0@ == best_desc(self.bids@, n as nat),
            r.1@ == best_asc(self.asks@, n as nat),
    {
        let mut bids: Vec<(u64, u64)> = Vec::new();
        let mut j: usize = 0;
        let blen = self.bids.len();
        while j < n
            invariant
                j <= n,
                blen == self.bids@.len(),
                bids@ =~= best_desc(self.bids@, j as nat),
            decreases n - j,
        {
            if j < blen {
                bids.push(self.bids[blen - 1 - j]);
            } else {
                bids.push((0, 0));
            }
            proof {
                assert(bids@ =~= best_desc(self.bids@, (j + 1) as nat));
            }
            j = j + 1;
        }
        let mut asks: Vec<(u64, u64)> = Vec::new();
        let mut k: usize = 0;
        let alen = self.asks.len();
        while k < n
            invariant
                k <= n,
                alen == self.asks@.len(),
                asks@ =~= best_asc(self.asks@, k as nat),
            decreases n - k,
        {
            if k < alen {
                asks.push(self.asks[k]);
            } else {
                asks.push((0, 0));
            }
            proof {
                assert(asks@ =~= best_asc(self.asks@, (k + 1) as nat));
            }
            k = k + 1;
        }
        proof {
            assert(bids@ =~= best_desc(self.bids@, n as nat));
            assert(asks@ =~= best_asc(self.asks@, n as nat));
        }
        (bids, asks)
    }

    /// Record a new server time; if it crossed into a new snapshot bucket
    /// relative to the previous one, capture the current best levels,
    /// stamped with the bucket boundary, before any of the update's diffs
    /// are applied. Called before applying the diffs of `server_time_ms`,
    /// so every returned snapshot reflects the state as of the end of the
    /// previous bucket.
    pub fn snapshot_on_update(&mut self, server_time_ms: i64) -> (r: Option<OrderbookBest>)
        requires
            old(self).well_formed(),
            0 <= server_time_ms,
        ensures
            final(self).well_formed(),
            final(self).bids@ == old(self).bids@,
            final(self).asks@ == old(self).asks@,
            final(self).timeframe_ms == old(self).timeframe_ms,
            final(self).prev_time_ms == server_time_ms,
            ({
                let tf = old(self).timeframe_ms as int;
                let prev_bucket = floor_ms(old(self).prev_time_ms as int, tf);
                let new_bucket = floor_ms(server_time_ms as int, tf);
                match r {
                    Some(snap) => {
                        &&& prev_bucket != new_bucket
                        &&& snap.timestamp_ms == new_bucket
                        &&& snap.bids@ == best_desc(old(self).bids@, SNAPSHOT_DEPTH as nat)
                        &&& snap.asks@ == best_asc(old(self).asks@, SNAPSHOT_DEPTH as nat)
                    },
                    None => prev_bucket == new_bucket,
                }
            }),
    {
        let ghost tf = self.timeframe_ms as int;
        let tf_u: u64 = self.timeframe_ms as u64;
        proof {
            lemma_floor_fits(self.prev_time_ms as int, tf);
            lemma_floor_fits(server_time_ms as int, tf);
        }
        let prev_bucket_u: u64 = ((self.prev_time_ms as u64) / tf_u) * tf_u;
        let new_bucket_u: u64 = ((server_time_ms as u64) / tf_u) * tf_u;
        let r = if prev_bucket_u != new_bucket_u {
            let (bids, asks) = self.get_best(SNAPSHOT_DEPTH);
            Some(OrderbookBest { timestamp_ms: new_bucket_u as i64, bids, asks })
        } else {
            None
        };
        self.prev_time_ms = server_time_ms;
        r
    }
}

/// `e.0 <= mid`, the levels a bid side keeps under `arrange`.
pub open spec fn le_price(mid: u64) -> spec_fn((u64, u64)) -> bool {
    |e: (u64, u64)| e.0 <= mid
}

/// `e.0 > mid`, the levels an ask side keeps under `arrange`.
pub open spec fn gt_price(mid: u64) -> spec_fn((u64, u64)) -> bool {
    |e: (u64, u64)| e.0 > mid
}

/// The bucket of a non-negative time fits the machine word and is exact.
proof fn lemma_floor_fits(ts: int, tf: int)
    requires
        0 <= ts <= u64::MAX,
        1 <= tf <= u64::MAX,
    ensures
        0 <= floor_ms(ts, tf) <= ts,
        floor_ms(ts, tf) == (ts / tf) * tf,
{
    vstd::arithmetic::div_mod::lemma_fundamental_div_mod(ts, tf);
    vstd::arithmetic::div_mod::lemma_mod_division_less_than_divisor(ts, tf);
    vstd::arithmetic::div_mod::lemma_div_pos_is_pos(ts, tf);
    vstd::arithmetic::mul::lemma_mul_is_commutative(ts / tf, tf);
    vstd::arithmetic::mul::lemma_mul_nonnegative(ts / tf, tf);
}

/// The levels at or below the mid, in order.
fn filter_levels_le(levels: &Vec<(u64, u64)>, mid: u64) -> (r: Vec<(u64, u64)>)
    ensures
        r@ == levels@.filter(le_price(mid)),
{
    let mut out: Vec<(u64, u64)> = Vec::new();
    let mut i: usize = 0;
    let n = levels.len();
    proof {
        reveal(Seq::filter);
        assert(levels@.take(0).filter(le_price(mid)) =~= Seq::<(u64, u64)>::empty());
    }
    while i < n
        invariant
            i <= n,
            n == levels@.len(),
            out@ == levels@.take(i as int).filter(le_price(mid)),
        decreases n - i,
    {
        let e = levels[i];
        proof {
            reveal(Seq::filter);
            assert(levels@.take(i + 1).drop_last() =~= levels@.take(i as int));
            assert(levels@.take(i + 1).last() == levels@[i as int]);
            assert(le_price(mid)(levels@[i as int]) == (e.0 <= mid));
            assert(levels@.take(i + 1).filter(le_price(mid)) == (if le_price(mid)(levels@[i as int]) {
                levels@.take(i as int).filter(le_price(mid)).push(levels@[i as int])
            } else {
                levels@.take(i as int).filter(le_price(mid))
            }));
        }
        if e.0 <= mid {
            out.push(e);
        }
        i = i + 1;
    }
    proof {
        assert(levels@.take(n as int) =~= levels@);
    }
    out
}

/// The levels strictly above the mid, in order.
fn filter_levels_gt(levels: &Vec<(u64, u64)>, mid: u64) -> (r: Vec<(u64, u64)>)
    ensures
        r@ == levels@.filter(gt_price(mid)),
{
    let mut out: Vec<(u64, u64)> = Vec::new();
    let mut i: usize = 0;
    let n = levels.len();
    proof {
        reveal(Seq::filter);
        assert(levels@.take(0).filter(gt_price(mid)) =~= Seq::<(u64, u64)>::empty());
    }
    while i < n
        invariant
            i <= n,
            n == levels@.len(),
            out@ == levels@.take(i as int).filter(gt_price(mid)),
        decreases n - i,
    {
        let e = levels[i];
        proof {
            reveal(Seq::filter);
            assert(levels@.take(i + 1).drop_last() =~= levels@.take(i as int));
            assert(levels@.take(i + 1).last() == levels@[i as int]);
            assert(gt_price(mid)(levels@[i as int]) == (e.0 > mid));
            assert(levels@.take(i + 1).filter(gt_price(mid)) == (if gt_price(mid)(levels@[i as int]) {
                levels@.take(i as int).filter(gt_price(mid)).push(levels@[i as int])
            } else {
                levels@.take(i as int).filter(gt_price(mid))
            }));
        }
        if e.0 > mid {
            out.push(e);
        }
        i = i + 1;
    }
    proof {
        assert(levels@.take(n as int) =~= levels@);
    }
    out
}

/// One diff batch folded into a side: a zero size removes the level, any
/// other size upserts it.
pub open spec fn apply_diffs(m: Map<u64, u64>, diff: Seq<(u64, u64)>) -> Map<u64, u64>
    decreases diff.len(),
{
    if diff.len() == 0 {
        m
    } else {
        let next = if diff[0].1 == 0 {
            m.remove(diff[0].0)
        } else {
            m.insert(diff[0].0, diff[0].1)
        };
        apply_diffs(next, diff.skip(1))
    }
}

/// Apply a buffered diff batch, in order, to a side snapshot: the
/// reconnect path that replays what arrived while a fresh snapshot was
/// fetched.
pub fn apply_diff_once(snapshot: Vec<(u64, u64)>, diff: &Vec<(u64, u64)>) -> (r: Vec<(u64, u64)>)
    requires
        sorted_strict(snapshot@),
    ensures
        sorted_strict(r@),
        side_map(r@) == apply_diffs(side_map(snapshot@), diff@),
{
    let mut side = snapshot;
    let mut i: usize = 0;
    let n = diff.len();
    proof {
        assert(diff@.skip(0) =~= diff@);
    }
    while i < n
        invariant
            i <= n,
            n == diff@.len(),
            sorted_strict(side@),
            apply_diffs(side_map(side@), diff@.skip(i as int)) == apply_diffs(
                side_map(snapshot@),
                diff@,
            ),
        decreases n - i,
    {
        let (price, size) = diff[i];
        proof {
            assert(diff@.skip(i as int)[0] == diff@[i as int]);
            assert(diff@.skip(i as int).skip(1) =~= diff@.skip(i + 1));
        }
        if size == 0 {
            level_remove(&mut side, price);
        } else {
            level_insert(&mut side, price, size);
        }
        i = i + 1;
    }
    proof {
        assert(diff@.skip(n as int) =~= Seq::<(u64, u64)>::empty());
    }
    side
}

} // verus!
